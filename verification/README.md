# proxy_state

The state a mesh proxy keeps about workloads, services and authorization
policies, and the decisions it takes on that state: what an address or a name
stands for, which endpoint of a service a connection goes to, whether a
connection is let in. The library is written in Verus; its contracts are proved.

## Layout

- `src/state.rs`: the state, lookups in it, and resolving a service to one of its
  workloads.
- `src/picker.rs`: ranking endpoints by the routing preferences of a service, and
  picking one.
- `src/multicluster.rs`: resolving a service that has waypoints in some clusters.
- `src/resolve.rs`, `src/upstream.rs`: upstreams, gateways and waypoints.
- `src/demand.rs`: authorization, choosing an address, and lookups that may ask
  the control plane.
- `src/export.rs`: the state in the order in which it is shown.
- `src/workload.rs`, `src/service.rs`, `src/policy.rs`, `src/rbac.rs`,
  `src/identity.rs`, `src/address.rs`, `src/error.rs`: the data, and the stores.
- `src/random.rs`, `src/order.rs`: the calls into `rand` and `itertools`, with
  what is relied on of them.
- `src/search.rs`, `src/text.rs`: helpers.
- `app/`: the state behind a lock, with the control plane, DNS and serialization.

## How it is used

Nothing waits inside the library. Where something has to be asked for, a function
returns a step that says what (`Fetch::Demand`, `Resolution::Demand`,
`Resolution::Resolve`, `ServiceSearch::next_gateway`, `Wait::Continue`), and the
next call takes the answer. `app/demand.rs` drives these steps.

A random choice cannot be predicted, so the contracts of functions that make one
state what may come out of them (`may_pick`, `may_find`, `may_resolve`). What
follows a choice is stated exactly, by functions that take what was chosen.
