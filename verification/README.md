# deorbit

A dependency injection container. Services are bound to a `ServicesBuilder`
as concrete types (a given instance, a factory run once, or a factory run on
every resolution) or as aliases (a trait that several types implement), then
built into `Services`, from which instances are resolved by type.

The library is written in Verus; its contracts are proved.

- `src/graph.rs`, `src/order.rs`: merging the aliases of a type, and
  ordering the bindings by their needs (duplicated, missing and circular
  bindings are refused).
- `src/assembly.rs`: building the services from the ordered bindings.
- `src/services.rs`: the built services and resolution.
- `src/builder.rs`, `src/binding.rs`, `src/factory.rs`, `src/from_di.rs`:
  the builder API and what it records.
- `src/erased.rs`, `src/unsize.rs`, `src/meta.rs`: type-erased instances,
  turning a concrete instance into a trait object, and type identity.
- `src/derive.rs`: the decisions of the `FromDi` derive.
- `app/`: the derive's code generation with `syn` and `quote`.
