use deorbit::derive::{
    check_shape, dependency_fields, field_kind, postfix_arg, DeriveError, DiKey, FieldBindingKind,
    FieldWrap, MacroArg, StructShape,
};
use deorbit::order::topological_order;
use deorbit::{
    resolve_order, Binding, BindingKind, BindingLifetime, ErasedArc, Error, FromDi, OneOrMany,
    Resolved, ResolvedMany, ServicesBuilder, Services, TypeMeta,
};
use std::any::Any;
use std::sync::Arc;

fn type_binding(ty: TypeMeta, deps: Vec<TypeMeta>) -> Binding {
    Binding {
        ty,
        kind: BindingKind::Type {
            bind_self: true,
            lifetime: BindingLifetime::singleton_from(0u8),
            deps,
        },
    }
}

struct Failing {}

impl FromDi for Failing {
    fn depends_on() -> Vec<TypeMeta> {
        vec![]
    }

    fn produce(_services: &Services) -> Result<Self, Error> {
        Err(Error::missing::<u8>())
    }
}

#[derive(Default)]
struct Counter {
    value: i32,
}

impl FromDi for Counter {
    fn depends_on() -> Vec<TypeMeta> {
        vec![TypeMeta::of::<i32>()]
    }

    fn produce(services: &Services) -> Result<Self, Error> {
        let v: Resolved<i32> = services.resolve().ok_or(Error::missing::<i32>())?;
        Ok(Counter { value: *v + 1 })
    }
}

#[test]
fn orders_dependencies_first() {
    let adj = vec![vec![1], vec![]];
    assert_eq!(topological_order(&adj), Ok(vec![1, 0]));
}

#[test]
fn finds_cycle_walk() {
    let adj = vec![vec![1], vec![0]];
    assert_eq!(topological_order(&adj), Err(vec![0, 1, 0]));
}

#[test]
fn resolve_order_places_needs_first() {
    let a = TypeMeta::of_name::<u8>("A");
    let b = TypeMeta::of_name::<u16>("B");
    let out = resolve_order(vec![type_binding(a, vec![b]), type_binding(b, vec![])]).unwrap();
    assert_eq!(out.len(), 2);
    assert_eq!(out[0].ty, b);
    assert_eq!(out[1].ty, a);
}

#[test]
fn circular_message_names_the_path() {
    let a = TypeMeta::of_name::<u8>("A");
    let b = TypeMeta::of_name::<u16>("B");
    let err = resolve_order(vec![type_binding(a, vec![b]), type_binding(b, vec![a])]).err().unwrap();
    assert!(matches!(err, Error::Circular { .. }));
    assert_eq!(
        err.message(),
        "Failed to resolve the graph due to a circular dependency (A -> B -> A)"
    );
}

#[test]
fn missing_message_names_the_type() {
    let a = TypeMeta::of_name::<u8>("A");
    let c = TypeMeta::of_name::<u32>("C");
    let err = resolve_order(vec![type_binding(a, vec![c])]).err().unwrap();
    assert!(matches!(err, Error::Missing { type_meta } if type_meta == c));
    assert_eq!(
        err.message(),
        "Failed to resolve the graph due to a missing service of type C"
    );
}

#[test]
fn duplicated_message_names_the_type() {
    let a = TypeMeta::of_name::<u8>("A");
    let err = resolve_order(vec![type_binding(a, vec![]), type_binding(a, vec![])]).err().unwrap();
    assert!(matches!(err, Error::Duplicated { type_meta } if type_meta == a));
    assert_eq!(
        err.message(),
        "Failed to resolve the graph due to a duplicated binding of type A"
    );
}

#[test]
fn type_meta_compares_types_only() {
    assert_eq!(TypeMeta::of::<i32>(), TypeMeta::of_name::<i32>("int"));
    assert_ne!(TypeMeta::of::<i32>(), TypeMeta::of::<i64>());
    assert!(TypeMeta::of::<i32>().same(&TypeMeta::of::<i32>()));
    assert!(!TypeMeta::of::<i32>().same(&TypeMeta::of::<u32>()));
    assert_eq!(TypeMeta::of_name::<i32>("int").label(), Some("int"));
    assert_eq!(TypeMeta::of::<i32>().label(), None);
    assert_eq!(TypeMeta::of_name::<i32>("int").name(), "int");
    assert!(!TypeMeta::of::<i32>().name().is_empty());
}

#[test]
fn one_or_many_keeps_order() {
    assert!(OneOrMany::<i32>::from_vec(vec![]).is_none());
    let one = OneOrMany::from_vec(vec![7]).unwrap();
    assert!(matches!(one, OneOrMany::One(7)));
    assert_eq!(one.len(), 1);
    let many = OneOrMany::from_vec(vec![1, 2, 3]).unwrap();
    assert_eq!(many.len(), 3);
    assert_eq!(*many.get(1), 2);
    assert_eq!(many.to_last_or_one(), 3);
    assert_eq!(OneOrMany::from_vec(vec![1, 2, 3]).unwrap().to_first_or_one(), 1);
    assert_eq!(OneOrMany::from_val(5).to_last_or_one(), 5);
}

#[test]
fn unexposed_type_is_absent_and_alias_present() {
    let mut builder = ServicesBuilder::new();
    builder.bind::<i64>().not_self().singleton().from(4);
    builder.bind::<i32>().singleton().from(3);
    builder.bind_alias::<dyn Any>().to::<i64>(|x| x).done();
    let services = builder.build().unwrap();
    assert!(services.resolve::<i64>().is_none());
    assert_eq!(*services.resolve::<i32>().unwrap(), 3);
    let all = services.resolve_all::<dyn Any>().unwrap().collect_all().unwrap();
    assert_eq!(all.len(), 1);
    assert_eq!(*all[0].downcast_ref::<i64>().unwrap(), 4);
}

#[test]
fn concrete_resolve_all_has_one_instance() {
    let mut builder = ServicesBuilder::new();
    builder.bind::<i32>().singleton().from(9);
    let services = builder.build().unwrap();
    let all = services.resolve_all::<i32>().unwrap().collect_all().unwrap();
    assert_eq!(all.len(), 1);
    assert_eq!(Arc::as_ptr(&all[0]), Arc::as_ptr(&services.resolve::<i32>().unwrap()));
    assert!(services.resolve::<u64>().is_none());
    assert!(services.resolve_all::<u64>().is_none());
}

#[test]
fn aliases_of_one_type_are_merged_in_order() {
    let mut builder = ServicesBuilder::new();
    builder.bind::<i32>().singleton().from(1);
    builder.bind::<i64>().singleton().from(2);
    builder.bind_alias::<dyn Any>().to::<i32>(|x| x).done();
    builder.bind_alias::<dyn Any>().to::<i64>(|x| x).to::<i32>(|x| x).done();
    let services = builder.build().unwrap();
    let all = services.resolve_all::<dyn Any>().unwrap().collect_all().unwrap();
    assert_eq!(all.len(), 2);
    assert_eq!(*all[0].downcast_ref::<i32>().unwrap(), 1);
    assert_eq!(*all[1].downcast_ref::<i64>().unwrap(), 2);
}

#[test]
fn factories_see_their_dependencies() {
    let mut builder = ServicesBuilder::new();
    builder.bind::<i32>().singleton().from(41);
    builder.bind::<Counter>().transient().from_di();
    builder.bind::<u64>().singleton().from_fn(|x: Resolved<i32>| *x as u64 * 2);
    builder.bind::<String>().transient().from_default();
    builder.bind::<u8>().singleton().from_default();
    let services = builder.build().unwrap();
    assert_eq!(services.resolve::<Counter>().unwrap().value, 42);
    assert_eq!(*services.resolve::<u64>().unwrap(), 82);
    assert_eq!(*services.resolve::<String>().unwrap(), "");
    assert_eq!(*services.resolve::<u8>().unwrap(), 0);
}

#[test]
fn direct_builder_methods_bind() {
    let mut builder = ServicesBuilder::default();
    builder.bind_singleton_from(5i32);
    builder.bind_transient::<Counter>();
    builder.bind_transient_from(|x: Resolved<i32>| *x as i64);
    builder.bind_transient_from_default::<u16>();
    let services = builder.build().unwrap();
    assert_eq!(services.resolve::<Counter>().unwrap().value, 6);
    assert_eq!(*services.resolve::<i64>().unwrap(), 5);
    assert_eq!(*services.resolve::<u16>().unwrap(), 0);
}

#[test]
fn failing_singleton_factory_fails_the_build() {
    let mut builder = ServicesBuilder::new();
    builder.bind::<Failing>().singleton().from_di();
    let res = builder.build();
    assert!(matches!(res, Err(Error::Missing { type_meta }) if type_meta == TypeMeta::of::<u8>()));
}

#[test]
fn shared_instances_resolve_through_from_di() {
    let mut builder = ServicesBuilder::new();
    builder.bind::<i32>().singleton().from(8);
    let services = builder.build().unwrap();
    let one = <Resolved<i32> as FromDi>::produce(&services).unwrap();
    assert_eq!(*one, 8);
    let many = <ResolvedMany<i32> as FromDi>::produce(&services).unwrap();
    assert_eq!(many.len(), 1);
    assert!(matches!(<Resolved<u8> as FromDi>::produce(&services), Err(Error::Missing { .. })));
}

#[test]
fn erased_instances_keep_their_type() {
    let arc = ErasedArc::from_instance(3i32);
    assert_eq!(arc.ty(), TypeMeta::of::<i32>());
    let copy = arc.share();
    let a = arc.coerce::<i32>().unwrap();
    let b = copy.coerce::<i32>().unwrap();
    assert_eq!(Arc::as_ptr(&a), Arc::as_ptr(&b));
    assert!(arc.coerce::<i64>().is_none());
}

#[test]
fn field_kinds_follow_the_first_key() {
    assert_eq!(field_kind(&vec![]), Ok(FieldBindingKind::ResolveOne));
    assert_eq!(field_kind(&vec![DiKey::Other]), Ok(FieldBindingKind::ResolveOne));
    assert_eq!(field_kind(&vec![DiKey::Many]), Ok(FieldBindingKind::ResolveMany));
    assert_eq!(field_kind(&vec![DiKey::Other, DiKey::Default]), Ok(FieldBindingKind::Default));
    assert_eq!(field_kind(&vec![DiKey::Clone]), Ok(FieldBindingKind::Clone));
    assert_eq!(
        field_kind(&vec![DiKey::Init { assigned: true, parsed: true }]),
        Ok(FieldBindingKind::Init)
    );
    assert_eq!(field_kind(&vec![DiKey::One, DiKey::Other]), Err(DeriveError::SeveralKinds));
    assert_eq!(
        field_kind(&vec![DiKey::Init { assigned: false, parsed: false }, DiKey::One]),
        Err(DeriveError::InitNotAssigned)
    );
    assert_eq!(
        field_kind(&vec![DiKey::Other, DiKey::Init { assigned: true, parsed: false }]),
        Err(DeriveError::InitUnparsed { key: 1 })
    );
    assert_eq!(FieldBindingKind::default(), FieldBindingKind::ResolveOne);
}

#[test]
fn dependencies_are_the_resolved_fields() {
    let kinds = vec![
        FieldBindingKind::ResolveOne,
        FieldBindingKind::Default,
        FieldBindingKind::Clone,
        FieldBindingKind::Init,
        FieldBindingKind::ResolveMany,
    ];
    assert_eq!(dependency_fields(&kinds), vec![0, 2, 4]);
    assert!(FieldBindingKind::Clone.is_resolved());
    assert!(!FieldBindingKind::Init.is_resolved());
    assert_eq!(FieldBindingKind::ResolveOne.wrap(), FieldWrap::Resolved);
    assert_eq!(FieldBindingKind::ResolveMany.wrap(), FieldWrap::ResolvedMany);
    assert_eq!(FieldBindingKind::Clone.wrap(), FieldWrap::Unchanged);
}

#[test]
fn postfix_argument_is_the_last_one() {
    assert_eq!(postfix_arg(&vec![]), Ok(None));
    assert_eq!(
        postfix_arg(&vec![
            MacroArg::Postfix { callable: true },
            MacroArg::Bare,
            MacroArg::Postfix { callable: true }
        ]),
        Ok(Some(2))
    );
    assert_eq!(
        postfix_arg(&vec![MacroArg::Bare, MacroArg::Other, MacroArg::Postfix { callable: false }]),
        Err(DeriveError::UnknownKey { arg: 1 })
    );
    assert_eq!(
        postfix_arg(&vec![MacroArg::Postfix { callable: false }]),
        Err(DeriveError::PostfixNotCallable { arg: 0 })
    );
}

#[test]
fn only_named_structs_derive() {
    assert_eq!(check_shape(StructShape::Named), Ok(()));
    assert_eq!(check_shape(StructShape::Unnamed), Err(DeriveError::TupleStruct));
    assert_eq!(check_shape(StructShape::Unit), Err(DeriveError::UnitStruct));
    assert_eq!(DeriveError::TupleStruct.message(), Some("Tuple structs are not supported"));
    assert_eq!(DeriveError::UnitStruct.message(), Some("Unit structs are not supported"));
    assert_eq!(
        DeriveError::SeveralKinds.message(),
        Some("#[di()] can only define a single resolution kind")
    );
    assert_eq!(DeriveError::InitUnparsed { key: 0 }.message(), None);
    assert_eq!(DeriveError::UnknownKey { arg: 0 }.message(), Some("Unknown attribute key"));
}

#[test]
fn buildability_is_checked() {
    let mut builder = ServicesBuilder::new();
    builder.bind::<i32>().singleton().from(1);
    builder.bind_alias::<dyn Any>().to::<i32>(|x| x).done();
    assert!(builder.is_buildable());

    let mut empty_alias = ServicesBuilder::new();
    empty_alias.bind_alias::<dyn Any>().done();
    assert!(!empty_alias.is_buildable());

    let mut two_aliases = ServicesBuilder::new();
    two_aliases.bind::<i32>().singleton().from(1);
    two_aliases.bind_alias::<dyn Any>().to::<i32>(|x| x).done();
    two_aliases
        .bind_alias::<dyn std::fmt::Debug>()
        .to::<i32>(|x| x)
        .done();
    assert!(two_aliases.is_buildable());
}

#[test]
fn unlabeled_messages_keep_their_shape() {
    let err = Error::missing::<u8>();
    assert!(err
        .message()
        .starts_with("Failed to resolve the graph due to a missing service of type "));
}

#[test]
fn all_instances_are_taken_from_both_ends() {
    let mut builder = ServicesBuilder::new();
    builder.bind::<i32>().singleton().from(1);
    builder.bind::<i64>().singleton().from(2);
    builder.bind::<u8>().singleton().from(3);
    builder
        .bind_alias::<dyn Any>()
        .to::<i32>(|x| x)
        .to::<i64>(|x| x)
        .to::<u8>(|x| x)
        .done();
    let services = builder.build().unwrap();
    let mut all = services.resolve_all::<dyn Any>().unwrap();
    assert_eq!(all.len(), 3);
    assert_eq!(*all.next().unwrap().downcast_ref::<i32>().unwrap(), 1);
    assert_eq!(*all.next_back().unwrap().downcast_ref::<u8>().unwrap(), 3);
    assert_eq!(all.len(), 1);
    assert_eq!(*all.next().unwrap().downcast_ref::<i64>().unwrap(), 2);
    assert!(all.next().is_none());
    assert!(all.next_back().is_none());
}

#[test]
fn transient_instances_are_made_when_taken() {
    let mut builder = ServicesBuilder::new();
    builder.bind::<i32>().transient().from_fn(|| 5);
    builder.bind_alias::<dyn Any>().to::<i32>(|x| x).done();
    let services = builder.build().unwrap();
    let mut all = services.resolve_all::<dyn Any>().unwrap();
    let a = all.next_back().unwrap();
    let b = services.resolve::<dyn Any>().unwrap();
    assert_ne!(Arc::as_ptr(&a), Arc::as_ptr(&b));
    assert_eq!(*a.downcast_ref::<i32>().unwrap(), 5);
}

#[test]
fn lifetime_factories_make_the_bound_type() {
    let services = ServicesBuilder::new().build().unwrap();
    match BindingLifetime::transient_from_default::<u16>() {
        BindingLifetime::Transient(f) => {
            let made = f.produce(&services).unwrap();
            assert_eq!(made.ty(), TypeMeta::of::<u16>());
            assert_eq!(*made.coerce::<u16>().unwrap(), 0);
        }
        BindingLifetime::Singleton(_) => panic!("expected a transient"),
    }
    match BindingLifetime::transient_from_fn(|| 7i64) {
        BindingLifetime::Transient(f) => {
            let made = f.produce(&services).unwrap();
            assert_eq!(*made.coerce::<i64>().unwrap(), 7);
        }
        BindingLifetime::Singleton(_) => panic!("expected a transient"),
    }
}
