use deorbit::{Error, FromDi, Service, ServicesBuilder, Services, TypeMeta};
use std::any::Any;
use std::sync::Arc;

struct Foo {
    a: Service<i32>,
}

struct Bar {
    a: Service<Foo>,
}

impl FromDi for Foo {
    fn depends_on() -> Vec<TypeMeta> {
        vec![TypeMeta::of::<i32>()]
    }

    fn produce(services: &Services) -> Result<Self, Error> {
        Ok(Foo { a: services.resolve().ok_or(Error::missing::<i32>())? })
    }
}

impl FromDi for Bar {
    fn depends_on() -> Vec<TypeMeta> {
        vec![TypeMeta::of::<Foo>()]
    }

    fn produce(services: &Services) -> Result<Self, Error> {
        Ok(Bar { a: services.resolve().ok_or(Error::missing::<Foo>())? })
    }
}

struct NeedsI64 {
    a: Service<i64>,
}

impl FromDi for NeedsI64 {
    fn depends_on() -> Vec<TypeMeta> {
        vec![TypeMeta::of::<i64>()]
    }

    fn produce(services: &Services) -> Result<Self, Error> {
        Ok(NeedsI64 { a: services.resolve().ok_or(Error::missing::<i64>())? })
    }
}

struct BarCirc {
    a: Service<FooCirc>,
}

struct FooCirc {
    a: Service<BarCirc>,
}

impl FromDi for BarCirc {
    fn depends_on() -> Vec<TypeMeta> {
        vec![TypeMeta::of::<FooCirc>()]
    }

    fn produce(services: &Services) -> Result<Self, Error> {
        Ok(BarCirc { a: services.resolve().ok_or(Error::missing::<FooCirc>())? })
    }
}

impl FromDi for FooCirc {
    fn depends_on() -> Vec<TypeMeta> {
        vec![TypeMeta::of::<BarCirc>()]
    }

    fn produce(services: &Services) -> Result<Self, Error> {
        Ok(FooCirc { a: services.resolve().ok_or(Error::missing::<BarCirc>())? })
    }
}

trait IBarCirc {}

impl IBarCirc for DynBarCirc {}

struct DynBarCirc {
    a: Service<DynFooCirc>,
}

struct DynFooCirc {
    a: Service<dyn IBarCirc>,
}

impl FromDi for DynBarCirc {
    fn depends_on() -> Vec<TypeMeta> {
        vec![TypeMeta::of::<DynFooCirc>()]
    }

    fn produce(services: &Services) -> Result<Self, Error> {
        Ok(DynBarCirc { a: services.resolve().ok_or(Error::missing::<DynFooCirc>())? })
    }
}

impl FromDi for DynFooCirc {
    fn depends_on() -> Vec<TypeMeta> {
        vec![TypeMeta::of::<dyn IBarCirc>()]
    }

    fn produce(services: &Services) -> Result<Self, Error> {
        Ok(DynFooCirc { a: services.resolve().ok_or(Error::missing::<dyn IBarCirc>())? })
    }
}

trait Named {}

impl Named for Plain1 {}

impl Named for Plain2 {}

struct Plain1 {}

struct Plain2 {}

impl FromDi for Plain1 {
    fn depends_on() -> Vec<TypeMeta> {
        vec![]
    }

    fn produce(_services: &Services) -> Result<Self, Error> {
        Ok(Plain1 {})
    }
}

impl FromDi for Plain2 {
    fn depends_on() -> Vec<TypeMeta> {
        vec![]
    }

    fn produce(_services: &Services) -> Result<Self, Error> {
        Ok(Plain2 {})
    }
}

#[test]
fn tests_binds_concrete() -> Result<(), Error> {
    let mut builder = ServicesBuilder::new();

    builder.bind::<i32>().not_self().singleton().from(10);
    builder.bind_alias::<dyn Any>().to::<i32>(|x| x).done();

    builder.bind::<Bar>().singleton().from_di();
    builder.bind::<Foo>().singleton().from_di();

    let services = builder.build()?;

    services.resolve::<Foo>().expect("Failed to resolve Foo");
    services.resolve::<Bar>().expect("Failed to resolve Bar");
    services
        .resolve::<dyn Any>()
        .expect("Failed to resolve dyn Any");

    Ok(())
}

#[test]
fn tests_fails_duplicated() {
    let mut builder = ServicesBuilder::new();

    builder.bind().singleton().from(10i32);
    builder.bind().singleton().from(10i32);

    let res = builder.build();

    assert!(matches!(res, Err(Error::Duplicated { .. })));
}

#[test]
fn tests_fails_missing() {
    let mut builder = ServicesBuilder::new();

    builder.bind().singleton().from(10i32);
    builder.bind::<NeedsI64>().singleton().from_di();

    let res = builder.build();

    assert!(matches!(res, Err(Error::Missing { .. })));
}

#[test]
fn tests_fails_circular() {
    let mut builder = ServicesBuilder::new();

    builder.bind::<FooCirc>().singleton().from_di();
    builder.bind::<BarCirc>().singleton().from_di();

    let res = builder.build();

    assert!(matches!(res, Err(Error::Circular { .. })));
}

#[test]
fn tests_fails_circular_dyn() {
    let mut builder = ServicesBuilder::new();

    builder.bind::<DynFooCirc>().singleton().from_di();
    builder.bind::<DynBarCirc>().not_self().singleton().from_di();
    builder
        .bind_alias::<dyn IBarCirc>()
        .to::<DynBarCirc>(|x| x)
        .done();

    let res = builder.build();

    assert!(matches!(res, Err(Error::Circular { .. })));
    println!("{}", res.err().unwrap().message());
}

#[test]
fn tests_resolves_last_alias() {
    let mut builder = ServicesBuilder::new();

    builder.bind::<Plain1>().singleton().from_di();
    builder.bind::<Plain2>().singleton().from_di();
    builder
        .bind_alias::<dyn Named>()
        .to::<Plain1>(|x| x)
        .to::<Plain2>(|x| x)
        .done();

    let res = builder.build().unwrap();

    let last = res
        .resolve_all::<dyn Named>()
        .unwrap()
        .next_back()
        .unwrap();
    let single = res.resolve::<dyn Named>().unwrap();

    assert_eq!(Arc::as_ptr(&last), Arc::as_ptr(&single));
}

#[test]
fn tests_fails_if_not_exposed() {
    let mut builder = ServicesBuilder::new();

    builder.bind::<Plain1>().not_self().singleton().from_di();
    builder.bind_alias::<dyn Any>().to::<Plain1>(|x| x).done();

    let res = builder.build().unwrap();

    let dy = res.resolve::<dyn Any>();
    let concrete = res.resolve::<Plain1>();

    assert!(matches!(dy, Some(..)));
    assert!(matches!(concrete, None));
}
