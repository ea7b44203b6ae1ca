use deorbit::{Error, FromDi, Service, ServicesBuilder, Services, TypeMeta};

struct Foo {
    a: Service<i32>,
}

struct Bar {
    a: Service<Foo>,
}

impl FromDi for Foo {
    fn depends_on() -> Vec<TypeMeta> {
        vec![TypeMeta::of::<i32>()]
    }

    fn produce(services: &Services) -> Result<Self, Error> {
        Ok(Foo { a: services.resolve().ok_or(Error::missing::<i32>())? })
    }
}

impl FromDi for Bar {
    fn depends_on() -> Vec<TypeMeta> {
        vec![TypeMeta::of::<Foo>()]
    }

    fn produce(services: &Services) -> Result<Self, Error> {
        Ok(Bar { a: services.resolve().ok_or(Error::missing::<Foo>())? })
    }
}

struct BarCirc {
    a: Service<FooCirc>,
}

struct FooCirc {
    a: Service<BarCirc>,
}

impl FromDi for BarCirc {
    fn depends_on() -> Vec<TypeMeta> {
        vec![TypeMeta::of::<FooCirc>()]
    }

    fn produce(services: &Services) -> Result<Self, Error> {
        Ok(BarCirc { a: services.resolve().ok_or(Error::missing::<FooCirc>())? })
    }
}

impl FromDi for FooCirc {
    fn depends_on() -> Vec<TypeMeta> {
        vec![TypeMeta::of::<BarCirc>()]
    }

    fn produce(services: &Services) -> Result<Self, Error> {
        Ok(FooCirc { a: services.resolve().ok_or(Error::missing::<BarCirc>())? })
    }
}

#[test]
fn test_binds_concrete() -> Result<(), Error> {
    let mut builder = ServicesBuilder::new();

    builder.bind_singleton_from(10i32);
    builder.bind_singleton::<Bar>();
    builder.bind_singleton::<Foo>();

    let services = builder.build()?;

    services.resolve::<Foo>().expect("Failed to resolve Foo");
    services.resolve::<Bar>().expect("Failed to resolve Bar");

    Ok(())
}

#[test]
fn test_fails_duplicated() {
    let mut builder = ServicesBuilder::new();

    builder.bind_singleton_from(10i32);
    builder.bind_singleton_from(10i32);

    let res = builder.build();

    assert!(matches!(res, Err(Error::Duplicated { .. })));
}

#[test]
fn test_fails_missing() {
    let mut builder = ServicesBuilder::new();

    builder.bind_singleton_from(10i32);
    builder.bind_singleton_from::<i128, _, _>(|_: Service<i64>| 0i128);

    let res = builder.build();

    assert!(matches!(res, Err(Error::Missing { .. })));
}

#[test]
fn test_fails_circular() {
    let mut builder = ServicesBuilder::new();

    builder.bind_singleton::<FooCirc>();
    builder.bind_singleton::<BarCirc>();

    let res = builder.build();

    assert!(matches!(res, Err(Error::Circular { .. })));
}
