//! Type-erased producers of service instances.

use crate::erased::ErasedArc;
use crate::error::Error;
use crate::from_di::{DiFactory, DiFactoryOnce, FromDi};
use crate::services::Services;
use std::marker::PhantomData;
use std::sync::Arc;
use vstd::prelude::*;

verus! {

/// Something that can produce a type-erased instance from services, any
/// number of times. A produced instance is stored under the meta of its
/// type, which carries no name.
pub trait Produce {
    /// Whether producing always gives an instance.
    spec fn never_fails(&self) -> bool;

    /// Whether `r` is an outcome of producing.
    spec fn gives(&self, r: Result<ErasedArc, Error>) -> bool;

    fn produce_instance(&self, services: &ServicesRef<'_>) -> (r: Result<ErasedArc, Error>)
        ensures
            r matches Ok(x) ==> x.ty_view().label_view() is None,
            self.never_fails() ==> r is Ok,
            self.gives(r),
    ;
}

/// Something that can produce a type-erased instance from services, once.
/// A produced instance is stored under the meta of its type, which carries
/// no name.
pub trait ProduceOnce {
    /// Whether `r` is an outcome of producing.
    spec fn gives(&self, r: Result<ErasedArc, Error>) -> bool;

    fn produce_once(self: Box<Self>, services: &ServicesRef<'_>) -> (r: Result<ErasedArc, Error>)
        ensures
            r matches Ok(x) ==> x.ty_view().label_view() is None,
            (*self).gives(r),
    ;
}

/// A borrowed, type-erased handle to the services (`&dyn Any`), which is
/// what producers are given.
#[verifier::external_body]
pub struct ServicesRef<'a> {
    inner: &'a dyn std::any::Any,
}

/// Borrows the services as a `&dyn Any`.
#[verifier::external_body]
fn erase_services(s: &Services) -> ServicesRef<'_> {
    ServicesRef { inner: s }
}

/// The services behind the handle (`downcast_ref::<Services>`). A handle is
/// only ever made by `erase_services`, from the services, so the downcast
/// finds them.
#[verifier::external_body]
fn services_of<'a>(r: &ServicesRef<'a>) -> (o: Option<&'a Services>)
    ensures
        o is Some,
{
    r.inner.downcast_ref::<Services>()
}

/// `r` is an outcome of producing a `T` through `T::produce`: an instance
/// that it built, erased, or an error that it returned.
pub open spec fn from_di_gives<T: FromDi>(r: Result<ErasedArc, Error>) -> bool {
    match r {
        Ok(x) => exists|s: Services, v: T|
            #[trigger] T::produce.ensures((&s,), Ok::<T, Error>(v))
                && ErasedArc::from_instance::<T>.ensures((v,), x),
        Err(e) => exists|s: Services|
            #[trigger] T::produce.ensures((&s,), Err::<T, Error>(e)),
    }
}

/// `r` is an outcome of producing `T::default()`: that value, erased.
pub open spec fn default_gives<T: Default>(r: Result<ErasedArc, Error>) -> bool {
    r matches Ok(x) && exists|v: T|
        #[trigger] T::default.ensures((), v) && ErasedArc::from_instance::<T>.ensures((v,), x)
}

/// `r` is an outcome of calling the function `d`: an instance that it built,
/// erased, or an error that it returned.
pub open spec fn fn_gives<T, Args, D: DiFactory<T, Args>>(d: D, r: Result<ErasedArc, Error>) -> bool {
    match r {
        Ok(x) => exists|s: Services, v: T|
            #[trigger] <D as DiFactory<T, Args>>::produce.ensures((&d, &s), Ok::<T, Error>(v))
                && ErasedArc::from_instance::<T>.ensures((v,), x),
        Err(e) => exists|s: Services|
            #[trigger] <D as DiFactory<T, Args>>::produce.ensures((&d, &s), Err::<T, Error>(e)),
    }
}

/// `r` is an outcome of calling the one-shot function `d`.
pub open spec fn fn_once_gives<T, Args, D: DiFactoryOnce<T, Args>>(
    d: D,
    r: Result<ErasedArc, Error>,
) -> bool {
    match r {
        Ok(x) => exists|s: Services, v: T|
            #[trigger] <D as DiFactoryOnce<T, Args>>::produce.ensures((d, &s), Ok::<T, Error>(v))
                && ErasedArc::from_instance::<T>.ensures((v,), x),
        Err(e) => exists|s: Services|
            #[trigger] <D as DiFactoryOnce<T, Args>>::produce.ensures((d, &s), Err::<T, Error>(e)),
    }
}

/// Produces a `T` through its `FromDi` implementation.
pub struct ContainerProducer<T> {
    ph: PhantomData<T>,
}

impl<T: FromDi + 'static> Produce for ContainerProducer<T> {
    open spec fn never_fails(&self) -> bool {
        false
    }

    open spec fn gives(&self, r: Result<ErasedArc, Error>) -> bool {
        from_di_gives::<T>(r)
    }

    fn produce_instance(&self, handle: &ServicesRef<'_>) -> Result<ErasedArc, Error> {
        let services = match services_of(handle) {
            Some(s) => s,
            None => vstd::pervasive::unreached(),
        };
        match T::produce(services) {
            Ok(instance) => Ok(ErasedArc::from_instance(instance)),
            Err(e) => Err(e),
        }
    }
}

/// Produces a `T` through its `Default` implementation.
pub struct DefaultProducer<T> {
    ph: PhantomData<T>,
}

impl<T: Default + 'static> Produce for DefaultProducer<T> {
    open spec fn never_fails(&self) -> bool {
        true
    }

    open spec fn gives(&self, r: Result<ErasedArc, Error>) -> bool {
        default_gives::<T>(r)
    }

    /// `T::default()` always gives an instance.
    fn produce_instance(&self, handle: &ServicesRef<'_>) -> (r: Result<ErasedArc, Error>)
        ensures
            r is Ok,
    {
        Ok(ErasedArc::from_instance(T::default()))
    }
}

/// Produces a `T` by calling a reusable factory.
pub struct FnProducer<T, Args, D> {
    fun: D,
    ph: PhantomData<(T, Args)>,
}

impl<T: 'static, Args: 'static, D: DiFactory<T, Args>> Produce for FnProducer<T, Args, D> {
    open spec fn never_fails(&self) -> bool {
        false
    }

    closed spec fn gives(&self, r: Result<ErasedArc, Error>) -> bool {
        fn_gives::<T, Args, D>(self.fun, r)
    }

    fn produce_instance(&self, handle: &ServicesRef<'_>) -> Result<ErasedArc, Error> {
        let services = match services_of(handle) {
            Some(s) => s,
            None => vstd::pervasive::unreached(),
        };
        match DiFactory::<T, Args>::produce(&self.fun, services) {
            Ok(instance) => Ok(ErasedArc::from_instance(instance)),
            Err(e) => Err(e),
        }
    }
}

/// Produces a `T` by calling a factory that can run once.
pub struct FnOnceProducer<T, Args, D> {
    fun: D,
    ph: PhantomData<(T, Args)>,
}

impl<T: 'static, Args: 'static, D: DiFactoryOnce<T, Args>> ProduceOnce for FnOnceProducer<
    T,
    Args,
    D,
> {
    closed spec fn gives(&self, r: Result<ErasedArc, Error>) -> bool {
        fn_once_gives::<T, Args, D>(self.fun, r)
    }

    fn produce_once(self: Box<Self>, handle: &ServicesRef<'_>) -> Result<ErasedArc, Error> {
        let services = match services_of(handle) {
            Some(s) => s,
            None => vstd::pervasive::unreached(),
        };
        match DiFactoryOnce::<T, Args>::produce(self.fun, services) {
            Ok(instance) => Ok(ErasedArc::from_instance(instance)),
            Err(e) => Err(e),
        }
    }
}

/// A producer behind a shared pointer.
pub struct SharedProducer {
    inner: Arc<dyn Produce>,
}

impl SharedProducer {
    /// Whether the kept producer always gives an instance.
    pub closed spec fn never_fails(&self) -> bool {
        self.inner.never_fails()
    }

    /// Whether `r` is an outcome of the kept producer.
    pub closed spec fn gives(&self, r: Result<ErasedArc, Error>) -> bool {
        self.inner.gives(r)
    }
}

/// A producer in a box, to be used once.
pub struct OnceProducer {
    inner: Box<dyn ProduceOnce>,
}

impl OnceProducer {
    /// Whether `r` is an outcome of the kept producer.
    pub closed spec fn gives(&self, r: Result<ErasedArc, Error>) -> bool {
        self.inner.gives(r)
    }
}

/// Calls the kept producer through its trait object, on the services.
fn run_shared(p: &SharedProducer, services: &Services) -> (r: Result<ErasedArc, Error>)
    ensures
        r matches Ok(x) ==> x.ty_view().label_view() is None,
        p.never_fails() ==> r is Ok,
        p.gives(r),
{
    p.inner.produce_instance(&erase_services(services))
}

/// Calls the kept producer through its trait object, consuming it, on the
/// services.
fn run_once(p: OnceProducer, services: &Services) -> (r: Result<ErasedArc, Error>)
    ensures
        r matches Ok(x) ==> x.ty_view().label_view() is None,
        p.gives(r),
{
    p.inner.produce_once(&erase_services(services))
}

/// How a factory produces its instances: through an implementation of a
/// trait of the type, or through a function that it keeps.
pub enum ServiceAllocator<F> {
    Static { shared: SharedProducer },
    Fn { fun: F },
}

/// Produces instances of one type.
pub struct Factory<F> {
    alloc: ServiceAllocator<F>,
}

/// A factory that can be called any number of times.
pub type ServiceFactory = Factory<SharedProducer>;

/// A factory that can be called once.
pub type ServiceFactoryOnce = Factory<OnceProducer>;

/// Keeps a producer behind a shared pointer (`Arc::new`, then the coercion
/// to a trait object, through which calls reach `p`'s own methods).
#[verifier::external_body]
fn shared_producer<P: Produce + 'static>(p: P) -> (r: SharedProducer)
    ensures
        r.never_fails() == p.never_fails(),
        forall|o: Result<ErasedArc, Error>| r.gives(o) == p.gives(o),
{
    SharedProducer { inner: Arc::new(p) }
}

/// Keeps a producer in a box (`Box::new`, then the coercion to a trait
/// object, through which calls reach `p`'s own methods).
#[verifier::external_body]
fn once_producer<P: ProduceOnce + 'static>(p: P) -> (r: OnceProducer)
    ensures
        forall|o: Result<ErasedArc, Error>| r.gives(o) == p.gives(o),
{
    OnceProducer { inner: Box::new(p) }
}

/// Clones the shared pointer to a producer (`Arc::clone`); the clone is the
/// same value.
#[verifier::external_body]
fn share_producer(p: &SharedProducer) -> (r: SharedProducer)
    ensures
        r == *p,
{
    SharedProducer { inner: p.inner.clone() }
}

impl<F> Factory<F> {
    /// Whether the factory goes through an implementation of a trait of the
    /// produced type rather than a function it keeps.
    pub closed spec fn is_static(&self) -> bool {
        self.alloc is Static
    }

    /// Whether producing always gives an instance: a factory of
    /// `T::default()`.
    pub closed spec fn never_fails(&self) -> bool {
        self.alloc matches ServiceAllocator::Static { shared } && shared.never_fails()
    }

    /// Whether `r` is an outcome of the trait implementation that a static
    /// factory goes through.
    pub closed spec fn static_gives(&self, r: Result<ErasedArc, Error>) -> bool {
        self.alloc matches ServiceAllocator::Static { shared } && shared.gives(r)
    }

    /// A factory that produces `T` through its `FromDi` implementation.
    pub fn from_container<T: 'static + FromDi>() -> (r: Self)
        ensures
            r.is_static(),
            forall|o: Result<ErasedArc, Error>| r.static_gives(o) == from_di_gives::<T>(o),
    {
        Factory {
            alloc: ServiceAllocator::Static {
                shared: shared_producer(ContainerProducer::<T> { ph: PhantomData }),
            },
        }
    }

    /// A factory that produces `T::default()`.
    pub fn from_default<T: 'static + Default>() -> (r: Self)
        ensures
            r.is_static(),
            r.never_fails(),
            forall|o: Result<ErasedArc, Error>| r.static_gives(o) == default_gives::<T>(o),
    {
        Factory {
            alloc: ServiceAllocator::Static {
                shared: shared_producer(DefaultProducer::<T> { ph: PhantomData }),
            },
        }
    }
}

impl Factory<SharedProducer> {
    /// Whether `r` is an outcome of the factory.
    pub closed spec fn gives(&self, r: Result<ErasedArc, Error>) -> bool {
        match self.alloc {
            ServiceAllocator::Static { shared } => shared.gives(r),
            ServiceAllocator::Fn { fun } => fun.gives(r),
        }
    }

    /// A factory that calls `allocator`, resolving its arguments first.
    pub fn from_fn<T: 'static, Args: 'static>(allocator: impl DiFactory<T, Args>) -> (r: Self)
        ensures
            !r.is_static(),
            forall|o: Result<ErasedArc, Error>| r.gives(o) == fn_gives::<T, Args, _>(allocator, o),
    {
        Factory {
            alloc: ServiceAllocator::Fn {
                fun: shared_producer(FnProducer { fun: allocator, ph: PhantomData::<(T, Args)> }),
            },
        }
    }

    /// Produces an instance, stored under the meta of its type: what the
    /// kept producer gives.
    pub fn produce(&self, services: &Services) -> (r: Result<ErasedArc, Error>)
        ensures
            r matches Ok(x) ==> x.ty_view().label_view() is None,
            self.never_fails() ==> r is Ok,
            self.gives(r),
            self.is_static() ==> self.static_gives(r),
    {
        match &self.alloc {
            ServiceAllocator::Static { shared } => run_shared(shared, services),
            ServiceAllocator::Fn { fun } => run_shared(fun, services),
        }
    }

    /// Another handle to the same factory.
    pub fn share(&self) -> (r: Self)
        ensures
            r == *self,
    {
        match &self.alloc {
            ServiceAllocator::Static { shared } => Factory {
                alloc: ServiceAllocator::Static { shared: share_producer(shared) },
            },
            ServiceAllocator::Fn { fun } => Factory {
                alloc: ServiceAllocator::Fn { fun: share_producer(fun) },
            },
        }
    }
}

impl Factory<OnceProducer> {
    /// Whether `r` is an outcome of the factory.
    pub closed spec fn gives(&self, r: Result<ErasedArc, Error>) -> bool {
        match self.alloc {
            ServiceAllocator::Static { shared } => shared.gives(r),
            ServiceAllocator::Fn { fun } => fun.gives(r),
        }
    }

    /// A factory that calls `allocator` once, resolving its arguments first.
    pub fn from_fn_once<T: 'static, Args: 'static>(allocator: impl DiFactoryOnce<T, Args>) -> (r:
        Self)
        ensures
            !r.is_static(),
            forall|o: Result<ErasedArc, Error>| r.gives(o) == fn_once_gives::<T, Args, _>(allocator, o),
    {
        Factory {
            alloc: ServiceAllocator::Fn {
                fun: once_producer(FnOnceProducer { fun: allocator, ph: PhantomData::<(T, Args)> }),
            },
        }
    }

    /// Produces the instance, stored under the meta of its type: what the
    /// kept producer gives.
    pub fn produce(self, services: &Services) -> (r: Result<ErasedArc, Error>)
        ensures
            r matches Ok(x) ==> x.ty_view().label_view() is None,
            self.never_fails() ==> r is Ok,
            self.gives(r),
            self.is_static() ==> self.static_gives(r),
    {
        match self.alloc {
            ServiceAllocator::Static { shared } => run_shared(&shared, services),
            ServiceAllocator::Fn { fun } => run_once(fun, services),
        }
    }
}

} // verus!
