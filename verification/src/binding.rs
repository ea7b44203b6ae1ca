//! What a builder records for each bound type.

use crate::erased::ErasedArc;
use crate::error::Error;
use crate::factory::{
    default_gives, fn_gives, fn_once_gives, from_di_gives, Factory, OnceProducer, ServiceFactory,
    ServiceFactoryOnce,
};
use crate::from_di::{DiFactory, DiFactoryOnce, FromDi};
use crate::meta::TypeMeta;
use crate::services::Services;
use crate::unsize::ErasedUnsizer;
use vstd::prelude::*;

verus! {

/// A type and how to provide it.
pub struct Binding {
    pub ty: TypeMeta,
    pub kind: BindingKind,
}

/// How a type is provided.
pub enum BindingKind {
    /// By a service of its own.
    Type {
        /// Whether this type should be exposed directly.
        bind_self: bool,
        lifetime: BindingLifetime,
        deps: Vec<TypeMeta>,
    },
    /// By the services of other types, each turned into this type.
    Alias { impls: Vec<(TypeMeta, ErasedUnsizer)> },
}

impl BindingKind {
    /// The implementations of an alias.
    pub fn unwrap_alias(self) -> (r: Vec<(TypeMeta, ErasedUnsizer)>)
        requires
            self is Alias,
        ensures
            r == self->impls,
    {
        match self {
            BindingKind::Type { .. } => vstd::pervasive::unreached(),
            BindingKind::Alias { impls } => impls,
        }
    }

    /// The implementations of an alias, to be changed in place.
    pub fn unwrap_alias_mut(&mut self) -> (r: &mut Vec<(TypeMeta, ErasedUnsizer)>)
        requires
            *old(self) is Alias,
        ensures
            *r == old(self)->impls,
            *final(self) == (BindingKind::Alias { impls: *final(r) }),
    {
        match self {
            BindingKind::Alias { impls } => impls,
            BindingKind::Type { .. } => vstd::pervasive::unreached(),
        }
    }
}

/// Where a singleton comes from.
pub enum SingletonProvider {
    /// An instance given when binding.
    Instance(ErasedArc),
    /// A factory, called once while the services are built.
    Factory(ServiceFactoryOnce),
}

impl SingletonProvider {
    /// The singleton instance, produced now if it comes from a factory.
    pub fn to_instance(self, services: &Services) -> (r: Result<ErasedArc, Error>)
        ensures
            self matches SingletonProvider::Instance(x) ==> r == Ok::<ErasedArc, Error>(x),
            self matches SingletonProvider::Factory(f) ==> Factory::<OnceProducer>::produce.ensures(
                (f, services),
                r,
            ),
    {
        match self {
            SingletonProvider::Instance(x) => Ok(x),
            SingletonProvider::Factory(x) => x.produce(services),
        }
    }
}

/// How long a provided instance lives.
pub enum BindingLifetime {
    /// One instance, shared by every resolution.
    Singleton(SingletonProvider),
    /// A new instance for every resolution.
    Transient(ServiceFactory),
}

/// Another name for a binding lifetime.
pub type ServiceLifetime = BindingLifetime;

/// `l` is a singleton made once through `T::produce`: a factory whose
/// outcomes are those of `T::produce`.
pub open spec fn singleton_by_di<T: FromDi>(l: BindingLifetime) -> bool {
    l matches BindingLifetime::Singleton(SingletonProvider::Factory(f)) && f.is_static() && forall|
        o: Result<ErasedArc, Error>,
    | #[trigger] f.static_gives(o) == from_di_gives::<T>(o)
}

/// `l` is a singleton made once by `T::default()`: a factory that never
/// fails and gives that value.
pub open spec fn singleton_by_default<T: Default>(l: BindingLifetime) -> bool {
    l matches BindingLifetime::Singleton(SingletonProvider::Factory(f)) && f.is_static()
        && f.never_fails() && forall|o: Result<ErasedArc, Error>| #[trigger]
        f.static_gives(o) == default_gives::<T>(o)
}

/// `l` is a singleton made by calling `d` once: a factory whose outcomes
/// are those of `d`.
pub open spec fn singleton_by_fn<T, Args, D: DiFactoryOnce<T, Args>>(
    l: BindingLifetime,
    d: D,
) -> bool {
    l matches BindingLifetime::Singleton(SingletonProvider::Factory(f)) && !f.is_static() && forall|
        o: Result<ErasedArc, Error>,
    | #[trigger] f.gives(o) == fn_once_gives::<T, Args, D>(d, o)
}

/// `l` is a transient made through `T::produce` at every resolution.
pub open spec fn transient_by_di<T: FromDi>(l: BindingLifetime) -> bool {
    l matches BindingLifetime::Transient(f) && f.is_static() && forall|
        o: Result<ErasedArc, Error>,
    | #[trigger] f.static_gives(o) == from_di_gives::<T>(o)
}

/// `l` is a transient made by `T::default()` at every resolution.
pub open spec fn transient_by_default<T: Default>(l: BindingLifetime) -> bool {
    l matches BindingLifetime::Transient(f) && f.is_static() && f.never_fails() && forall|
        o: Result<ErasedArc, Error>,
    | #[trigger] f.static_gives(o) == default_gives::<T>(o)
}

/// `l` is a transient made by calling `d` at every resolution.
pub open spec fn transient_by_fn<T, Args, D: DiFactory<T, Args>>(
    l: BindingLifetime,
    d: D,
) -> bool {
    l matches BindingLifetime::Transient(f) && !f.is_static() && forall|
        o: Result<ErasedArc, Error>,
    | #[trigger] f.gives(o) == fn_gives::<T, Args, D>(d, o)
}

impl BindingLifetime {
    /// A singleton of the given instance.
    pub fn singleton_from<T: 'static>(service: T) -> (r: Self)
        ensures
            r matches BindingLifetime::Singleton(SingletonProvider::Instance(x))
                && ErasedArc::from_instance::<T>.ensures((service,), x),
    {
        let arc = ErasedArc::from_instance(service);
        BindingLifetime::Singleton(SingletonProvider::Instance(arc))
    }

    /// A singleton built through `T::produce`.
    pub fn singleton_from_di<T: FromDi + 'static>() -> (r: Self)
        ensures
            singleton_by_di::<T>(r),
    {
        BindingLifetime::Singleton(SingletonProvider::Factory(ServiceFactoryOnce::from_container::<T>()))
    }

    /// A singleton built through `T::default`.
    pub fn singleton_from_default<T: Default + 'static>() -> (r: Self)
        ensures
            singleton_by_default::<T>(r),
    {
        BindingLifetime::Singleton(SingletonProvider::Factory(ServiceFactoryOnce::from_default::<T>()))
    }

    /// A singleton built by calling `factory` once.
    pub fn singleton_from_fn<T: 'static, Args: 'static>(factory: impl DiFactoryOnce<T, Args>) -> (r:
        Self)
        ensures
            singleton_by_fn::<T, Args, _>(r, factory),
    {
        BindingLifetime::Singleton(SingletonProvider::Factory(ServiceFactoryOnce::from_fn_once(factory)))
    }

    /// A transient built through `T::produce`.
    pub fn transient_from_di<T: FromDi + 'static>() -> (r: Self)
        ensures
            transient_by_di::<T>(r),
    {
        BindingLifetime::Transient(ServiceFactory::from_container::<T>())
    }

    /// A transient built through `T::default`.
    pub fn transient_from_default<T: Default + 'static>() -> (r: Self)
        ensures
            transient_by_default::<T>(r),
    {
        BindingLifetime::Transient(ServiceFactory::from_default::<T>())
    }

    /// A transient built by calling `factory` for every resolution.
    pub fn transient_from_fn<T: 'static, Args: 'static>(factory: impl DiFactory<T, Args>) -> (r:
        Self)
        ensures
            transient_by_fn::<T, Args, _>(r, factory),
    {
        BindingLifetime::Transient(ServiceFactory::from_fn(factory))
    }
}

} // verus!
