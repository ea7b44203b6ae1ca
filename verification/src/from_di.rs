//! Traits for building instances from services.

use crate::error::Error;
use crate::meta::{is_meta_of, TypeMeta};
use crate::erased::ErasedArc;
use crate::services::{
    resolved_all, resolved_last, sources, taken_from, ImmutableBinding, ImmutableTypeBinding, Services,
};
use std::sync::Arc;
use vstd::prelude::*;

verus! {

/// Represents an object that is capable of building itself from services.
pub trait FromDi: Sized {
    /// Whether `r` is an outcome of building the object on `services`.
    open spec fn builds(services: Services, r: Result<Self, Error>) -> bool {
        true
    }

    /// The types that `produce` resolves.
    fn depends_on() -> Vec<TypeMeta>;

    /// Builds the object.
    fn produce(services: &Services) -> (r: Result<Self, Error>)
        ensures
            Self::builds(*services, r),
    ;
}

/// Represents an object that is capable of building a `T` from services,
/// once.
pub trait DiFactoryOnce<T, Args>: 'static {
    /// Whether `deps` are the types that `produce` resolves, in order.
    open spec fn resolves(deps: Seq<TypeMeta>) -> bool {
        true
    }

    /// The types that `produce` resolves.
    fn depends_on() -> (r: Vec<TypeMeta>)
        ensures
            Self::resolves(r@),
    ;

    /// Builds a `T`.
    fn produce(self, services: &Services) -> Result<T, Error>;
}

/// Represents an object that is capable of building a `T` from services, any
/// number of times.
pub trait DiFactory<T, Args>: DiFactoryOnce<T, Args> {
    /// Builds a `T`.
    fn produce(&self, services: &Services) -> Result<T, Error>;
}

/// The argument list of a plain value used as a factory of itself.
pub struct Instance;

/// A plain value is a factory of itself.
impl<T: 'static> DiFactoryOnce<T, Instance> for T {
    open spec fn resolves(deps: Seq<TypeMeta>) -> bool {
        deps.len() == 0
    }

    fn depends_on() -> Vec<TypeMeta> {
        Vec::new()
    }

    fn produce(self, services: &Services) -> (r: Result<T, Error>)
        ensures
            r == Ok::<T, Error>(self),
    {
        Ok(self)
    }
}

/// A shared instance resolves to the last binding of its type.
impl<T: ?Sized + 'static> FromDi for Arc<T> {
    /// The instance from the last source bound under `T`; else the error
    /// that `T` is missing.
    open spec fn builds(services: Services, r: Result<Self, Error>) -> bool {
        match r {
            Ok(a) => resolved_last::<T>(services, a),
            Err(e) => e matches Error::Missing { type_meta } && is_meta_of::<T>(type_meta),
        }
    }

    fn depends_on() -> Vec<TypeMeta> {
        Vec::new()
    }

    fn produce(services: &Services) -> Result<Self, Error> {
        match services.resolve::<T>() {
            Some(x) => Ok(x),
            None => Err(Error::missing::<T>()),
        }
    }
}

/// A vector of shared instances resolves to all bindings of its type.
impl<T: ?Sized + 'static> FromDi for Vec<Arc<T>> {
    /// One instance per source bound under `T`, in binding order; else the
    /// error that `T` is missing.
    open spec fn builds(services: Services, r: Result<Self, Error>) -> bool {
        match r {
            Ok(v) => resolved_all::<T>(services, v@),
            Err(e) => e matches Error::Missing { type_meta } && is_meta_of::<T>(type_meta),
        }
    }

    fn depends_on() -> Vec<TypeMeta> {
        Vec::new()
    }

    fn produce(services: &Services) -> Result<Self, Error> {
        match services.resolve_all::<T>() {
            Some(all) => match all.collect_all() {
                Some(x) => Ok(x),
                None => Err(Error::missing::<T>()),
            },
            None => Err(Error::missing::<T>()),
        }
    }
}

/// Calls `f` with 0 argument(s).
#[verifier::external_body]
fn call_once_0<F: FnOnce() -> O, O>(f: F) -> O {
    f()
}

/// Calls `f` with 0 argument(s).
#[verifier::external_body]
fn call_0<F: Fn() -> O, O>(f: &F) -> O {
    f()
}

/// A function of 0 shared instance(s) is a factory; its arguments are
/// resolved from the services.
impl<F, O> DiFactoryOnce<O, ()> for F where
    F: FnOnce() -> O + 'static,
    O: 'static,
 {
    open spec fn resolves(deps: Seq<TypeMeta>) -> bool {
        deps.len() == 0
    }

    fn depends_on() -> Vec<TypeMeta> {
        let mut deps: Vec<TypeMeta> = Vec::new();
        deps
    }

    fn produce(self, services: &Services) -> Result<O, Error> {
        Ok(call_once_0(self))
    }
}

impl<F, O> DiFactory<O, ()> for F where
    F: Fn() -> O + 'static,
    O: 'static,
 {
    fn produce(&self, services: &Services) -> Result<O, Error> {
        Ok(call_0(self))
    }
}

/// Calls `f` with 1 argument(s).
#[verifier::external_body]
fn call_once_1<F: FnOnce(Arc<T1>) -> O, O, T1: ?Sized>(f: F, a1: Arc<T1>) -> O {
    f(a1)
}

/// Calls `f` with 1 argument(s).
#[verifier::external_body]
fn call_1<F: Fn(Arc<T1>) -> O, O, T1: ?Sized>(f: &F, a1: Arc<T1>) -> O {
    f(a1)
}

/// A function of 1 shared instance(s) is a factory; its arguments are
/// resolved from the services.
impl<F, O, T1> DiFactoryOnce<O, (Arc<T1>,)> for F where
    F: FnOnce(Arc<T1>) -> O + 'static,
    O: 'static,
    T1: ?Sized + 'static,
 {
    open spec fn resolves(deps: Seq<TypeMeta>) -> bool {
        deps.len() == 1
            && is_meta_of::<T1>(deps[0])
    }

    fn depends_on() -> Vec<TypeMeta> {
        let mut deps: Vec<TypeMeta> = Vec::new();
        deps.push(TypeMeta::of::<T1>());
        deps
    }

    fn produce(self, services: &Services) -> Result<O, Error> {
        let a1 = match services.resolve::<T1>() {
            Some(x) => x,
            None => {
                return Err(Error::missing::<T1>());
            },
        };
        Ok(call_once_1(self, a1))
    }
}

impl<F, O, T1> DiFactory<O, (Arc<T1>,)> for F where
    F: Fn(Arc<T1>) -> O + 'static,
    O: 'static,
    T1: ?Sized + 'static,
 {
    fn produce(&self, services: &Services) -> Result<O, Error> {
        let a1 = match services.resolve::<T1>() {
            Some(x) => x,
            None => {
                return Err(Error::missing::<T1>());
            },
        };
        Ok(call_1(self, a1))
    }
}

/// Calls `f` with 2 argument(s).
#[verifier::external_body]
fn call_once_2<F: FnOnce(Arc<T1>, Arc<T2>) -> O, O, T1: ?Sized, T2: ?Sized>(f: F, a1: Arc<T1>, a2: Arc<T2>) -> O {
    f(a1, a2)
}

/// Calls `f` with 2 argument(s).
#[verifier::external_body]
fn call_2<F: Fn(Arc<T1>, Arc<T2>) -> O, O, T1: ?Sized, T2: ?Sized>(f: &F, a1: Arc<T1>, a2: Arc<T2>) -> O {
    f(a1, a2)
}

/// A function of 2 shared instance(s) is a factory; its arguments are
/// resolved from the services.
impl<F, O, T1, T2> DiFactoryOnce<O, (Arc<T1>, Arc<T2>,)> for F where
    F: FnOnce(Arc<T1>, Arc<T2>) -> O + 'static,
    O: 'static,
    T1: ?Sized + 'static,
    T2: ?Sized + 'static,
 {
    open spec fn resolves(deps: Seq<TypeMeta>) -> bool {
        deps.len() == 2
            && is_meta_of::<T1>(deps[0])
            && is_meta_of::<T2>(deps[1])
    }

    fn depends_on() -> Vec<TypeMeta> {
        let mut deps: Vec<TypeMeta> = Vec::new();
        deps.push(TypeMeta::of::<T1>());
        deps.push(TypeMeta::of::<T2>());
        deps
    }

    fn produce(self, services: &Services) -> Result<O, Error> {
        let a1 = match services.resolve::<T1>() {
            Some(x) => x,
            None => {
                return Err(Error::missing::<T1>());
            },
        };
        let a2 = match services.resolve::<T2>() {
            Some(x) => x,
            None => {
                return Err(Error::missing::<T2>());
            },
        };
        Ok(call_once_2(self, a1, a2))
    }
}

impl<F, O, T1, T2> DiFactory<O, (Arc<T1>, Arc<T2>,)> for F where
    F: Fn(Arc<T1>, Arc<T2>) -> O + 'static,
    O: 'static,
    T1: ?Sized + 'static,
    T2: ?Sized + 'static,
 {
    fn produce(&self, services: &Services) -> Result<O, Error> {
        let a1 = match services.resolve::<T1>() {
            Some(x) => x,
            None => {
                return Err(Error::missing::<T1>());
            },
        };
        let a2 = match services.resolve::<T2>() {
            Some(x) => x,
            None => {
                return Err(Error::missing::<T2>());
            },
        };
        Ok(call_2(self, a1, a2))
    }
}

/// Calls `f` with 3 argument(s).
#[verifier::external_body]
fn call_once_3<F: FnOnce(Arc<T1>, Arc<T2>, Arc<T3>) -> O, O, T1: ?Sized, T2: ?Sized, T3: ?Sized>(f: F, a1: Arc<T1>, a2: Arc<T2>, a3: Arc<T3>) -> O {
    f(a1, a2, a3)
}

/// Calls `f` with 3 argument(s).
#[verifier::external_body]
fn call_3<F: Fn(Arc<T1>, Arc<T2>, Arc<T3>) -> O, O, T1: ?Sized, T2: ?Sized, T3: ?Sized>(f: &F, a1: Arc<T1>, a2: Arc<T2>, a3: Arc<T3>) -> O {
    f(a1, a2, a3)
}

/// A function of 3 shared instance(s) is a factory; its arguments are
/// resolved from the services.
impl<F, O, T1, T2, T3> DiFactoryOnce<O, (Arc<T1>, Arc<T2>, Arc<T3>,)> for F where
    F: FnOnce(Arc<T1>, Arc<T2>, Arc<T3>) -> O + 'static,
    O: 'static,
    T1: ?Sized + 'static,
    T2: ?Sized + 'static,
    T3: ?Sized + 'static,
 {
    open spec fn resolves(deps: Seq<TypeMeta>) -> bool {
        deps.len() == 3
            && is_meta_of::<T1>(deps[0])
            && is_meta_of::<T2>(deps[1])
            && is_meta_of::<T3>(deps[2])
    }

    fn depends_on() -> Vec<TypeMeta> {
        let mut deps: Vec<TypeMeta> = Vec::new();
        deps.push(TypeMeta::of::<T1>());
        deps.push(TypeMeta::of::<T2>());
        deps.push(TypeMeta::of::<T3>());
        deps
    }

    fn produce(self, services: &Services) -> Result<O, Error> {
        let a1 = match services.resolve::<T1>() {
            Some(x) => x,
            None => {
                return Err(Error::missing::<T1>());
            },
        };
        let a2 = match services.resolve::<T2>() {
            Some(x) => x,
            None => {
                return Err(Error::missing::<T2>());
            },
        };
        let a3 = match services.resolve::<T3>() {
            Some(x) => x,
            None => {
                return Err(Error::missing::<T3>());
            },
        };
        Ok(call_once_3(self, a1, a2, a3))
    }
}

impl<F, O, T1, T2, T3> DiFactory<O, (Arc<T1>, Arc<T2>, Arc<T3>,)> for F where
    F: Fn(Arc<T1>, Arc<T2>, Arc<T3>) -> O + 'static,
    O: 'static,
    T1: ?Sized + 'static,
    T2: ?Sized + 'static,
    T3: ?Sized + 'static,
 {
    fn produce(&self, services: &Services) -> Result<O, Error> {
        let a1 = match services.resolve::<T1>() {
            Some(x) => x,
            None => {
                return Err(Error::missing::<T1>());
            },
        };
        let a2 = match services.resolve::<T2>() {
            Some(x) => x,
            None => {
                return Err(Error::missing::<T2>());
            },
        };
        let a3 = match services.resolve::<T3>() {
            Some(x) => x,
            None => {
                return Err(Error::missing::<T3>());
            },
        };
        Ok(call_3(self, a1, a2, a3))
    }
}

/// Calls `f` with 4 argument(s).
#[verifier::external_body]
fn call_once_4<F: FnOnce(Arc<T1>, Arc<T2>, Arc<T3>, Arc<T4>) -> O, O, T1: ?Sized, T2: ?Sized, T3: ?Sized, T4: ?Sized>(f: F, a1: Arc<T1>, a2: Arc<T2>, a3: Arc<T3>, a4: Arc<T4>) -> O {
    f(a1, a2, a3, a4)
}

/// Calls `f` with 4 argument(s).
#[verifier::external_body]
fn call_4<F: Fn(Arc<T1>, Arc<T2>, Arc<T3>, Arc<T4>) -> O, O, T1: ?Sized, T2: ?Sized, T3: ?Sized, T4: ?Sized>(f: &F, a1: Arc<T1>, a2: Arc<T2>, a3: Arc<T3>, a4: Arc<T4>) -> O {
    f(a1, a2, a3, a4)
}

/// A function of 4 shared instance(s) is a factory; its arguments are
/// resolved from the services.
impl<F, O, T1, T2, T3, T4> DiFactoryOnce<O, (Arc<T1>, Arc<T2>, Arc<T3>, Arc<T4>,)> for F where
    F: FnOnce(Arc<T1>, Arc<T2>, Arc<T3>, Arc<T4>) -> O + 'static,
    O: 'static,
    T1: ?Sized + 'static,
    T2: ?Sized + 'static,
    T3: ?Sized + 'static,
    T4: ?Sized + 'static,
 {
    open spec fn resolves(deps: Seq<TypeMeta>) -> bool {
        deps.len() == 4
            && is_meta_of::<T1>(deps[0])
            && is_meta_of::<T2>(deps[1])
            && is_meta_of::<T3>(deps[2])
            && is_meta_of::<T4>(deps[3])
    }

    fn depends_on() -> Vec<TypeMeta> {
        let mut deps: Vec<TypeMeta> = Vec::new();
        deps.push(TypeMeta::of::<T1>());
        deps.push(TypeMeta::of::<T2>());
        deps.push(TypeMeta::of::<T3>());
        deps.push(TypeMeta::of::<T4>());
        deps
    }

    fn produce(self, services: &Services) -> Result<O, Error> {
        let a1 = match services.resolve::<T1>() {
            Some(x) => x,
            None => {
                return Err(Error::missing::<T1>());
            },
        };
        let a2 = match services.resolve::<T2>() {
            Some(x) => x,
            None => {
                return Err(Error::missing::<T2>());
            },
        };
        let a3 = match services.resolve::<T3>() {
            Some(x) => x,
            None => {
                return Err(Error::missing::<T3>());
            },
        };
        let a4 = match services.resolve::<T4>() {
            Some(x) => x,
            None => {
                return Err(Error::missing::<T4>());
            },
        };
        Ok(call_once_4(self, a1, a2, a3, a4))
    }
}

impl<F, O, T1, T2, T3, T4> DiFactory<O, (Arc<T1>, Arc<T2>, Arc<T3>, Arc<T4>,)> for F where
    F: Fn(Arc<T1>, Arc<T2>, Arc<T3>, Arc<T4>) -> O + 'static,
    O: 'static,
    T1: ?Sized + 'static,
    T2: ?Sized + 'static,
    T3: ?Sized + 'static,
    T4: ?Sized + 'static,
 {
    fn produce(&self, services: &Services) -> Result<O, Error> {
        let a1 = match services.resolve::<T1>() {
            Some(x) => x,
            None => {
                return Err(Error::missing::<T1>());
            },
        };
        let a2 = match services.resolve::<T2>() {
            Some(x) => x,
            None => {
                return Err(Error::missing::<T2>());
            },
        };
        let a3 = match services.resolve::<T3>() {
            Some(x) => x,
            None => {
                return Err(Error::missing::<T3>());
            },
        };
        let a4 = match services.resolve::<T4>() {
            Some(x) => x,
            None => {
                return Err(Error::missing::<T4>());
            },
        };
        Ok(call_4(self, a1, a2, a3, a4))
    }
}

/// Calls `f` with 5 argument(s).
#[verifier::external_body]
fn call_once_5<F: FnOnce(Arc<T1>, Arc<T2>, Arc<T3>, Arc<T4>, Arc<T5>) -> O, O, T1: ?Sized, T2: ?Sized, T3: ?Sized, T4: ?Sized, T5: ?Sized>(f: F, a1: Arc<T1>, a2: Arc<T2>, a3: Arc<T3>, a4: Arc<T4>, a5: Arc<T5>) -> O {
    f(a1, a2, a3, a4, a5)
}

/// Calls `f` with 5 argument(s).
#[verifier::external_body]
fn call_5<F: Fn(Arc<T1>, Arc<T2>, Arc<T3>, Arc<T4>, Arc<T5>) -> O, O, T1: ?Sized, T2: ?Sized, T3: ?Sized, T4: ?Sized, T5: ?Sized>(f: &F, a1: Arc<T1>, a2: Arc<T2>, a3: Arc<T3>, a4: Arc<T4>, a5: Arc<T5>) -> O {
    f(a1, a2, a3, a4, a5)
}

/// A function of 5 shared instance(s) is a factory; its arguments are
/// resolved from the services.
impl<F, O, T1, T2, T3, T4, T5> DiFactoryOnce<O, (Arc<T1>, Arc<T2>, Arc<T3>, Arc<T4>, Arc<T5>,)> for F where
    F: FnOnce(Arc<T1>, Arc<T2>, Arc<T3>, Arc<T4>, Arc<T5>) -> O + 'static,
    O: 'static,
    T1: ?Sized + 'static,
    T2: ?Sized + 'static,
    T3: ?Sized + 'static,
    T4: ?Sized + 'static,
    T5: ?Sized + 'static,
 {
    open spec fn resolves(deps: Seq<TypeMeta>) -> bool {
        deps.len() == 5
            && is_meta_of::<T1>(deps[0])
            && is_meta_of::<T2>(deps[1])
            && is_meta_of::<T3>(deps[2])
            && is_meta_of::<T4>(deps[3])
            && is_meta_of::<T5>(deps[4])
    }

    fn depends_on() -> Vec<TypeMeta> {
        let mut deps: Vec<TypeMeta> = Vec::new();
        deps.push(TypeMeta::of::<T1>());
        deps.push(TypeMeta::of::<T2>());
        deps.push(TypeMeta::of::<T3>());
        deps.push(TypeMeta::of::<T4>());
        deps.push(TypeMeta::of::<T5>());
        deps
    }

    fn produce(self, services: &Services) -> Result<O, Error> {
        let a1 = match services.resolve::<T1>() {
            Some(x) => x,
            None => {
                return Err(Error::missing::<T1>());
            },
        };
        let a2 = match services.resolve::<T2>() {
            Some(x) => x,
            None => {
                return Err(Error::missing::<T2>());
            },
        };
        let a3 = match services.resolve::<T3>() {
            Some(x) => x,
            None => {
                return Err(Error::missing::<T3>());
            },
        };
        let a4 = match services.resolve::<T4>() {
            Some(x) => x,
            None => {
                return Err(Error::missing::<T4>());
            },
        };
        let a5 = match services.resolve::<T5>() {
            Some(x) => x,
            None => {
                return Err(Error::missing::<T5>());
            },
        };
        Ok(call_once_5(self, a1, a2, a3, a4, a5))
    }
}

impl<F, O, T1, T2, T3, T4, T5> DiFactory<O, (Arc<T1>, Arc<T2>, Arc<T3>, Arc<T4>, Arc<T5>,)> for F where
    F: Fn(Arc<T1>, Arc<T2>, Arc<T3>, Arc<T4>, Arc<T5>) -> O + 'static,
    O: 'static,
    T1: ?Sized + 'static,
    T2: ?Sized + 'static,
    T3: ?Sized + 'static,
    T4: ?Sized + 'static,
    T5: ?Sized + 'static,
 {
    fn produce(&self, services: &Services) -> Result<O, Error> {
        let a1 = match services.resolve::<T1>() {
            Some(x) => x,
            None => {
                return Err(Error::missing::<T1>());
            },
        };
        let a2 = match services.resolve::<T2>() {
            Some(x) => x,
            None => {
                return Err(Error::missing::<T2>());
            },
        };
        let a3 = match services.resolve::<T3>() {
            Some(x) => x,
            None => {
                return Err(Error::missing::<T3>());
            },
        };
        let a4 = match services.resolve::<T4>() {
            Some(x) => x,
            None => {
                return Err(Error::missing::<T4>());
            },
        };
        let a5 = match services.resolve::<T5>() {
            Some(x) => x,
            None => {
                return Err(Error::missing::<T5>());
            },
        };
        Ok(call_5(self, a1, a2, a3, a4, a5))
    }
}

/// Calls `f` with 6 argument(s).
#[verifier::external_body]
fn call_once_6<F: FnOnce(Arc<T1>, Arc<T2>, Arc<T3>, Arc<T4>, Arc<T5>, Arc<T6>) -> O, O, T1: ?Sized, T2: ?Sized, T3: ?Sized, T4: ?Sized, T5: ?Sized, T6: ?Sized>(f: F, a1: Arc<T1>, a2: Arc<T2>, a3: Arc<T3>, a4: Arc<T4>, a5: Arc<T5>, a6: Arc<T6>) -> O {
    f(a1, a2, a3, a4, a5, a6)
}

/// Calls `f` with 6 argument(s).
#[verifier::external_body]
fn call_6<F: Fn(Arc<T1>, Arc<T2>, Arc<T3>, Arc<T4>, Arc<T5>, Arc<T6>) -> O, O, T1: ?Sized, T2: ?Sized, T3: ?Sized, T4: ?Sized, T5: ?Sized, T6: ?Sized>(f: &F, a1: Arc<T1>, a2: Arc<T2>, a3: Arc<T3>, a4: Arc<T4>, a5: Arc<T5>, a6: Arc<T6>) -> O {
    f(a1, a2, a3, a4, a5, a6)
}

/// A function of 6 shared instance(s) is a factory; its arguments are
/// resolved from the services.
impl<F, O, T1, T2, T3, T4, T5, T6> DiFactoryOnce<O, (Arc<T1>, Arc<T2>, Arc<T3>, Arc<T4>, Arc<T5>, Arc<T6>,)> for F where
    F: FnOnce(Arc<T1>, Arc<T2>, Arc<T3>, Arc<T4>, Arc<T5>, Arc<T6>) -> O + 'static,
    O: 'static,
    T1: ?Sized + 'static,
    T2: ?Sized + 'static,
    T3: ?Sized + 'static,
    T4: ?Sized + 'static,
    T5: ?Sized + 'static,
    T6: ?Sized + 'static,
 {
    open spec fn resolves(deps: Seq<TypeMeta>) -> bool {
        deps.len() == 6
            && is_meta_of::<T1>(deps[0])
            && is_meta_of::<T2>(deps[1])
            && is_meta_of::<T3>(deps[2])
            && is_meta_of::<T4>(deps[3])
            && is_meta_of::<T5>(deps[4])
            && is_meta_of::<T6>(deps[5])
    }

    fn depends_on() -> Vec<TypeMeta> {
        let mut deps: Vec<TypeMeta> = Vec::new();
        deps.push(TypeMeta::of::<T1>());
        deps.push(TypeMeta::of::<T2>());
        deps.push(TypeMeta::of::<T3>());
        deps.push(TypeMeta::of::<T4>());
        deps.push(TypeMeta::of::<T5>());
        deps.push(TypeMeta::of::<T6>());
        deps
    }

    fn produce(self, services: &Services) -> Result<O, Error> {
        let a1 = match services.resolve::<T1>() {
            Some(x) => x,
            None => {
                return Err(Error::missing::<T1>());
            },
        };
        let a2 = match services.resolve::<T2>() {
            Some(x) => x,
            None => {
                return Err(Error::missing::<T2>());
            },
        };
        let a3 = match services.resolve::<T3>() {
            Some(x) => x,
            None => {
                return Err(Error::missing::<T3>());
            },
        };
        let a4 = match services.resolve::<T4>() {
            Some(x) => x,
            None => {
                return Err(Error::missing::<T4>());
            },
        };
        let a5 = match services.resolve::<T5>() {
            Some(x) => x,
            None => {
                return Err(Error::missing::<T5>());
            },
        };
        let a6 = match services.resolve::<T6>() {
            Some(x) => x,
            None => {
                return Err(Error::missing::<T6>());
            },
        };
        Ok(call_once_6(self, a1, a2, a3, a4, a5, a6))
    }
}

impl<F, O, T1, T2, T3, T4, T5, T6> DiFactory<O, (Arc<T1>, Arc<T2>, Arc<T3>, Arc<T4>, Arc<T5>, Arc<T6>,)> for F where
    F: Fn(Arc<T1>, Arc<T2>, Arc<T3>, Arc<T4>, Arc<T5>, Arc<T6>) -> O + 'static,
    O: 'static,
    T1: ?Sized + 'static,
    T2: ?Sized + 'static,
    T3: ?Sized + 'static,
    T4: ?Sized + 'static,
    T5: ?Sized + 'static,
    T6: ?Sized + 'static,
 {
    fn produce(&self, services: &Services) -> Result<O, Error> {
        let a1 = match services.resolve::<T1>() {
            Some(x) => x,
            None => {
                return Err(Error::missing::<T1>());
            },
        };
        let a2 = match services.resolve::<T2>() {
            Some(x) => x,
            None => {
                return Err(Error::missing::<T2>());
            },
        };
        let a3 = match services.resolve::<T3>() {
            Some(x) => x,
            None => {
                return Err(Error::missing::<T3>());
            },
        };
        let a4 = match services.resolve::<T4>() {
            Some(x) => x,
            None => {
                return Err(Error::missing::<T4>());
            },
        };
        let a5 = match services.resolve::<T5>() {
            Some(x) => x,
            None => {
                return Err(Error::missing::<T5>());
            },
        };
        let a6 = match services.resolve::<T6>() {
            Some(x) => x,
            None => {
                return Err(Error::missing::<T6>());
            },
        };
        Ok(call_6(self, a1, a2, a3, a4, a5, a6))
    }
}

/// Calls `f` with 7 argument(s).
#[verifier::external_body]
fn call_once_7<F: FnOnce(Arc<T1>, Arc<T2>, Arc<T3>, Arc<T4>, Arc<T5>, Arc<T6>, Arc<T7>) -> O, O, T1: ?Sized, T2: ?Sized, T3: ?Sized, T4: ?Sized, T5: ?Sized, T6: ?Sized, T7: ?Sized>(f: F, a1: Arc<T1>, a2: Arc<T2>, a3: Arc<T3>, a4: Arc<T4>, a5: Arc<T5>, a6: Arc<T6>, a7: Arc<T7>) -> O {
    f(a1, a2, a3, a4, a5, a6, a7)
}

/// Calls `f` with 7 argument(s).
#[verifier::external_body]
fn call_7<F: Fn(Arc<T1>, Arc<T2>, Arc<T3>, Arc<T4>, Arc<T5>, Arc<T6>, Arc<T7>) -> O, O, T1: ?Sized, T2: ?Sized, T3: ?Sized, T4: ?Sized, T5: ?Sized, T6: ?Sized, T7: ?Sized>(f: &F, a1: Arc<T1>, a2: Arc<T2>, a3: Arc<T3>, a4: Arc<T4>, a5: Arc<T5>, a6: Arc<T6>, a7: Arc<T7>) -> O {
    f(a1, a2, a3, a4, a5, a6, a7)
}

/// A function of 7 shared instance(s) is a factory; its arguments are
/// resolved from the services.
impl<F, O, T1, T2, T3, T4, T5, T6, T7> DiFactoryOnce<O, (Arc<T1>, Arc<T2>, Arc<T3>, Arc<T4>, Arc<T5>, Arc<T6>, Arc<T7>,)> for F where
    F: FnOnce(Arc<T1>, Arc<T2>, Arc<T3>, Arc<T4>, Arc<T5>, Arc<T6>, Arc<T7>) -> O + 'static,
    O: 'static,
    T1: ?Sized + 'static,
    T2: ?Sized + 'static,
    T3: ?Sized + 'static,
    T4: ?Sized + 'static,
    T5: ?Sized + 'static,
    T6: ?Sized + 'static,
    T7: ?Sized + 'static,
 {
    open spec fn resolves(deps: Seq<TypeMeta>) -> bool {
        deps.len() == 7
            && is_meta_of::<T1>(deps[0])
            && is_meta_of::<T2>(deps[1])
            && is_meta_of::<T3>(deps[2])
            && is_meta_of::<T4>(deps[3])
            && is_meta_of::<T5>(deps[4])
            && is_meta_of::<T6>(deps[5])
            && is_meta_of::<T7>(deps[6])
    }

    fn depends_on() -> Vec<TypeMeta> {
        let mut deps: Vec<TypeMeta> = Vec::new();
        deps.push(TypeMeta::of::<T1>());
        deps.push(TypeMeta::of::<T2>());
        deps.push(TypeMeta::of::<T3>());
        deps.push(TypeMeta::of::<T4>());
        deps.push(TypeMeta::of::<T5>());
        deps.push(TypeMeta::of::<T6>());
        deps.push(TypeMeta::of::<T7>());
        deps
    }

    fn produce(self, services: &Services) -> Result<O, Error> {
        let a1 = match services.resolve::<T1>() {
            Some(x) => x,
            None => {
                return Err(Error::missing::<T1>());
            },
        };
        let a2 = match services.resolve::<T2>() {
            Some(x) => x,
            None => {
                return Err(Error::missing::<T2>());
            },
        };
        let a3 = match services.resolve::<T3>() {
            Some(x) => x,
            None => {
                return Err(Error::missing::<T3>());
            },
        };
        let a4 = match services.resolve::<T4>() {
            Some(x) => x,
            None => {
                return Err(Error::missing::<T4>());
            },
        };
        let a5 = match services.resolve::<T5>() {
            Some(x) => x,
            None => {
                return Err(Error::missing::<T5>());
            },
        };
        let a6 = match services.resolve::<T6>() {
            Some(x) => x,
            None => {
                return Err(Error::missing::<T6>());
            },
        };
        let a7 = match services.resolve::<T7>() {
            Some(x) => x,
            None => {
                return Err(Error::missing::<T7>());
            },
        };
        Ok(call_once_7(self, a1, a2, a3, a4, a5, a6, a7))
    }
}

impl<F, O, T1, T2, T3, T4, T5, T6, T7> DiFactory<O, (Arc<T1>, Arc<T2>, Arc<T3>, Arc<T4>, Arc<T5>, Arc<T6>, Arc<T7>,)> for F where
    F: Fn(Arc<T1>, Arc<T2>, Arc<T3>, Arc<T4>, Arc<T5>, Arc<T6>, Arc<T7>) -> O + 'static,
    O: 'static,
    T1: ?Sized + 'static,
    T2: ?Sized + 'static,
    T3: ?Sized + 'static,
    T4: ?Sized + 'static,
    T5: ?Sized + 'static,
    T6: ?Sized + 'static,
    T7: ?Sized + 'static,
 {
    fn produce(&self, services: &Services) -> Result<O, Error> {
        let a1 = match services.resolve::<T1>() {
            Some(x) => x,
            None => {
                return Err(Error::missing::<T1>());
            },
        };
        let a2 = match services.resolve::<T2>() {
            Some(x) => x,
            None => {
                return Err(Error::missing::<T2>());
            },
        };
        let a3 = match services.resolve::<T3>() {
            Some(x) => x,
            None => {
                return Err(Error::missing::<T3>());
            },
        };
        let a4 = match services.resolve::<T4>() {
            Some(x) => x,
            None => {
                return Err(Error::missing::<T4>());
            },
        };
        let a5 = match services.resolve::<T5>() {
            Some(x) => x,
            None => {
                return Err(Error::missing::<T5>());
            },
        };
        let a6 = match services.resolve::<T6>() {
            Some(x) => x,
            None => {
                return Err(Error::missing::<T6>());
            },
        };
        let a7 = match services.resolve::<T7>() {
            Some(x) => x,
            None => {
                return Err(Error::missing::<T7>());
            },
        };
        Ok(call_7(self, a1, a2, a3, a4, a5, a6, a7))
    }
}

/// Calls `f` with 8 argument(s).
#[verifier::external_body]
fn call_once_8<F: FnOnce(Arc<T1>, Arc<T2>, Arc<T3>, Arc<T4>, Arc<T5>, Arc<T6>, Arc<T7>, Arc<T8>) -> O, O, T1: ?Sized, T2: ?Sized, T3: ?Sized, T4: ?Sized, T5: ?Sized, T6: ?Sized, T7: ?Sized, T8: ?Sized>(f: F, a1: Arc<T1>, a2: Arc<T2>, a3: Arc<T3>, a4: Arc<T4>, a5: Arc<T5>, a6: Arc<T6>, a7: Arc<T7>, a8: Arc<T8>) -> O {
    f(a1, a2, a3, a4, a5, a6, a7, a8)
}

/// Calls `f` with 8 argument(s).
#[verifier::external_body]
fn call_8<F: Fn(Arc<T1>, Arc<T2>, Arc<T3>, Arc<T4>, Arc<T5>, Arc<T6>, Arc<T7>, Arc<T8>) -> O, O, T1: ?Sized, T2: ?Sized, T3: ?Sized, T4: ?Sized, T5: ?Sized, T6: ?Sized, T7: ?Sized, T8: ?Sized>(f: &F, a1: Arc<T1>, a2: Arc<T2>, a3: Arc<T3>, a4: Arc<T4>, a5: Arc<T5>, a6: Arc<T6>, a7: Arc<T7>, a8: Arc<T8>) -> O {
    f(a1, a2, a3, a4, a5, a6, a7, a8)
}

/// A function of 8 shared instance(s) is a factory; its arguments are
/// resolved from the services.
impl<F, O, T1, T2, T3, T4, T5, T6, T7, T8> DiFactoryOnce<O, (Arc<T1>, Arc<T2>, Arc<T3>, Arc<T4>, Arc<T5>, Arc<T6>, Arc<T7>, Arc<T8>,)> for F where
    F: FnOnce(Arc<T1>, Arc<T2>, Arc<T3>, Arc<T4>, Arc<T5>, Arc<T6>, Arc<T7>, Arc<T8>) -> O + 'static,
    O: 'static,
    T1: ?Sized + 'static,
    T2: ?Sized + 'static,
    T3: ?Sized + 'static,
    T4: ?Sized + 'static,
    T5: ?Sized + 'static,
    T6: ?Sized + 'static,
    T7: ?Sized + 'static,
    T8: ?Sized + 'static,
 {
    open spec fn resolves(deps: Seq<TypeMeta>) -> bool {
        deps.len() == 8
            && is_meta_of::<T1>(deps[0])
            && is_meta_of::<T2>(deps[1])
            && is_meta_of::<T3>(deps[2])
            && is_meta_of::<T4>(deps[3])
            && is_meta_of::<T5>(deps[4])
            && is_meta_of::<T6>(deps[5])
            && is_meta_of::<T7>(deps[6])
            && is_meta_of::<T8>(deps[7])
    }

    fn depends_on() -> Vec<TypeMeta> {
        let mut deps: Vec<TypeMeta> = Vec::new();
        deps.push(TypeMeta::of::<T1>());
        deps.push(TypeMeta::of::<T2>());
        deps.push(TypeMeta::of::<T3>());
        deps.push(TypeMeta::of::<T4>());
        deps.push(TypeMeta::of::<T5>());
        deps.push(TypeMeta::of::<T6>());
        deps.push(TypeMeta::of::<T7>());
        deps.push(TypeMeta::of::<T8>());
        deps
    }

    fn produce(self, services: &Services) -> Result<O, Error> {
        let a1 = match services.resolve::<T1>() {
            Some(x) => x,
            None => {
                return Err(Error::missing::<T1>());
            },
        };
        let a2 = match services.resolve::<T2>() {
            Some(x) => x,
            None => {
                return Err(Error::missing::<T2>());
            },
        };
        let a3 = match services.resolve::<T3>() {
            Some(x) => x,
            None => {
                return Err(Error::missing::<T3>());
            },
        };
        let a4 = match services.resolve::<T4>() {
            Some(x) => x,
            None => {
                return Err(Error::missing::<T4>());
            },
        };
        let a5 = match services.resolve::<T5>() {
            Some(x) => x,
            None => {
                return Err(Error::missing::<T5>());
            },
        };
        let a6 = match services.resolve::<T6>() {
            Some(x) => x,
            None => {
                return Err(Error::missing::<T6>());
            },
        };
        let a7 = match services.resolve::<T7>() {
            Some(x) => x,
            None => {
                return Err(Error::missing::<T7>());
            },
        };
        let a8 = match services.resolve::<T8>() {
            Some(x) => x,
            None => {
                return Err(Error::missing::<T8>());
            },
        };
        Ok(call_once_8(self, a1, a2, a3, a4, a5, a6, a7, a8))
    }
}

impl<F, O, T1, T2, T3, T4, T5, T6, T7, T8> DiFactory<O, (Arc<T1>, Arc<T2>, Arc<T3>, Arc<T4>, Arc<T5>, Arc<T6>, Arc<T7>, Arc<T8>,)> for F where
    F: Fn(Arc<T1>, Arc<T2>, Arc<T3>, Arc<T4>, Arc<T5>, Arc<T6>, Arc<T7>, Arc<T8>) -> O + 'static,
    O: 'static,
    T1: ?Sized + 'static,
    T2: ?Sized + 'static,
    T3: ?Sized + 'static,
    T4: ?Sized + 'static,
    T5: ?Sized + 'static,
    T6: ?Sized + 'static,
    T7: ?Sized + 'static,
    T8: ?Sized + 'static,
 {
    fn produce(&self, services: &Services) -> Result<O, Error> {
        let a1 = match services.resolve::<T1>() {
            Some(x) => x,
            None => {
                return Err(Error::missing::<T1>());
            },
        };
        let a2 = match services.resolve::<T2>() {
            Some(x) => x,
            None => {
                return Err(Error::missing::<T2>());
            },
        };
        let a3 = match services.resolve::<T3>() {
            Some(x) => x,
            None => {
                return Err(Error::missing::<T3>());
            },
        };
        let a4 = match services.resolve::<T4>() {
            Some(x) => x,
            None => {
                return Err(Error::missing::<T4>());
            },
        };
        let a5 = match services.resolve::<T5>() {
            Some(x) => x,
            None => {
                return Err(Error::missing::<T5>());
            },
        };
        let a6 = match services.resolve::<T6>() {
            Some(x) => x,
            None => {
                return Err(Error::missing::<T6>());
            },
        };
        let a7 = match services.resolve::<T7>() {
            Some(x) => x,
            None => {
                return Err(Error::missing::<T7>());
            },
        };
        let a8 = match services.resolve::<T8>() {
            Some(x) => x,
            None => {
                return Err(Error::missing::<T8>());
            },
        };
        Ok(call_8(self, a1, a2, a3, a4, a5, a6, a7, a8))
    }
}

/// Calls `f` with 9 argument(s).
#[verifier::external_body]
fn call_once_9<F: FnOnce(Arc<T1>, Arc<T2>, Arc<T3>, Arc<T4>, Arc<T5>, Arc<T6>, Arc<T7>, Arc<T8>, Arc<T9>) -> O, O, T1: ?Sized, T2: ?Sized, T3: ?Sized, T4: ?Sized, T5: ?Sized, T6: ?Sized, T7: ?Sized, T8: ?Sized, T9: ?Sized>(f: F, a1: Arc<T1>, a2: Arc<T2>, a3: Arc<T3>, a4: Arc<T4>, a5: Arc<T5>, a6: Arc<T6>, a7: Arc<T7>, a8: Arc<T8>, a9: Arc<T9>) -> O {
    f(a1, a2, a3, a4, a5, a6, a7, a8, a9)
}

/// Calls `f` with 9 argument(s).
#[verifier::external_body]
fn call_9<F: Fn(Arc<T1>, Arc<T2>, Arc<T3>, Arc<T4>, Arc<T5>, Arc<T6>, Arc<T7>, Arc<T8>, Arc<T9>) -> O, O, T1: ?Sized, T2: ?Sized, T3: ?Sized, T4: ?Sized, T5: ?Sized, T6: ?Sized, T7: ?Sized, T8: ?Sized, T9: ?Sized>(f: &F, a1: Arc<T1>, a2: Arc<T2>, a3: Arc<T3>, a4: Arc<T4>, a5: Arc<T5>, a6: Arc<T6>, a7: Arc<T7>, a8: Arc<T8>, a9: Arc<T9>) -> O {
    f(a1, a2, a3, a4, a5, a6, a7, a8, a9)
}

/// A function of 9 shared instance(s) is a factory; its arguments are
/// resolved from the services.
impl<F, O, T1, T2, T3, T4, T5, T6, T7, T8, T9> DiFactoryOnce<O, (Arc<T1>, Arc<T2>, Arc<T3>, Arc<T4>, Arc<T5>, Arc<T6>, Arc<T7>, Arc<T8>, Arc<T9>,)> for F where
    F: FnOnce(Arc<T1>, Arc<T2>, Arc<T3>, Arc<T4>, Arc<T5>, Arc<T6>, Arc<T7>, Arc<T8>, Arc<T9>) -> O + 'static,
    O: 'static,
    T1: ?Sized + 'static,
    T2: ?Sized + 'static,
    T3: ?Sized + 'static,
    T4: ?Sized + 'static,
    T5: ?Sized + 'static,
    T6: ?Sized + 'static,
    T7: ?Sized + 'static,
    T8: ?Sized + 'static,
    T9: ?Sized + 'static,
 {
    open spec fn resolves(deps: Seq<TypeMeta>) -> bool {
        deps.len() == 9
            && is_meta_of::<T1>(deps[0])
            && is_meta_of::<T2>(deps[1])
            && is_meta_of::<T3>(deps[2])
            && is_meta_of::<T4>(deps[3])
            && is_meta_of::<T5>(deps[4])
            && is_meta_of::<T6>(deps[5])
            && is_meta_of::<T7>(deps[6])
            && is_meta_of::<T8>(deps[7])
            && is_meta_of::<T9>(deps[8])
    }

    fn depends_on() -> Vec<TypeMeta> {
        let mut deps: Vec<TypeMeta> = Vec::new();
        deps.push(TypeMeta::of::<T1>());
        deps.push(TypeMeta::of::<T2>());
        deps.push(TypeMeta::of::<T3>());
        deps.push(TypeMeta::of::<T4>());
        deps.push(TypeMeta::of::<T5>());
        deps.push(TypeMeta::of::<T6>());
        deps.push(TypeMeta::of::<T7>());
        deps.push(TypeMeta::of::<T8>());
        deps.push(TypeMeta::of::<T9>());
        deps
    }

    fn produce(self, services: &Services) -> Result<O, Error> {
        let a1 = match services.resolve::<T1>() {
            Some(x) => x,
            None => {
                return Err(Error::missing::<T1>());
            },
        };
        let a2 = match services.resolve::<T2>() {
            Some(x) => x,
            None => {
                return Err(Error::missing::<T2>());
            },
        };
        let a3 = match services.resolve::<T3>() {
            Some(x) => x,
            None => {
                return Err(Error::missing::<T3>());
            },
        };
        let a4 = match services.resolve::<T4>() {
            Some(x) => x,
            None => {
                return Err(Error::missing::<T4>());
            },
        };
        let a5 = match services.resolve::<T5>() {
            Some(x) => x,
            None => {
                return Err(Error::missing::<T5>());
            },
        };
        let a6 = match services.resolve::<T6>() {
            Some(x) => x,
            None => {
                return Err(Error::missing::<T6>());
            },
        };
        let a7 = match services.resolve::<T7>() {
            Some(x) => x,
            None => {
                return Err(Error::missing::<T7>());
            },
        };
        let a8 = match services.resolve::<T8>() {
            Some(x) => x,
            None => {
                return Err(Error::missing::<T8>());
            },
        };
        let a9 = match services.resolve::<T9>() {
            Some(x) => x,
            None => {
                return Err(Error::missing::<T9>());
            },
        };
        Ok(call_once_9(self, a1, a2, a3, a4, a5, a6, a7, a8, a9))
    }
}

impl<F, O, T1, T2, T3, T4, T5, T6, T7, T8, T9> DiFactory<O, (Arc<T1>, Arc<T2>, Arc<T3>, Arc<T4>, Arc<T5>, Arc<T6>, Arc<T7>, Arc<T8>, Arc<T9>,)> for F where
    F: Fn(Arc<T1>, Arc<T2>, Arc<T3>, Arc<T4>, Arc<T5>, Arc<T6>, Arc<T7>, Arc<T8>, Arc<T9>) -> O + 'static,
    O: 'static,
    T1: ?Sized + 'static,
    T2: ?Sized + 'static,
    T3: ?Sized + 'static,
    T4: ?Sized + 'static,
    T5: ?Sized + 'static,
    T6: ?Sized + 'static,
    T7: ?Sized + 'static,
    T8: ?Sized + 'static,
    T9: ?Sized + 'static,
 {
    fn produce(&self, services: &Services) -> Result<O, Error> {
        let a1 = match services.resolve::<T1>() {
            Some(x) => x,
            None => {
                return Err(Error::missing::<T1>());
            },
        };
        let a2 = match services.resolve::<T2>() {
            Some(x) => x,
            None => {
                return Err(Error::missing::<T2>());
            },
        };
        let a3 = match services.resolve::<T3>() {
            Some(x) => x,
            None => {
                return Err(Error::missing::<T3>());
            },
        };
        let a4 = match services.resolve::<T4>() {
            Some(x) => x,
            None => {
                return Err(Error::missing::<T4>());
            },
        };
        let a5 = match services.resolve::<T5>() {
            Some(x) => x,
            None => {
                return Err(Error::missing::<T5>());
            },
        };
        let a6 = match services.resolve::<T6>() {
            Some(x) => x,
            None => {
                return Err(Error::missing::<T6>());
            },
        };
        let a7 = match services.resolve::<T7>() {
            Some(x) => x,
            None => {
                return Err(Error::missing::<T7>());
            },
        };
        let a8 = match services.resolve::<T8>() {
            Some(x) => x,
            None => {
                return Err(Error::missing::<T8>());
            },
        };
        let a9 = match services.resolve::<T9>() {
            Some(x) => x,
            None => {
                return Err(Error::missing::<T9>());
            },
        };
        Ok(call_9(self, a1, a2, a3, a4, a5, a6, a7, a8, a9))
    }
}


/// Producing `Resolved<T>` gives the instance from the last source bound
/// under the type `T` (for a type bound with one shared instance, that very
/// instance), or reports `T` missing.
pub proof fn law_resolved_is_the_last_source<T: ?Sized + 'static>(
    services: Services,
    r: Result<Arc<T>, Error>,
)
    requires
        <Arc<T> as FromDi>::produce.ensures((&services,), r),
    ensures
        r matches Ok(a) ==> exists|m: TypeMeta|
            #[trigger] is_meta_of::<T>(m) && services@.contains_key(m.key()) && sources(
                services@[m.key()],
            ).len() > 0 && taken_from::<T>(
                services,
                services@[m.key()],
                sources(services@[m.key()]).len() - 1,
                a,
            ) && (services@[m.key()] matches ImmutableBinding::Type {
                binding: ImmutableTypeBinding::Singleton(x),
            } ==> ErasedArc::coerce::<T>.ensures((&x,), Some(a))),
        r matches Err(e) ==> e matches Error::Missing { type_meta } && is_meta_of::<T>(type_meta),
{
    if r is Ok {
        let a = r->Ok_0;
        assert(resolved_last::<T>(services, a));
        let m = choose|m: TypeMeta|
            #[trigger] is_meta_of::<T>(m) && services@.contains_key(m.key()) && sources(
                services@[m.key()],
            ).len() > 0 && taken_from::<T>(
                services,
                services@[m.key()],
                sources(services@[m.key()]).len() - 1,
                a,
            );
        assert(is_meta_of::<T>(m));
    }
}

/// Producing `ResolvedMany<T>` gives one instance per source bound under
/// the type `T` (each implementation of an alias, or the type's own
/// instance), in binding order, or reports `T` missing.
pub proof fn law_resolved_many_is_every_source<T: ?Sized + 'static>(
    services: Services,
    r: Result<Vec<Arc<T>>, Error>,
)
    requires
        <Vec<Arc<T>> as FromDi>::produce.ensures((&services,), r),
    ensures
        r matches Ok(v) ==> exists|m: TypeMeta|
            #[trigger] is_meta_of::<T>(m) && services@.contains_key(m.key()) && v@.len() == sources(
                services@[m.key()],
            ).len() && forall|i: int|
                0 <= i < v@.len() ==> taken_from::<T>(
                    services,
                    services@[m.key()],
                    i,
                    #[trigger] v@[i],
                ),
        r matches Err(e) ==> e matches Error::Missing { type_meta } && is_meta_of::<T>(type_meta),
{
    if r is Ok {
        assert(resolved_all::<T>(services, r->Ok_0@));
    }
}

/// A function of one shared instance, used as a factory, depends on exactly
/// the type of its argument.
pub proof fn law_one_argument_factory_depends_on_its_argument<F, O, T1: ?Sized + 'static>(
    deps: Vec<TypeMeta>,
) where F: FnOnce(Arc<T1>) -> O + 'static, O: 'static
    requires
        <F as DiFactoryOnce<O, (Arc<T1>,)>>::depends_on.ensures((), deps),
    ensures
        deps@.len() == 1,
        is_meta_of::<T1>(deps@[0]),
{
}

/// A function of two shared instances, used as a factory, depends on
/// exactly the types of its arguments, one per argument, in order.
pub proof fn law_two_argument_factory_depends_on_its_arguments<
    F,
    O,
    T1: ?Sized + 'static,
    T2: ?Sized + 'static,
>(deps: Vec<TypeMeta>) where F: FnOnce(Arc<T1>, Arc<T2>) -> O + 'static, O: 'static
    requires
        <F as DiFactoryOnce<O, (Arc<T1>, Arc<T2>,)>>::depends_on.ensures((), deps),
    ensures
        deps@.len() == 2,
        is_meta_of::<T1>(deps@[0]),
        is_meta_of::<T2>(deps@[1]),
{
}

} // verus!
