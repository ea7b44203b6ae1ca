//! Type-erased shared instances.

use crate::meta::TypeMeta;
use std::any::Any;
use std::sync::Arc;
use vstd::prelude::*;

verus! {

/// A shared, type-erased payload: an `Arc<dyn Any>` that holds an `Arc<T>`.
/// It is opaque: only the wrappers below touch its field.
#[verifier::external_body]
pub struct AnyArc {
    inner: Arc<dyn Any>,
}

/// Wraps an `Arc<T>` as the payload of an `Arc<dyn Any>` (`Arc::new`).
#[verifier::external_body]
pub(crate) fn any_from_arc<T: ?Sized + 'static>(arc: Arc<T>) -> AnyArc {
    AnyArc { inner: Arc::new(arc) }
}

/// Clones the shared pointer (`Arc::clone`): the clone points to the same
/// allocation, so it is the same value.
#[verifier::external_body]
fn any_share(a: &AnyArc) -> (r: AnyArc)
    ensures
        r == *a,
{
    AnyArc { inner: a.inner.clone() }
}

/// Reads the payload back as an `Arc<T>` (`downcast_ref`, then `Arc::clone`).
/// `None` when the payload is not an `Arc<T>`. Nothing else is claimed.
#[verifier::external_body]
fn any_downcast<T: ?Sized + 'static>(a: &AnyArc) -> Option<Arc<T>> {
    a.inner.downcast_ref::<Arc<T>>().cloned()
}

/// Another handle to the same allocation (`Arc::clone`), which is the same
/// value.
#[verifier::external_body]
pub(crate) fn arc_share<T: ?Sized>(a: &Arc<T>) -> (r: Arc<T>)
    ensures
        r == *a,
{
    a.clone()
}

/// Allows storing heterogeneous instances in one collection: a shared
/// instance together with the meta of its type.
pub struct ErasedArc {
    ty: TypeMeta,
    data: AnyArc,
}

impl ErasedArc {
    /// The meta that the instance was stored under.
    pub closed spec fn ty_view(&self) -> TypeMeta {
        self.ty
    }

    /// Stores `instance` in a new shared allocation, under the meta of `T`.
    pub fn from_instance<T: 'static>(instance: T) -> (r: ErasedArc)
        ensures
            r.ty_view().label_view() is None,
    {
        Self::from(Arc::new(instance))
    }

    /// Stores a shared instance, under the meta of `T`.
    pub fn from<T: ?Sized + 'static>(instance: Arc<T>) -> (r: ErasedArc)
        ensures
            r.ty_view().label_view() is None,
    {
        ErasedArc { ty: TypeMeta::of::<T>(), data: any_from_arc(instance) }
    }

    /// The instance made of the payload `data` under the meta `ty`.
    pub closed spec fn made_of(ty: TypeMeta, data: AnyArc) -> ErasedArc {
        ErasedArc { ty, data }
    }

    /// Keeps the payload of `data` under the meta `ty`.
    pub(crate) fn from_parts(ty: TypeMeta, data: AnyArc) -> (r: ErasedArc)
        ensures
            r == ErasedArc::made_of(ty, data),
            r.ty_view() == ty,
    {
        ErasedArc { ty, data }
    }

    /// The meta that the instance was stored under.
    pub fn ty(&self) -> (r: TypeMeta)
        ensures
            r == self.ty_view(),
    {
        self.ty
    }

    /// Another handle to the same instance.
    pub fn share(&self) -> (r: ErasedArc)
        ensures
            r == *self,
    {
        ErasedArc { ty: self.ty, data: any_share(&self.data) }
    }

    /// The instance as an `Arc<T>`; `None` when it was not stored under the
    /// meta of `T`.
    pub fn coerce<T: ?Sized + 'static>(&self) -> (r: Option<Arc<T>>) {
        if self.ty.same(&TypeMeta::of::<T>()) {
            any_downcast::<T>(&self.data)
        } else {
            None
        }
    }
}

} // verus!
