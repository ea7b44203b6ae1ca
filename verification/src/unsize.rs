//! Turning a shared concrete instance into a shared instance of a trait.

use crate::erased::{any_from_arc, arc_share, AnyArc, ErasedArc};
use crate::meta::{is_meta_of, TypeMeta};
use std::marker::PhantomData;
use std::sync::Arc;
use vstd::prelude::*;

verus! {

/// Why an unsizing was refused.
#[derive(Debug, PartialEq, Eq, Structural)]
pub enum Error {
    /// The function returned an instance other than the one it was given.
    MismatchedData,
    /// The instance, or the requested result, is not of the types that the
    /// unsizer was made for.
    MismatchedTypes,
}

/// Calls the unsizing function on `arc`.
#[verifier::external_body]
fn call_unsize<T, K: ?Sized, F: Fn(Arc<T>) -> Arc<K>>(f: &F, arc: Arc<T>) -> Arc<K> {
    f(arc)
}

/// Whether both shared pointers point to the same data (`std::ptr::addr_eq`
/// on their `Arc::as_ptr`).
#[verifier::external_body]
fn same_allocation<T: ?Sized, K: ?Sized>(a: &Arc<T>, b: &Arc<K>) -> bool {
    std::ptr::addr_eq(Arc::as_ptr(a), Arc::as_ptr(b))
}

/// `Arc<K>` is a thin pointer, one word wide: `K` is sized, not a trait
/// object or a slice, so nothing can be unsized into it.
pub open spec fn thin_arc<K: ?Sized>() -> bool {
    vstd::layout::size_of::<Arc<K>>() == vstd::layout::size_of::<usize>()
}

/// A type-erased unsizing step: reads an instance, applies the function,
/// and tells whether the result points to the same data.
pub trait Unsize {
    fn apply(&self, arc: &ErasedArc) -> Option<(AnyArc, bool)>;
}

/// An unsizing function from `Arc<T>` to `Arc<K>`.
pub struct TypedUnsize<T, K: ?Sized, F> {
    fun: F,
    ph: PhantomData<(Arc<T>, Arc<K>)>,
}

impl<T: 'static, K: ?Sized + 'static, F: Fn(Arc<T>) -> Arc<K> + 'static> Unsize for TypedUnsize<
    T,
    K,
    F,
> {
    fn apply(&self, arc: &ErasedArc) -> Option<(AnyArc, bool)> {
        match arc.coerce::<T>() {
            Some(input) => {
                let kept = arc_share(&input);
                let output = call_unsize(&self.fun, input);
                let same = same_allocation(&kept, &output);
                Some((any_from_arc(output), same))
            },
            None => None,
        }
    }
}

/// Keeps an unsizing function as a shared trait object.
#[verifier::external_body]
fn erase_unsize<U: Unsize + 'static>(type_in: TypeMeta, type_out: TypeMeta, u: U) -> (r:
    ErasedUnsizer)
    ensures
        r.type_in_view() == type_in,
        r.type_out_view() == type_out,
{
    ErasedUnsizer { type_in, type_out, fun: Arc::new(u) }
}

/// Clones the shared unsizing function (`Arc::clone`); the clone is the same
/// value.
#[verifier::external_body]
fn share_unsizer(u: &ErasedUnsizer) -> (r: ErasedUnsizer)
    ensures
        r == *u,
{
    ErasedUnsizer { type_in: u.type_in, type_out: u.type_out, fun: u.fun.clone() }
}

/// What unsizing gives, from what applying the function gave: `None` when
/// the instance was not of the input type; otherwise the output, kept under
/// `type_out`, when it points to the data of the input, and an error when it
/// points elsewhere.
pub fn unsize_outcome(type_out: TypeMeta, applied: Option<(AnyArc, bool)>) -> (r: Result<
    ErasedArc,
    Error,
>)
    ensures
        applied is None ==> r == Err::<ErasedArc, Error>(Error::MismatchedTypes),
        applied matches Some(p) ==> (p.1 ==> r == Ok::<ErasedArc, Error>(
            ErasedArc::made_of(type_out, p.0),
        )) && (!p.1 ==> r == Err::<ErasedArc, Error>(Error::MismatchedData)),
        r matches Ok(out) ==> out.ty_view() == type_out,
{
    match applied {
        Some((data, same)) => {
            if !same {
                return Err(Error::MismatchedData);
            }
            Ok(ErasedArc::from_parts(type_out, data))
        },
        None => Err(Error::MismatchedTypes),
    }
}

/// A type-erased function that turns an `Arc<In>` into an `Arc<Out>`.
pub struct ErasedUnsizer {
    type_in: TypeMeta,
    type_out: TypeMeta,
    fun: Arc<dyn Unsize>,
}

impl ErasedUnsizer {
    pub closed spec fn type_in_view(&self) -> TypeMeta {
        self.type_in
    }

    pub closed spec fn type_out_view(&self) -> TypeMeta {
        self.type_out
    }

    /// Makes an unsizer from `func`; `None` when `Arc<K>` is a thin pointer,
    /// that is when `K` is not a trait object or a slice.
    pub fn try_from<T: 'static, K: ?Sized + 'static, F: Fn(Arc<T>) -> Arc<K> + 'static>(
        func: F,
    ) -> (r: Option<Self>)
        ensures
            r is None <==> thin_arc::<K>(),
            r matches Some(u) ==> u.type_in_view().label_view() is None
                && u.type_out_view().label_view() is None,
            r matches Some(u) ==> is_meta_of::<T>(u.type_in_view()) && is_meta_of::<K>(
                u.type_out_view(),
            ),
    {
        if std::mem::size_of::<Arc<K>>() == std::mem::size_of::<usize>() {
            return None;
        }
        let type_in = TypeMeta::of::<T>();
        let type_out = TypeMeta::of::<K>();
        Some(erase_unsize(type_in, type_out, TypedUnsize::<T, K, F> { fun: func, ph: PhantomData }))
    }

    /// The meta of the accepted instances.
    pub fn type_in(&self) -> (r: TypeMeta)
        ensures
            r == self.type_in_view(),
    {
        self.type_in
    }

    /// The meta of the produced instances.
    pub fn type_out(&self) -> (r: TypeMeta)
        ensures
            r == self.type_out_view(),
    {
        self.type_out
    }

    /// Another handle to the same unsizer.
    pub fn share(&self) -> (r: ErasedUnsizer)
        ensures
            r == *self,
    {
        share_unsizer(self)
    }

    /// Applies the unsizer to a type-erased instance; the result is stored
    /// under the output meta.
    pub fn unsize_erased(&self, arc: &ErasedArc) -> (r: Result<ErasedArc, Error>)
        ensures
            self.type_in_view().key() != arc.ty_view().key() ==> r == Err::<
                ErasedArc,
                Error,
            >(Error::MismatchedTypes),
            r matches Ok(out) ==> self.type_in_view().key() == arc.ty_view().key()
                && out.ty_view() == self.type_out_view(),
    {
        if !self.type_in.same(&arc.ty()) {
            return Err(Error::MismatchedTypes);
        }
        unsize_outcome(self.type_out, self.fun.apply(arc))
    }

    /// Applies the unsizer to a type-erased instance, giving an `Arc<K>`.
    pub fn unsize<K: ?Sized + 'static>(&self, arc: ErasedArc) -> (r: Result<Arc<K>, Error>)
        ensures
            self.type_in_view().key() != arc.ty_view().key() ==> r == Err::<
                Arc<K>,
                Error,
            >(Error::MismatchedTypes),
            r is Ok ==> self.type_in_view().key() == arc.ty_view().key(),
    {
        if !self.type_in.same(&arc.ty()) {
            return Err(Error::MismatchedTypes);
        }
        if !self.type_out.same(&TypeMeta::of::<K>()) {
            return Err(Error::MismatchedTypes);
        }
        match self.unsize_erased(&arc) {
            Ok(out) => match out.coerce::<K>() {
                Some(x) => Ok(x),
                None => Err(Error::MismatchedTypes),
            },
            Err(e) => Err(e),
        }
    }
}

} // verus!
