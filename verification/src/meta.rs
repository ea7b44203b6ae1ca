//! Runtime identity of a type: its `TypeId` together with a readable name.

use std::any::TypeId;
use vstd::prelude::*;
use vstd::std_specs::cmp::PartialEqSpecImpl;

verus! {

#[verifier::external_type_specification]
#[verifier::external_body]
pub struct ExTypeId(TypeId);

/// Calls `std::any::TypeId::of::<T>()`. Nothing is claimed of the result.
#[verifier::external_body]
fn type_id_of<T: ?Sized + 'static>() -> TypeId {
    TypeId::of::<T>()
}

/// Formats a `TypeId` with its `Debug` impl. Nothing is claimed of the text.
#[verifier::external_body]
fn type_id_text(id: &TypeId) -> String {
    format!("{:?}", id)
}

/// Compares two `TypeId`s with `==`. `TypeId`'s equality compares the one
/// value it holds, so the claim is that `==` coincides with equality of the
/// two values.
#[verifier::external_body]
fn type_id_eq(a: &TypeId, b: &TypeId) -> (r: bool)
    ensures
        r == (*a == *b),
{
    *a == *b
}

/// `m` is the meta of `T`: a value that `TypeMeta::of::<T>()` returns, so
/// that its key is the `TypeId` of `T`.
pub open spec fn is_meta_of<T: ?Sized + 'static>(m: TypeMeta) -> bool {
    TypeMeta::of::<T>.ensures((), m)
}

/// A wrapper over `TypeId` that may also carry a name of the type, for
/// messages. Two metas are equal when their `TypeId`s are; the name plays no
/// part.
#[derive(Clone, Copy, Debug)]
pub struct TypeMeta {
    type_id: TypeId,
    label: Option<&'static str>,
}

impl TypeMeta {
    /// The identity of the described type: what equality of metas compares.
    pub closed spec fn key(&self) -> TypeId {
        self.type_id
    }

    /// The name carried by this meta, if it was given one.
    pub closed spec fn label_view(&self) -> Option<Seq<char>> {
        match self.label {
            Some(l) => Some(l@),
            None => None,
        }
    }

    /// The meta of `T`, without a name.
    pub fn of<T: ?Sized + 'static>() -> (r: TypeMeta)
        ensures
            r.label_view() is None,
    {
        TypeMeta { type_id: type_id_of::<T>(), label: None }
    }

    /// The meta of `T`, named by `name`.
    pub fn of_name<T: ?Sized + 'static>(name: &'static str) -> (r: TypeMeta)
        ensures
            r.label_view() == Some(name@),
            exists|m: TypeMeta| #[trigger] is_meta_of::<T>(m) && m.key() == r.key(),
    {
        let m = TypeMeta::of::<T>();
        let r = TypeMeta { type_id: m.type_id, label: Some(name) };
        proof {
            assert(is_meta_of::<T>(m));
        }
        r
    }

    /// The name given to this meta, if any.
    pub fn label(&self) -> (r: Option<&'static str>)
        ensures
            r matches Some(l) ==> self.label_view() == Some(l@),
            r is None <==> self.label_view() is None,
    {
        self.label
    }

    /// The text that stands for this type in messages: its given name, or
    /// else the `Debug` text of its `TypeId`.
    pub fn name(&self) -> (r: String)
        ensures
            self.label_view() matches Some(l) ==> r@ == l,
    {
        match self.label {
            Some(l) => l.to_string(),
            None => type_id_text(&self.type_id),
        }
    }

    /// Whether two metas describe the same type.
    pub fn same(&self, other: &TypeMeta) -> (r: bool)
        ensures
            r == (self.key() == other.key()),
    {
        type_id_eq(&self.type_id, &other.type_id)
    }
}

impl PartialEq for TypeMeta {
    fn eq(&self, other: &Self) -> (r: bool) {
        type_id_eq(&self.type_id, &other.type_id)
    }
}

impl Eq for TypeMeta {}

impl PartialEqSpecImpl for TypeMeta {
    open spec fn obeys_eq_spec() -> bool {
        true
    }

    open spec fn eq_spec(&self, other: &TypeMeta) -> bool {
        self.key() == other.key()
    }
}

} // verus!
