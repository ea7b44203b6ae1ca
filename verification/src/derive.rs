//! The decisions of the `FromDi` derive: how each field of a struct is
//! filled, which fields are dependencies, and which inputs are refused.
//! The derive itself reads the struct and writes code; these functions
//! decide from what it read.

use vstd::prelude::*;

verus! {

/// How a field of a derived struct is filled.
#[derive(Debug, Clone, Copy, PartialEq, Eq, Structural)]
pub enum FieldBindingKind {
    /// The last instance of the field's type.
    ResolveOne,
    /// All instances of the field's type.
    ResolveMany,
    /// `Default::default()`.
    Default,
    /// A clone of the resolved instance of the field's type.
    Clone,
    /// An expression given in the attribute.
    Init,
}

impl Default for FieldBindingKind {
    /// A field without an attribute resolves one instance.
    fn default() -> (r: Self)
        ensures
            r == FieldBindingKind::ResolveOne,
    {
        FieldBindingKind::ResolveOne
    }
}

/// How the declared type of a field is rewritten.
#[derive(Debug, Clone, Copy, PartialEq, Eq, Structural)]
pub enum FieldWrap {
    /// `Resolved<T>`.
    Resolved,
    /// `ResolvedMany<T>`.
    ResolvedMany,
    /// Left as it is.
    Unchanged,
}

impl FieldBindingKind {
    /// Whether filling the field resolves its type from the services, so
    /// that the type is a dependency.
    pub fn is_resolved(&self) -> (r: bool)
        ensures
            r == (*self is ResolveOne || *self is ResolveMany || *self is Clone),
    {
        match self {
            FieldBindingKind::ResolveOne => true,
            FieldBindingKind::ResolveMany => true,
            FieldBindingKind::Clone => true,
            _ => false,
        }
    }

    /// How the field's declared type is rewritten: a resolved field holds
    /// the shared instance, or all of them.
    pub fn wrap(&self) -> (r: FieldWrap)
        ensures
            *self is ResolveOne ==> r is Resolved,
            *self is ResolveMany ==> r is ResolvedMany,
            !(*self is ResolveOne || *self is ResolveMany) ==> r is Unchanged,
    {
        match self {
            FieldBindingKind::ResolveOne => FieldWrap::Resolved,
            FieldBindingKind::ResolveMany => FieldWrap::ResolvedMany,
            _ => FieldWrap::Unchanged,
        }
    }
}

/// The shape of the struct that the derive is applied to.
#[derive(Debug, Clone, Copy, PartialEq, Eq, Structural)]
pub enum StructShape {
    /// Fields with names.
    Named,
    /// A tuple struct.
    Unnamed,
    /// A struct without fields.
    Unit,
}

/// A key of a field's `#[di(...)]` attribute, as the derive reads it.
#[derive(Debug, Clone, Copy, PartialEq, Eq, Structural)]
pub enum DiKey {
    Default,
    Clone,
    One,
    Many,
    /// `init = <expr>`: whether a value was assigned, and whether it reads
    /// as an expression.
    Init { assigned: bool, parsed: bool },
    /// Any other key; it sets nothing.
    Other,
}

/// An argument of the `#[from_di(...)]` attribute, as the derive reads it.
#[derive(Debug, Clone, Copy, PartialEq, Eq, Structural)]
pub enum MacroArg {
    /// Not of the form `key = value`; it is skipped.
    Bare,
    /// `postfix = value`; whether the value is a function path or a
    /// closure.
    Postfix { callable: bool },
    /// `key = value` with another key.
    Other,
}

/// Why the derive refuses its input.
#[derive(Debug, Clone, Copy, PartialEq, Eq, Structural)]
pub enum DeriveError {
    TupleStruct,
    UnitStruct,
    /// A field's attribute names a second key after the one that set its
    /// kind.
    SeveralKinds,
    /// `init` without a value.
    InitNotAssigned,
    /// The value of `init`, the `key`-th key, is not an expression.
    InitUnparsed { key: usize },
    /// The `arg`-th argument gives `postfix` something else than a function
    /// path or a closure.
    PostfixNotCallable { arg: usize },
    /// The `arg`-th argument has a key that the attribute does not know.
    UnknownKey { arg: usize },
}

impl DeriveError {
    /// The text of the error; `None` for an unreadable `init` value, which
    /// the parser describes.
    pub fn message(&self) -> (r: Option<&'static str>)
        ensures
            *self is TupleStruct ==> r == Some("Tuple structs are not supported"),
            *self is UnitStruct ==> r == Some("Unit structs are not supported"),
            *self is SeveralKinds ==> r == Some("#[di()] can only define a single resolution kind"),
            *self is InitNotAssigned ==> r == Some(
                "init must be on the left side of an assignment expression",
            ),
            *self is InitUnparsed ==> r is None,
            *self is PostfixNotCallable ==> r == Some(
                "Expected a function path (e.g., Self::postfix) or a closure",
            ),
            *self is UnknownKey ==> r == Some("Unknown attribute key"),
    {
        match self {
            DeriveError::TupleStruct => Some("Tuple structs are not supported"),
            DeriveError::UnitStruct => Some("Unit structs are not supported"),
            DeriveError::SeveralKinds => Some("#[di()] can only define a single resolution kind"),
            DeriveError::InitNotAssigned => Some(
                "init must be on the left side of an assignment expression",
            ),
            DeriveError::InitUnparsed { .. } => None,
            DeriveError::PostfixNotCallable { .. } => Some(
                "Expected a function path (e.g., Self::postfix) or a closure",
            ),
            DeriveError::UnknownKey { .. } => Some("Unknown attribute key"),
        }
    }
}

/// Only structs with named fields can be derived.
pub fn check_shape(shape: StructShape) -> (r: Result<(), DeriveError>)
    ensures
        shape is Named <==> r is Ok,
        shape is Unnamed ==> r == Err::<(), DeriveError>(DeriveError::TupleStruct),
        shape is Unit ==> r == Err::<(), DeriveError>(DeriveError::UnitStruct),
{
    match shape {
        StructShape::Named => Ok(()),
        StructShape::Unnamed => Err(DeriveError::TupleStruct),
        StructShape::Unit => Err(DeriveError::UnitStruct),
    }
}

/// The key sets a kind (or fails to).
pub open spec fn sets_kind(k: DiKey) -> bool {
    !(k is Other)
}

/// `keys[p]` is the first key that sets a kind.
pub open spec fn first_setter(keys: Seq<DiKey>, p: int) -> bool {
    &&& 0 <= p < keys.len()
    &&& sets_kind(keys[p])
    &&& forall|q: int| 0 <= q < p ==> !sets_kind(#[trigger] keys[q])
}

/// The kind that a key sets.
pub open spec fn kind_of_key(k: DiKey) -> FieldBindingKind {
    match k {
        DiKey::One => FieldBindingKind::ResolveOne,
        DiKey::Many => FieldBindingKind::ResolveMany,
        DiKey::Default => FieldBindingKind::Default,
        DiKey::Clone => FieldBindingKind::Clone,
        _ => FieldBindingKind::Init,
    }
}

/// What reading the keys gives when `keys[p]` is the first that sets a kind:
/// its error if it is a faulty `init`; else an error if any key follows it;
/// else its kind.
pub open spec fn outcome_at(keys: Seq<DiKey>, p: int) -> Result<FieldBindingKind, DeriveError> {
    match keys[p] {
        DiKey::Init { assigned: false, .. } => Err(DeriveError::InitNotAssigned),
        DiKey::Init { assigned: true, parsed: false } => Err(
            DeriveError::InitUnparsed { key: p as usize },
        ),
        k => if p + 1 < keys.len() {
            Err(DeriveError::SeveralKinds)
        } else {
            Ok(kind_of_key(k))
        },
    }
}

/// A key that sets a kind and is no faulty `init`.
spec fn sets_valid_kind(k: DiKey) -> bool {
    sets_kind(k) && !(k matches DiKey::Init { assigned, parsed } && !(assigned && parsed))
}

/// The kind of a field, from the keys of its `#[di(...)]` attribute in
/// order: the first key that sets a kind decides, and no key may follow
/// it; without such a key the field resolves one instance.
pub fn field_kind(keys: &Vec<DiKey>) -> (r: Result<FieldBindingKind, DeriveError>)
    ensures
        (forall|p: int| 0 <= p < keys@.len() ==> !sets_kind(#[trigger] keys@[p])) ==> r == Ok::<
            FieldBindingKind,
            DeriveError,
        >(FieldBindingKind::ResolveOne),
        forall|p: int| #[trigger] first_setter(keys@, p) ==> r == outcome_at(keys@, p),
{
    let mut kind: Option<FieldBindingKind> = None;
    let mut i: usize = 0;
    while i < keys.len()
        invariant
            i <= keys@.len(),
            kind is None ==> forall|q: int| 0 <= q < i ==> !sets_kind(#[trigger] keys@[q]),
            kind matches Some(k) ==> i > 0 && first_setter(keys@, i - 1) && sets_valid_kind(
                keys@[i - 1],
            ) && k == kind_of_key(keys@[i - 1]),
        decreases keys@.len() - i,
    {
        if kind.is_some() {
            proof {
                assert forall|p: int| #[trigger] first_setter(keys@, p) implies outcome_at(keys@, p)
                    == Err::<FieldBindingKind, DeriveError>(DeriveError::SeveralKinds) by {
                    if p < i - 1 {
                        assert(!sets_kind(keys@[p]));
                    } else if p > i - 1 {
                        assert(!sets_kind(keys@[i - 1]));
                    }
                }
            }
            return Err(DeriveError::SeveralKinds);
        }
        let ghost before = i;
        match keys[i] {
            DiKey::Default => {
                kind = Some(FieldBindingKind::Default);
            },
            DiKey::Clone => {
                kind = Some(FieldBindingKind::Clone);
            },
            DiKey::One => {
                kind = Some(FieldBindingKind::ResolveOne);
            },
            DiKey::Many => {
                kind = Some(FieldBindingKind::ResolveMany);
            },
            DiKey::Init { assigned, parsed } => {
                if !assigned {
                    proof {
                        assert forall|p: int| #[trigger] first_setter(keys@, p) implies outcome_at(
                            keys@,
                            p,
                        ) == Err::<FieldBindingKind, DeriveError>(DeriveError::InitNotAssigned) by {
                            if p > i {
                                assert(!sets_kind(keys@[i as int]));
                            }
                        }
                    }
                    return Err(DeriveError::InitNotAssigned);
                }
                if !parsed {
                    proof {
                        assert forall|p: int| #[trigger] first_setter(keys@, p) implies outcome_at(
                            keys@,
                            p,
                        ) == Err::<FieldBindingKind, DeriveError>(
                            DeriveError::InitUnparsed { key: i },
                        ) by {
                            if p > i {
                                assert(!sets_kind(keys@[i as int]));
                            }
                        }
                    }
                    return Err(DeriveError::InitUnparsed { key: i });
                }
                kind = Some(FieldBindingKind::Init);
            },
            DiKey::Other => {},
        }
        i = i + 1;
    }
    proof {
        assert forall|p: int| #[trigger] first_setter(keys@, p) implies (match kind {
            Some(k) => Ok::<FieldBindingKind, DeriveError>(k),
            None => Ok(FieldBindingKind::ResolveOne),
        }) == outcome_at(keys@, p) by {
            if kind is None {
                assert(!sets_kind(keys@[p]));
            } else if p < i - 1 {
                assert(!sets_kind(keys@[p]));
            } else if p > i - 1 {
                assert(!sets_kind(keys@[i - 1]));
            }
        }
    }
    match kind {
        Some(k) => Ok(k),
        None => Ok(FieldBindingKind::ResolveOne),
    }
}

/// The argument is refused.
pub open spec fn refuses(a: MacroArg) -> bool {
    a is Other || (a matches MacroArg::Postfix { callable } && !callable)
}

/// The error for a refused argument at `p`.
pub open spec fn refusal_at(args: Seq<MacroArg>, p: int) -> DeriveError {
    if args[p] is Other {
        DeriveError::UnknownKey { arg: p as usize }
    } else {
        DeriveError::PostfixNotCallable { arg: p as usize }
    }
}

/// `args[p]` is the first refused argument.
pub open spec fn first_refusal(args: Seq<MacroArg>, p: int) -> bool {
    &&& 0 <= p < args.len()
    &&& refuses(args[p])
    &&& forall|q: int| 0 <= q < p ==> !refuses(#[trigger] args[q])
}

/// Which argument of `#[from_di(...)]` gives the postfix function: the
/// last `postfix`, or none. The first refused argument is an error.
pub fn postfix_arg(args: &Vec<MacroArg>) -> (r: Result<Option<usize>, DeriveError>)
    ensures
        forall|p: int| #[trigger] first_refusal(args@, p) ==> r == Err::<Option<usize>, DeriveError>(
            refusal_at(args@, p),
        ),
        (forall|p: int| 0 <= p < args@.len() ==> !refuses(#[trigger] args@[p])) ==> r is Ok,
        r matches Ok(Some(p)) ==> p < args@.len() && args@[p as int] is Postfix && forall|q: int|
            p < q < args@.len() ==> !(#[trigger] args@[q] is Postfix),
        r matches Ok(None) ==> forall|q: int| 0 <= q < args@.len() ==> !(#[trigger] args@[q] is Postfix),
{
    let mut found: Option<usize> = None;
    let mut i: usize = 0;
    while i < args.len()
        invariant
            i <= args@.len(),
            forall|q: int| 0 <= q < i ==> !refuses(#[trigger] args@[q]),
            found matches Some(p) ==> p < i && args@[p as int] is Postfix && forall|q: int|
                p < q < i ==> !(#[trigger] args@[q] is Postfix),
            found is None ==> forall|q: int| 0 <= q < i ==> !(#[trigger] args@[q] is Postfix),
        decreases args@.len() - i,
    {
        match args[i] {
            MacroArg::Bare => {},
            MacroArg::Postfix { callable } => {
                if !callable {
                    proof {
                        assert forall|p: int| #[trigger] first_refusal(args@, p) implies refusal_at(
                            args@,
                            p,
                        ) == DeriveError::PostfixNotCallable { arg: i } by {
                            if p > i {
                                assert(!refuses(args@[i as int]));
                            }
                        }
                    }
                    return Err(DeriveError::PostfixNotCallable { arg: i });
                }
                found = Some(i);
            },
            MacroArg::Other => {
                proof {
                    assert forall|p: int| #[trigger] first_refusal(args@, p) implies refusal_at(
                        args@,
                        p,
                    ) == DeriveError::UnknownKey { arg: i } by {
                        if p > i {
                            assert(!refuses(args@[i as int]));
                        }
                    }
                }
                return Err(DeriveError::UnknownKey { arg: i });
            },
        }
        i = i + 1;
    }
    Ok(found)
}

/// The positions of the fields whose kind resolves their type, in order.
pub open spec fn resolved_positions(kinds: Seq<FieldBindingKind>) -> Seq<usize>
    decreases kinds.len(),
{
    if kinds.len() == 0 {
        Seq::empty()
    } else {
        let k = kinds.last();
        let rest = resolved_positions(kinds.drop_last());
        if k is ResolveOne || k is ResolveMany || k is Clone {
            rest.push((kinds.len() - 1) as usize)
        } else {
            rest
        }
    }
}

/// The fields whose types the derived struct depends on: those it
/// resolves, in field order.
pub fn dependency_fields(kinds: &Vec<FieldBindingKind>) -> (r: Vec<usize>)
    ensures
        r@ == resolved_positions(kinds@),
{
    let mut out: Vec<usize> = Vec::new();
    let mut i: usize = 0;
    while i < kinds.len()
        invariant
            i <= kinds@.len(),
            out@ == resolved_positions(kinds@.take(i as int)),
        decreases kinds@.len() - i,
    {
        proof {
            assert(kinds@.take(i + 1).drop_last() =~= kinds@.take(i as int));
        }
        if kinds[i].is_resolved() {
            out.push(i);
        }
        i = i + 1;
    }
    proof {
        assert(kinds@.take(i as int) =~= kinds@);
    }
    out
}

/// The one key of a field's attribute that sets a kind, written last after
/// any unknown keys, gives the kind it names: `one` resolves one instance,
/// `many` all of them, `default` takes the default value, `clone` clones the
/// resolved instance, and an `init` with a readable value uses that value.
/// With no such key the field resolves one instance.
pub proof fn law_each_key_sets_the_kind_it_names(
    keys: Vec<DiKey>,
    r: Result<FieldBindingKind, DeriveError>,
)
    requires
        field_kind.ensures((&keys,), r),
        forall|q: int| 0 <= q < keys@.len() - 1 ==> #[trigger] keys@[q] is Other,
    ensures
        keys@.len() == 0 ==> r == Ok::<FieldBindingKind, DeriveError>(FieldBindingKind::ResolveOne),
        keys@.len() > 0 && keys@.last() is Other ==> r == Ok::<FieldBindingKind, DeriveError>(
            FieldBindingKind::ResolveOne,
        ),
        keys@.len() > 0 && keys@.last() is One ==> r == Ok::<FieldBindingKind, DeriveError>(
            FieldBindingKind::ResolveOne,
        ),
        keys@.len() > 0 && keys@.last() is Many ==> r == Ok::<FieldBindingKind, DeriveError>(
            FieldBindingKind::ResolveMany,
        ),
        keys@.len() > 0 && keys@.last() is Default ==> r == Ok::<FieldBindingKind, DeriveError>(
            FieldBindingKind::Default,
        ),
        keys@.len() > 0 && keys@.last() is Clone ==> r == Ok::<FieldBindingKind, DeriveError>(
            FieldBindingKind::Clone,
        ),
        keys@.len() > 0 && keys@.last() == (DiKey::Init { assigned: true, parsed: true }) ==> r
            == Ok::<FieldBindingKind, DeriveError>(FieldBindingKind::Init),
{
    let n = keys@.len() as int;
    if n > 0 && !(keys@.last() is Other) {
        assert(first_setter(keys@, n - 1));
    } else {
        assert forall|p: int| 0 <= p < keys@.len() implies !sets_kind(#[trigger] keys@[p]) by {
            if p < n - 1 {
                assert(keys@[p] is Other);
            }
        }
    }
}

} // verus!
