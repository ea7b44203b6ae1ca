//! Errors of dependency resolution.

use crate::meta::{is_meta_of, TypeMeta};
use vstd::prelude::*;

verus! {

/// Why a set of bindings could not be turned into services.
#[derive(Debug)]
pub enum Error {
    /// The bindings depend on each other in a circle; `path` walks it.
    Circular { path: Vec<TypeMeta> },
    /// A binding depends on a type that nothing provides.
    Missing { type_meta: TypeMeta },
    /// Two bindings provide the same type.
    Duplicated { type_meta: TypeMeta },
}

/// `names` joined with `sep` between consecutive ones.
pub open spec fn join(names: Seq<Seq<char>>, sep: Seq<char>) -> Seq<char>
    decreases names.len(),
{
    if names.len() == 0 {
        Seq::empty()
    } else if names.len() == 1 {
        names[0]
    } else {
        join(names.drop_last(), sep) + sep + names.last()
    }
}

pub open spec fn circular_prefix() -> Seq<char> {
    "Failed to resolve the graph due to a circular dependency ("@
}

pub open spec fn missing_prefix() -> Seq<char> {
    "Failed to resolve the graph due to a missing service of type "@
}

pub open spec fn duplicated_prefix() -> Seq<char> {
    "Failed to resolve the graph due to a duplicated binding of type "@
}

/// Every meta of `path` carries a name.
pub open spec fn all_labeled(path: Seq<TypeMeta>) -> bool {
    forall|i: int| 0 <= i < path.len() ==> (#[trigger] path[i]).label_view() is Some
}

pub open spec fn labels(path: Seq<TypeMeta>) -> Seq<Seq<char>> {
    path.map_values(|m: TypeMeta| m.label_view().unwrap())
}

/// `n` stands for the type of `m` in a message: its name, where it has one.
pub open spec fn name_fits(m: TypeMeta, n: Seq<char>) -> bool {
    m.label_view() matches Some(l) ==> n == l
}

/// `names` stands for the types of `path` in a message, one for each.
pub open spec fn names_fit(path: Seq<TypeMeta>, names: Seq<Seq<char>>) -> bool {
    &&& names.len() == path.len()
    &&& forall|i: int| 0 <= i < path.len() ==> name_fits(#[trigger] path[i], names[i])
}

/// `text` is the message of `e`, whatever texts stand for its types that
/// carry no name.
pub open spec fn message_fits(e: Error, text: Seq<char>) -> bool {
    match e {
        Error::Circular { path } => exists|names: Seq<Seq<char>>|
            #[trigger] names_fit(path@, names) && text == circular_prefix() + join(names, " -> "@)
                + ")"@,
        Error::Missing { type_meta } => exists|n: Seq<char>|
            #[trigger] name_fits(type_meta, n) && text == missing_prefix() + n,
        Error::Duplicated { type_meta } => exists|n: Seq<char>|
            #[trigger] name_fits(type_meta, n) && text == duplicated_prefix() + n,
    }
}

impl Error {
    /// The error for a missing service of type `T`.
    pub fn missing<T: ?Sized + 'static>() -> (r: Error)
        ensures
            r matches Error::Missing { type_meta } && type_meta.label_view() is None
                && is_meta_of::<T>(type_meta),
    {
        Error::Missing { type_meta: TypeMeta::of::<T>() }
    }

    /// The text of the error, where its types are all named.
    pub open spec fn spec_message(&self) -> Seq<char> {
        match self {
            Error::Circular { path } => circular_prefix() + join(labels(path@), " -> "@) + ")"@,
            Error::Missing { type_meta } => missing_prefix() + type_meta.label_view().unwrap(),
            Error::Duplicated { type_meta } => duplicated_prefix()
                + type_meta.label_view().unwrap(),
        }
    }

    /// Whether every type that the error names carries a name.
    pub open spec fn fully_labeled(&self) -> bool {
        match self {
            Error::Circular { path } => all_labeled(path@),
            Error::Missing { type_meta } => type_meta.label_view() is Some,
            Error::Duplicated { type_meta } => type_meta.label_view() is Some,
        }
    }

    /// A human readable description of the error.
    pub fn message(&self) -> (r: String)
        ensures
            message_fits(*self, r@),
            self.fully_labeled() ==> r@ == self.spec_message(),
    {
        match self {
            Error::Circular { path } => {
                proof {
                    reveal_strlit("Failed to resolve the graph due to a circular dependency (");
                    reveal_strlit(" -> ");
                    reveal_strlit(")");
                }
                let mut buffer = String::from_str(
                    "Failed to resolve the graph due to a circular dependency (",
                );
                let ghost start = buffer@;
                let ghost mut names: Seq<Seq<char>> = Seq::empty();
                let mut idx: usize = 0;
                while idx < path.len()
                    invariant
                        idx <= path@.len(),
                        start == circular_prefix(),
                        names_fit(path@.take(idx as int), names),
                        buffer@ == start + join(names, " -> "@),
                        all_labeled(path@) ==> names == labels(path@.take(idx as int)),
                    decreases path@.len() - idx,
                {
                    let name = path[idx].name();
                    let ghost before = names;
                    proof {
                        names = names.push(name@);
                        assert(names.drop_last() =~= before);
                        assert(labels(path@.take(idx + 1)).drop_last() =~= labels(
                            path@.take(idx as int),
                        ));
                        assert forall|i: int| 0 <= i < idx + 1 implies name_fits(
                            #[trigger] path@.take(idx + 1)[i],
                            names[i],
                        ) by {
                            if i < idx {
                                assert(path@.take(idx + 1)[i] == path@.take(idx as int)[i]);
                            }
                        }
                        if all_labeled(path@) {
                            assert(path@[idx as int].label_view() is Some);
                            assert(labels(path@.take(idx + 1)).last() == name@);
                            assert(names =~= labels(path@.take(idx + 1)));
                        }
                    }
                    if idx > 0 {
                        buffer.append(" -> ");
                    }
                    buffer.append(name.as_str());
                    idx = idx + 1;
                }
                buffer.append(")");
                proof {
                    assert(path@.take(path@.len() as int) =~= path@);
                    assert(names_fit(path@, names));
                }
                buffer
            },
            Error::Missing { type_meta } => {
                proof {
                    reveal_strlit("Failed to resolve the graph due to a missing service of type ");
                }
                let mut buffer = String::from_str(
                    "Failed to resolve the graph due to a missing service of type ",
                );
                let name = type_meta.name();
                buffer.append(name.as_str());
                proof {
                    assert(name_fits(*type_meta, name@));
                }
                buffer
            },
            Error::Duplicated { type_meta } => {
                proof {
                    reveal_strlit("Failed to resolve the graph due to a duplicated binding of type ");
                }
                let mut buffer = String::from_str(
                    "Failed to resolve the graph due to a duplicated binding of type ",
                );
                let name = type_meta.name();
                buffer.append(name.as_str());
                proof {
                    assert(name_fits(*type_meta, name@));
                }
                buffer
            },
        }
    }
}

} // verus!
