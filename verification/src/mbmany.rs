//! A non-empty collection that avoids an allocation when it holds one item.

use vstd::prelude::*;

verus! {

/// One item, or several kept in a vector.
#[derive(Debug)]
pub enum OneOrMany<T> {
    One(T),
    Many(Vec<T>),
}

impl<T> View for OneOrMany<T> {
    type V = Seq<T>;

    /// The items in order.
    open spec fn view(&self) -> Seq<T> {
        match self {
            OneOrMany::One(x) => seq![*x],
            OneOrMany::Many(v) => v@,
        }
    }
}

impl<T> OneOrMany<T> {
    /// `One` for a single item, `Many` for more, `None` for none.
    pub fn from_vec(vec: Vec<T>) -> (r: Option<Self>)
        ensures
            r is None <==> vec@.len() == 0,
            r matches Some(x) ==> x@ == vec@ && (x is Many <==> vec@.len() > 1),
    {
        let mut vec = vec;
        if vec.len() > 1 {
            Some(OneOrMany::Many(vec))
        } else if vec.len() == 1 {
            let x = vec.remove(0);
            Some(OneOrMany::One(x))
        } else {
            None
        }
    }

    /// A single item.
    pub fn from_val(val: T) -> (r: Self)
        ensures
            r@ == seq![val],
            r is One,
    {
        OneOrMany::One(val)
    }

    /// The first item.
    pub fn to_first_or_one(self) -> (r: T)
        requires
            self@.len() > 0,
        ensures
            r == self@[0],
    {
        match self {
            OneOrMany::One(x) => x,
            OneOrMany::Many(x) => {
                let mut x = x;
                x.remove(0)
            },
        }
    }

    /// The last item.
    pub fn to_last_or_one(self) -> (r: T)
        requires
            self@.len() > 0,
        ensures
            r == self@.last(),
    {
        match self {
            OneOrMany::One(x) => x,
            OneOrMany::Many(x) => {
                let mut x = x;
                let last = x.len() - 1;
                x.remove(last)
            },
        }
    }

    /// The number of items.
    pub fn len(&self) -> (r: usize)
        ensures
            r == self@.len(),
    {
        match self {
            OneOrMany::One(_) => 1,
            OneOrMany::Many(v) => v.len(),
        }
    }

    /// The item at `idx`.
    pub fn get(&self, idx: usize) -> (r: &T)
        requires
            idx < self@.len(),
        ensures
            *r == self@[idx as int],
    {
        match self {
            OneOrMany::One(x) => x,
            OneOrMany::Many(v) => &v[idx],
        }
    }
}

} // verus!
