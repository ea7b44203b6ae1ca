//! Preparing bindings: merging aliases and ordering by dependencies.

use crate::binding::{Binding, BindingKind};
use crate::error::Error;
use crate::meta::TypeMeta;
use crate::order::{
    adj_wf, is_cycle_walk, is_permutation, is_topological, is_walk, lemma_topological_excludes_cycles,
    placed_before, topological_order,
};
use crate::unsize::ErasedUnsizer;
use std::any::TypeId;
use vstd::prelude::*;

verus! {

/// The implementations of an alias, keyed by the meta of the implementing type.
pub type AliasImpls = Seq<(TypeMeta, ErasedUnsizer)>;

/// Whether some implementation in `s` has key `k`.
pub open spec fn has_impl_key(s: AliasImpls, k: TypeId) -> bool {
    exists|i: int| 0 <= i < s.len() && #[trigger] s[i].0.key() == k
}

/// `s` without the implementations whose key occurred earlier: the first
/// of each key stays, in order.
pub open spec fn dedup_keys(s: AliasImpls) -> AliasImpls
    decreases s.len(),
{
    if s.len() == 0 {
        s
    } else {
        let d = dedup_keys(s.drop_last());
        if has_impl_key(d, s.last().0.key()) {
            d
        } else {
            d.push(s.last())
        }
    }
}

/// Keeps the first implementation of each key, in order.
fn remove_duplicates(vec: &mut Vec<(TypeMeta, ErasedUnsizer)>)
    ensures
        final(vec)@ == dedup_keys(old(vec)@),
{
    let mut rest: Vec<(TypeMeta, ErasedUnsizer)> = Vec::new();
    std::mem::swap(&mut rest, vec);
    let ghost all = rest@;
    let total = rest.len();
    let mut out: Vec<(TypeMeta, ErasedUnsizer)> = Vec::new();
    let mut i: usize = 0;
    proof {
        assert(all.take(0) =~= Seq::<(TypeMeta, ErasedUnsizer)>::empty());
    }
    while rest.len() > 0
        invariant
            total == all.len(),
            i + rest@.len() == all.len(),
            rest@ == all.skip(i as int),
            out@ == dedup_keys(all.take(i as int)),
        decreases rest@.len(),
    {
        let e = rest.remove(0);
        proof {
            assert(e == all[i as int]);
            assert(all.take(i + 1).drop_last() =~= all.take(i as int));
            assert(all.take(i + 1).last() == e);
        }
        let mut seen = false;
        let mut j: usize = 0;
        while j < out.len()
            invariant
                j <= out@.len(),
                seen <==> exists|q: int| 0 <= q < j && #[trigger] out@[q].0.key() == e.0.key(),
            decreases out@.len() - j,
        {
            if out[j].0.same(&e.0) {
                seen = true;
            }
            j = j + 1;
        }
        if !seen {
            out.push(e);
        }
        proof {
            assert(rest@ =~= all.skip(i + 1));
        }
        i = i + 1;
    }
    proof {
        assert(all.take(i as int) =~= all);
    }
    *vec = out;
}

/// Binding `b` is an alias of the type with key `k`.
pub open spec fn is_alias_of(b: Binding, k: TypeId) -> bool {
    b.kind is Alias && b.ty.key() == k
}

/// `s[i]` is an alias, and no earlier binding is an alias of its type.
pub open spec fn first_alias(s: Seq<Binding>, i: int) -> bool {
    &&& s[i].kind is Alias
    &&& forall|j: int| 0 <= j < i ==> !is_alias_of(#[trigger] s[j], s[i].ty.key())
}

/// Merging keeps `s[i]`: every binding of a type, and the first alias of each
/// type.
pub open spec fn kept(s: Seq<Binding>, i: int) -> bool {
    !(s[i].kind is Alias) || first_alias(s, i)
}

/// The positions that merging keeps, in order.
pub open spec fn kept_indices(s: Seq<Binding>) -> Seq<int>
    decreases s.len(),
{
    if s.len() == 0 {
        Seq::empty()
    } else {
        kept_indices(s.drop_last()) + if kept(s, s.len() - 1) {
            seq![s.len() - 1]
        } else {
            Seq::empty()
        }
    }
}

/// The implementations of all aliases of the type with key `k`, in order.
pub open spec fn alias_impls(s: Seq<Binding>, k: TypeId) -> AliasImpls
    decreases s.len(),
{
    if s.len() == 0 {
        Seq::empty()
    } else {
        alias_impls(s.drop_last(), k) + if is_alias_of(s.last(), k) {
            s.last().kind->impls@
        } else {
            Seq::empty()
        }
    }
}

/// `b` is what merging makes of `s[i]`, with implementations `impls_of`
/// applied to the merged implementations of its type.
pub open spec fn merged_entry_with(
    s: Seq<Binding>,
    i: int,
    b: Binding,
    dedup: bool,
) -> bool {
    if s[i].kind is Alias {
        &&& b.ty == s[i].ty
        &&& b.kind is Alias
        &&& b.kind->impls@ == if dedup {
            dedup_keys(alias_impls(s, s[i].ty.key()))
        } else {
            alias_impls(s, s[i].ty.key())
        }
    } else {
        b == s[i]
    }
}

/// `out` is the result of merging the aliases of `s`: the kept bindings in
/// order, each alias holding the implementations of all aliases of its type,
/// the first of each implementing type only.
pub open spec fn is_merge_of(s: Seq<Binding>, out: Seq<Binding>) -> bool {
    &&& out.len() == kept_indices(s).len()
    &&& forall|p: int|
        0 <= p < out.len() ==> merged_entry_with(s, kept_indices(s)[p], #[trigger] out[p], true)
}

proof fn lemma_kept_prefix(s: Seq<Binding>, n: int, i: int)
    requires
        0 <= i < n <= s.len(),
    ensures
        kept(s.take(n), i) == kept(s, i),
        first_alias(s.take(n), i) == first_alias(s, i),
{
    let t = s.take(n);
    assert forall|j: int| 0 <= j < i implies t[j] == s[j] by {}
    assert(t[i] == s[i]);
}

pub proof fn lemma_kept_indices(s: Seq<Binding>)
    ensures
        forall|p: int| 0 <= p < kept_indices(s).len() ==> 0 <= #[trigger] kept_indices(s)[p] < s.len(),
        forall|p: int| 0 <= p < kept_indices(s).len() ==> kept(s, #[trigger] kept_indices(s)[p]),
        forall|p: int, q: int|
            0 <= p < q < kept_indices(s).len() ==> kept_indices(s)[p] < kept_indices(s)[q],
        forall|i: int|
            0 <= i < s.len() && kept(s, i) ==> exists|p: int|
                0 <= p < kept_indices(s).len() && #[trigger] kept_indices(s)[p] == i,
    decreases s.len(),
{
    if s.len() > 0 {
        let t = s.drop_last();
        lemma_kept_indices(t);
        let n = s.len() - 1;
        assert forall|i: int| 0 <= i < n implies kept(t, i) == kept(s, i) by {
            assert(t =~= s.take(n));
            lemma_kept_prefix(s, n, i);
        }
        let ki = kept_indices(s);
        let kt = kept_indices(t);
        assert forall|p: int| 0 <= p < ki.len() implies kept(s, #[trigger] ki[p]) by {
            if p < kt.len() {
                assert(ki[p] == kt[p]);
            }
        }
        assert forall|i: int| 0 <= i < s.len() && kept(s, i) implies exists|p: int|
            0 <= p < ki.len() && #[trigger] ki[p] == i by {
            if i < n {
                let p = choose|p: int| 0 <= p < kt.len() && #[trigger] kt[p] == i;
                assert(ki[p] == kt[p]);
            } else {
                assert(ki[kt.len() as int] == i);
            }
        }
        assert forall|p: int, q: int| 0 <= p < q < ki.len() implies ki[p] < ki[q] by {
            if q < kt.len() {
                assert(ki[p] == kt[p] && ki[q] == kt[q]);
            } else {
                assert(ki[p] == kt[p]);
            }
        }
    }
}

proof fn lemma_alias_impls_none(s: Seq<Binding>, k: TypeId)
    requires
        forall|j: int| 0 <= j < s.len() ==> !is_alias_of(#[trigger] s[j], k),
    ensures
        alias_impls(s, k) == Seq::<(TypeMeta, ErasedUnsizer)>::empty(),
    decreases s.len(),
{
    if s.len() > 0 {
        let t = s.drop_last();
        assert forall|j: int| 0 <= j < t.len() implies !is_alias_of(#[trigger] t[j], k) by {
            assert(t[j] == s[j]);
        }
        lemma_alias_impls_none(t, k);
        assert(!is_alias_of(s[s.len() - 1], k));
        assert(alias_impls(s, k) =~= alias_impls(t, k));
    }
}

/// Finds an alias of the type of `ty` among `out`.
fn find_alias(out: &Vec<Binding>, ty: &TypeMeta) -> (r: Option<usize>)
    ensures
        r matches Some(p) ==> p < out@.len() && is_alias_of(out@[p as int], ty.key()),
        r is None ==> forall|p: int| 0 <= p < out@.len() ==> !is_alias_of(#[trigger] out@[p], ty.key()),
{
    let mut p: usize = 0;
    while p < out.len()
        invariant
            p <= out@.len(),
            forall|q: int| 0 <= q < p ==> !is_alias_of(#[trigger] out@[q], ty.key()),
        decreases out@.len() - p,
    {
        let is_alias = match &out[p].kind {
            BindingKind::Alias { .. } => true,
            BindingKind::Type { .. } => false,
        };
        if is_alias && out[p].ty.same(ty) {
            return Some(p);
        }
        p = p + 1;
    }
    None
}

/// The invariant of merging over the first bindings `t`: `out` holds the
/// kept ones, with the implementations of all aliases of each type so far.
pub open spec fn merge_inv(t: Seq<Binding>, out: Seq<Binding>) -> bool {
    &&& out.len() == kept_indices(t).len()
    &&& forall|p: int|
        0 <= p < out.len() ==> merged_entry_with(t, kept_indices(t)[p], #[trigger] out[p], false)
}

proof fn lemma_merge_inv_alias_lookup(t: Seq<Binding>, out: Seq<Binding>, k: TypeId)
    requires
        merge_inv(t, out),
    ensures
        (exists|j: int| 0 <= j < t.len() && #[trigger] is_alias_of(t[j], k)) <==> (exists|p: int|
            0 <= p < out.len() && #[trigger] is_alias_of(out[p], k)),
        forall|p1: int, p2: int|
            0 <= p1 < out.len() && 0 <= p2 < out.len() && is_alias_of(#[trigger] out[p1], k)
                && is_alias_of(#[trigger] out[p2], k) ==> p1 == p2,
{
    lemma_kept_indices(t);
    let ki = kept_indices(t);
    if exists|j: int| 0 <= j < t.len() && #[trigger] is_alias_of(t[j], k) {
        let j0 = choose|j: int| 0 <= j < t.len() && #[trigger] is_alias_of(t[j], k);
        let j = lemma_first_alias_exists(t, k, j0);
        let p = choose|p: int| 0 <= p < ki.len() && #[trigger] ki[p] == j;
        assert(merged_entry_with(t, ki[p], out[p], false));
        assert(is_alias_of(out[p], k));
    }
    if exists|p: int| 0 <= p < out.len() && #[trigger] is_alias_of(out[p], k) {
        let p = choose|p: int| 0 <= p < out.len() && #[trigger] is_alias_of(out[p], k);
        assert(merged_entry_with(t, ki[p], out[p], false));
        assert(is_alias_of(t[ki[p]], k));
    }
    assert forall|p1: int, p2: int|
        0 <= p1 < out.len() && 0 <= p2 < out.len() && is_alias_of(#[trigger] out[p1], k)
            && is_alias_of(#[trigger] out[p2], k) implies p1 == p2 by {
        assert(merged_entry_with(t, ki[p1], out[p1], false));
        assert(merged_entry_with(t, ki[p2], out[p2], false));
        let i1 = ki[p1];
        let i2 = ki[p2];
        assert(first_alias(t, i1));
        assert(first_alias(t, i2));
        if i1 < i2 {
            assert(!is_alias_of(t[i1], t[i2].ty.key()));
        } else if i2 < i1 {
            assert(!is_alias_of(t[i2], t[i1].ty.key()));
        }
        if p1 < p2 {
            assert(ki[p1] < ki[p2]);
        } else if p2 < p1 {
            assert(ki[p2] < ki[p1]);
        }
    }
}

pub(crate) proof fn lemma_first_alias_exists(t: Seq<Binding>, k: TypeId, j0: int) -> (j: int)
    requires
        0 <= j0 < t.len(),
        is_alias_of(t[j0], k),
    ensures
        0 <= j <= j0,
        is_alias_of(t[j], k),
        first_alias(t, j),
        kept(t, j),
    decreases j0,
{
    if exists|j: int| 0 <= j < j0 && #[trigger] is_alias_of(t[j], k) {
        let j1 = choose|j: int| 0 <= j < j0 && #[trigger] is_alias_of(t[j], k);
        lemma_first_alias_exists(t, k, j1)
    } else {
        j0
    }
}

proof fn lemma_merge_step(t: Seq<Binding>, b: Binding, k: TypeId)
    ensures
        alias_impls(t.push(b), k) == alias_impls(t, k) + if is_alias_of(b, k) {
            b.kind->impls@
        } else {
            Seq::<(TypeMeta, ErasedUnsizer)>::empty()
        },
        forall|i: int| 0 <= i < t.len() ==> kept(t.push(b), i) == kept(t, i),
        forall|i: int| 0 <= i < t.len() ==> (#[trigger] t.push(b)[i]) == t[i],
        kept_indices(t.push(b)) == kept_indices(t) + if kept(t.push(b), t.len() as int) {
            seq![t.len() as int]
        } else {
            Seq::<int>::empty()
        },
{
    let s = t.push(b);
    assert(s.drop_last() =~= t);
    assert forall|i: int| 0 <= i < t.len() implies kept(s, i) == kept(t, i) by {
        assert(s.take(t.len() as int) =~= t);
        lemma_kept_prefix(s, t.len() as int, i);
    }
}

/// Does `is_alias` of a binding: whether it is an alias.
fn binding_is_alias(b: &Binding) -> (r: bool)
    ensures
        r == (b.kind is Alias),
{
    match &b.kind {
        BindingKind::Alias { .. } => true,
        BindingKind::Type { .. } => false,
    }
}

/// Merging leaves one alias per type: no two aliases of a merge provide
/// the same type.
pub proof fn lemma_merge_one_alias_per_type(s: Seq<Binding>, m: Seq<Binding>, p: int, q: int)
    requires
        is_merge_of(s, m),
        0 <= p < q < m.len(),
        m[p].kind is Alias,
        m[q].kind is Alias,
    ensures
        m[p].ty.key() != m[q].ty.key(),
{
    lemma_kept_indices(s);
    let ip = kept_indices(s)[p];
    let iq = kept_indices(s)[q];
    assert(merged_entry_with(s, ip, m[p], true));
    assert(merged_entry_with(s, iq, m[q], true));
    assert(ip < iq);
    assert(kept(s, iq));
    assert(first_alias(s, iq));
    if m[p].ty.key() == m[q].ty.key() {
        assert(is_alias_of(s[ip], s[iq].ty.key()));
    }
}

/// No two implementations of `x` have the same key.
pub open spec fn keys_distinct(x: AliasImpls) -> bool {
    forall|a: int, b: int| 0 <= a < b < x.len() ==> (#[trigger] x[a]).0.key() != (#[trigger] x[b]).0.key()
}

proof fn lemma_dedup_distinct(x: AliasImpls)
    ensures
        keys_distinct(dedup_keys(x)),
    decreases x.len(),
{
    if x.len() > 0 {
        let d = dedup_keys(x.drop_last());
        lemma_dedup_distinct(x.drop_last());
        if !has_impl_key(d, x.last().0.key()) {
            let e = d.push(x.last());
            assert forall|a: int, b: int| 0 <= a < b < e.len() implies (#[trigger] e[a]).0.key() != (
            #[trigger] e[b]).0.key() by {
                if b == e.len() - 1 {
                    assert(d[a] == e[a]);
                    if e[a].0.key() == x.last().0.key() {
                        assert(has_impl_key(d, x.last().0.key()));
                    }
                } else {
                    assert(d[a] == e[a] && d[b] == e[b]);
                }
            }
        }
    }
}

proof fn lemma_dedup_of_distinct(x: AliasImpls)
    requires
        keys_distinct(x),
    ensures
        dedup_keys(x) == x,
    decreases x.len(),
{
    if x.len() > 0 {
        let t = x.drop_last();
        assert forall|a: int, b: int| 0 <= a < b < t.len() implies (#[trigger] t[a]).0.key() != (
        #[trigger] t[b]).0.key() by {
            assert(t[a] == x[a] && t[b] == x[b]);
        }
        lemma_dedup_of_distinct(t);
        if has_impl_key(t, x.last().0.key()) {
            let i = choose|i: int| 0 <= i < t.len() && #[trigger] t[i].0.key() == x.last().0.key();
            assert(x[i] == t[i]);
            assert(x[x.len() - 1] == x.last());
        }
        assert(t.push(x.last()) =~= x);
    }
}

proof fn lemma_kept_all(s: Seq<Binding>)
    requires
        forall|i: int| 0 <= i < s.len() ==> kept(s, i),
    ensures
        kept_indices(s) =~= Seq::new(s.len(), |i: int| i),
    decreases s.len(),
{
    if s.len() > 0 {
        let t = s.drop_last();
        let n = s.len() - 1;
        assert forall|i: int| 0 <= i < t.len() implies kept(t, i) by {
            assert(t =~= s.take(n));
            lemma_kept_prefix(s, n, i);
        }
        lemma_kept_all(t);
        assert(kept(s, n));
    }
}

proof fn lemma_alias_impls_unique(s: Seq<Binding>, k: TypeId, p: int)
    requires
        0 <= p < s.len(),
        is_alias_of(s[p], k),
        forall|j: int| 0 <= j < s.len() && j != p ==> !is_alias_of(#[trigger] s[j], k),
    ensures
        alias_impls(s, k) == s[p].kind->impls@,
    decreases s.len(),
{
    let t = s.drop_last();
    if p == s.len() - 1 {
        assert forall|j: int| 0 <= j < t.len() implies !is_alias_of(#[trigger] t[j], k) by {
            assert(t[j] == s[j]);
        }
        lemma_alias_impls_none(t, k);
        assert(s.last() == s[p]);
        assert(alias_impls(s, k) =~= s[p].kind->impls@);
    } else {
        assert forall|j: int| 0 <= j < t.len() && j != p implies !is_alias_of(#[trigger] t[j], k) by {
            assert(t[j] == s[j]);
        }
        assert(t[p] == s[p]);
        lemma_alias_impls_unique(t, k, p);
        assert(!is_alias_of(s[s.len() - 1], k));
        assert(alias_impls(s, k) =~= alias_impls(t, k));
    }
}

/// Merging is idempotent: merging a merge again changes nothing; each
/// binding keeps its type, a type binding stays as it is, and an alias keeps
/// its implementations.
pub proof fn lemma_merge_idempotent(s: Seq<Binding>, m: Seq<Binding>, m2: Seq<Binding>)
    requires
        is_merge_of(s, m),
        is_merge_of(m, m2),
    ensures
        m2.len() == m.len(),
        forall|p: int|
            0 <= p < m.len() ==> {
                &&& (#[trigger] m2[p]).ty == m[p].ty
                &&& m[p].kind is Type ==> m2[p] == m[p]
                &&& m[p].kind is Alias ==> m2[p].kind is Alias && m2[p].kind->impls@
                    == m[p].kind->impls@
            },
{
    assert forall|i: int| 0 <= i < m.len() implies kept(m, i) by {
        if m[i].kind is Alias {
            assert forall|j: int| 0 <= j < i implies !is_alias_of(#[trigger] m[j], m[i].ty.key()) by {
                if m[j].kind is Alias {
                    lemma_merge_one_alias_per_type(s, m, j, i);
                }
            }
        }
    }
    lemma_kept_all(m);
    lemma_kept_indices(s);
    assert forall|p: int| 0 <= p < m.len() implies {
        &&& (#[trigger] m2[p]).ty == m[p].ty
        &&& m[p].kind is Type ==> m2[p] == m[p]
        &&& m[p].kind is Alias ==> m2[p].kind is Alias && m2[p].kind->impls@ == m[p].kind->impls@
    } by {
        assert(kept_indices(m)[p] == p);
        assert(merged_entry_with(m, p, m2[p], true));
        if m[p].kind is Alias {
            let k = m[p].ty.key();
            assert forall|j: int| 0 <= j < m.len() && j != p implies !is_alias_of(#[trigger] m[j], k) by {
                if m[j].kind is Alias {
                    if j < p {
                        lemma_merge_one_alias_per_type(s, m, j, p);
                    } else {
                        lemma_merge_one_alias_per_type(s, m, p, j);
                    }
                }
            }
            lemma_alias_impls_unique(m, k, p);
            let ip = kept_indices(s)[p];
            assert(merged_entry_with(s, ip, m[p], true));
            lemma_dedup_distinct(alias_impls(s, s[ip].ty.key()));
            lemma_dedup_of_distinct(m[p].kind->impls@);
        }
    }
}

/// Merges the aliases of each type into the first of them, keeping the first
/// implementation of each implementing type; other bindings stay as they are.
pub fn merge_aliases(bindings: Vec<Binding>) -> (r: Vec<Binding>)
    ensures
        is_merge_of(bindings@, r@),
{
    let mut rest = bindings;
    let ghost all = rest@;
    let total = rest.len();
    let mut out: Vec<Binding> = Vec::new();
    let mut i: usize = 0;
    proof {
        assert(all.take(0) =~= Seq::<Binding>::empty());
    }
    while rest.len() > 0
        invariant
            total == all.len(),
            i + rest@.len() == all.len(),
            rest@ == all.skip(i as int),
            merge_inv(all.take(i as int), out@),
        decreases rest@.len(),
    {
        let ghost t = all.take(i as int);
        let ghost out0 = out@;
        let b = rest.remove(0);
        proof {
            assert(b == all[i as int]);
            assert(all.take(i + 1) =~= t.push(b));
            lemma_merge_step(t, b, b.ty.key());
            lemma_merge_inv_alias_lookup(t, out0, b.ty.key());
            lemma_kept_indices(t);
        }
        let ghost t2 = t.push(b);
        if binding_is_alias(&b) {
            match find_alias(&out, &b.ty) {
                Some(p) => {
                    let Binding { ty, kind } = b;
                    let mut impls = kind.unwrap_alias();
                    let mut entry = out.remove(p);
                    let ghost entry0 = entry;
                    entry.kind.unwrap_alias_mut().append(&mut impls);
                    out.insert(p, entry);
                    proof {
                        let k = ty.key();
                        assert(!first_alias(t2, t.len() as int)) by {
                            let j = choose|j: int| 0 <= j < t.len() && #[trigger] is_alias_of(t[j], k);
                            assert(t2[j] == t[j]);
                        }
                        assert(kept_indices(t2) =~= kept_indices(t));
                        assert(out@ =~= out0.update(p as int, entry));
                        assert(merged_entry_with(t, kept_indices(t)[p as int], out0[p as int], false));
                        assert forall|q: int| 0 <= q < out@.len() implies merged_entry_with(
                            t2,
                            kept_indices(t2)[q],
                            #[trigger] out@[q],
                            false,
                        ) by {
                            let iq = kept_indices(t)[q];
                            assert(merged_entry_with(t, iq, out0[q], false));
                            assert(t2[iq] == t[iq]);
                            lemma_merge_step(t, b, t[iq].ty.key());
                            if q != p {
                                if t[iq].kind is Alias && t[iq].ty.key() == k {
                                    assert(is_alias_of(out0[q], k));
                                    assert(is_alias_of(out0[p as int], k));
                                }
                            }
                        }
                    }
                },
                None => {
                    out.push(b);
                    proof {
                        let k = b.ty.key();
                        assert(forall|j: int| 0 <= j < t.len() ==> !is_alias_of(#[trigger] t[j], k));
                        lemma_alias_impls_none(t, k);
                        assert(first_alias(t2, t.len() as int)) by {
                            assert forall|j: int| 0 <= j < t.len() implies !is_alias_of(#[trigger] t2[j], k) by {
                                assert(t2[j] == t[j]);
                            }
                        }
                        assert(kept_indices(t2) =~= kept_indices(t).push(t.len() as int));
                        assert forall|q: int| 0 <= q < out@.len() implies merged_entry_with(
                            t2,
                            kept_indices(t2)[q],
                            #[trigger] out@[q],
                            false,
                        ) by {
                            if q < out0.len() {
                                let iq = kept_indices(t)[q];
                                assert(kept_indices(t2)[q] == iq);
                                assert(merged_entry_with(t, iq, out0[q], false));
                                assert(t2[iq] == t[iq]);
                                lemma_merge_step(t, b, t[iq].ty.key());
                                if t[iq].kind is Alias && t[iq].ty.key() == k {
                                    assert(is_alias_of(out0[q], k));
                                }
                            } else {
                                assert(t2[t.len() as int] == b);
                            }
                        }
                    }
                },
            }
        } else {
            out.push(b);
            proof {
                assert(kept(t2, t.len() as int));
                assert(kept_indices(t2) =~= kept_indices(t).push(t.len() as int));
                assert forall|q: int| 0 <= q < out@.len() implies merged_entry_with(
                    t2,
                    kept_indices(t2)[q],
                    #[trigger] out@[q],
                    false,
                ) by {
                    if q < out0.len() {
                        let iq = kept_indices(t)[q];
                        assert(kept_indices(t2)[q] == iq);
                        assert(merged_entry_with(t, iq, out0[q], false));
                        assert(t2[iq] == t[iq]);
                        lemma_merge_step(t, b, t[iq].ty.key());
                    } else {
                        assert(t2[t.len() as int] == b);
                    }
                }
            }
        }
        proof {
            assert(rest@ =~= all.skip(i + 1));
        }
        i = i + 1;
    }
    proof {
        assert(all.take(i as int) =~= all);
    }
    let ghost raw = out@;
    let n = out.len();
    let mut p: usize = 0;
    while p < n
        invariant
            n == out@.len(),
            p <= n,
            raw.len() == n,
            merge_inv(all, raw),
            forall|q: int| p <= q < n ==> out@[q] == raw[q],
            forall|q: int|
                0 <= q < p ==> merged_entry_with(all, kept_indices(all)[q], #[trigger] out@[q], true),
        decreases n - p,
    {
        if binding_is_alias(&out[p]) {
            let ghost out0 = out@;
            let mut entry = out.remove(p);
            remove_duplicates(entry.kind.unwrap_alias_mut());
            out.insert(p, entry);
            proof {
                assert(out@ =~= out0.update(p as int, entry));
                assert(merged_entry_with(all, kept_indices(all)[p as int], raw[p as int], false));
            }
        } else {
            proof {
                assert(merged_entry_with(all, kept_indices(all)[p as int], raw[p as int], false));
            }
        }
        p = p + 1;
    }
    out
}

/// The types that a binding needs: a type's dependencies, or the types that
/// implement an alias.
pub open spec fn edges(b: Binding) -> Seq<TypeMeta> {
    match b.kind {
        BindingKind::Type { deps, .. } => deps@,
        BindingKind::Alias { impls } => impls@.map_values(|p: (TypeMeta, ErasedUnsizer)| p.0),
    }
}

/// Binding `b` needs the type with key `k`.
pub open spec fn needs(b: Binding, k: TypeId) -> bool {
    exists|e: int| 0 <= e < edges(b).len() && (#[trigger] edges(b)[e]).key() == k
}

/// Some binding of `s` provides the type with key `k`.
pub open spec fn is_bound(s: Seq<Binding>, k: TypeId) -> bool {
    exists|i: int| 0 <= i < s.len() && (#[trigger] s[i]).ty.key() == k
}

/// Two bindings of `s` provide the same type.
pub open spec fn has_duplicate(s: Seq<Binding>) -> bool {
    exists|i: int, j: int| 0 <= i < j < s.len() && (#[trigger] s[i]).ty.key() == (#[trigger] s[j]).ty.key()
}

/// `s[j]` is the first binding whose type an earlier binding provides.
pub open spec fn is_first_duplicate(s: Seq<Binding>, j: int) -> bool {
    &&& 0 <= j < s.len()
    &&& exists|i: int| 0 <= i < j && (#[trigger] s[i]).ty.key() == s[j].ty.key()
    &&& forall|i: int, j2: int| 0 <= i < j2 < j ==> (#[trigger] s[i]).ty.key() != (#[trigger] s[j2]).ty.key()
}

/// Some binding of `s` needs the type with key `k`, which none provides.
pub open spec fn is_missing(s: Seq<Binding>, k: TypeId) -> bool {
    &&& !is_bound(s, k)
    &&& exists|i: int| 0 <= i < s.len() && needs(#[trigger] s[i], k)
}

/// Every type that a binding of `s` needs is provided.
pub open spec fn needs_are_bound(s: Seq<Binding>) -> bool {
    forall|i: int, e: int|
        0 <= i < s.len() && 0 <= e < edges(s[i]).len() ==> is_bound(s, (#[trigger] edges(s[i])[e]).key())
}

/// `path` walks from binding to needed binding and comes back to a type it
/// passed: a circular dependency.
pub open spec fn is_dependency_cycle(s: Seq<Binding>, path: Seq<TypeMeta>) -> bool {
    &&& path.len() >= 2
    &&& forall|m: int|
        0 <= m < path.len() - 1 ==> exists|i: int|
            0 <= i < s.len() && (#[trigger] s[i]).ty.key() == (#[trigger] path[m]).key() && needs(
                s[i],
                path[m + 1].key(),
            )
    &&& exists|j: int| 0 <= j < path.len() - 1 && path[j].key() == path.last().key()
}

/// The types of `path` before its last are pairwise different: the walk
/// reaches the circle and goes round it once.
pub open spec fn distinct_before_last(path: Seq<TypeMeta>) -> bool {
    forall|a: int, b: int|
        0 <= a < b < path.len() - 1 ==> (#[trigger] path[a]).key() != (#[trigger] path[b]).key()
}

/// No circular dependency among the bindings of `s`.
pub open spec fn is_acyclic(s: Seq<Binding>) -> bool {
    forall|path: Seq<TypeMeta>| !is_dependency_cycle(s, path)
}

/// `out` holds the bindings of `s`, each once, in some order.
pub open spec fn is_reordering(s: Seq<Binding>, out: Seq<Binding>) -> bool {
    exists|perm: Seq<usize>|
        is_permutation(s.len(), perm) && out.len() == s.len() && forall|i: int|
            0 <= i < out.len() ==> out[i] == s[#[trigger] perm[i] as int]
}

/// Every binding of `out` comes after the bindings of the types it needs.
pub open spec fn is_dependency_order(out: Seq<Binding>) -> bool {
    forall|i: int, e: int|
        0 <= i < out.len() && 0 <= e < edges(out[i]).len() ==> #[trigger] provided_before(out, i, e)
}

/// The `e`-th need of `out[i]` is provided by a binding before it.
pub open spec fn provided_before(out: Seq<Binding>, i: int, e: int) -> bool {
    exists|j: int| 0 <= j < i && out[j].ty.key() == edges(out[i])[e].key()
}

/// The bindings can be built: no type is bound twice, every need is
/// provided, and no dependency is circular.
pub open spec fn is_resolvable(s: Seq<Binding>) -> bool {
    &&& !has_duplicate(s)
    &&& needs_are_bound(s)
    &&& is_acyclic(s)
}

/// The metas of the types that `b` needs.
fn edge_metas(b: &Binding) -> (r: Vec<TypeMeta>)
    ensures
        r@ == edges(*b),
{
    let mut out: Vec<TypeMeta> = Vec::new();
    match &b.kind {
        BindingKind::Type { deps, .. } => {
            let mut k: usize = 0;
            while k < deps.len()
                invariant
                    k <= deps@.len(),
                    out@ == deps@.take(k as int),
                decreases deps@.len() - k,
            {
                out.push(deps[k]);
                proof {
                    assert(deps@.take(k + 1) =~= deps@.take(k as int).push(deps@[k as int]));
                }
                k = k + 1;
            }
            proof {
                assert(deps@.take(k as int) =~= deps@);
            }
        },
        BindingKind::Alias { impls } => {
            let ghost metas = impls@.map_values(|p: (TypeMeta, ErasedUnsizer)| p.0);
            let mut k: usize = 0;
            while k < impls.len()
                invariant
                    k <= impls@.len(),
                    metas == impls@.map_values(|p: (TypeMeta, ErasedUnsizer)| p.0),
                    out@ == metas.take(k as int),
                decreases impls@.len() - k,
            {
                out.push(impls[k].0);
                proof {
                    assert(metas.take(k + 1) =~= metas.take(k as int).push(metas[k as int]));
                }
                k = k + 1;
            }
            proof {
                assert(metas.take(k as int) =~= metas);
            }
        },
    }
    out
}

/// The position of the binding of `ty` in `s`.
fn position_of(s: &Vec<Binding>, ty: &TypeMeta) -> (r: Option<usize>)
    ensures
        r matches Some(i) ==> i < s@.len() && s@[i as int].ty.key() == ty.key(),
        r is None ==> !is_bound(s@, ty.key()),
{
    let mut i: usize = 0;
    while i < s.len()
        invariant
            i <= s@.len(),
            forall|j: int| 0 <= j < i ==> (#[trigger] s@[j]).ty.key() != ty.key(),
        decreases s@.len() - i,
    {
        if s[i].ty.same(ty) {
            return Some(i);
        }
        i = i + 1;
    }
    None
}

/// `adj` lists, for each binding, the positions of the bindings it needs.
pub open spec fn adj_matches(s: Seq<Binding>, adj: Seq<Seq<usize>>) -> bool {
    &&& adj.len() == s.len()
    &&& forall|i: int|
        0 <= i < s.len() ==> (#[trigger] adj[i]).len() == edges(s[i]).len()
    &&& forall|i: int, e: int|
        0 <= i < s.len() && 0 <= e < edges(s[i]).len() ==> {
            &&& (#[trigger] adj[i][e]) < s.len()
            &&& s[adj[i][e] as int].ty.key() == edges(s[i])[e].key()
        }
}

/// The position of each binding's needs; `Err` with the first need that no
/// binding provides.
fn adjacency(s: &Vec<Binding>) -> (r: Result<Vec<Vec<usize>>, TypeMeta>)
    ensures
        r matches Ok(adj) ==> adj_matches(s@, adj@.map_values(|a: Vec<usize>| a@)) && needs_are_bound(s@),
        r matches Err(t) ==> is_missing(s@, t.key()),
{
    let mut adj: Vec<Vec<usize>> = Vec::new();
    let mut i: usize = 0;
    while i < s.len()
        invariant
            i <= s@.len(),
            adj@.len() == i,
            forall|j: int|
                0 <= j < i ==> (#[trigger] adj@[j])@.len() == edges(s@[j]).len(),
            forall|j: int, e: int|
                0 <= j < i && 0 <= e < edges(s@[j]).len() ==> {
                    &&& (#[trigger] adj@[j]@[e]) < s@.len()
                    &&& s@[adj@[j]@[e] as int].ty.key() == edges(s@[j])[e].key()
                },
        decreases s@.len() - i,
    {
        let metas = edge_metas(&s[i]);
        let mut row: Vec<usize> = Vec::new();
        let mut e: usize = 0;
        while e < metas.len()
            invariant
                i < s@.len(),
                metas@ == edges(s@[i as int]),
                e <= metas@.len(),
                row@.len() == e,
                forall|f: int|
                    0 <= f < e ==> {
                        &&& (#[trigger] row@[f]) < s@.len()
                        &&& s@[row@[f] as int].ty.key() == metas@[f].key()
                    },
            decreases metas@.len() - e,
        {
            match position_of(s, &metas[e]) {
                Some(j) => {
                    row.push(j);
                },
                None => {
                    proof {
                        assert(needs(s@[i as int], metas@[e as int].key()));
                    }
                    return Err(metas[e]);
                },
            }
            e = e + 1;
        }
        adj.push(row);
        i = i + 1;
    }
    proof {
        let g = adj@.map_values(|a: Vec<usize>| a@);
        assert forall|i: int, e: int|
            0 <= i < s@.len() && 0 <= e < edges(s@[i]).len() implies is_bound(
            s@,
            (#[trigger] edges(s@[i])[e]).key(),
        ) by {
            assert(s@[adj@[i]@[e] as int].ty.key() == edges(s@[i])[e].key());
        }
        assert forall|i: int| 0 <= i < s@.len() implies (#[trigger] g[i]).len() == edges(s@[i]).len() by {}
        assert forall|i: int, e: int|
            0 <= i < s@.len() && 0 <= e < edges(s@[i]).len() implies {
            &&& (#[trigger] g[i][e]) < s@.len()
            &&& s@[g[i][e] as int].ty.key() == edges(s@[i])[e].key()
        } by {
            assert(g[i] == adj@[i]@);
        }
    }
    Ok(adj)
}

/// The first binding whose type an earlier binding provides.
fn first_duplicate(s: &Vec<Binding>) -> (r: Option<usize>)
    ensures
        r matches Some(j) ==> is_first_duplicate(s@, j as int),
        r is None <==> !has_duplicate(s@),
{
    let mut j: usize = 0;
    while j < s.len()
        invariant
            j <= s@.len(),
            forall|i: int, j2: int| 0 <= i < j2 < j ==> (#[trigger] s@[i]).ty.key() != (#[trigger] s@[j2]).ty.key(),
        decreases s@.len() - j,
    {
        let mut i: usize = 0;
        while i < j
            invariant
                j < s@.len(),
                i <= j,
                forall|i2: int| 0 <= i2 < i ==> (#[trigger] s@[i2]).ty.key() != s@[j as int].ty.key(),
                forall|i2: int, j2: int| 0 <= i2 < j2 < j ==> (#[trigger] s@[i2]).ty.key() != (#[trigger] s@[j2]).ty.key(),
            decreases j - i,
        {
            if s[i].ty.same(&s[j].ty) {
                proof {
                    assert(s@[i as int].ty.key() == s@[j as int].ty.key());
                }
                return Some(j);
            }
            i = i + 1;
        }
        j = j + 1;
    }
    None
}

proof fn lemma_index_cycle_is_dependency_cycle(s: Seq<Binding>, adj: Seq<Seq<usize>>, path: Seq<usize>)
    requires
        adj_matches(s, adj),
        is_cycle_walk(adj, path),
    ensures
        is_dependency_cycle(s, path.map_values(|i: usize| s[i as int].ty)),
{
    let metas = path.map_values(|i: usize| s[i as int].ty);
    assert forall|m: int| 0 <= m < metas.len() - 1 implies exists|i: int|
        0 <= i < s.len() && (#[trigger] s[i]).ty.key() == (#[trigger] metas[m]).key() && needs(
            s[i],
            metas[m + 1].key(),
        ) by {
        let u = path[m] as int;
        assert(adj[u].contains(path[m + 1]));
        let e = choose|e: int| 0 <= e < adj[u].len() && adj[u][e] == path[m + 1];
        assert(adj[u][e] == path[m + 1]);
        assert(s[adj[u][e] as int].ty.key() == edges(s[u])[e].key());
        assert(s[u].ty.key() == metas[m].key());
        assert(needs(s[u], metas[m + 1].key()));
    }
    let j = choose|j: int| 0 <= j < path.len() - 1 && path[j] == path.last();
    assert(metas[j].key() == metas.last().key());
}

/// The position of the binding of `k`, where there is one.
spec fn index_of_key(s: Seq<Binding>, k: TypeId) -> int {
    choose|i: int| 0 <= i < s.len() && (#[trigger] s[i]).ty.key() == k
}

proof fn lemma_dependency_cycle_is_index_cycle(
    s: Seq<Binding>,
    adj: Seq<Seq<usize>>,
    path: Seq<TypeMeta>,
) -> (ip: Seq<usize>)
    requires
        s.len() <= usize::MAX,
        !has_duplicate(s),
        adj_matches(s, adj),
        is_dependency_cycle(s, path),
    ensures
        is_cycle_walk(adj, ip),
{
    let j = choose|j: int| 0 <= j < path.len() - 1 && path[j].key() == path.last().key();
    assert forall|m: int| 0 <= m < path.len() implies is_bound(s, (#[trigger] path[m]).key()) by {
        let mm = if m < path.len() - 1 {
            m
        } else {
            j
        };
        let i = choose|i: int|
            0 <= i < s.len() && (#[trigger] s[i]).ty.key() == (#[trigger] path[mm]).key() && needs(
                s[i],
                path[mm + 1].key(),
            );
        assert(s[i].ty.key() == path[m].key());
    }
    let ip = path.map_values(|t: TypeMeta| index_of_key(s, t.key()) as usize);
    assert forall|m: int| 0 <= m < path.len() implies {
        &&& 0 <= index_of_key(s, (#[trigger] path[m]).key()) < s.len()
        &&& s[index_of_key(s, path[m].key())].ty.key() == path[m].key()
        &&& ip[m] as int == index_of_key(s, path[m].key())
    } by {
        assert(is_bound(s, path[m].key()));
    }
    assert forall|m: int| 0 <= m < ip.len() - 1 implies adj[#[trigger] ip[m] as int].contains(
        ip[m + 1],
    ) by {
        let u = ip[m] as int;
        assert(s[u].ty.key() == path[m].key());
        let i = choose|i: int|
            0 <= i < s.len() && (#[trigger] s[i]).ty.key() == (#[trigger] path[m]).key() && needs(
                s[i],
                path[m + 1].key(),
            );
        if i != u {
            if i < u {
                assert(s[i].ty.key() == s[u].ty.key());
            } else {
                assert(s[u].ty.key() == s[i].ty.key());
            }
        }
        let e = choose|e: int| 0 <= e < edges(s[u]).len() && (#[trigger] edges(s[u])[e]).key() == path[m + 1].key();
        let w = adj[u][e];
        assert(s[w as int].ty.key() == path[m + 1].key());
        let v = ip[m + 1] as int;
        assert(s[v].ty.key() == path[m + 1].key());
        if (w as int) != v {
            if (w as int) < v {
                assert(s[w as int].ty.key() == s[v].ty.key());
            } else {
                assert(s[v].ty.key() == s[w as int].ty.key());
            }
        }
        assert(adj[u][e] == ip[m + 1]);
    }
    assert(ip[j] == ip.last()) by {
        assert(path[j].key() == path.last().key());
    }
    assert forall|m: int| 0 <= m < ip.len() implies #[trigger] ip[m] < adj.len() by {}
    ip
}

/// With no type bound twice, an order in which every binding comes after
/// the bindings it needs rules out circular dependencies.
pub proof fn lemma_dependency_order_is_acyclic(
    s: Seq<Binding>,
    adj: Seq<Seq<usize>>,
    order: Seq<usize>,
)
    requires
        s.len() <= usize::MAX,
        !has_duplicate(s),
        adj_matches(s, adj),
        is_permutation(s.len(), order),
        is_topological(adj, order),
    ensures
        is_acyclic(s),
{
    assert(adj_wf(adj)) by {
        assert forall|u: int, k: int| 0 <= u < adj.len() && 0 <= k < adj[u].len() implies #[trigger] adj[u][k] < adj.len() by {
        }
    }
    assert forall|path: Seq<TypeMeta>| !is_dependency_cycle(s, path) by {
        if is_dependency_cycle(s, path) {
            let ip = lemma_dependency_cycle_is_index_cycle(s, adj, path);
            lemma_topological_excludes_cycles(adj, order, ip);
        }
    }
}

/// Takes the binding at `idx` out of `slots`, leaving `None`.
fn take_slot(slots: &mut Vec<Option<Binding>>, idx: usize) -> (r: Option<Binding>)
    requires
        idx < old(slots)@.len(),
    ensures
        r == old(slots)@[idx as int],
        final(slots)@ == old(slots)@.update(idx as int, None),
{
    let r = slots.remove(idx);
    slots.insert(idx, None);
    proof {
        assert(slots@ =~= old(slots)@.update(idx as int, None));
    }
    r
}

/// Orders the bindings so that each comes after the bindings of the types
/// it needs. Fails on a type bound twice, on a need that nothing provides,
/// and on a circular dependency.
pub fn resolve_order(bindings: Vec<Binding>) -> (r: Result<Vec<Binding>, Error>)
    ensures
        has_duplicate(bindings@) <==> r matches Err(Error::Duplicated { .. }),
        r matches Err(Error::Duplicated { type_meta }) ==> exists|j: int|
            is_first_duplicate(bindings@, j) && bindings@[j].ty == type_meta,
        r matches Err(Error::Missing { type_meta }) ==> !has_duplicate(bindings@) && is_missing(
            bindings@,
            type_meta.key(),
        ),
        r matches Err(Error::Circular { path }) ==> {
            &&& !has_duplicate(bindings@)
            &&& needs_are_bound(bindings@)
            &&& is_dependency_cycle(bindings@, path@)
            &&& distinct_before_last(path@)
        },
        r matches Ok(out) ==> {
            &&& is_resolvable(bindings@)
            &&& is_reordering(bindings@, out@)
            &&& is_dependency_order(out@)
        },
        is_resolvable(bindings@) ==> r is Ok,
{
    let ghost s = bindings@;
    if let Some(j) = first_duplicate(&bindings) {
        return Err(Error::Duplicated { type_meta: bindings[j].ty });
    }
    let adj = match adjacency(&bindings) {
        Ok(adj) => adj,
        Err(t) => {
            return Err(Error::Missing { type_meta: t });
        },
    };
    let ghost g = adj@.map_values(|a: Vec<usize>| a@);
    proof {
        assert(adj_wf(g)) by {
            assert forall|u: int, k: int| 0 <= u < g.len() && 0 <= k < g[u].len() implies #[trigger] g[u][k] < g.len() by {
            }
        }
    }
    let order = match topological_order(&adj) {
        Ok(order) => order,
        Err(path) => {
            let mut metas: Vec<TypeMeta> = Vec::new();
            let mut m: usize = 0;
            while m < path.len()
                invariant
                    m <= path@.len(),
                    forall|q: int| 0 <= q < path@.len() ==> (#[trigger] path@[q]) < s.len(),
                    s == bindings@,
                    metas@ == path@.take(m as int).map_values(|i: usize| s[i as int].ty),
                decreases path@.len() - m,
            {
                metas.push(bindings[path[m]].ty);
                proof {
                    assert(path@.take(m + 1).map_values(|i: usize| s[i as int].ty) =~= path@.take(
                        m as int,
                    ).map_values(|i: usize| s[i as int].ty).push(s[path@[m as int] as int].ty));
                }
                m = m + 1;
            }
            proof {
                assert(path@.take(m as int) =~= path@);
                lemma_index_cycle_is_dependency_cycle(s, g, path@);
                assert forall|a: int, b: int| 0 <= a < b < metas@.len() - 1 implies (#[trigger] metas@[a]).key()
                    != (#[trigger] metas@[b]).key() by {
                    assert(path@.drop_last()[a] == path@[a]);
                    assert(path@.drop_last()[b] == path@[b]);
                    let pa = path@[a] as int;
                    let pb = path@[b] as int;
                    if pa < pb {
                        assert(s[pa].ty.key() != s[pb].ty.key());
                    } else {
                        assert(s[pb].ty.key() != s[pa].ty.key());
                    }
                }
            }
            return Err(Error::Circular { path: metas });
        },
    };
    proof {
        lemma_dependency_order_is_acyclic(s, g, order@);
    }
    let n = bindings.len();
    let mut slots: Vec<Option<Binding>> = Vec::new();
    let mut rest = bindings;
    let mut i: usize = 0;
    while rest.len() > 0
        invariant
            n == s.len(),
            i + rest@.len() == s.len(),
            rest@ == s.skip(i as int),
            slots@.len() == i,
            forall|v: int| 0 <= v < i ==> slots@[v] == Some(s[v]),
        decreases rest@.len(),
    {
        let b = rest.remove(0);
        proof {
            assert(b == s[i as int]);
            assert(rest@ =~= s.skip(i + 1));
        }
        slots.push(Some(b));
        i = i + 1;
    }
    let mut out: Vec<Binding> = Vec::new();
    let mut p: usize = 0;
    while p < n
        invariant
            n == s.len(),
            is_permutation(n as nat, order@),
            p <= n,
            slots@.len() == n,
            out@.len() == p,
            forall|q: int| 0 <= q < p ==> out@[q] == s[#[trigger] order@[q] as int],
            forall|v: int|
                0 <= v < n ==> slots@[v] == if order@.take(p as int).contains(v as usize) {
                    None
                } else {
                    Some(s[v])
                },
        decreases n - p,
    {
        let idx = order[p];
        proof {
            assert(!order@.take(p as int).contains(idx)) by {
                if order@.take(p as int).contains(idx) {
                    let q = choose|q: int| 0 <= q < p && order@.take(p as int)[q] == idx;
                    assert(order@[q] == order@[p as int]);
                }
            }
        }
        let slot = take_slot(&mut slots, idx);
        match slot {
            Some(b) => {
                out.push(b);
            },
            None => {
                proof {
                    assert(false);
                }
            },
        }
        proof {
            assert forall|v: int| 0 <= v < n implies slots@[v] == if order@.take(p + 1).contains(
                v as usize,
            ) {
                None
            } else {
                Some(s[v])
            } by {
                let t1 = order@.take(p + 1);
                let t0 = order@.take(p as int);
                assert(t1 =~= t0.push(idx));
                if v == idx as int {
                    assert(t1[p as int] == idx);
                } else {
                    if t1.contains(v as usize) {
                        let q = choose|q: int| 0 <= q < t1.len() && t1[q] == v as usize;
                        assert(q < p);
                        assert(t0[q] == v as usize);
                    }
                    if t0.contains(v as usize) {
                        let q = choose|q: int| 0 <= q < t0.len() && t0[q] == v as usize;
                        assert(t1[q] == v as usize);
                    }
                }
            }
        }
        p = p + 1;
    }
    proof {
        assert(is_reordering(s, out@)) by {
            assert(is_permutation(s.len(), order@));
            assert(out@.len() == s.len());
            assert(forall|i: int| 0 <= i < out@.len() ==> out@[i] == s[#[trigger] order@[i] as int]);
        }
        assert(needs_are_bound(s));
        assert(is_acyclic(s));
        assert(is_resolvable(s));
        assert forall|i: int, e: int|
            0 <= i < out@.len() && 0 <= e < edges(out@[i]).len() implies #[trigger] provided_before(out@, i, e) by {
            let u = order@[i] as int;
            assert(out@[i] == s[u]);
            assert(placed_before(g, order@, i, e));
            let q = choose|q: int| 0 <= q < i && order@[q] == g[order@[i] as int][e];
            assert(out@[q] == s[order@[q] as int]);
        }
        assert(is_dependency_order(out@));
    }
    Ok(out)
}

} // verus!
