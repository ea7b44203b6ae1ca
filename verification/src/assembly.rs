//! Building services from the bindings of a builder.

use crate::binding::{Binding, BindingKind, BindingLifetime, SingletonProvider};
use crate::erased::ErasedArc;
use crate::factory::{Factory, OnceProducer};
use crate::builder::ServicesBuilder;
use crate::error::Error;
use crate::graph::{
    alias_impls, dedup_keys, distinct_before_last, edges, has_duplicate, is_alias_of, is_dependency_cycle,
    is_dependency_order, is_first_duplicate, is_merge_of, is_missing, is_reordering,
    is_resolvable, kept, kept_indices, merge_aliases, merged_entry_with, needs_are_bound,
    lemma_first_alias_exists, lemma_kept_indices, provided_before, resolve_order, AliasImpls,
};
use crate::mbmany::OneOrMany;
use crate::meta::TypeMeta;
use crate::order::{is_permutation, lemma_permutation_covers};
use crate::services::{built_from, sources, ImmutableBinding, ImmutableTypeBinding, Services};
use crate::unsize::ErasedUnsizer;
use std::any::TypeId;
use vstd::prelude::*;

verus! {

/// Some alias of `s` provides the type with key `t`.
pub open spec fn alias_bound(s: Seq<Binding>, t: TypeId) -> bool {
    exists|j: int| 0 <= j < s.len() && is_alias_of(#[trigger] s[j], t)
}

/// Some type binding of `s` provides the type with key `t`.
pub open spec fn type_bound(s: Seq<Binding>, t: TypeId) -> bool {
    exists|j: int| 0 <= j < s.len() && (#[trigger] s[j]).kind is Type && s[j].ty.key() == t
}

/// Every alias type of `s` gets at least one implementation, and no
/// implementation names a type that only aliases provide.
pub open spec fn impls_well_formed(s: Seq<Binding>) -> bool {
    &&& forall|i: int|
        0 <= i < s.len() && (#[trigger] s[i]).kind is Alias ==> alias_impls(s, s[i].ty.key()).len()
            > 0
    &&& forall|i: int, k: int|
        0 <= i < s.len() && s[i].kind is Alias && 0 <= k < s[i].kind->impls@.len()
            && alias_bound(s, (#[trigger] s[i].kind->impls@[k]).0.key()) ==> type_bound(
            s,
            s[i].kind->impls@[k].0.key(),
        )
}

/// Building the services from `s` cannot stop half way once the merged
/// bindings can be ordered: their aliases are well formed.
pub open spec fn can_build(s: Seq<Binding>) -> bool {
    forall|m: Seq<Binding>| #[trigger] is_merge_of(s, m) && is_resolvable(m) ==> impls_well_formed(s)
}

/// `b` is an alias of the type with key `k` with at least one
/// implementation.
pub open spec fn nonempty_alias_of(b: Binding, k: TypeId) -> bool {
    is_alias_of(b, k) && b.kind->impls@.len() > 0
}

proof fn lemma_alias_impls_nonempty(s: Seq<Binding>, k: TypeId)
    ensures
        alias_impls(s, k).len() > 0 <==> exists|j: int|
            0 <= j < s.len() && #[trigger] nonempty_alias_of(s[j], k),
    decreases s.len(),
{
    if s.len() > 0 {
        let t = s.drop_last();
        lemma_alias_impls_nonempty(t, k);
        assert(alias_impls(s, k).len() == alias_impls(t, k).len() + if is_alias_of(s.last(), k) {
            s.last().kind->impls@.len() as int
        } else {
            0int
        });
        if nonempty_alias_of(s.last(), k) {
            assert(nonempty_alias_of(s[s.len() - 1], k));
        }
        if exists|j: int| 0 <= j < t.len() && #[trigger] nonempty_alias_of(t[j], k) {
            let j = choose|j: int| 0 <= j < t.len() && #[trigger] nonempty_alias_of(t[j], k);
            assert(s[j] == t[j]);
        }
        if exists|j: int| 0 <= j < s.len() && #[trigger] nonempty_alias_of(s[j], k) {
            let j = choose|j: int| 0 <= j < s.len() && #[trigger] nonempty_alias_of(s[j], k);
            if j < t.len() {
                assert(t[j] == s[j]);
            } else {
                assert(s[j] == s.last());
            }
        }
    }
}

/// Whether some binding of `v` is an alias of the type of `t` with at least
/// one implementation.
fn has_nonempty_alias(v: &Vec<Binding>, t: &TypeMeta) -> (r: bool)
    ensures
        r == exists|j: int| 0 <= j < v@.len() && #[trigger] nonempty_alias_of(v@[j], t.key()),
{
    let mut i: usize = 0;
    while i < v.len()
        invariant
            i <= v@.len(),
            forall|j: int| 0 <= j < i ==> !#[trigger] nonempty_alias_of(v@[j], t.key()),
        decreases v@.len() - i,
    {
        let hit = match &v[i].kind {
            BindingKind::Alias { impls } => v[i].ty.same(t) && impls.len() > 0,
            BindingKind::Type { .. } => false,
        };
        if hit {
            assert(nonempty_alias_of(v@[i as int], t.key()));
            return true;
        }
        i = i + 1;
    }
    false
}

/// Whether some binding of `v` is an alias of the type of `t`.
fn has_alias(v: &Vec<Binding>, t: &TypeMeta) -> (r: bool)
    ensures
        r == alias_bound(v@, t.key()),
{
    let mut i: usize = 0;
    while i < v.len()
        invariant
            i <= v@.len(),
            forall|j: int| 0 <= j < i ==> !is_alias_of(#[trigger] v@[j], t.key()),
        decreases v@.len() - i,
    {
        let hit = match &v[i].kind {
            BindingKind::Alias { .. } => v[i].ty.same(t),
            BindingKind::Type { .. } => false,
        };
        if hit {
            assert(is_alias_of(v@[i as int], t.key()));
            return true;
        }
        i = i + 1;
    }
    false
}

/// Whether some binding of `v` binds the type of `t` with its own
/// instances.
fn has_type(v: &Vec<Binding>, t: &TypeMeta) -> (r: bool)
    ensures
        r == type_bound(v@, t.key()),
{
    let mut i: usize = 0;
    while i < v.len()
        invariant
            i <= v@.len(),
            forall|j: int| 0 <= j < i ==> !((#[trigger] v@[j]).kind is Type && v@[j].ty.key() == t.key()),
        decreases v@.len() - i,
    {
        let hit = match &v[i].kind {
            BindingKind::Type { .. } => v[i].ty.same(t),
            BindingKind::Alias { .. } => false,
        };
        if hit {
            return true;
        }
        i = i + 1;
    }
    false
}

/// Whether the aliases of `v` are well formed, which lets them be built:
/// every alias type has an implementation, and no implementation names a
/// type that only aliases provide.
pub fn aliases_well_formed(v: &Vec<Binding>) -> (r: bool)
    ensures
        r == impls_well_formed(v@),
        r ==> can_build(v@),
{
    let ghost s = v@;
    let mut i: usize = 0;
    while i < v.len()
        invariant
            s == v@,
            i <= s.len(),
            forall|ii: int|
                0 <= ii < i && (#[trigger] s[ii]).kind is Alias ==> alias_impls(s, s[ii].ty.key()).len()
                    > 0,
            forall|ii: int, k: int|
                0 <= ii < i && s[ii].kind is Alias && 0 <= k < s[ii].kind->impls@.len()
                    && alias_bound(s, (#[trigger] s[ii].kind->impls@[k]).0.key()) ==> type_bound(
                    s,
                    s[ii].kind->impls@[k].0.key(),
                ),
        decreases s.len() - i,
    {
        match &v[i].kind {
            BindingKind::Type { .. } => {},
            BindingKind::Alias { impls } => {
                proof {
                    lemma_alias_impls_nonempty(s, s[i as int].ty.key());
                }
                if !has_nonempty_alias(v, &v[i].ty) {
                    return false;
                }
                let mut k: usize = 0;
                while k < impls.len()
                    invariant
                        s == v@,
                        i < s.len(),
                        s[i as int].kind == (BindingKind::Alias { impls: *impls }),
                        k <= impls@.len(),
                        forall|kk: int|
                            0 <= kk < k && alias_bound(s, (#[trigger] impls@[kk]).0.key()) ==> type_bound(
                                s,
                                impls@[kk].0.key(),
                            ),
                    decreases impls@.len() - k,
                {
                    if has_alias(v, &impls[k].0) && !has_type(v, &impls[k].0) {
                        proof {
                            assert(s[i as int].kind->impls@[k as int] == impls@[k as int]);
                        }
                        return false;
                    }
                    k = k + 1;
                }
                proof {
                    assert forall|kk: int|
                        0 <= kk < s[i as int].kind->impls@.len() && alias_bound(
                            s,
                            (#[trigger] s[i as int].kind->impls@[kk]).0.key(),
                        ) implies type_bound(s, s[i as int].kind->impls@[kk].0.key()) by {
                        assert(impls@[kk] == s[i as int].kind->impls@[kk]);
                    }
                }
            },
        }
        i = i + 1;
    }
    true
}

/// The binding is resolvable under its own type: an alias, or a type
/// binding that was not excluded.
pub open spec fn exposes(b: Binding) -> bool {
    match b.kind {
        BindingKind::Type { bind_self, .. } => bind_self,
        BindingKind::Alias { .. } => true,
    }
}

/// Building `m` calls a singleton factory.
pub open spec fn runs_factories(m: Seq<Binding>) -> bool {
    exists|i: int|
        0 <= i < m.len() && (#[trigger] m[i]).kind matches BindingKind::Type {
            lifetime: BindingLifetime::Singleton(SingletonProvider::Factory(_)),
            ..
        }
}

/// `e` is an error that the singleton factory of `b` may return when it runs
/// on the services `svc`.
pub open spec fn factory_error_of(b: Binding, svc: Services, e: Error) -> bool {
    &&& b.kind is Type
    &&& b.kind->lifetime matches BindingLifetime::Singleton(SingletonProvider::Factory(f))
    &&& Factory::<OnceProducer>::produce.ensures((f, &svc), Err::<ErasedArc, Error>(e))
}

/// `e` is what a singleton factory of `m` returned, run on the services
/// built from the bindings placed before it in a dependency order of `m`.
pub open spec fn factory_failed(m: Seq<Binding>, e: Error) -> bool {
    exists|o: Seq<Binding>, i: int, svc: Services|
        is_reordering(m, o) && is_dependency_order(o) && 0 <= i < o.len() && built_prefix(
            o,
            i,
            svc@,
        ) && #[trigger] factory_error_of(o[i], svc, e)
}

/// Where `o[i]` is a singleton made by a factory, `svc` stores under its
/// type the instance that the factory produced, run on services built from
/// the bindings before it.
pub open spec fn factory_ran(o: Seq<Binding>, i: int, svc: Map<TypeId, ImmutableBinding>) -> bool {
    o[i].kind->lifetime matches BindingLifetime::Singleton(SingletonProvider::Factory(f)) ==> (
    svc[o[i].ty.key()] matches ImmutableBinding::Type {
        binding: ImmutableTypeBinding::Singleton(x),
    } && exists|pre: Services|
        #[trigger] built_prefix(o, i, pre@) && Factory::<OnceProducer>::produce.ensures(
            (f, &pre),
            Ok::<ErasedArc, Error>(x),
        ))
}

/// Every exposed singleton made by a factory was produced on the services
/// built before it.
pub open spec fn singletons_ran(o: Seq<Binding>, svc: Map<TypeId, ImmutableBinding>) -> bool {
    forall|i: int|
        0 <= i < o.len() && (#[trigger] o[i]).kind is Type && exposes(o[i]) ==> factory_ran(o, i, svc)
}

/// `r` is the error that ordering `m` gives.
pub open spec fn graph_failure(m: Seq<Binding>, r: Result<Services, Error>) -> bool {
    &&& r is Err
    &&& (has_duplicate(m) <==> r matches Err(Error::Duplicated { .. }))
    &&& (r matches Err(Error::Duplicated { type_meta }) ==> exists|j: int|
        is_first_duplicate(m, j) && m[j].ty == type_meta)
    &&& (r matches Err(Error::Missing { type_meta }) ==> !has_duplicate(m) && is_missing(
        m,
        type_meta.key(),
    ))
    &&& (r matches Err(Error::Circular { path }) ==> !has_duplicate(m) && needs_are_bound(m)
        && is_dependency_cycle(m, path@) && distinct_before_last(path@))
}

/// `out` is what an alias implementation `src` becomes: the same unsizer,
/// and the built binding of the implementing type, the very one that the
/// services expose under that type if they do.
pub open spec fn impl_built(
    o: Seq<Binding>,
    svc: Map<TypeId, ImmutableBinding>,
    src: (TypeMeta, ErasedUnsizer),
    out: (ErasedUnsizer, ImmutableTypeBinding),
) -> bool {
    &&& out.0 == src.1
    &&& exists|j: int|
        0 <= j < o.len() && (#[trigger] o[j]).ty.key() == src.0.key() && o[j].kind is Type
            && built_from(o[j].kind->lifetime, out.1)
    &&& svc.contains_key(src.0.key()) ==> svc[src.0.key()] == (ImmutableBinding::Type {
        binding: out.1,
    })
}

/// `svc` holds the services built from the bindings `o`: each exposed
/// binding under its type, built from its lifetime, or from the built
/// bindings of its implementations.
pub open spec fn services_built(o: Seq<Binding>, svc: Map<TypeId, ImmutableBinding>) -> bool {
    &&& forall|k: TypeId|
        svc.contains_key(k) <==> exists|i: int|
            0 <= i < o.len() && (#[trigger] o[i]).ty.key() == k && exposes(o[i])
    &&& forall|i: int|
        0 <= i < o.len() && (#[trigger] o[i]).kind is Type && exposes(o[i]) ==> {
            &&& svc[o[i].ty.key()] is Type
            &&& built_from(o[i].kind->lifetime, svc[o[i].ty.key()]->binding)
        }
    &&& forall|i: int|
        0 <= i < o.len() && (#[trigger] o[i]).kind is Alias ==> {
            &&& svc[o[i].ty.key()] is Alias
            &&& svc[o[i].ty.key()]->impls@.len() == o[i].kind->impls@.len()
            &&& forall|k: int|
                0 <= k < o[i].kind->impls@.len() ==> impl_built(
                    o,
                    svc,
                    o[i].kind->impls@[k],
                    #[trigger] svc[o[i].ty.key()]->impls@[k],
                )
        }
}

/// What building the bindings `s` gives, where `m` is their merge: the error
/// of ordering `m` where it cannot be ordered; the services otherwise, unless
/// a singleton factory fails.
pub open spec fn build_outcome(s: Seq<Binding>, m: Seq<Binding>, r: Result<Services, Error>) -> bool {
    &&& is_merge_of(s, m)
    &&& !is_resolvable(m) ==> graph_failure(m, r)
    &&& is_resolvable(m) && !runs_factories(m) ==> r is Ok
    &&& (is_resolvable(m) ==> (r matches Err(e) ==> factory_failed(m, e)))
    &&& (r matches Ok(svc) ==> is_resolvable(m) && exists|o: Seq<Binding>|
        is_reordering(m, o) && is_dependency_order(o) && services_built(o, svc@) && singletons_ran(
            o,
            svc@,
        ))
}

proof fn lemma_dedup(x: AliasImpls)
    ensures
        forall|e: (TypeMeta, ErasedUnsizer)| #[trigger] dedup_keys(x).contains(e) ==> x.contains(e),
        x.len() > 0 ==> dedup_keys(x).len() > 0,
    decreases x.len(),
{
    if x.len() > 0 {
        let t = x.drop_last();
        lemma_dedup(t);
        let d = dedup_keys(t);
        assert forall|e: (TypeMeta, ErasedUnsizer)| #[trigger] dedup_keys(x).contains(e) implies x.contains(e) by {
            let dx = dedup_keys(x);
            let i = choose|i: int| 0 <= i < dx.len() && dx[i] == e;
            if i < d.len() {
                assert(d[i] == e);
                assert(d.contains(e));
                assert(t.contains(e));
                let j = choose|j: int| 0 <= j < t.len() && t[j] == e;
                assert(x[j] == e);
            } else {
                assert(e == x.last());
                assert(x[x.len() - 1] == e);
            }
        }
        if d.len() == 0 {
            assert(!crate::graph::has_impl_key(d, x.last().0.key()));
        }
    }
}

proof fn lemma_alias_impls_source(s: Seq<Binding>, k: TypeId, e: (TypeMeta, ErasedUnsizer))
    requires
        alias_impls(s, k).contains(e),
    ensures
        exists|a: int| 0 <= a < s.len() && is_alias_of(#[trigger] s[a], k) && s[a].kind->impls@.contains(e),
    decreases s.len(),
{
    let t = s.drop_last();
    if alias_impls(t, k).contains(e) {
        lemma_alias_impls_source(t, k, e);
        let a = choose|a: int| 0 <= a < t.len() && is_alias_of(#[trigger] t[a], k) && t[a].kind->impls@.contains(e);
        assert(s[a] == t[a]);
    } else {
        let x = alias_impls(s, k);
        let i = choose|i: int| 0 <= i < x.len() && x[i] == e;
        assert(is_alias_of(s.last(), k));
        let tail = s.last().kind->impls@;
        assert(x == alias_impls(t, k) + tail);
        assert(i >= alias_impls(t, k).len()) by {
            if i < alias_impls(t, k).len() {
                assert(alias_impls(t, k)[i] == e);
            }
        }
        assert(tail[i - alias_impls(t, k).len()] == e);
        assert(s[s.len() - 1] == s.last());
    }
}

/// What merging makes of position `q`: the binding of the kept position
/// `i` of `s`.
proof fn lemma_merge_entry(s: Seq<Binding>, m: Seq<Binding>, q: int) -> (i: int)
    requires
        is_merge_of(s, m),
        0 <= q < m.len(),
    ensures
        0 <= i < s.len(),
        i == kept_indices(s)[q],
        kept(s, i),
        m[q].ty == s[i].ty,
        m[q].kind is Alias <==> s[i].kind is Alias,
        s[i].kind is Type ==> m[q] == s[i],
        s[i].kind is Alias ==> m[q].kind->impls@ == dedup_keys(alias_impls(s, s[i].ty.key())),
{
    lemma_kept_indices(s);
    let i = kept_indices(s)[q];
    assert(merged_entry_with(s, i, m[q], true));
    i
}

proof fn lemma_merge_keeps_types(s: Seq<Binding>, m: Seq<Binding>, i: int) -> (q: int)
    requires
        is_merge_of(s, m),
        0 <= i < s.len(),
        s[i].kind is Type,
    ensures
        0 <= q < m.len(),
        m[q] == s[i],
{
    lemma_kept_indices(s);
    assert(kept(s, i));
    let q = choose|q: int| 0 <= q < kept_indices(s).len() && #[trigger] kept_indices(s)[q] == i;
    assert(merged_entry_with(s, i, m[q], true));
    q
}

/// Facts of a reordering of bindings with no duplicate.
proof fn lemma_reordering(m: Seq<Binding>, o: Seq<Binding>)
    requires
        !has_duplicate(m),
        is_reordering(m, o),
    ensures
        !has_duplicate(o),
        o.len() == m.len(),
        forall|i: int| 0 <= i < o.len() ==> m.contains(#[trigger] o[i]),
        forall|q: int| 0 <= q < m.len() ==> o.contains(#[trigger] m[q]),
{
    let perm = choose|perm: Seq<usize>|
        is_permutation(m.len(), perm) && o.len() == m.len() && forall|i: int|
            0 <= i < o.len() ==> o[i] == m[#[trigger] perm[i] as int];
    assert forall|i: int| 0 <= i < o.len() implies m.contains(#[trigger] o[i]) by {
        assert(o[i] == m[perm[i] as int]);
    }
    assert forall|q: int| 0 <= q < m.len() implies o.contains(#[trigger] m[q]) by {
        lemma_permutation_covers(m.len(), perm, q as usize);
        let i = choose|i: int| 0 <= i < perm.len() && perm[i] == q as usize;
        assert(o[i] == m[perm[i] as int]);
    }
    if has_duplicate(o) {
        let (i, j) = choose|i: int, j: int| 0 <= i < j < o.len() && (#[trigger] o[i]).ty.key() == (#[trigger] o[j]).ty.key();
        let pi = perm[i] as int;
        let pj = perm[j] as int;
        assert(o[i] == m[pi] && o[j] == m[pj]);
        if pi < pj {
            assert(m[pi].ty.key() == m[pj].ty.key());
        } else if pj < pi {
            assert(m[pj].ty.key() == m[pi].ty.key());
        } else {
            assert(perm[i] == perm[j]);
        }
    }
}

/// In a merge of bindings that can be built, a binding of a type that
/// implements an alias is a type binding.
proof fn lemma_impl_not_alias(s: Seq<Binding>, m: Seq<Binding>, q: int, e: int, q2: int)
    requires
        impls_well_formed(s),
        is_merge_of(s, m),
        !has_duplicate(m),
        0 <= q < m.len(),
        m[q].kind is Alias,
        0 <= e < m[q].kind->impls@.len(),
        0 <= q2 < m.len(),
        m[q2].ty.key() == m[q].kind->impls@[e].0.key(),
    ensures
        m[q2].kind is Type,
{
    if m[q2].kind is Type {
        return;
    }
    let src = m[q].kind->impls@[e];
    let t = src.0.key();
    let si = lemma_merge_entry(s, m, q);
    let sj = lemma_merge_entry(s, m, q2);
    assert(is_alias_of(s[sj], t));
    assert(alias_bound(s, t));
    let big_k = s[si].ty.key();
    lemma_dedup(alias_impls(s, big_k));
    assert(m[q].kind->impls@[e] == src);
    assert(m[q].kind->impls@.contains(src));
    assert(alias_impls(s, big_k).contains(src));
    lemma_alias_impls_source(s, big_k, src);
    let a = choose|a: int| 0 <= a < s.len() && is_alias_of(#[trigger] s[a], big_k) && s[a].kind->impls@.contains(src);
    let kk = choose|kk: int| 0 <= kk < s[a].kind->impls@.len() && s[a].kind->impls@[kk] == src;
    assert(s[a].kind is Alias);
    assert(alias_bound(s, (s[a].kind->impls@[kk]).0.key()));
    assert(type_bound(s, t));
    let b = choose|b: int| 0 <= b < s.len() && (#[trigger] s[b]).kind is Type && s[b].ty.key() == t;
    let q3 = lemma_merge_keeps_types(s, m, b);
    assert(m[q3].kind is Type);
    assert(q3 != q2);
    if q3 < q2 {
        assert(m[q3].ty.key() == m[q2].ty.key());
    } else {
        assert(m[q2].ty.key() == m[q3].ty.key());
    }
}

/// In a build that can go on, every implementation of an alias is a type
/// binding placed earlier.
proof fn lemma_alias_target(
    s: Seq<Binding>,
    m: Seq<Binding>,
    o: Seq<Binding>,
    i: int,
    e: int,
)
    requires
        impls_well_formed(s),
        is_merge_of(s, m),
        is_resolvable(m),
        is_reordering(m, o),
        is_dependency_order(o),
        0 <= i < o.len(),
        o[i].kind is Alias,
        0 <= e < o[i].kind->impls@.len(),
    ensures
        exists|j: int|
            0 <= j < i && (#[trigger] o[j]).ty.key() == o[i].kind->impls@[e].0.key() && o[j].kind is Type,
{
    lemma_reordering(m, o);
    let src = o[i].kind->impls@[e];
    assert(edges(o[i])[e] == src.0);
    assert(provided_before(o, i, e));
    let j = choose|j: int| 0 <= j < i && o[j].ty.key() == edges(o[i])[e].key();
    if o[j].kind is Alias {
        assert(m.contains(o[i]));
        assert(m.contains(o[j]));
        let q = choose|q: int| 0 <= q < m.len() && m[q] == o[i];
        let q2 = choose|q2: int| 0 <= q2 < m.len() && m[q2] == o[j];
        lemma_impl_not_alias(s, m, q, e, q2);
    }
}

/// In a build that can go on, every alias has at least one implementation.
proof fn lemma_alias_nonempty(s: Seq<Binding>, m: Seq<Binding>, o: Seq<Binding>, i: int)
    requires
        impls_well_formed(s),
        is_merge_of(s, m),
        !has_duplicate(m),
        is_reordering(m, o),
        0 <= i < o.len(),
        o[i].kind is Alias,
    ensures
        o[i].kind->impls@.len() > 0,
{
    lemma_reordering(m, o);
    assert(m.contains(o[i]));
    let q = choose|q: int| 0 <= q < m.len() && m[q] == o[i];
    let si = lemma_merge_entry(s, m, q);
    assert(s[si].kind is Alias);
    lemma_dedup(alias_impls(s, s[si].ty.key()));
}

/// The services built from the first `n` bindings of `o`, before any type
/// is unbound.
pub open spec fn built_prefix(o: Seq<Binding>, n: int, svc: Map<TypeId, ImmutableBinding>) -> bool {
    &&& forall|k: TypeId|
        svc.contains_key(k) <==> exists|j: int| 0 <= j < n && (#[trigger] o[j]).ty.key() == k
    &&& forall|j: int|
        0 <= j < n && (#[trigger] o[j]).kind is Type ==> {
            &&& svc[o[j].ty.key()] is Type
            &&& built_from(o[j].kind->lifetime, svc[o[j].ty.key()]->binding)
        }
    &&& forall|j: int|
        0 <= j < n && (#[trigger] o[j]).kind is Alias ==> {
            &&& svc[o[j].ty.key()] is Alias
            &&& svc[o[j].ty.key()]->impls@.len() == o[j].kind->impls@.len()
            &&& forall|k: int|
                0 <= k < o[j].kind->impls@.len() ==> impl_built_before(
                    o,
                    j,
                    svc,
                    o[j].kind->impls@[k],
                    #[trigger] svc[o[j].ty.key()]->impls@[k],
                )
        }
}

/// An alias implementation built from a type binding placed before `j`.
pub open spec fn impl_built_before(
    o: Seq<Binding>,
    j: int,
    svc: Map<TypeId, ImmutableBinding>,
    src: (TypeMeta, ErasedUnsizer),
    out: (ErasedUnsizer, ImmutableTypeBinding),
) -> bool {
    &&& out.0 == src.1
    &&& exists|j2: int|
        0 <= j2 < j && (#[trigger] o[j2]).ty.key() == src.0.key() && o[j2].kind is Type
            && built_from(o[j2].kind->lifetime, out.1)
    &&& svc.contains_key(src.0.key())
    &&& svc[src.0.key()] == (ImmutableBinding::Type { binding: out.1 })
}

proof fn lemma_built_prefix_insert(
    o: Seq<Binding>,
    n: int,
    svc: Map<TypeId, ImmutableBinding>,
    entry: ImmutableBinding,
)
    requires
        !has_duplicate(o),
        0 <= n < o.len(),
        built_prefix(o, n, svc),
        o[n].kind is Type ==> entry is Type && built_from(o[n].kind->lifetime, entry->binding),
        o[n].kind is Alias ==> {
            &&& entry is Alias
            &&& entry->impls@.len() == o[n].kind->impls@.len()
            &&& forall|k: int|
                0 <= k < o[n].kind->impls@.len() ==> impl_built_before(
                    o,
                    n,
                    svc,
                    o[n].kind->impls@[k],
                    #[trigger] entry->impls@[k],
                )
        },
    ensures
        built_prefix(o, n + 1, svc.insert(o[n].ty.key(), entry)),
{
    let key = o[n].ty.key();
    let svc2 = svc.insert(key, entry);
    assert forall|j: int| 0 <= j < n implies (#[trigger] o[j]).ty.key() != key by {
        assert(o[j].ty.key() != o[n].ty.key());
    }
    assert forall|k: TypeId| svc2.contains_key(k) <==> exists|j: int| 0 <= j < n + 1 && (#[trigger] o[j]).ty.key() == k by {
        if k != key {
            if exists|j: int| 0 <= j < n + 1 && (#[trigger] o[j]).ty.key() == k {
                let j = choose|j: int| 0 <= j < n + 1 && (#[trigger] o[j]).ty.key() == k;
                assert(j < n);
            }
        }
    }
    assert forall|j: int| 0 <= j < n + 1 && (#[trigger] o[j]).kind is Alias implies {
        &&& svc2[o[j].ty.key()] is Alias
        &&& svc2[o[j].ty.key()]->impls@.len() == o[j].kind->impls@.len()
        &&& forall|k: int|
            0 <= k < o[j].kind->impls@.len() ==> impl_built_before(
                o,
                j,
                svc2,
                o[j].kind->impls@[k],
                #[trigger] svc2[o[j].ty.key()]->impls@[k],
            )
    } by {
        if j < n {
            assert forall|k: int| 0 <= k < o[j].kind->impls@.len() implies impl_built_before(
                o,
                j,
                svc2,
                o[j].kind->impls@[k],
                #[trigger] svc2[o[j].ty.key()]->impls@[k],
            ) by {
                let src = o[j].kind->impls@[k];
                let out = svc[o[j].ty.key()]->impls@[k];
                assert(impl_built_before(o, j, svc, src, out));
                let j2 = choose|j2: int|
                    0 <= j2 < j && (#[trigger] o[j2]).ty.key() == src.0.key() && o[j2].kind is Type
                        && built_from(o[j2].kind->lifetime, out.1);
                assert(src.0.key() != key);
            }
        } else {
            assert forall|k: int| 0 <= k < o[j].kind->impls@.len() implies impl_built_before(
                o,
                j,
                svc2,
                o[j].kind->impls@[k],
                #[trigger] svc2[o[j].ty.key()]->impls@[k],
            ) by {
                let src = o[j].kind->impls@[k];
                let out = entry->impls@[k];
                assert(impl_built_before(o, n, svc, src, out));
                let j2 = choose|j2: int|
                    0 <= j2 < n && (#[trigger] o[j2]).ty.key() == src.0.key() && o[j2].kind is Type
                        && built_from(o[j2].kind->lifetime, out.1);
                assert(src.0.key() != key);
            }
        }
    }
}

proof fn lemma_ran_insert(
    o: Seq<Binding>,
    i: int,
    svc0: Map<TypeId, ImmutableBinding>,
    svc1: Map<TypeId, ImmutableBinding>,
    entry: ImmutableBinding,
    pre: Services,
)
    requires
        !has_duplicate(o),
        0 <= i < o.len(),
        svc1 == svc0.insert(o[i].ty.key(), entry),
        forall|j: int| 0 <= j < i && (#[trigger] o[j]).kind is Type ==> factory_ran(o, j, svc0),
        o[i].kind is Type ==> entry is Type && built_prefix(o, i, pre@),
        o[i].kind is Type ==> (o[i].kind->lifetime matches BindingLifetime::Singleton(
            SingletonProvider::Factory(f),
        ) ==> (entry->binding matches ImmutableTypeBinding::Singleton(x)
            && Factory::<OnceProducer>::produce.ensures((f, &pre), Ok::<ErasedArc, Error>(x)))),
    ensures
        forall|j: int| 0 <= j <= i && (#[trigger] o[j]).kind is Type ==> factory_ran(o, j, svc1),
{
    assert forall|j: int| 0 <= j <= i && (#[trigger] o[j]).kind is Type implies factory_ran(
        o,
        j,
        svc1,
    ) by {
        if j < i {
            assert(o[j].ty.key() != o[i].ty.key());
            assert(svc1[o[j].ty.key()] == svc0[o[j].ty.key()]);
            assert(factory_ran(o, j, svc0));
        } else {
            assert(svc1[o[i].ty.key()] == entry);
        }
    }
}

proof fn lemma_ran_unbind(
    o: Seq<Binding>,
    svc: Map<TypeId, ImmutableBinding>,
    fin: Map<TypeId, ImmutableBinding>,
)
    requires
        forall|j: int| 0 <= j < o.len() && (#[trigger] o[j]).kind is Type ==> factory_ran(o, j, svc),
        forall|k: TypeId| #[trigger] fin.contains_key(k) ==> svc.contains_key(k) && fin[k] == svc[k],
        services_built(o, fin),
    ensures
        singletons_ran(o, fin),
{
    assert forall|j: int| 0 <= j < o.len() && (#[trigger] o[j]).kind is Type && exposes(o[j]) implies factory_ran(
        o,
        j,
        fin,
    ) by {
        assert(fin.contains_key(o[j].ty.key()));
        assert(factory_ran(o, j, svc));
    }
}

/// Some meta of `v` describes the type with key `k`.
pub open spec fn lists_key(v: Seq<TypeMeta>, k: TypeId) -> bool {
    exists|l: int| 0 <= l < v.len() && (#[trigger] v[l]).key() == k
}

/// One of the first `u` bindings of `o` binds the type with key `k` without
/// exposing it.
pub open spec fn unbound_before(o: Seq<Binding>, u: int, k: TypeId) -> bool {
    exists|j: int| 0 <= j < u && (#[trigger] o[j]).ty.key() == k && !exposes(o[j])
}

/// The types that the bindings `o` exclude from the services.
pub open spec fn unbound_key(o: Seq<Binding>, k: TypeId) -> bool {
    exists|j: int|
        0 <= j < o.len() && (#[trigger] o[j]).ty.key() == k && !exposes(o[j])
}

proof fn lemma_unbind(
    o: Seq<Binding>,
    svc: Map<TypeId, ImmutableBinding>,
    fin: Map<TypeId, ImmutableBinding>,
)
    requires
        !has_duplicate(o),
        built_prefix(o, o.len() as int, svc),
        forall|k: TypeId|
            #![trigger fin.contains_key(k)]
            #![trigger svc.contains_key(k)]
            fin.contains_key(k) <==> svc.contains_key(k) && !unbound_key(o, k),
        forall|k: TypeId| #[trigger] fin.contains_key(k) ==> svc.contains_key(k) && fin[k] == svc[k],
    ensures
        services_built(o, fin),
{
    assert forall|k: TypeId| fin.contains_key(k) <==> exists|i: int|
        0 <= i < o.len() && (#[trigger] o[i]).ty.key() == k && exposes(o[i]) by {
        if fin.contains_key(k) {
            assert(svc.contains_key(k));
            let j = choose|j: int| 0 <= j < o.len() && (#[trigger] o[j]).ty.key() == k;
            if !exposes(o[j]) {
                assert(unbound_key(o, k));
            }
            assert(exposes(o[j]));
        }
        if exists|i: int| 0 <= i < o.len() && (#[trigger] o[i]).ty.key() == k && exposes(o[i]) {
            let i = choose|i: int| 0 <= i < o.len() && (#[trigger] o[i]).ty.key() == k && exposes(o[i]);
            assert(svc.contains_key(k));
            if unbound_key(o, k) {
                let j = choose|j: int| 0 <= j < o.len() && (#[trigger] o[j]).ty.key() == k && !exposes(o[j]);
                if i < j {
                    assert(o[i].ty.key() == o[j].ty.key());
                } else if j < i {
                    assert(o[j].ty.key() == o[i].ty.key());
                }
            }
        }
    }
    assert forall|i: int| 0 <= i < o.len() && (#[trigger] o[i]).kind is Type && exposes(o[i]) implies {
        &&& fin[o[i].ty.key()] is Type
        &&& built_from(o[i].kind->lifetime, fin[o[i].ty.key()]->binding)
    } by {
        assert(fin.contains_key(o[i].ty.key()));
    }
    assert forall|i: int| 0 <= i < o.len() && (#[trigger] o[i]).kind is Alias implies {
        &&& fin[o[i].ty.key()] is Alias
        &&& fin[o[i].ty.key()]->impls@.len() == o[i].kind->impls@.len()
        &&& forall|k: int|
            0 <= k < o[i].kind->impls@.len() ==> impl_built(
                o,
                fin,
                o[i].kind->impls@[k],
                #[trigger] fin[o[i].ty.key()]->impls@[k],
            )
    } by {
        assert(exposes(o[i]));
        assert(fin.contains_key(o[i].ty.key()));
        assert forall|k: int| 0 <= k < o[i].kind->impls@.len() implies impl_built(
            o,
            fin,
            o[i].kind->impls@[k],
            #[trigger] fin[o[i].ty.key()]->impls@[k],
        ) by {
            let src = o[i].kind->impls@[k];
            let out = svc[o[i].ty.key()]->impls@[k];
            assert(impl_built_before(o, i, svc, src, out));
        }
    }
}

/// The dependency order whose services a successful build holds.
proof fn lemma_built_order(s: Seq<Binding>, m: Seq<Binding>, svc: Services) -> (o: Seq<Binding>)
    requires
        build_outcome(s, m, Ok(svc)),
    ensures
        is_resolvable(m),
        is_reordering(m, o),
        services_built(o, svc@),
        !has_duplicate(o),
        forall|q: int| 0 <= q < m.len() ==> o.contains(#[trigger] m[q]),
{
    let o = choose|o: Seq<Binding>|
        is_reordering(m, o) && is_dependency_order(o) && services_built(o, svc@);
    lemma_reordering(m, o);
    o
}

/// A type bound without exposing itself is not resolvable under its type.
pub proof fn lemma_unexposed_type_absent(s: Seq<Binding>, m: Seq<Binding>, svc: Services, i: int)
    requires
        build_outcome(s, m, Ok(svc)),
        0 <= i < s.len(),
        s[i].kind matches BindingKind::Type { bind_self, .. } && !bind_self,
    ensures
        !svc@.contains_key(s[i].ty.key()),
{
    let o = lemma_built_order(s, m, svc);
    let k = s[i].ty.key();
    let q = lemma_merge_keeps_types(s, m, i);
    assert(o.contains(m[q]));
    let j = choose|j: int| 0 <= j < o.len() && o[j] == m[q];
    if svc@.contains_key(k) {
        let j2 = choose|j2: int| 0 <= j2 < o.len() && (#[trigger] o[j2]).ty.key() == k && exposes(o[j2]);
        if j2 < j {
            assert(o[j2].ty.key() == o[j].ty.key());
        } else if j < j2 {
            assert(o[j].ty.key() == o[j2].ty.key());
        }
    }
}

/// A type bound and exposed is resolvable under its type, stored as what
/// its lifetime gives: a given instance as that very singleton, a transient
/// factory as itself, a singleton factory as the singleton it produced.
pub proof fn lemma_type_binding_built(s: Seq<Binding>, m: Seq<Binding>, svc: Services, i: int)
    requires
        build_outcome(s, m, Ok(svc)),
        0 <= i < s.len(),
        s[i].kind matches BindingKind::Type { bind_self, .. } && bind_self,
    ensures
        svc@.contains_key(s[i].ty.key()),
        svc@[s[i].ty.key()] is Type,
        built_from(s[i].kind->lifetime, svc@[s[i].ty.key()]->binding),
{
    let o = lemma_built_order(s, m, svc);
    let q = lemma_merge_keeps_types(s, m, i);
    assert(o.contains(m[q]));
    let j = choose|j: int| 0 <= j < o.len() && o[j] == m[q];
    assert(exposes(o[j]));
}

/// Every alias of the builder is resolvable under its type, as an alias.
pub proof fn lemma_alias_exposed(s: Seq<Binding>, m: Seq<Binding>, svc: Services, i: int)
    requires
        build_outcome(s, m, Ok(svc)),
        0 <= i < s.len(),
        s[i].kind is Alias,
    ensures
        svc@.contains_key(s[i].ty.key()),
        svc@[s[i].ty.key()] is Alias,
{
    let o = lemma_built_order(s, m, svc);
    let k = s[i].ty.key();
    let f = lemma_first_alias_exists(s, k, i);
    lemma_kept_indices(s);
    let q = choose|q: int| 0 <= q < kept_indices(s).len() && #[trigger] kept_indices(s)[q] == f;
    assert(merged_entry_with(s, f, m[q], true));
    assert(o.contains(m[q]));
    let j = choose|j: int| 0 <= j < o.len() && o[j] == m[q];
    assert(exposes(o[j]));
    assert(o[j].kind is Alias);
}

/// The instances of an alias come from its implementations in the order
/// they were bound, the first binding of each implementing type kept, each
/// through its own unsizer; resolving one instance takes the last of them.
pub proof fn lemma_alias_sources_in_binding_order(
    s: Seq<Binding>,
    m: Seq<Binding>,
    svc: Services,
    i: int,
)
    requires
        build_outcome(s, m, Ok(svc)),
        0 <= i < s.len(),
        s[i].kind is Alias,
    ensures
        svc@.contains_key(s[i].ty.key()),
        sources(svc@[s[i].ty.key()]).len() == dedup_keys(alias_impls(s, s[i].ty.key())).len(),
        forall|e: int|
            0 <= e < sources(svc@[s[i].ty.key()]).len() ==> (#[trigger] sources(
                svc@[s[i].ty.key()],
            )[e]).0 == Some(dedup_keys(alias_impls(s, s[i].ty.key()))[e].1),
{
    let o = lemma_built_order(s, m, svc);
    let k = s[i].ty.key();
    let f = lemma_first_alias_exists(s, k, i);
    lemma_kept_indices(s);
    let q = choose|q: int| 0 <= q < kept_indices(s).len() && #[trigger] kept_indices(s)[q] == f;
    assert(merged_entry_with(s, f, m[q], true));
    assert(o.contains(m[q]));
    let j = choose|j: int| 0 <= j < o.len() && o[j] == m[q];
    assert(exposes(o[j]));
    assert(o[j].kind is Alias);
    let impls = dedup_keys(alias_impls(s, k));
    assert(o[j].kind->impls@ == impls);
    let entry = svc@[k];
    assert(entry is Alias);
    assert forall|e: int| 0 <= e < sources(entry).len() implies (#[trigger] sources(entry)[e]).0
        == Some(impls[e].1) by {
        assert(impl_built(o, svc@, o[j].kind->impls@[e], entry->impls@[e]));
    }
}

impl Services {
    /// Builds the services from the bindings of `builder`: merges the aliases
    /// of each type, orders the bindings by their needs, builds each in that
    /// order (a singleton factory runs now), then drops the types that were
    /// bound without exposing themselves.
    pub fn from_builder(builder: ServicesBuilder) -> (r: Result<Self, Error>)
        requires
            can_build(builder@),
        ensures
            exists|m: Seq<Binding>| build_outcome(builder@, m, r),
    {
        let ghost s = builder@;
        let bindings = builder.to_vec();
        let merged = merge_aliases(bindings);
        let ghost m = merged@;
        let ordered = match resolve_order(merged) {
            Ok(o) => o,
            Err(e) => {
                proof {
                    assert(build_outcome(s, m, Err(e)));
                }
                return Err(e);
            },
        };
        let ghost o = ordered@;
        proof {
            lemma_reordering(m, o);
            assert(is_merge_of(s, m));
            assert(impls_well_formed(s));
        }
        let mut unbind: Vec<TypeMeta> = Vec::new();
        let mut u: usize = 0;
        while u < ordered.len()
            invariant
                o == ordered@,
                u <= o.len(),
                forall|k: TypeId| #[trigger] lists_key(unbind@, k) <==> unbound_before(o, u as int, k),
            decreases o.len() - u,
        {
            let hide = match &ordered[u].kind {
                BindingKind::Type { bind_self, .. } => !*bind_self,
                BindingKind::Alias { .. } => false,
            };
            let ghost before = unbind@;
            if hide {
                unbind.push(ordered[u].ty);
            }
            proof {
                assert forall|k: TypeId| #[trigger] lists_key(unbind@, k) <==> unbound_before(o, u + 1, k) by {
                    if lists_key(unbind@, k) {
                        let l = choose|l: int| 0 <= l < unbind@.len() && (#[trigger] unbind@[l]).key() == k;
                        if l < before.len() {
                            assert(before[l] == unbind@[l]);
                            assert(lists_key(before, k));
                        } else {
                            assert(o[u as int].ty.key() == k && !exposes(o[u as int]));
                        }
                    }
                    if unbound_before(o, u + 1, k) {
                        let j = choose|j: int| 0 <= j < u + 1 && (#[trigger] o[j]).ty.key() == k && !exposes(o[j]);
                        if j < u {
                            assert(unbound_before(o, u as int, k));
                            assert(lists_key(before, k));
                            let l = choose|l: int| 0 <= l < before.len() && (#[trigger] before[l]).key() == k;
                            assert(unbind@[l] == before[l]);
                        } else {
                            assert(unbind@[before.len() as int] == o[u as int].ty);
                        }
                    }
                }
            }
            u = u + 1;
        }
        let mut services = Services::empty();
        let total = ordered.len();
        let mut rest = ordered;
        let mut i: usize = 0;
        proof {
            assert(built_prefix(o, 0, services@));
        }
        while rest.len() > 0
            invariant
                s == builder@,
                impls_well_formed(s),
                is_merge_of(s, m),
                is_resolvable(m),
                is_reordering(m, o),
                is_dependency_order(o),
                !has_duplicate(o),
                o.len() == m.len(),
                forall|j: int| 0 <= j < o.len() ==> m.contains(#[trigger] o[j]),
                total == o.len(),
                i + rest@.len() == o.len(),
                rest@ == o.skip(i as int),
                built_prefix(o, i as int, services@),
                forall|j: int| 0 <= j < i && (#[trigger] o[j]).kind is Type ==> factory_ran(o, j, services@),
            decreases rest@.len(),
        {
            let b = rest.remove(0);
            proof {
                assert(b == o[i as int]);
                assert(rest@ =~= o.skip(i + 1));
            }
            let ghost svc0 = services@;
            let Binding { ty, kind } = b;
            match kind {
                BindingKind::Type { lifetime, .. } => {
                    match ImmutableTypeBinding::from(lifetime, &services) {
                        Ok(tb) => {
                            let ghost pre = services;
                            proof {
                                lemma_built_prefix_insert(o, i as int, svc0, ImmutableBinding::Type { binding: tb });
                            }
                            services.insert(ty, ImmutableBinding::Type { binding: tb });
                            proof {
                                lemma_ran_insert(o, i as int, svc0, services@, ImmutableBinding::Type { binding: tb }, pre);
                            }
                        },
                        Err(e) => {
                            proof {
                                assert(m.contains(o[i as int]));
                                let q = choose|q: int| 0 <= q < m.len() && m[q] == o[i as int];
                                assert(runs_factories(m)) by {
                                    assert(m[q].kind matches BindingKind::Type {
                                        lifetime: BindingLifetime::Singleton(SingletonProvider::Factory(_)),
                                        ..
                                    });
                                }
                                assert(factory_error_of(o[i as int], services, e));
                                assert(factory_failed(m, e));
                                assert(build_outcome(s, m, Err(e)));
                            }
                            return Err(e);
                        },
                    }
                },
                BindingKind::Alias { impls } => {
                    let mut v: Vec<(ErasedUnsizer, ImmutableTypeBinding)> = Vec::new();
                    let n = impls.len();
                    let mut k: usize = 0;
                    while k < n
                        invariant
                            impls_well_formed(s),
                            is_merge_of(s, m),
                            is_resolvable(m),
                            is_reordering(m, o),
                            is_dependency_order(o),
                            i < o.len(),
                            o[i as int].kind == (BindingKind::Alias { impls }),
                            n == impls@.len(),
                            k <= n,
                            svc0 == services@,
                            built_prefix(o, i as int, svc0),
                            v@.len() == k,
                            forall|kk: int|
                                0 <= kk < k ==> impl_built_before(
                                    o,
                                    i as int,
                                    svc0,
                                    impls@[kk],
                                    #[trigger] v@[kk],
                                ),
                        decreases n - k,
                    {
                        proof {
                            lemma_alias_target(s, m, o, i as int, k as int);
                        }
                        let target = &impls[k].0;
                        match services.lookup(target) {
                            Some(ImmutableBinding::Type { binding }) => {
                                let entry = (impls[k].1.share(), binding.share());
                                proof {
                                    let j2 = choose|j2: int|
                                        0 <= j2 < i && (#[trigger] o[j2]).ty.key() == impls@[k as int].0.key() && o[j2].kind is Type;
                                    assert(svc0[o[j2].ty.key()] is Type);
                                }
                                v.push(entry);
                            },
                            _ => {
                                proof {
                                    let j2 = choose|j2: int|
                                        0 <= j2 < i && (#[trigger] o[j2]).ty.key() == impls@[k as int].0.key() && o[j2].kind is Type;
                                    assert(svc0.contains_key(o[j2].ty.key()));
                                    assert(svc0[o[j2].ty.key()] is Type);
                                }
                                vstd::pervasive::unreached::<()>();
                            },
                        }
                        k = k + 1;
                    }
                    proof {
                        lemma_alias_nonempty(s, m, o, i as int);
                    }
                    match OneOrMany::from_vec(v) {
                        Some(all) => {
                            proof {
                                lemma_built_prefix_insert(o, i as int, svc0, ImmutableBinding::Alias { impls: all });
                            }
                            let ghost pre = services;
                            services.insert(ty, ImmutableBinding::Alias { impls: all });
                            proof {
                                lemma_ran_insert(o, i as int, svc0, services@, ImmutableBinding::Alias { impls: all }, pre);
                            }
                        },
                        None => {
                            vstd::pervasive::unreached::<()>();
                        },
                    }
                },
            }
            i = i + 1;
        }
        let ghost svc = services@;
        let mut l: usize = 0;
        while l < unbind.len()
            invariant
                l <= unbind@.len(),
                forall|k: TypeId|
                    #[trigger] services@.contains_key(k) <==> svc.contains_key(k) && !lists_key(
                        unbind@.take(l as int),
                        k,
                    ),
                forall|k: TypeId| #[trigger] services@.contains_key(k) ==> services@[k] == svc[k],
            decreases unbind@.len() - l,
        {
            let ghost before = services@;
            services.remove(&unbind[l]);
            proof {
                assert forall|k: TypeId|
                    #[trigger] services@.contains_key(k) <==> svc.contains_key(k) && !lists_key(
                        unbind@.take(l + 1),
                        k,
                    ) by {
                    let t0 = unbind@.take(l as int);
                    let t1 = unbind@.take(l + 1);
                    if lists_key(t1, k) {
                        let l2 = choose|l2: int| 0 <= l2 < t1.len() && (#[trigger] t1[l2]).key() == k;
                        if l2 < l {
                            assert(t0[l2] == t1[l2]);
                        } else {
                            assert(t1[l2] == unbind@[l as int]);
                        }
                    }
                    if lists_key(t0, k) {
                        let l2 = choose|l2: int| 0 <= l2 < t0.len() && (#[trigger] t0[l2]).key() == k;
                        assert(t1[l2] == t0[l2]);
                    }
                    if unbind@[l as int].key() == k {
                        assert(t1[l as int] == unbind@[l as int]);
                    }
                }
            }
            l = l + 1;
        }
        proof {
            assert(unbind@.take(l as int) =~= unbind@);
            assert forall|k: TypeId| services@.contains_key(k) <==> svc.contains_key(k) && !unbound_key(o, k) by {
                assert(lists_key(unbind@, k) <==> unbound_before(o, o.len() as int, k));
                if unbound_key(o, k) {
                    let j = choose|j: int| 0 <= j < o.len() && (#[trigger] o[j]).ty.key() == k && !exposes(o[j]);
                    assert(unbound_before(o, o.len() as int, k));
                }
                if unbound_before(o, o.len() as int, k) {
                    let j = choose|j: int| 0 <= j < o.len() && (#[trigger] o[j]).ty.key() == k && !exposes(o[j]);
                    assert(unbound_key(o, k));
                }
            }
            assert(built_prefix(o, o.len() as int, svc)) by {
                assert(i == o.len());
            }
            lemma_unbind(o, svc, services@);
            lemma_ran_unbind(o, svc, services@);
            assert(build_outcome(s, m, Ok(services)));
        }
        Ok(services)
    }
}

} // verus!
