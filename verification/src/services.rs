//! The built collection of services, and resolution.

use crate::binding::{BindingLifetime, SingletonProvider};
use crate::erased::ErasedArc;
use crate::error::Error;
use crate::factory::{Factory, OnceProducer, ServiceFactory, SharedProducer};
use crate::mbmany::OneOrMany;
use crate::meta::{is_meta_of, TypeMeta};
use crate::unsize::{Error as UnsizeError, ErasedUnsizer};
use std::any::TypeId;
use std::marker::PhantomData;
use std::sync::Arc;
use vstd::prelude::*;

verus! {

/// A shared instance resolved from the services.
pub type Resolved<T> = Arc<T>;

/// All shared instances resolved for a type.
pub type ResolvedMany<T> = Vec<Arc<T>>;

/// A shared instance resolved from the services.
pub type Service<T> = Arc<T>;

/// How a built service provides instances of its own type.
pub enum ImmutableTypeBinding {
    /// Always the same instance.
    Singleton(ErasedArc),
    /// A new instance from the factory each time.
    Transient(ServiceFactory),
}

/// A built service.
pub enum ImmutableBinding {
    /// A type with its own instances.
    Type { binding: ImmutableTypeBinding },
    /// A type provided by other types' instances, each turned into it.
    Alias { impls: OneOrMany<(ErasedUnsizer, ImmutableTypeBinding)> },
}

impl ImmutableTypeBinding {
    /// Another handle to the same binding.
    pub fn share(&self) -> (r: ImmutableTypeBinding)
        ensures
            r == *self,
    {
        match self {
            ImmutableTypeBinding::Singleton(a) => ImmutableTypeBinding::Singleton(a.share()),
            ImmutableTypeBinding::Transient(f) => ImmutableTypeBinding::Transient(f.share()),
        }
    }

    /// Builds the service of a lifetime: a singleton's instance is produced
    /// now.
    pub fn from(value: BindingLifetime, services: &Services) -> (r: Result<Self, Error>)
        ensures
            lifetime_built(value, r),
            value matches BindingLifetime::Singleton(SingletonProvider::Factory(f)) ==> (r matches Err(
                e,
            ) ==> Factory::<OnceProducer>::produce.ensures(
                (f, services),
                Err::<ErasedArc, Error>(e),
            )),
            value matches BindingLifetime::Singleton(SingletonProvider::Factory(f)) ==> (r matches Ok(
                b,
            ) ==> (b matches ImmutableTypeBinding::Singleton(x) && Factory::<
                OnceProducer,
            >::produce.ensures((f, services), Ok::<ErasedArc, Error>(x)))),
    {
        match value {
            BindingLifetime::Singleton(x) => match x.to_instance(services) {
                Ok(instance) => Ok(ImmutableTypeBinding::Singleton(instance)),
                Err(e) => Err(e),
            },
            BindingLifetime::Transient(x) => Ok(ImmutableTypeBinding::Transient(x)),
        }
    }
}

/// What building a lifetime gives: a given instance is kept, a singleton
/// factory's instance is produced (or its error returned), a transient
/// factory is kept.
pub open spec fn lifetime_built(value: BindingLifetime, r: Result<ImmutableTypeBinding, Error>) -> bool {
    match value {
        BindingLifetime::Singleton(SingletonProvider::Instance(a)) => r == Ok::<
            ImmutableTypeBinding,
            Error,
        >(ImmutableTypeBinding::Singleton(a)),
        BindingLifetime::Singleton(SingletonProvider::Factory(_)) => r matches Ok(b) ==> b is Singleton,
        BindingLifetime::Transient(f) => r == Ok::<ImmutableTypeBinding, Error>(
            ImmutableTypeBinding::Transient(f),
        ),
    }
}

/// Whether a built type binding is what a lifetime gives, for every
/// outcome of a singleton factory.
pub open spec fn built_from(value: BindingLifetime, b: ImmutableTypeBinding) -> bool {
    lifetime_built(value, Ok(b))
}

impl ImmutableBinding {
    /// The binding of a type with its own instances.
    pub fn unwrap_type(&self) -> (r: &ImmutableTypeBinding)
        requires
            self is Type,
        ensures
            *r == self->binding,
    {
        match self {
            ImmutableBinding::Type { binding } => binding,
            ImmutableBinding::Alias { .. } => vstd::pervasive::unreached(),
        }
    }
}

/// The services keyed by the identity of their type; a later entry for the
/// same type replaces an earlier one.
pub open spec fn entries_map(s: Seq<(TypeMeta, ImmutableBinding)>) -> Map<TypeId, ImmutableBinding>
    decreases s.len(),
{
    if s.len() == 0 {
        Map::empty()
    } else {
        entries_map(s.drop_last()).insert(s.last().0.key(), s.last().1)
    }
}

pub proof fn lemma_entries_map_domain(s: Seq<(TypeMeta, ImmutableBinding)>, k: TypeId)
    ensures
        entries_map(s).contains_key(k) <==> exists|i: int| 0 <= i < s.len() && #[trigger] s[i].0.key() == k,
    decreases s.len(),
{
    if s.len() > 0 {
        let t = s.drop_last();
        lemma_entries_map_domain(t, k);
        if exists|i: int| 0 <= i < t.len() && #[trigger] t[i].0.key() == k {
            let i = choose|i: int| 0 <= i < t.len() && #[trigger] t[i].0.key() == k;
            assert(s[i] == t[i]);
        }
        if exists|i: int| 0 <= i < s.len() && #[trigger] s[i].0.key() == k {
            let i = choose|i: int| 0 <= i < s.len() && #[trigger] s[i].0.key() == k;
            if i < t.len() {
                assert(t[i] == s[i]);
            }
        }
    }
}

pub proof fn lemma_entries_map_value(s: Seq<(TypeMeta, ImmutableBinding)>, i: int)
    requires
        0 <= i < s.len(),
        forall|j: int| i < j < s.len() ==> s[j].0.key() != s[i].0.key(),
    ensures
        entries_map(s).contains_key(s[i].0.key()),
        entries_map(s)[s[i].0.key()] == s[i].1,
    decreases s.len(),
{
    let t = s.drop_last();
    if i < t.len() {
        assert forall|j: int| i < j < t.len() implies t[j].0.key() != t[i].0.key() by {
            assert(t[j] == s[j]);
        }
        lemma_entries_map_value(t, i);
        assert(t[i] == s[i]);
    }
}

/// The instance sources of a built service, in order: each is an optional
/// unsizer and the type binding it applies to.
pub open spec fn sources(b: ImmutableBinding) -> Seq<(Option<ErasedUnsizer>, ImmutableTypeBinding)> {
    match b {
        ImmutableBinding::Type { binding } => seq![(None, binding)],
        ImmutableBinding::Alias { impls } => impls@.map_values(
            |p: (ErasedUnsizer, ImmutableTypeBinding)| (Some(p.0), p.1),
        ),
    }
}

/// `y` is an instance that the type binding `b` gives on the services
/// `svc`: its singleton, or what its factory produced on them.
pub open spec fn instance_of(b: ImmutableTypeBinding, svc: Services, y: ErasedArc) -> bool {
    match b {
        ImmutableTypeBinding::Singleton(a) => y == a,
        ImmutableTypeBinding::Transient(f) => Factory::<SharedProducer>::produce.ensures(
            (&f, &svc),
            Ok::<ErasedArc, Error>(y),
        ),
    }
}

/// Whether `x` is what resolving from `src` on the services `svc` gives: an
/// instance of the type binding, or what the unsizer made of one.
pub open spec fn produced_from(
    src: (Option<ErasedUnsizer>, ImmutableTypeBinding),
    svc: Services,
    x: ErasedArc,
) -> bool {
    match src.0 {
        None => instance_of(src.1, svc, x),
        Some(u) => x.ty_view() == u.type_out_view() && unsized_from(u, src.1, svc, x),
    }
}

/// `x` is what the unsizer `u` made of an instance that `b` gives on `svc`.
pub open spec fn unsized_from(
    u: ErasedUnsizer,
    b: ImmutableTypeBinding,
    svc: Services,
    x: ErasedArc,
) -> bool {
    exists|y: ErasedArc|
        #[trigger] instance_of(b, svc, y) && ErasedUnsizer::unsize_erased.ensures(
            (&u, &y),
            Ok::<ErasedArc, UnsizeError>(x),
        )
}

/// `a` is the instance from the `j`-th source of `b` on the services `svc`,
/// taken as an `Arc<T>`: what `coerce::<T>` gave of an instance produced
/// from that source.
pub open spec fn taken_from<T: ?Sized + 'static>(
    svc: Services,
    b: ImmutableBinding,
    j: int,
    a: Arc<T>,
) -> bool {
    exists|e: ErasedArc|
        produced_from(sources(b)[j], svc, e) && #[trigger] ErasedArc::coerce::<T>.ensures(
            (&e,),
            Some(a),
        )
}

/// `a` is what resolving one instance of `T` gives on `svc`: the instance
/// from the last source bound under the type `T`.
pub open spec fn resolved_last<T: ?Sized + 'static>(svc: Services, a: Arc<T>) -> bool {
    exists|m: TypeMeta|
        #[trigger] is_meta_of::<T>(m) && svc@.contains_key(m.key()) && sources(svc@[m.key()]).len()
            > 0 && taken_from::<T>(svc, svc@[m.key()], sources(svc@[m.key()]).len() - 1, a)
}

/// `v` is what resolving all instances of `T` gives on `svc`: one instance
/// per source bound under the type `T`, in binding order.
pub open spec fn resolved_all<T: ?Sized + 'static>(svc: Services, v: Seq<Arc<T>>) -> bool {
    exists|m: TypeMeta|
        #[trigger] is_meta_of::<T>(m) && svc@.contains_key(m.key()) && v.len() == sources(
            svc@[m.key()],
        ).len() && forall|i: int|
            0 <= i < v.len() ==> taken_from::<T>(svc, svc@[m.key()], i, #[trigger] v[i])
}

/// A service of its own type, with one shared instance.
pub open spec fn is_type_singleton(b: ImmutableBinding) -> bool {
    b matches ImmutableBinding::Type { binding: ImmutableTypeBinding::Singleton(_) }
}

/// Resolving a type bound as a singleton gives the same instance every
/// time.
pub proof fn lemma_singleton_resolves_same(
    b: ImmutableBinding,
    svc: Services,
    x: ErasedArc,
    y: ErasedArc,
)
    requires
        is_type_singleton(b),
        produced_from(sources(b).last(), svc, x),
        produced_from(sources(b).last(), svc, y),
    ensures
        x == y,
{
}

/// What resolving one instance gives is what resolving all of them gives
/// last: from the same source, and for a singleton the very same instance,
/// the only one.
pub proof fn lemma_resolve_is_last_of_all(
    b: ImmutableBinding,
    svc: Services,
    x: ErasedArc,
    v: Seq<ErasedArc>,
)
    requires
        sources(b).len() > 0,
        produced_from(sources(b).last(), svc, x),
        v.len() == sources(b).len(),
        forall|i: int| 0 <= i < v.len() ==> produced_from(sources(b)[i], svc, #[trigger] v[i]),
    ensures
        v.len() > 0,
        produced_from(sources(b).last(), svc, v.last()),
        is_type_singleton(b) ==> v == seq![x],
{
    assert(produced_from(sources(b)[v.len() - 1], svc, v[v.len() - 1]));
    if is_type_singleton(b) {
        assert(v =~= seq![x]);
    }
}

/// A collection of services.
pub struct Services {
    services: Vec<(TypeMeta, ImmutableBinding)>,
}

impl View for Services {
    type V = Map<TypeId, ImmutableBinding>;

    closed spec fn view(&self) -> Map<TypeId, ImmutableBinding> {
        entries_map(self.services@)
    }
}

impl Services {
    /// Services with nothing bound.
    pub(crate) fn empty() -> (r: Services)
        ensures
            r@ == Map::<TypeId, ImmutableBinding>::empty(),
    {
        Services { services: Vec::new() }
    }

    /// Binds `binding` under `ty`, replacing an earlier binding of the type.
    pub(crate) fn insert(&mut self, ty: TypeMeta, binding: ImmutableBinding)
        ensures
            final(self)@ == old(self)@.insert(ty.key(), binding),
    {
        self.services.push((ty, binding));
        proof {
            assert(self.services@.drop_last() =~= old(self).services@);
        }
    }

    /// Removes the binding of `ty`.
    pub(crate) fn remove(&mut self, ty: &TypeMeta)
        ensures
            final(self)@ == old(self)@.remove(ty.key()),
    {
        let ghost k = ty.key();
        let mut kept: Vec<(TypeMeta, ImmutableBinding)> = Vec::new();
        let ghost s = self.services@;
        let mut rest: Vec<(TypeMeta, ImmutableBinding)> = Vec::new();
        std::mem::swap(&mut rest, &mut self.services);
        let ghost all = rest@;
        proof {
            assert(entries_map(kept@) =~= entries_map(all.take(0)).remove(k));
        }
        let total = rest.len();
        let mut i: usize = 0;
        while rest.len() > 0
            invariant
                k == ty.key(),
                total == all.len(),
                i + rest@.len() == all.len(),
                rest@ == all.skip(i as int),
                entries_map(kept@) =~= entries_map(all.take(i as int)).remove(k),
            decreases rest@.len(),
        {
            let e = rest.remove(0);
            proof {
                assert(e == all[i as int]);
                assert(all.take(i + 1).drop_last() =~= all.take(i as int));
                assert(all.take(i + 1).last() == e);
                assert(entries_map(all.take(i + 1)) == entries_map(all.take(i as int)).insert(
                    e.0.key(),
                    e.1,
                ));
            }
            if !e.0.same(ty) {
                let ghost before = kept@;
                kept.push(e);
                proof {
                    assert(kept@.drop_last() =~= before);
                    assert(entries_map(kept@) == entries_map(before).insert(e.0.key(), e.1));
                }
            }
            proof {
                assert(rest@ =~= all.skip(i + 1));
            }
            i = i + 1;
        }
        proof {
            assert(all.take(i as int) =~= all);
        }
        self.services = kept;
    }

    /// The position of the entry that binds `ty`.
    fn find(&self, ty: &TypeMeta) -> (r: Option<usize>)
        ensures
            r matches Some(i) ==> i < self.services@.len() && self@.contains_key(ty.key())
                && self@[ty.key()] == self.services@[i as int].1,
            r is None ==> !self@.contains_key(ty.key()),
    {
        let ghost k = ty.key();
        proof {
            lemma_entries_map_domain(self.services@, k);
        }
        let mut i = self.services.len();
        while i > 0
            invariant
                k == ty.key(),
                i <= self.services@.len(),
                forall|j: int| i <= j < self.services@.len() ==> self.services@[j].0.key() != k,
            decreases i,
        {
            i = i - 1;
            if self.services[i].0.same(ty) {
                proof {
                    assert(self.services@[i as int].0.key() == k);
                    lemma_entries_map_value(self.services@, i as int);
                }
                return Some(i);
            }
        }
        None
    }

    /// The binding of `ty`, if it is bound.
    pub fn lookup(&self, ty: &TypeMeta) -> (r: Option<&ImmutableBinding>)
        ensures
            r matches Some(b) ==> self@.contains_key(ty.key()) && *b == self@[ty.key()],
            r is None ==> !self@.contains_key(ty.key()),
    {
        match self.find(ty) {
            Some(i) => Some(&self.services[i].1),
            None => None,
        }
    }

    /// An instance of a type binding: the singleton, or a new one from the
    /// factory.
    fn get_instance(&self, binding: &ImmutableTypeBinding) -> (r: Result<ErasedArc, Error>)
        ensures
            *binding matches ImmutableTypeBinding::Singleton(a) ==> r == Ok::<ErasedArc, Error>(a),
            r matches Ok(y) ==> instance_of(*binding, *self, y),
    {
        match binding {
            ImmutableTypeBinding::Singleton(arc) => Ok(arc.share()),
            ImmutableTypeBinding::Transient(factory) => factory.produce(self),
        }
    }

    /// An instance from one source; `None` when producing or unsizing it
    /// failed.
    fn from_source(&self, unsizer: Option<&ErasedUnsizer>, binding: &ImmutableTypeBinding) -> (r:
        Option<ErasedArc>)
        ensures
            r matches Some(x) ==> produced_from(
                (
                    match unsizer {
                        Some(u) => Some(*u),
                        None => None,
                    },
                    *binding,
                ),
                *self,
                x,
            ),
            unsizer is None && binding is Singleton ==> r is Some,
    {
        match self.get_instance(binding) {
            Ok(instance) => match unsizer {
                None => {
                    proof {
                        assert(produced_from((None, *binding), *self, instance));
                    }
                    Some(instance)
                },
                Some(u) => {
                    let res = u.unsize_erased(&instance);
                    match res {
                        Ok(out) => {
                            proof {
                                let uu = *u;
                                assert(instance_of(*binding, *self, instance));
                                assert(ErasedUnsizer::unsize_erased.ensures(
                                    (&uu, &instance),
                                    Ok::<ErasedArc, UnsizeError>(out),
                                ));
                                assert(unsized_from(uu, *binding, *self, out));
                            }
                            Some(out)
                        },
                        Err(_) => None,
                    }
                },
            },
            Err(_) => None,
        }
    }

    /// All instances bound under `ty`, in binding order; `None` when the
    /// type is not bound, or when producing or unsizing one failed.
    pub fn resolve_all_erased(&self, ty: &TypeMeta) -> (r: Option<Vec<ErasedArc>>)
        ensures
            !self@.contains_key(ty.key()) ==> r is None,
            r matches Some(v) ==> {
                &&& self@.contains_key(ty.key())
                &&& v@.len() == sources(self@[ty.key()]).len()
                &&& forall|i: int|
                    0 <= i < v@.len() ==> produced_from(sources(self@[ty.key()])[i], *self, #[trigger] v@[i])
            },
            self@.contains_key(ty.key()) && is_type_singleton(self@[ty.key()]) ==> r is Some,
    {
        match self.find(ty) {
            None => None,
            Some(idx) => match &self.services[idx].1 {
                ImmutableBinding::Type { binding } => match self.from_source(None, binding) {
                    Some(x) => {
                        let mut v = Vec::new();
                        v.push(x);
                        Some(v)
                    },
                    None => None,
                },
                ImmutableBinding::Alias { impls } => {
                    let ghost srcs = sources(self@[ty.key()]);
                    let ghost entry = self@[ty.key()];
                    let mut v: Vec<ErasedArc> = Vec::new();
                    let n = impls.len();
                    let mut i: usize = 0;
                    while i < n
                        invariant
                            n == impls@.len(),
                            i <= n,
                            srcs == sources((ImmutableBinding::Alias { impls: *impls })),
                            entry == (ImmutableBinding::Alias { impls: *impls }),
                            self@.contains_key(ty.key()),
                            entry == self@[ty.key()],
                            v@.len() == i,
                            forall|j: int| 0 <= j < i ==> produced_from(srcs[j], *self, #[trigger] v@[j]),
                        decreases n - i,
                    {
                        let pair = impls.get(i);
                        match self.from_source(Some(&pair.0), &pair.1) {
                            Some(x) => {
                                v.push(x);
                            },
                            None => {
                                return None;
                            },
                        }
                        i = i + 1;
                    }
                    Some(v)
                },
            },
        }
    }

    /// The instance of the last binding under `ty`; `None` when the type is
    /// not bound, or when producing or unsizing it failed.
    pub fn resolve_erased(&self, ty: &TypeMeta) -> (r: Option<ErasedArc>)
        ensures
            !self@.contains_key(ty.key()) ==> r is None,
            r matches Some(x) ==> {
                &&& self@.contains_key(ty.key())
                &&& sources(self@[ty.key()]).len() > 0
                &&& produced_from(sources(self@[ty.key()]).last(), *self, x)
            },
            self@.contains_key(ty.key()) && is_type_singleton(self@[ty.key()]) ==> r is Some,
    {
        match self.find(ty) {
            None => None,
            Some(idx) => match &self.services[idx].1 {
                ImmutableBinding::Type { binding } => self.from_source(None, binding),
                ImmutableBinding::Alias { impls } => {
                    let n = impls.len();
                    if n == 0 {
                        return None;
                    }
                    let pair = impls.get(n - 1);
                    self.from_source(Some(&pair.0), &pair.1)
                },
            },
        }
    }

    /// The instance from the `i`-th source of `binding`; `None` when
    /// producing or unsizing it failed.
    fn source_at(&self, binding: &ImmutableBinding, i: usize) -> (r: Option<ErasedArc>)
        requires
            i < sources(*binding).len(),
        ensures
            r matches Some(x) ==> produced_from(sources(*binding)[i as int], *self, x),
    {
        match binding {
            ImmutableBinding::Type { binding } => self.from_source(None, binding),
            ImmutableBinding::Alias { impls } => {
                let pair = impls.get(i);
                self.from_source(Some(&pair.0), &pair.1)
            },
        }
    }

    /// All instances of `T`, in binding order, each produced when it is
    /// taken. For a type bound with its own instances there is one.
    pub fn resolve_all<T: ?Sized + 'static>(&self) -> (r: Option<ResolvedAll<'_, T>>)
        ensures
            r matches Some(it) ==> exists|k: TypeId|
                #[trigger] self@.contains_key(k) && it.entry() == self@[k] && it.front() == 0
                    && it.back() == sources(self@[k]).len() && it.services() == *self,
            r matches Some(it) ==> exists|m: TypeMeta|
                #[trigger] is_meta_of::<T>(m) && self@.contains_key(m.key()) && it.entry()
                    == self@[m.key()] && it.front() == 0 && it.back() == sources(
                    self@[m.key()],
                ).len() && it.services() == *self,
    {
        let meta = TypeMeta::of::<T>();
        match self.lookup(&meta) {
            None => None,
            Some(binding) => {
                let n = match binding {
                    ImmutableBinding::Type { .. } => 1,
                    ImmutableBinding::Alias { impls } => impls.len(),
                };
                let it = ResolvedAll { services: self, binding, front: 0, back: n, ph: PhantomData };
                proof {
                    assert(is_meta_of::<T>(meta));
                    assert(it.entry() == self@[meta.key()]);
                }
                Some(it)
            },
        }
    }

    /// The instance of the last binding of `T`.
    pub fn resolve<T: ?Sized + 'static>(&self) -> (r: Option<Resolved<T>>)
        ensures
            r is Some ==> exists|k: TypeId|
                #[trigger] self@.contains_key(k) && sources(self@[k]).len() > 0,
            r matches Some(a) ==> resolved_last::<T>(*self, a),
    {
        let meta = TypeMeta::of::<T>();
        match self.resolve_erased(&meta) {
            None => None,
            Some(x) => {
                let r = x.coerce::<T>();
                proof {
                    if r is Some {
                        let k = meta.key();
                        assert(taken_from::<T>(
                            *self,
                            self@[k],
                            sources(self@[k]).len() - 1,
                            r->Some_0,
                        ));
                        assert(is_meta_of::<T>(meta));
                    }
                }
                r
            },
        }
    }
}

/// The instances bound under one type, each produced when it is taken:
/// from the front or from the back, in binding order.
pub struct ResolvedAll<'a, T: ?Sized> {
    services: &'a Services,
    binding: &'a ImmutableBinding,
    front: usize,
    back: usize,
    ph: PhantomData<Arc<T>>,
}

impl<'a, T: ?Sized + 'static> ResolvedAll<'a, T> {
    /// The services that the instances are resolved from.
    pub closed spec fn services(&self) -> Services {
        *self.services
    }

    /// The binding whose sources give the instances.
    pub closed spec fn entry(&self) -> ImmutableBinding {
        *self.binding
    }

    /// The position of the next source taken from the front.
    pub closed spec fn front(&self) -> nat {
        self.front as nat
    }

    /// One past the position of the next source taken from the back.
    pub closed spec fn back(&self) -> nat {
        self.back as nat
    }

    #[verifier::type_invariant]
    closed spec fn wf(&self) -> bool {
        self.front <= self.back <= sources(*self.binding).len()
    }

    /// How many instances are left.
    pub fn len(&self) -> (r: usize)
        ensures
            r == self.back() - self.front(),
    {
        proof {
            use_type_invariant(self);
        }
        self.back - self.front
    }

    /// The next instance from the front; `None` when none is left, or when
    /// producing it failed (it is then taken all the same).
    pub fn next(&mut self) -> (r: Option<Resolved<T>>)
        ensures
            final(self).services() == old(self).services(),
            final(self).entry() == old(self).entry(),
            final(self).back() == old(self).back(),
            old(self).front() < old(self).back() ==> final(self).front() == old(self).front() + 1,
            old(self).front() >= old(self).back() ==> final(self).front() == old(self).front()
                && r is None,
            r matches Some(a) ==> taken_from::<T>(
                old(self).services(),
                old(self).entry(),
                old(self).front() as int,
                a,
            ),
    {
        proof {
            use_type_invariant(&*self);
        }
        if self.front >= self.back {
            return None;
        }
        let i = self.front;
        self.front = i + 1;
        match self.services.source_at(self.binding, i) {
            Some(x) => {
                let r = x.coerce::<T>();
                proof {
                    if r is Some {
                        assert(taken_from::<T>(*self.services, *self.binding, i as int, r->Some_0));
                    }
                }
                r
            },
            None => None,
        }
    }

    /// The next instance from the back; `None` when none is left, or when
    /// producing it failed (it is then taken all the same).
    pub fn next_back(&mut self) -> (r: Option<Resolved<T>>)
        ensures
            final(self).services() == old(self).services(),
            final(self).entry() == old(self).entry(),
            final(self).front() == old(self).front(),
            old(self).front() < old(self).back() ==> final(self).back() == old(self).back() - 1,
            old(self).front() >= old(self).back() ==> final(self).back() == old(self).back()
                && r is None,
            r matches Some(a) ==> taken_from::<T>(
                old(self).services(),
                old(self).entry(),
                old(self).back() - 1,
                a,
            ),
    {
        proof {
            use_type_invariant(&*self);
        }
        if self.front >= self.back {
            return None;
        }
        let i = self.back - 1;
        self.back = i;
        match self.services.source_at(self.binding, i) {
            Some(x) => {
                let r = x.coerce::<T>();
                proof {
                    if r is Some {
                        assert(taken_from::<T>(*self.services, *self.binding, i as int, r->Some_0));
                    }
                }
                r
            },
            None => None,
        }
    }

    /// All the instances left, in order; `None` when producing one failed.
    pub fn collect_all(self) -> (r: Option<Vec<Resolved<T>>>)
        ensures
            r matches Some(v) ==> v@.len() == self.back() - self.front(),
            r matches Some(v) ==> forall|i: int|
                0 <= i < v@.len() ==> taken_from::<T>(
                    self.services(),
                    self.entry(),
                    self.front() + i,
                    #[trigger] v@[i],
                ),
    {
        let mut it = self;
        proof {
            use_type_invariant(&it);
        }
        let ghost total = it.back() - it.front();
        let mut out: Vec<Resolved<T>> = Vec::new();
        while it.len() > 0
            invariant
                out@.len() + it.back() - it.front() == total,
                it.front() <= it.back(),
                it.services() == self.services(),
                it.entry() == self.entry(),
                it.front() == self.front() + out@.len(),
                forall|i: int|
                    0 <= i < out@.len() ==> taken_from::<T>(
                        self.services(),
                        self.entry(),
                        self.front() + i,
                        #[trigger] out@[i],
                    ),
            decreases it.back() - it.front(),
        {
            match it.next() {
                Some(x) => out.push(x),
                None => {
                    return None;
                },
            }
            proof {
                use_type_invariant(&it);
            }
        }
        Some(out)
    }
}

/// Resolving one instance of a type gives what resolving all of them gives
/// last: both come from the last source bound under the type, and for a
/// singleton both give the very same instance, the only one.
pub proof fn lemma_resolve_erased_is_last(
    svc: Services,
    ty: TypeMeta,
    x: ErasedArc,
    v: Vec<ErasedArc>,
)
    requires
        Services::resolve_erased.ensures((&svc, &ty), Some(x)),
        Services::resolve_all_erased.ensures((&svc, &ty), Some(v)),
    ensures
        svc@.contains_key(ty.key()),
        v@.len() > 0,
        produced_from(sources(svc@[ty.key()]).last(), svc, x),
        produced_from(sources(svc@[ty.key()]).last(), svc, v@.last()),
        is_type_singleton(svc@[ty.key()]) ==> v@ == seq![x],
{
    lemma_resolve_is_last_of_all(svc@[ty.key()], svc, x, v@);
}

} // verus!
