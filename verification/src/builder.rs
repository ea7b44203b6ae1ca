//! Collecting bindings before the services are built.

use crate::binding::{
    singleton_by_default, singleton_by_di, singleton_by_fn, transient_by_default, transient_by_di,
    transient_by_fn, Binding, BindingKind, BindingLifetime,
};
use crate::erased::ErasedArc;
use crate::error::Error;
use crate::from_di::{DiFactory, DiFactoryOnce, FromDi};
use crate::meta::{is_meta_of, TypeMeta};
use crate::assembly::{aliases_well_formed, build_outcome, can_build, impls_well_formed};
use crate::services::Services;
use crate::unsize::{thin_arc, ErasedUnsizer};
use std::marker::PhantomData;
use std::sync::Arc;
use vstd::prelude::*;

verus! {

/// A builder for services: the bindings in the order they were made.
pub struct ServicesBuilder {
    bindings: Vec<Binding>,
}

impl View for ServicesBuilder {
    type V = Seq<Binding>;

    closed spec fn view(&self) -> Seq<Binding> {
        self.bindings@
    }
}

/// `after` is `before` with one more binding at the end, whose kind is
/// `kind`; its meta carries no name.
pub open spec fn appended(before: Seq<Binding>, after: Seq<Binding>, kind: BindingKind) -> bool {
    &&& after.len() == before.len() + 1
    &&& after.drop_last() == before
    &&& after.last().kind == kind
    &&& after.last().ty.label_view() is None
}

/// `after` is `before` with one more type binding at the end; its lifetime
/// satisfies `lifetime_ok`.
pub open spec fn appended_type(
    before: Seq<Binding>,
    after: Seq<Binding>,
    bind_self: bool,
    deps_len: Option<nat>,
) -> bool {
    &&& after.len() == before.len() + 1
    &&& after.drop_last() == before
    &&& after.last().ty.label_view() is None
    &&& after.last().kind matches BindingKind::Type { bind_self: b, deps, .. } && b == bind_self && (
    deps_len matches Some(n) ==> deps@.len() == n)
}

impl ServicesBuilder {
    /// A builder with no bindings.
    pub fn new() -> (r: Self)
        ensures
            r@ == Seq::<Binding>::empty(),
    {
        ServicesBuilder { bindings: Vec::new() }
    }

    /// Builds the services.
    pub fn build(self) -> (r: Result<Services, Error>)
        requires
            can_build(self@),
        ensures
            exists|m: Seq<Binding>| build_outcome(self@, m, r),
    {
        Services::from_builder(self)
    }

    /// Whether the aliases bound so far are well formed, so that `build`
    /// may be called: every alias type has an implementation, and no
    /// implementation names a type that only aliases provide.
    pub fn is_buildable(&self) -> (r: bool)
        ensures
            r == impls_well_formed(self@),
            r ==> can_build(self@),
    {
        aliases_well_formed(&self.bindings)
    }

    /// Starts a binding of `T`.
    pub fn bind<T: 'static>(&mut self) -> (r: ConcreteBuilder<'_, T>)
        ensures
            r.pending() == *old(self),
            r.binds_self(),
            *final(self) == *final(r.target()),
    {
        ConcreteBuilder::from_builder(self)
    }

    /// Starts an alias of `T`, to be provided by other types.
    pub fn bind_alias<T: ?Sized + 'static>(&mut self) -> (r: AliasBuilder<'_, T>)
        ensures
            r.pending() == *old(self),
            r.impls_view() == Seq::<(TypeMeta, ErasedUnsizer)>::empty(),
            *final(self) == *final(r.target()),
    {
        AliasBuilder::from_builder(self)
    }

    /// Binds `T` with `lifetime`, needing the types `deps`.
    pub fn add_type_binding<T: 'static>(
        &mut self,
        bind_self: bool,
        lifetime: BindingLifetime,
        deps: Vec<TypeMeta>,
    )
        ensures
            appended(
                old(self)@,
                final(self)@,
                BindingKind::Type { bind_self, lifetime, deps },
            ),
            is_meta_of::<T>(final(self)@.last().ty),
    {
        let binding = Binding {
            ty: TypeMeta::of::<T>(),
            kind: BindingKind::Type { bind_self, lifetime, deps },
        };
        self.bindings.push(binding);
        proof {
            assert(self.bindings@.drop_last() =~= old(self).bindings@);
        }
    }

    /// Binds `T` as an alias provided by `impls`.
    pub fn add_alias_binding<T: ?Sized + 'static>(&mut self, impls: Vec<(TypeMeta, ErasedUnsizer)>)
        ensures
            appended(old(self)@, final(self)@, BindingKind::Alias { impls }),
            is_meta_of::<T>(final(self)@.last().ty),
    {
        let binding = Binding { ty: TypeMeta::of::<T>(), kind: BindingKind::Alias { impls } };
        self.bindings.push(binding);
        proof {
            assert(self.bindings@.drop_last() =~= old(self).bindings@);
        }
    }

    /// The bindings, in the order they were made.
    pub fn to_vec(self) -> (r: Vec<Binding>)
        ensures
            r@ == self@,
    {
        self.bindings
    }

    /// Binds `T` as a singleton built through `T::produce`.
    pub fn bind_singleton<T: FromDi + 'static>(&mut self)
        ensures
            appended_type(old(self)@, final(self)@, true, None),
            is_meta_of::<T>(final(self)@.last().ty),
            singleton_by_di::<T>(final(self)@.last().kind->lifetime),
            T::depends_on.ensures((), final(self)@.last().kind->deps),
    {
        let lifetime = BindingLifetime::singleton_from_di::<T>();
        self.add_type_binding::<T>(true, lifetime, T::depends_on());
    }

    /// Binds `T` as a singleton made by `instance`: a value of `T`, or a
    /// function of shared instances called once.
    pub fn bind_singleton_from<T: 'static, F: DiFactoryOnce<T, Args>, Args: 'static>(
        &mut self,
        instance: F,
    )
        ensures
            appended_type(old(self)@, final(self)@, true, None),
            is_meta_of::<T>(final(self)@.last().ty),
            singleton_by_fn::<T, Args, F>(final(self)@.last().kind->lifetime, instance),
            F::depends_on.ensures((), final(self)@.last().kind->deps),
    {
        let lifetime = BindingLifetime::singleton_from_fn(instance);
        self.add_type_binding::<T>(true, lifetime, F::depends_on());
    }

    /// Binds `T` as a transient built through `T::produce`.
    pub fn bind_transient<T: FromDi + 'static>(&mut self)
        ensures
            appended_type(old(self)@, final(self)@, true, None),
            is_meta_of::<T>(final(self)@.last().ty),
            transient_by_di::<T>(final(self)@.last().kind->lifetime),
            T::depends_on.ensures((), final(self)@.last().kind->deps),
    {
        let lifetime = BindingLifetime::transient_from_di::<T>();
        self.add_type_binding::<T>(true, lifetime, T::depends_on());
    }

    /// Binds `T` as a transient made by calling `factory`.
    pub fn bind_transient_from<T: 'static, F: DiFactory<T, Args>, Args: 'static>(
        &mut self,
        factory: F,
    )
        ensures
            appended_type(old(self)@, final(self)@, true, None),
            is_meta_of::<T>(final(self)@.last().ty),
            transient_by_fn::<T, Args, F>(final(self)@.last().kind->lifetime, factory),
            <F as DiFactoryOnce<T, Args>>::depends_on.ensures((), final(self)@.last().kind->deps),
    {
        let lifetime = BindingLifetime::transient_from_fn(factory);
        self.add_type_binding::<T>(true, lifetime, <F as DiFactoryOnce<T, Args>>::depends_on());
    }

    /// Binds `T` as a transient made by `T::default`.
    pub fn bind_transient_from_default<T: Default + 'static>(&mut self)
        ensures
            appended_type(old(self)@, final(self)@, true, Some(0)),
            is_meta_of::<T>(final(self)@.last().ty),
            transient_by_default::<T>(final(self)@.last().kind->lifetime),
    {
        let lifetime = BindingLifetime::transient_from_default::<T>();
        self.add_type_binding::<T>(true, lifetime, Vec::new());
    }
}

impl Default for ServicesBuilder {
    fn default() -> (r: Self)
        ensures
            r@ == Seq::<Binding>::empty(),
    {
        ServicesBuilder::new()
    }
}

/// The outermost builder of a binding: the type, and whether it is exposed.
pub struct ConcreteBuilder<'a, T: 'static> {
    builder: &'a mut ServicesBuilder,
    bind_self: bool,
    ph: PhantomData<T>,
}

/// Another name for the outermost builder of a binding.
pub type BindingBuilder<'a, T> = ConcreteBuilder<'a, T>;

impl<'a, T: 'static> ConcreteBuilder<'a, T> {
    /// Starts a binding that exposes the type, into `builder`.
    pub(crate) fn from_builder(builder: &'a mut ServicesBuilder) -> (r: Self)
        ensures
            r.pending() == *old(builder),
            r.binds_self(),
            *final(builder) == *final(r.target()),
    {
        ConcreteBuilder { builder, bind_self: true, ph: PhantomData }
    }

    /// The builder's state when the binding was started.
    pub closed spec fn pending(&self) -> ServicesBuilder {
        *self.builder
    }

    /// The builder that receives the binding.
    pub closed spec fn target(&self) -> &'a mut ServicesBuilder {
        self.builder
    }

    /// Whether the type itself will be resolvable.
    pub closed spec fn binds_self(&self) -> bool {
        self.bind_self
    }

    /// Excludes the type itself from the services. Useful to bind a trait
    /// but not the type itself.
    pub fn not_self(self) -> (r: Self)
        ensures
            r.pending() == self.pending(),
            !r.binds_self(),
            *final(self.target()) == *final(r.target()),
    {
        ConcreteBuilder { builder: self.builder, bind_self: false, ph: PhantomData }
    }

    /// Makes the type an implementation of the alias `Trait`, through
    /// `eval`. The alias binding is added right away, unless `Arc<Trait>`
    /// is a thin pointer, that is `Trait` is not a trait object or a slice;
    /// then nothing is added.
    pub fn to<Trait: ?Sized + 'static>(self, eval: impl Fn(Arc<T>) -> Arc<Trait> + 'static) -> (r:
        Self)
        ensures
            r.binds_self() == self.binds_self(),
            *final(self.target()) == *final(r.target()),
            thin_arc::<Trait>() ==> r.pending()@ == self.pending()@,
            !thin_arc::<Trait>() ==> {
                &&& r.pending()@.len() == self.pending()@.len() + 1
                &&& r.pending()@.drop_last() == self.pending()@
                &&& r.pending()@.last().kind is Alias
                &&& r.pending()@.last().ty.label_view() is None
                &&& r.pending()@.last().kind->impls@.len() == 1
                &&& r.pending()@.last().kind->impls@[0].0.label_view() is None
                &&& r.pending()@.last().kind->impls@[0].0
                    == r.pending()@.last().kind->impls@[0].1.type_in_view()
                &&& is_meta_of::<Trait>(r.pending()@.last().ty)
                &&& is_meta_of::<T>(r.pending()@.last().kind->impls@[0].0)
                &&& is_meta_of::<Trait>(r.pending()@.last().kind->impls@[0].1.type_out_view())
            },
    {
        let ConcreteBuilder { builder, bind_self, ph } = self;
        match ErasedUnsizer::try_from::<T, Trait, _>(eval) {
            Some(u) => {
                let mut impls = Vec::new();
                let ty = u.type_in();
                impls.push((ty, u));
                builder.add_alias_binding::<Trait>(impls);
            },
            None => {},
        }
        ConcreteBuilder { builder, bind_self, ph }
    }

    /// Continues with a singleton binding.
    pub fn singleton(self) -> (r: SingletonConcreteBuilder<'a, T>)
        ensures
            r.pending() == self.pending(),
            r.binds_self() == self.binds_self(),
            *final(self.target()) == *final(r.target()),
    {
        SingletonConcreteBuilder { builder: self }
    }

    /// Continues with a transient binding.
    pub fn transient(self) -> (r: TransientConcreteBuilder<'a, T>)
        ensures
            r.pending() == self.pending(),
            r.binds_self() == self.binds_self(),
            *final(self.target()) == *final(r.target()),
    {
        TransientConcreteBuilder { builder: self }
    }
}

/// The builder of a singleton binding.
pub struct SingletonConcreteBuilder<'a, T: 'static> {
    builder: ConcreteBuilder<'a, T>,
}

/// Another name for the builder of a singleton binding.
pub type SingletonBindingBuilder<'a, T> = SingletonConcreteBuilder<'a, T>;

impl<'a, T: 'static> SingletonConcreteBuilder<'a, T> {
    pub closed spec fn pending(&self) -> ServicesBuilder {
        self.builder.pending()
    }

    pub closed spec fn target(&self) -> &'a mut ServicesBuilder {
        self.builder.target()
    }

    pub closed spec fn binds_self(&self) -> bool {
        self.builder.binds_self()
    }

    /// Finishes the binding with an instance.
    pub fn from(self, instance: T)
        ensures
            appended_type(self.pending()@, final(self.target())@, self.binds_self(), Some(0)),
            is_meta_of::<T>(final(self.target())@.last().ty),
            final(self.target())@.last().kind->lifetime matches BindingLifetime::Singleton(
                crate::binding::SingletonProvider::Instance(x),
            ) && ErasedArc::from_instance::<T>.ensures((instance,), x),
    {
        let lifetime = BindingLifetime::singleton_from(instance);
        self.builder.builder.add_type_binding::<T>(self.builder.bind_self, lifetime, Vec::new());
    }

    /// Finishes the binding with a factory, called once while the services
    /// are built.
    pub fn from_fn<F: DiFactoryOnce<T, Args>, Args: 'static>(self, factory: F)
        ensures
            appended_type(self.pending()@, final(self.target())@, self.binds_self(), None),
            is_meta_of::<T>(final(self.target())@.last().ty),
            singleton_by_fn::<T, Args, F>(final(self.target())@.last().kind->lifetime, factory),
            F::depends_on.ensures((), final(self.target())@.last().kind->deps),
    {
        let lifetime = BindingLifetime::singleton_from_fn(factory);
        self.builder.builder.add_type_binding::<T>(
            self.builder.bind_self,
            lifetime,
            F::depends_on(),
        );
    }
}

impl<'a, T: Default + 'static> SingletonConcreteBuilder<'a, T> {
    /// Finishes the binding with `T::default()`.
    pub fn from_default(self)
        ensures
            appended_type(self.pending()@, final(self.target())@, self.binds_self(), Some(0)),
            is_meta_of::<T>(final(self.target())@.last().ty),
            singleton_by_default::<T>(final(self.target())@.last().kind->lifetime),
    {
        let lifetime = BindingLifetime::singleton_from_default::<T>();
        self.builder.builder.add_type_binding::<T>(self.builder.bind_self, lifetime, Vec::new());
    }
}

impl<'a, T: FromDi + 'static> SingletonConcreteBuilder<'a, T> {
    /// Finishes the binding with `T::produce`, needing `T::depends_on()`.
    pub fn from_di(self)
        ensures
            appended_type(self.pending()@, final(self.target())@, self.binds_self(), None),
            is_meta_of::<T>(final(self.target())@.last().ty),
            singleton_by_di::<T>(final(self.target())@.last().kind->lifetime),
            T::depends_on.ensures((), final(self.target())@.last().kind->deps),
    {
        let lifetime = BindingLifetime::singleton_from_di::<T>();
        self.builder.builder.add_type_binding::<T>(
            self.builder.bind_self,
            lifetime,
            T::depends_on(),
        );
    }
}

/// The builder of a transient binding.
pub struct TransientConcreteBuilder<'a, T: 'static> {
    builder: ConcreteBuilder<'a, T>,
}

/// Another name for the builder of a transient binding.
pub type TransientBindingBuilder<'a, T> = TransientConcreteBuilder<'a, T>;

impl<'a, T: 'static> TransientConcreteBuilder<'a, T> {
    pub closed spec fn pending(&self) -> ServicesBuilder {
        self.builder.pending()
    }

    pub closed spec fn target(&self) -> &'a mut ServicesBuilder {
        self.builder.target()
    }

    pub closed spec fn binds_self(&self) -> bool {
        self.builder.binds_self()
    }

    /// Finishes the binding with a factory, called for every resolution.
    pub fn from_fn<F: DiFactory<T, Args>, Args: 'static>(self, factory: F)
        ensures
            appended_type(self.pending()@, final(self.target())@, self.binds_self(), None),
            is_meta_of::<T>(final(self.target())@.last().ty),
            transient_by_fn::<T, Args, F>(final(self.target())@.last().kind->lifetime, factory),
            <F as DiFactoryOnce<T, Args>>::depends_on.ensures((), final(self.target())@.last().kind->deps),
    {
        let lifetime = BindingLifetime::transient_from_fn(factory);
        self.builder.builder.add_type_binding::<T>(
            self.builder.bind_self,
            lifetime,
            <F as DiFactoryOnce<T, Args>>::depends_on(),
        );
    }
}

impl<'a, T: FromDi + 'static> TransientConcreteBuilder<'a, T> {
    /// Finishes the binding with `T::produce`, needing `T::depends_on()`.
    pub fn from_di(self)
        ensures
            appended_type(self.pending()@, final(self.target())@, self.binds_self(), None),
            is_meta_of::<T>(final(self.target())@.last().ty),
            transient_by_di::<T>(final(self.target())@.last().kind->lifetime),
            T::depends_on.ensures((), final(self.target())@.last().kind->deps),
    {
        let lifetime = BindingLifetime::transient_from_di::<T>();
        self.builder.builder.add_type_binding::<T>(
            self.builder.bind_self,
            lifetime,
            T::depends_on(),
        );
    }
}

impl<'a, T: Default + 'static> TransientConcreteBuilder<'a, T> {
    /// Finishes the binding with `T::default()`.
    pub fn from_default(self)
        ensures
            appended_type(self.pending()@, final(self.target())@, self.binds_self(), Some(0)),
            is_meta_of::<T>(final(self.target())@.last().ty),
            transient_by_default::<T>(final(self.target())@.last().kind->lifetime),
    {
        let lifetime = BindingLifetime::transient_from_default::<T>();
        self.builder.builder.add_type_binding::<T>(self.builder.bind_self, lifetime, Vec::new());
    }
}

/// The builder of an alias: the implementations collected so far.
pub struct AliasBuilder<'a, Trait: ?Sized + 'static> {
    builder: &'a mut ServicesBuilder,
    impls: Vec<(TypeMeta, ErasedUnsizer)>,
    ph: PhantomData<Trait>,
}

impl<'a, Trait: ?Sized + 'static> AliasBuilder<'a, Trait> {
    /// Starts an alias without implementations, into `builder`.
    pub(crate) fn from_builder(builder: &'a mut ServicesBuilder) -> (r: Self)
        ensures
            r.pending() == *old(builder),
            r.impls_view() == Seq::<(TypeMeta, ErasedUnsizer)>::empty(),
            *final(builder) == *final(r.target()),
    {
        AliasBuilder { builder, impls: Vec::new(), ph: PhantomData }
    }

    pub closed spec fn pending(&self) -> ServicesBuilder {
        *self.builder
    }

    pub closed spec fn target(&self) -> &'a mut ServicesBuilder {
        self.builder
    }

    /// The implementations collected so far.
    pub closed spec fn impls_view(&self) -> Seq<(TypeMeta, ErasedUnsizer)> {
        self.impls@
    }

    /// Adds `T` as an implementation, turned into `Trait` by `unsize`;
    /// nothing is added when `Arc<Trait>` is a thin pointer, that is when
    /// `Trait` is not a trait object or a slice.
    pub fn to<T: 'static>(self, unsize: impl Fn(Arc<T>) -> Arc<Trait> + 'static) -> (r: Self)
        ensures
            r.pending() == self.pending(),
            *final(self.target()) == *final(r.target()),
            thin_arc::<Trait>() ==> r.impls_view() == self.impls_view(),
            !thin_arc::<Trait>() ==> {
                &&& r.impls_view().len() == self.impls_view().len() + 1
                &&& r.impls_view().drop_last() == self.impls_view()
                &&& r.impls_view().last().0.label_view() is None
                &&& r.impls_view().last().0 == r.impls_view().last().1.type_in_view()
                &&& is_meta_of::<T>(r.impls_view().last().0)
                &&& is_meta_of::<Trait>(r.impls_view().last().1.type_out_view())
            },
    {
        let AliasBuilder { builder, impls, ph } = self;
        let mut impls = impls;
        match ErasedUnsizer::try_from::<T, Trait, _>(unsize) {
            Some(u) => {
                let ghost before = impls@;
                let ty = u.type_in();
                impls.push((ty, u));
                proof {
                    assert(impls@.drop_last() =~= before);
                }
            },
            None => {},
        }
        AliasBuilder { builder, impls, ph }
    }

    /// Adds the alias binding with the collected implementations.
    pub fn done(self)
        ensures
            appended(
                self.pending()@,
                final(self.target())@,
                BindingKind::Alias { impls: self.impls_vec() },
            ),
            final(self.target())@.last().kind->impls@ == self.impls_view(),
            is_meta_of::<Trait>(final(self.target())@.last().ty),
    {
        self.builder.add_alias_binding::<Trait>(self.impls);
    }

    /// The collected implementations.
    pub closed spec fn impls_vec(&self) -> Vec<(TypeMeta, ErasedUnsizer)> {
        self.impls
    }
}

} // verus!
