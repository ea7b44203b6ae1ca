//! A dependency injection container: services are bound to a builder, as
//! concrete types or as aliases that stand for several implementations, and
//! built into a collection from which instances are resolved by type.

pub mod assembly;
pub mod binding;
pub mod builder;
pub mod derive;
pub mod erased;
pub mod error;
pub mod factory;
pub mod from_di;
pub mod graph;
pub mod mbmany;
pub mod meta;
pub mod order;
pub mod services;
pub mod unsize;

pub use binding::{Binding, BindingKind, BindingLifetime, ServiceLifetime, SingletonProvider};
pub use builder::{
    AliasBuilder, BindingBuilder, ConcreteBuilder, ServicesBuilder, SingletonBindingBuilder,
    SingletonConcreteBuilder, TransientBindingBuilder, TransientConcreteBuilder,
};
pub use erased::ErasedArc;
pub use error::Error;
pub use factory::{ServiceFactory, ServiceFactoryOnce};
pub use from_di::{DiFactory, DiFactoryOnce, FromDi};
pub use graph::{merge_aliases, resolve_order};
pub use mbmany::OneOrMany;
pub use meta::TypeMeta;
pub use services::{Resolved, ResolvedAll, ResolvedMany, Service, Services};
pub use unsize::ErasedUnsizer;
