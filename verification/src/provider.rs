//! Providers: modules of related registrations.
//!
//! A provider groups the registrations of one concern, so that a container
//! can be assembled from a few providers in place of one long list.

use crate::key::DependencyKey;
use crate::registry::FactoryFn;
use vstd::prelude::*;

verus! {

/// A module that registers related dependencies into a container.
pub trait Provider: Send + Sync {
    /// Register dependencies into the container builder.
    ///
    /// Called once while the container is assembled.
    fn register(&self, builder: &mut dyn ProviderRegistry);

    /// A name for this provider, for messages.
    fn name(&self) -> &str;
}

/// What providers use to register dependencies: the registration operations
/// of a container builder and nothing else.
pub trait ProviderRegistry {
    /// Register a singleton factory.
    ///
    /// The factory is stored as it is given and run on every resolution: an
    /// instance whose type is erased cannot be copied. A factory that is to
    /// run once keeps its outcome itself.
    fn register_singleton(
        &mut self,
        key: DependencyKey,
        factory: FactoryFn,
        dependencies: Vec<DependencyKey>,
    );

    /// Register a scoped factory.
    fn register_scoped(
        &mut self,
        key: DependencyKey,
        factory: FactoryFn,
        dependencies: Vec<DependencyKey>,
    );

    /// Register a transient factory.
    fn register_transient(
        &mut self,
        key: DependencyKey,
        factory: FactoryFn,
        dependencies: Vec<DependencyKey>,
    );

    /// Register an alias: resolving `from` resolves `to`.
    fn register_alias(&mut self, from: DependencyKey, to: DependencyKey);
}

} // verus!
