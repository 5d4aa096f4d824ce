//! The container: assembling, validating and resolving.
//!
//! A [`ContainerBuilder`] collects registrations; [`ContainerBuilder::build`]
//! validates them as a graph and hands out a [`Container`], which resolves
//! keys to instances according to the scope of each registration.

use crate::collections::closing_chain;
use crate::collections::copy_keys;
use crate::collections::holds_key;
use crate::collections::ids_of;
use crate::error::AlreadyRegisteredError;
use crate::error::CircularDependencyError;
use crate::error::MakhzanError;
use crate::error::NotRegisteredError;
use crate::graph::declared_of;
use crate::graph::DependencyInfo;
use crate::graph::GraphValidator;
use crate::key::DependencyKey;
use crate::key::KeyId;
use crate::provider::ProviderRegistry;
use crate::recipes::built_by;
use crate::recipes::kept_from;
use crate::recipes::once_outcome;
use crate::registry::FactoryFn;
use crate::registry::Instance;
use crate::registry::Registration;
use crate::registry::Registry;
use crate::registry::Resolution;
use crate::registry::Resolver;
use crate::scope::Scope;
use crate::similarity::is_substring;
use crate::similarity::lowercase;
use crate::similarity::str_contains;
use crate::similarity::to_lowercase;
use crate::text::decimal;
use crate::text::push_decimal;
use crate::text::push_text;
use crate::traversal::first_finding;
use crate::traversal::first_occurrence;
use crate::traversal::tells;
use crate::validity::keys_of;
use crate::validity::validation_outcome;
use std::sync::Arc;
use vstd::prelude::*;

verus! {

/// Assembles a [`Container`] from registrations.
///
/// Register all dependencies, then call [`ContainerBuilder::build`] to validate
/// them and obtain a container that can no longer change.
pub struct ContainerBuilder {
    registry: Registry,
    allow_override: bool,
    /// The first registration fault, which `build` reports.
    refused: Option<MakhzanError>,
}

/// The keys among `keys` that may be meant by `target`: those of another
/// identity whose lower-cased display name contains that of `target` or is
/// contained in it, in order.
pub open spec fn related_keys(keys: Seq<DependencyKey>, target: DependencyKey) -> Seq<DependencyKey>
    decreases keys.len(),
{
    if keys.len() == 0 {
        Seq::empty()
    } else {
        let rest = related_keys(keys.drop_last(), target);
        let name = lowercase(keys.last().spec_display_name());
        let wanted = lowercase(target.spec_display_name());
        if keys.last()@ != target@ && (is_substring(wanted, name) || is_substring(name, wanted)) {
            rest.push(keys.last())
        } else {
            rest
        }
    }
}

/// The text of the fault reported when a built value is not of the type asked for.
pub open spec fn mismatch_text(key: DependencyKey) -> Seq<char> {
    "Type mismatch: expected "@ + key.spec_display_name()
}

/// Turns the outcome of recovering a typed value from an instance into the
/// result of a resolution: the value, or a construction fault for `key`.
pub fn recover<T>(key: DependencyKey, outcome: Result<T, Instance>) -> (r: Result<T, MakhzanError>)
    ensures
        match outcome {
            Ok(value) => r == Ok::<T, MakhzanError>(value),
            Err(_) => r matches Err(MakhzanError::ConstructionFailed { key: failed, source })
                && failed == key && source@ == mismatch_text(key),
        },
{
    match outcome {
        Ok(value) => Ok(value),
        Err(_) => {
            let mut source = String::new();
            push_text(&mut source, "Type mismatch: expected ");
            push_text(&mut source, key.display_name());
            Err(MakhzanError::ConstructionFailed { key, source })
        },
    }
}

impl ContainerBuilder {
    /// The registry assembled so far.
    pub closed spec fn registry(&self) -> Registry {
        self.registry
    }

    /// Whether a later registration replaces an earlier one of the same key.
    pub closed spec fn overriding(&self) -> bool {
        self.allow_override
    }

    /// The first fault that a registration met, if one did: `build` fails
    /// with it.
    pub closed spec fn refused(&self) -> Option<MakhzanError> {
        self.refused
    }

    /// The fault of offering a registration under a key that is taken while
    /// overriding is off.
    pub open spec fn duplicate_fault(key: DependencyKey) -> MakhzanError {
        MakhzanError::AlreadyRegistered(AlreadyRegisteredError { key })
    }

    /// Whether this builder is `before` after `registration` was offered to it.
    ///
    /// The registration is stored under its key, in place of an earlier one
    /// where overriding is on. Where the key is taken and overriding is off,
    /// the registry stays as it was and the offer is a fault: the builder
    /// keeps it, unless it keeps an earlier fault already.
    pub open spec fn follows(&self, before: &ContainerBuilder, registration: Registration) -> bool {
        let old_registry = before.registry();
        let new_registry = self.registry();
        let taken = old_registry.entries().dom().contains(registration.key@);
        &&& self.overriding() == before.overriding()
        &&& new_registry.alias_targets() == old_registry.alias_targets()
        &&& new_registry.alias_keys() == old_registry.alias_keys()
        &&& if taken && !before.overriding() {
            &&& new_registry.entries() == old_registry.entries()
            &&& new_registry.keys() == old_registry.keys()
            &&& self.refused() == if before.refused() is Some {
                before.refused()
            } else {
                Some(Self::duplicate_fault(registration.key))
            }
        } else {
            &&& new_registry.entries() == old_registry.entries().insert(
                registration.key@,
                registration,
            )
            &&& new_registry.keys() == if taken {
                old_registry.keys()
            } else {
                old_registry.keys().push(registration.key)
            }
            &&& self.refused() == before.refused()
        }
    }

    /// Whether this builder is `before` after a registration of the given
    /// lifetime, without declared dependencies, was offered under an unnamed
    /// key with the display name `display_name`, with a factory that yields
    /// exactly the outcomes that are `allowed` for the key of the registration
    /// and the keys whose factories are running.
    pub open spec fn follows_unnamed(
        &self,
        before: &ContainerBuilder,
        display_name: Seq<char>,
        scope: Scope,
        allowed: spec_fn(
            DependencyKey,
            Seq<DependencyKey>,
            Result<Instance, MakhzanError>,
        ) -> bool,
    ) -> bool {
        exists|registration: Registration|
            {
                &&& registration.key@.name is None
                &&& registration.key.spec_display_name() == display_name
                &&& registration.scope == scope
                &&& registration.dependencies@.len() == 0
                &&& registration.factory.yields_exactly(
                    |running: Seq<DependencyKey>, outcome: Result<Instance, MakhzanError>|
                        allowed(registration.key, running, outcome),
                )
                &&& #[trigger] self.follows(before, registration)
            }
    }

    /// Creates a builder without registrations, in which overriding is off.
    pub fn new() -> (builder: Self)
        ensures
            builder.registry().entries() == Map::<KeyId, Registration>::empty(),
            builder.registry().alias_targets() == Map::<KeyId, DependencyKey>::empty(),
            builder.registry().keys() == Seq::<DependencyKey>::empty(),
            builder.registry().alias_keys() == Seq::<DependencyKey>::empty(),
            !builder.overriding(),
            builder.refused() is None,
    {
        ContainerBuilder { registry: Registry::new(), allow_override: false, refused: None }
    }

    /// Allow overriding previously registered dependencies.
    pub fn allow_override(self, allow: bool) -> (builder: Self)
        ensures
            builder.registry() == self.registry(),
            builder.overriding() == allow,
            builder.refused() == self.refused(),
    {
        let mut builder = self;
        builder.allow_override = allow;
        builder
    }

    /// Register a pre-built value as a singleton.
    ///
    /// A copy of the value is handed out on every resolution: the factory of
    /// the registration never fails.
    pub fn singleton_value<T: Clone + Send + Sync + 'static>(
        self,
        display_name: &'static str,
        value: T,
    ) -> (builder: Self)
        ensures
            builder.follows_unnamed(
                &self,
                display_name@,
                Scope::Singleton,
                |
                    key: DependencyKey,
                    running: Seq<DependencyKey>,
                    outcome: Result<Instance, MakhzanError>,
                | outcome is Ok,
            ),
    {
        let key = DependencyKey::of::<T>(display_name);
        let factory = FactoryFn::of_value(value);
        let dependencies: Vec<DependencyKey> = Vec::new();
        let builder = self.register_internal(key, Scope::Singleton, factory, dependencies);
        proof {
            let registration = Registration { key, factory, scope: Scope::Singleton, dependencies };
            assert(builder.follows(&self, registration));
        }
        builder
    }

    /// Register a singleton factory.
    ///
    /// The factory runs once, on the first resolution; every resolution
    /// receives a copy of what it built, or of the fault with which it failed.
    /// The container resolves the key with its factory counted as running, so
    /// that the recipe does not refuse: see
    /// [`Container::lemma_singleton_is_kept`].
    pub fn singleton_with<T: Clone + Send + Sync + 'static>(
        self,
        display_name: &'static str,
        factory: impl Fn(&dyn Resolver) -> Result<T, MakhzanError> + Send + Sync + 'static,
    ) -> (builder: Self)
        requires
            forall|args: (&dyn Resolver,)| #[trigger] call_requires(factory, args),
        ensures
            builder.follows_unnamed(
                &self,
                display_name@,
                Scope::Singleton,
                |
                    key: DependencyKey,
                    running: Seq<DependencyKey>,
                    outcome: Result<Instance, MakhzanError>,
                | once_outcome::<T, _>(key, factory, running, outcome),
            ),
    {
        let key = DependencyKey::of::<T>(display_name);
        let wrapped = FactoryFn::once::<T, _>(key, factory);
        let dependencies: Vec<DependencyKey> = Vec::new();
        let builder = self.register_internal(key, Scope::Singleton, wrapped, dependencies);
        proof {
            let registration = Registration {
                key,
                factory: wrapped,
                scope: Scope::Singleton,
                dependencies,
            };
            assert(builder.follows(&self, registration));
        }
        builder
    }

    /// Register a scoped factory.
    ///
    /// The factory runs on every resolution: a scope keeps no instances of
    /// its own.
    pub fn scoped_with<T: Send + Sync + 'static>(
        self,
        display_name: &'static str,
        factory: impl Fn(&dyn Resolver) -> Result<T, MakhzanError> + Send + Sync + 'static,
    ) -> (builder: Self)
        requires
            forall|args: (&dyn Resolver,)| #[trigger] call_requires(factory, args),
        ensures
            builder.follows_unnamed(
                &self,
                display_name@,
                Scope::Scoped,
                |
                    key: DependencyKey,
                    running: Seq<DependencyKey>,
                    outcome: Result<Instance, MakhzanError>,
                | built_by::<T, _>(factory, outcome),
            ),
    {
        let key = DependencyKey::of::<T>(display_name);
        let wrapped = FactoryFn::fresh::<T, _>(factory);
        let dependencies: Vec<DependencyKey> = Vec::new();
        let builder = self.register_internal(key, Scope::Scoped, wrapped, dependencies);
        proof {
            let registration = Registration {
                key,
                factory: wrapped,
                scope: Scope::Scoped,
                dependencies,
            };
            assert(builder.follows(&self, registration));
        }
        builder
    }

    /// Register a transient factory.
    ///
    /// The factory runs on every resolution.
    pub fn transient_with<T: Send + Sync + 'static>(
        self,
        display_name: &'static str,
        factory: impl Fn(&dyn Resolver) -> Result<T, MakhzanError> + Send + Sync + 'static,
    ) -> (builder: Self)
        requires
            forall|args: (&dyn Resolver,)| #[trigger] call_requires(factory, args),
        ensures
            builder.follows_unnamed(
                &self,
                display_name@,
                Scope::Transient,
                |
                    key: DependencyKey,
                    running: Seq<DependencyKey>,
                    outcome: Result<Instance, MakhzanError>,
                | built_by::<T, _>(factory, outcome),
            ),
    {
        let key = DependencyKey::of::<T>(display_name);
        let wrapped = FactoryFn::fresh::<T, _>(factory);
        let dependencies: Vec<DependencyKey> = Vec::new();
        let builder = self.register_internal(key, Scope::Transient, wrapped, dependencies);
        proof {
            let registration = Registration {
                key,
                factory: wrapped,
                scope: Scope::Transient,
                dependencies,
            };
            assert(builder.follows(&self, registration));
        }
        builder
    }

    /// The registrations as the validator takes them, in registration order.
    fn dependency_infos(&self) -> (infos: Vec<DependencyInfo>)
        ensures
            declared_of(infos@) == self.registry().declared(),
    {
        let all = self.registry.all_registrations();
        let ghost wanted = self.registry().declared();
        let n = all.len();
        let mut infos: Vec<DependencyInfo> = Vec::new();
        let mut i: usize = 0;
        while i < n
            invariant
                n == all.spec_keys().len(),
                i <= n,
                all@ == self.registry().entries(),
                all.spec_keys() == self.registry().keys(),
                wanted == self.registry().declared(),
                infos@.len() == i,
                forall|j: int| 0 <= j < i ==> (#[trigger] infos@[j]).declared() == wanted[j],
            decreases n - i,
        {
            let key = all.key_at(i);
            let registration = all.value_at(i);
            infos.push(
                DependencyInfo {
                    key,
                    dependencies: copy_keys(&registration.dependencies),
                    scope: registration.scope,
                },
            );
            i = i + 1;
        }
        infos
    }

    /// Build the container, validating the dependency graph.
    ///
    /// Where a registration met a fault, the first such fault is returned and
    /// nothing is validated. Otherwise the build succeeds exactly when the
    /// registrations form a valid graph: every declared dependency
    /// registered, no consumer outliving a dependency, no cycle. The container
    /// then holds the registry as it was assembled. A validation fault that is
    /// returned is true of the graph, and the first that the traversal meets.
    pub fn build(self) -> (r: Result<Container, MakhzanError>)
        ensures
            self.refused() matches Some(fault) ==> r matches Err(returned) && returned == fault,
            self.refused() is None ==> validation_outcome(
                self.registry().graph(),
                self.registry().keys(),
                match r {
                    Ok(_) => Ok(()),
                    Err(fault) => Err(fault),
                },
            ),
            self.refused() is None ==> tells(
                self.registry().declared(),
                first_finding(self.registry().declared()),
                match r {
                    Ok(_) => Ok(()),
                    Err(fault) => Err(fault),
                },
            ),
            r matches Ok(container) ==> container.registry() == self.registry(),
    {
        match self.refused {
            Some(fault) => {
                return Err(fault);
            },
            None => {},
        }
        let infos = self.dependency_infos();
        proof {
            assert(keys_of(self.registry().declared()) =~= self.registry().keys());
        }
        let mut validator = GraphValidator::new(infos);
        match validator.validate() {
            Ok(()) => {},
            Err(fault) => {
                return Err(fault);
            },
        }
        Ok(Container { registry: Arc::new(self.registry) })
    }

    /// Offers a registration to the registry. Where its key is taken and
    /// overriding is off, the registry stays as it was and the builder keeps
    /// the fault for `build` to report.
    pub fn register_internal(
        self,
        key: DependencyKey,
        scope: Scope,
        factory: FactoryFn,
        dependencies: Vec<DependencyKey>,
    ) -> (builder: Self)
        ensures
            builder.follows(&self, Registration { key, factory, scope, dependencies }),
    {
        let mut builder = self;
        builder.offer(Registration { key, factory, scope, dependencies });
        builder
    }

    /// Offers a registration to the registry and keeps the first fault.
    fn offer(&mut self, registration: Registration)
        ensures
            final(self).follows(old(self), registration),
    {
        match self.registry.register(registration, self.allow_override) {
            Ok(()) => {},
            Err(fault) => {
                if self.refused.is_none() {
                    self.refused = Some(fault);
                }
            },
        }
    }
}

impl ProviderRegistry for ContainerBuilder {
    /// The factory is stored as it is given and run on every resolution; one
    /// made by [`FactoryFn::once`] keeps its outcome and runs once.
    fn register_singleton(
        &mut self,
        key: DependencyKey,
        factory: FactoryFn,
        dependencies: Vec<DependencyKey>,
    )
        ensures
            final(self).follows(
                old(self),
                Registration { key, factory, scope: Scope::Singleton, dependencies },
            ),
    {
        self.offer(Registration { key, factory, scope: Scope::Singleton, dependencies });
    }

    fn register_scoped(
        &mut self,
        key: DependencyKey,
        factory: FactoryFn,
        dependencies: Vec<DependencyKey>,
    )
        ensures
            final(self).follows(
                old(self),
                Registration { key, factory, scope: Scope::Scoped, dependencies },
            ),
    {
        self.offer(Registration { key, factory, scope: Scope::Scoped, dependencies });
    }

    fn register_transient(
        &mut self,
        key: DependencyKey,
        factory: FactoryFn,
        dependencies: Vec<DependencyKey>,
    )
        ensures
            final(self).follows(
                old(self),
                Registration { key, factory, scope: Scope::Transient, dependencies },
            ),
    {
        self.offer(Registration { key, factory, scope: Scope::Transient, dependencies });
    }

    fn register_alias(&mut self, from: DependencyKey, to: DependencyKey)
        ensures
            final(self).overriding() == old(self).overriding(),
            final(self).refused() == old(self).refused(),
            final(self).registry().entries() == old(self).registry().entries(),
            final(self).registry().keys() == old(self).registry().keys(),
            final(self).registry().alias_targets() == old(self).registry().alias_targets().insert(
                from@,
                to,
            ),
            final(self).registry().alias_keys() == if old(
                self,
            ).registry().alias_targets().dom().contains(from@) {
                old(self).registry().alias_keys()
            } else {
                old(self).registry().alias_keys().push(from)
            },
    {
        self.registry.register_alias(from, to);
    }
}

/// A validated container that resolves keys to instances.
///
/// It is created by [`ContainerBuilder::build`] and does not change afterwards.
pub struct Container {
    registry: Arc<Registry>,
}

/// A child context of a container, such as one request.
///
/// It keeps no instances of its own: every resolution goes to the parent.
pub struct ScopedContainer<'a> {
    parent: &'a Container,
}

/// The resolver handed to factories: it resolves from the container and
/// gives no access to the registry.
///
/// It knows the path of the resolution that it serves: the keys of the
/// registrations whose factories are running. It guards these keys: a factory
/// that asks for one of them is answered with a cycle fault.
struct ContainerResolver<'a> {
    container: &'a Container,
    path: Vec<DependencyKey>,
}

impl Container {
    /// The registry that this container resolves from.
    pub closed spec fn registry(&self) -> Registry {
        *self.registry
    }

    /// The fault reported for a key that cannot be resolved.
    pub open spec fn missing(&self, key: DependencyKey, fault: MakhzanError) -> bool {
        &&& fault matches MakhzanError::NotRegistered(e)
        &&& e.requested == key
        &&& e.required_by is None
        &&& e.suggestions@ == related_keys(
            self.registry().keys() + self.registry().alias_keys(),
            key,
        )
    }

    /// A short description of the container: the number of registrations.
    pub open spec fn spec_describe(&self) -> Seq<char> {
        "Container { registered: "@ + decimal(self.registry().keys().len()) + " }"@
    }

    /// A short description of the container: the number of registrations.
    pub fn describe(&self) -> (description: String)
        ensures
            description@ == self.spec_describe(),
    {
        let mut description = String::new();
        push_text(&mut description, "Container { registered: ");
        push_decimal(&mut description, self.registry.len());
        push_text(&mut description, " }");
        description
    }

    /// Create a new builder.
    pub fn builder() -> (builder: ContainerBuilder)
        ensures
            builder.registry().entries() == Map::<KeyId, Registration>::empty(),
            builder.registry().alias_targets() == Map::<KeyId, DependencyKey>::empty(),
            builder.registry().keys() == Seq::<DependencyKey>::empty(),
            builder.registry().alias_keys() == Seq::<DependencyKey>::empty(),
            !builder.overriding(),
            builder.refused() is None,
    {
        ContainerBuilder::new()
    }

    /// Resolve a dependency by type.
    ///
    /// The key is the unnamed key of `T`. The container resolves it as
    /// [`Container::resolves_to`] says: to the not-registered fault where the
    /// key cannot be resolved, and otherwise to what the factory of its
    /// registration yields. A fault is handed on as it is; an instance gives
    /// its value, or the construction fault for the key where the value is of
    /// another type than `T`.
    pub fn resolve<T: Send + Sync + 'static>(&self, display_name: &'static str) -> (r: Result<
        T,
        MakhzanError,
    >)
        ensures
            exists|key: DependencyKey, answer: Result<Instance, MakhzanError>|
                {
                    &&& key@.name is None
                    &&& key.spec_display_name() == display_name@
                    &&& #[trigger] self.resolves_to(key, answer)
                    &&& typed(key, answer, r)
                },
    {
        let key = DependencyKey::of::<T>(display_name);
        let answer = self.resolve_internal(&key);
        let ghost given = answer;
        let r = recover_answer(key, answer);
        assert(self.resolves_to(key, given) && typed(key, given, r));
        r
    }

    /// Create a scoped child container.
    pub fn create_scope(&self) -> (scope: ScopedContainer<'_>)
        ensures
            scope.parent() == self,
    {
        ScopedContainer { parent: self }
    }

    /// Finds the registration that `key` resolves to, following an alias once.
    ///
    /// Fails with a not-registered fault exactly when there is none.
    pub fn locate(&self, key: &DependencyKey) -> (r: Result<&Registration, MakhzanError>)
        ensures
            r is Ok == self.registry().resolvable(key@),
            r matches Ok(registration) ==> *registration == self.registry().entries()[self.registry().target(
                key@,
            )],
            r matches Err(fault) ==> self.missing(*key, fault),
    {
        match self.registry.get(key) {
            Some(registration) => Ok(registration),
            None => Err(
                MakhzanError::NotRegistered(
                    NotRegisteredError {
                        requested: *key,
                        required_by: None,
                        suggestions: self.find_suggestions(key),
                    },
                ),
            ),
        }
    }

    /// Whether `outcome` is what resolving `key` may come to: the
    /// not-registered fault where the key cannot be resolved, and otherwise
    /// what the factory of its registration yields while it is the one
    /// factory that is running.
    pub open spec fn resolves_to(
        &self,
        key: DependencyKey,
        outcome: Result<Instance, MakhzanError>,
    ) -> bool {
        self.resolves_on(key, Seq::empty(), outcome)
    }

    /// Whether `outcome` is what resolving `key` may come to while the
    /// factories of the registrations of `path` are running: the
    /// not-registered fault where the key cannot be resolved; the cycle fault
    /// where the registration found is one of those on the path, with the
    /// chain from its first occurrence on the path back to it; and otherwise
    /// what the factory of the registration yields in a resolution in which
    /// the factories of the path and its own are running.
    pub open spec fn resolves_on(
        &self,
        key: DependencyKey,
        path: Seq<DependencyKey>,
        outcome: Result<Instance, MakhzanError>,
    ) -> bool {
        let found = self.registry().entries()[self.registry().target(key@)];
        if !self.registry().resolvable(key@) {
            outcome matches Err(fault) && self.missing(key, fault)
        } else if ids_of(path).contains(found.key@) {
            outcome matches Err(MakhzanError::CircularDependency(e)) && e.chain@ == path.subrange(
                first_occurrence(ids_of(path), found.key@),
                path.len() as int,
            ).push(found.key)
        } else {
            found.factory.may_yield(path.push(found.key), outcome)
        }
    }

    /// A singleton that is registered under the key of its factory is never
    /// refused by the container: where `key` resolves to a registration whose
    /// factory was made to run `build` once for the key of that registration,
    /// every outcome of resolving `key` is a copy of an outcome of `build`.
    pub proof fn lemma_singleton_is_kept<T, F: Fn(&dyn Resolver) -> Result<T, MakhzanError>>(
        &self,
        key: DependencyKey,
        build: F,
        outcome: Result<Instance, MakhzanError>,
    )
        requires
            self.registry().resolvable(key@),
            self.registry().entries()[self.registry().target(key@)].factory.yields_exactly(
                |running: Seq<DependencyKey>, o: Result<Instance, MakhzanError>|
                    once_outcome::<T, F>(
                        self.registry().entries()[self.registry().target(key@)].key,
                        build,
                        running,
                        o,
                    ),
            ),
            self.resolves_to(key, outcome),
        ensures
            kept_from::<T, F>(build, outcome),
    {
        let found = self.registry().entries()[self.registry().target(key@)];
        let running = Seq::<DependencyKey>::empty().push(found.key);
        assert(ids_of(Seq::<DependencyKey>::empty()) =~= Seq::<KeyId>::empty());
        assert(found.factory.may_yield(running, outcome));
        assert(ids_of(running)[0] == found.key@);
    }

    /// Resolves a key to a type-erased instance.
    ///
    /// A key that cannot be resolved gives a not-registered fault. Otherwise
    /// the factory of its registration is run with a resolver of this
    /// container, and what the factory returns is the result.
    pub fn resolve_internal(&self, key: &DependencyKey) -> (r: Result<Instance, MakhzanError>)
        ensures
            self.resolves_to(*key, r),
    {
        let path: Vec<DependencyKey> = Vec::new();
        self.resolve_on(key, &path)
    }

    /// The resolver for the factory of the registration of `key`, which is
    /// run while the factories of the registrations of `path` are running: it
    /// resolves from this container on the path with `key` added.
    fn resolver_on(&self, path: &Vec<DependencyKey>, key: DependencyKey) -> (resolver:
        ContainerResolver<'_>)
        ensures
            resolver.container == self,
            resolver.path@ == path@.push(key),
    {
        let mut longer = copy_keys(path);
        longer.push(key);
        ContainerResolver { container: self, path: longer }
    }

    /// Resolves a key while the factories of the registrations of `path` are
    /// running.
    ///
    /// A registration on the path is not run again: the resolution fails with
    /// a cycle fault. Otherwise the factory of the registration found is run
    /// in a resolution in which the path with the key of that registration
    /// added is running, with a resolver that guards every key of it.
    fn resolve_on(&self, key: &DependencyKey, path: &Vec<DependencyKey>) -> (r: Result<
        Instance,
        MakhzanError,
    >)
        ensures
            self.resolves_on(*key, path@, r),
    {
        match self.locate(key) {
            Ok(registration) => {
                if holds_key(path, &registration.key) {
                    let chain = closing_chain(path, &registration.key);
                    return Err(
                        MakhzanError::CircularDependency(CircularDependencyError { chain }),
                    );
                }
                let resolver = self.resolver_on(path, registration.key);
                let resolution = resolver.resolution();
                registration.factory.call(&resolution)
            },
            Err(fault) => Err(fault),
        }
    }

    /// The registered and aliased keys that may be meant by `key`.
    pub fn find_suggestions(&self, key: &DependencyKey) -> (found: Vec<DependencyKey>)
        ensures
            found@ == related_keys(self.registry().keys() + self.registry().alias_keys(), *key),
    {
        let wanted = to_lowercase(key.display_name());
        let keys = self.registry.registered_keys();
        let n = keys.len();
        let mut found: Vec<DependencyKey> = Vec::new();
        let mut i: usize = 0;
        while i < n
            invariant
                n == keys@.len(),
                i <= n,
                wanted@ == lowercase(key.spec_display_name()),
                found@ == related_keys(keys@.take(i as int), *key),
            decreases n - i,
        {
            let candidate = keys[i];
            proof {
                assert(keys@.take(i as int + 1).drop_last() =~= keys@.take(i as int));
            }
            if !candidate.same(key) {
                let name = to_lowercase(candidate.display_name());
                if str_contains(name.as_str(), wanted.as_str()) || str_contains(
                    wanted.as_str(),
                    name.as_str(),
                ) {
                    found.push(candidate);
                }
            }
            i = i + 1;
        }
        assert(keys@.take(n as int) =~= keys@);
        found
    }
}

impl<'a> ScopedContainer<'a> {
    /// The container that this scope resolves from.
    pub closed spec fn parent(&self) -> &Container {
        self.parent
    }

    /// Resolve a dependency within this scope.
    pub fn resolve<T: Send + Sync + 'static>(&self, display_name: &'static str) -> (r: Result<
        T,
        MakhzanError,
    >)
        ensures
            exists|key: DependencyKey, answer: Result<Instance, MakhzanError>|
                {
                    &&& key@.name is None
                    &&& key.spec_display_name() == display_name@
                    &&& #[trigger] self.parent().resolves_to(key, answer)
                    &&& typed(key, answer, r)
                },
    {
        let r = self.parent.resolve::<T>(display_name);
        proof {
            let (key, answer) = choose|key: DependencyKey, answer: Result<Instance, MakhzanError>|
                {
                    &&& key@.name is None
                    &&& key.spec_display_name() == display_name@
                    &&& #[trigger] self.parent.resolves_to(key, answer)
                    &&& typed(key, answer, r)
                };
            assert(self.parent().resolves_to(key, answer));
        }
        r
    }
}

impl<'a> ContainerResolver<'a> {
    /// The resolution that this resolver serves: the keys of its path are
    /// running, and it answers for them.
    fn resolution(&self) -> (resolution: Resolution<'_>)
        ensures
            resolution.running() == self.path@,
            forall|key: DependencyKey|
                #[trigger] resolution.guards(key) == ids_of(self.path@).contains(key@),
            forall|key: DependencyKey, outcome: Result<Instance, MakhzanError>|
                #[trigger] resolution.answers(key, outcome) == self.container.resolves_on(
                    key,
                    self.path@,
                    outcome,
                ),
    {
        Resolution::within(self, copy_keys(&self.path))
    }
}

impl<'a> Resolver for ContainerResolver<'a> {
    /// The resolver answers as the container resolves on its path.
    closed spec fn answers(
        &self,
        key: DependencyKey,
        outcome: Result<Instance, MakhzanError>,
    ) -> bool {
        self.container.resolves_on(key, self.path@, outcome)
    }

    /// The resolver guards the keys of its path.
    closed spec fn guards(&self, key: DependencyKey) -> bool {
        ids_of(self.path@).contains(key@)
    }

    fn resolve_key(&self, key: &DependencyKey) -> (r: Result<Instance, MakhzanError>) {
        self.container.resolve_on(key, &self.path)
    }
}

/// Whether `r` is what typed resolution makes of the answer of a resolver
/// for `key`: a fault is handed on as it is; an instance gives its value, or
/// the construction fault for `key` where the value is not of the type asked
/// for.
pub open spec fn typed<T>(
    key: DependencyKey,
    answer: Result<Instance, MakhzanError>,
    r: Result<T, MakhzanError>,
) -> bool {
    match answer {
        Err(fault) => r == Err::<T, MakhzanError>(fault),
        Ok(_) => r is Ok || (r matches Err(MakhzanError::ConstructionFailed { key: failed, source })
            && failed == key && source@ == mismatch_text(key)),
    }
}

/// Turns the answer of a resolver for `key` into a typed result.
pub fn recover_answer<T: 'static>(key: DependencyKey, answer: Result<Instance, MakhzanError>) -> (r:
    Result<T, MakhzanError>)
    ensures
        typed(key, answer, r),
{
    match answer {
        Ok(instance) => recover(key, instance.downcast::<T>()),
        Err(fault) => Err(fault),
    }
}

/// Resolve a typed dependency from a [`Resolver`], for use inside factories.
///
/// The resolver is asked for the unnamed key of `T`. A failure of the
/// resolver is handed on; an instance gives its value, or a construction fault
/// where the value is of another type than `T`.
pub fn resolve<T: Send + Sync + 'static>(
    resolver: &(impl Resolver + ?Sized),
    display_name: &'static str,
) -> (r: Result<T, MakhzanError>)
    ensures
        exists|key: DependencyKey, answer: Result<Instance, MakhzanError>|
            {
                &&& key@.name is None
                &&& key.spec_display_name() == display_name@
                &&& #[trigger] resolver.answers(key, answer)
                &&& typed(key, answer, r)
            },
{
    let key = DependencyKey::of::<T>(display_name);
    let answer = resolver.resolve_key(&key);
    let ghost given = answer;
    let r = recover_answer(key, answer);
    assert(resolver.answers(key, given) && typed(key, given, r));
    r
}

} // verus!
