//! Dependency registry: the registrations and aliases of one container.
//!
//! The registry maps each [`DependencyKey`] to the registration that knows how
//! to build it, and holds the aliases that bind one key to another's
//! registration.

use crate::collections::holds_key;
use crate::collections::ids_of;
use crate::collections::KeyMap;
use crate::error::AlreadyRegisteredError;
use crate::error::MakhzanError;
use crate::key::DependencyKey;
use crate::key::KeyId;
use crate::recipes::built_by;
use crate::recipes::may_return;
use crate::recipes::once_outcome;
use crate::recipes::ErasedRecipe;
use crate::recipes::FreshRecipe;
use crate::recipes::OnceRecipe;
use crate::recipes::ValueRecipe;
use crate::scope::Scope;
use crate::validity::graph_of;
use crate::validity::Declared;
use crate::validity::Node;
use std::any::Any;
use vstd::prelude::*;

verus! {

/// A built value whose type has been erased.
///
/// It holds a boxed `Any` value: the one form in which std keeps a value of a
/// type that is only known at run time. Nothing is known of what it holds
/// until [`Instance::downcast`] recovers it.
#[verifier::external_body]
pub struct Instance {
    value: Box<dyn Any + Send + Sync>,
}

impl Instance {
    /// `Box::new`, with the box then held as `Any`: erases the type of `value`.
    #[verifier::external_body]
    pub fn new<T: Send + Sync + 'static>(value: T) -> (instance: Instance) {
        Instance { value: Box::new(value) }
    }

    /// `Box<dyn Any>::downcast`: hands the value out if it is a `T`, and hands
    /// the instance back unchanged if it is not.
    #[verifier::external_body]
    pub fn downcast<T: 'static>(self) -> (r: Result<T, Instance>)
        ensures
            r matches Err(instance) ==> instance == self,
    {
        match self.value.downcast::<T>() {
            Ok(boxed) => Ok(*boxed),
            Err(value) => Err(Instance { value }),
        }
    }
}

/// The capability handed to factories: resolving a key, and nothing else.
pub trait Resolver: Send + Sync {
    /// Whether resolving `key` may give `outcome`. Of a resolver that does not
    /// say, nothing is known.
    open spec fn answers(
        &self,
        key: DependencyKey,
        outcome: Result<Instance, MakhzanError>,
    ) -> bool {
        true
    }

    /// Whether this resolver guards `key`: a resolution through this resolver
    /// that comes to the registration of `key` gives a fault and runs no
    /// recipe, and so does one through a resolver that a resolution through
    /// this one hands to a factory. A resolver that does not say guards no
    /// key.
    open spec fn guards(&self, key: DependencyKey) -> bool {
        false
    }

    /// Resolves `key` to a type-erased instance or a fault.
    fn resolve_key(&self, key: &DependencyKey) -> (outcome: Result<Instance, MakhzanError>)
        ensures
            self.answers(*key, outcome),
    ;
}

/// One value as a list of one.
///
/// Where a reference to a trait object, or a box of one, is handed over or
/// stored directly, it is converted on the way, and of what comes out of that
/// conversion nothing is known. Put into a list by a function that is generic
/// in its type, it stays the one that was given.
pub(crate) fn alone<A>(value: A) -> (list: (A,))
    ensures
        list.0 == value,
{
    (value,)
}

/// What a recipe is run in: the resolver for its own dependencies, and the
/// keys of the registrations whose factories are running, that of the recipe
/// itself among them where a container runs it.
///
/// The resolver guards every key that is running.
pub struct Resolution<'a> {
    /// The resolver, as a list of one: see [`alone`].
    resolver: (&'a dyn Resolver,),
    running: Vec<DependencyKey>,
}

impl<'a> Resolution<'a> {
    #[verifier::type_invariant]
    spec fn guarded(&self) -> bool {
        forall|key: DependencyKey|
            ids_of(self.running@).contains(key@) ==> #[trigger] self.resolver.0.guards(key)
    }

    /// The keys of the registrations whose factories are running.
    pub closed spec fn running(&self) -> Seq<DependencyKey> {
        self.running@
    }

    /// Whether the resolver of this resolution guards `key`.
    pub closed spec fn guards(&self, key: DependencyKey) -> bool {
        self.resolver.0.guards(key)
    }

    /// Whether the resolver of this resolution may answer `key` with
    /// `outcome`.
    pub closed spec fn answers(
        &self,
        key: DependencyKey,
        outcome: Result<Instance, MakhzanError>,
    ) -> bool {
        self.resolver.0.answers(key, outcome)
    }

    /// A resolution with `resolver` in which no factory is running.
    pub fn new(resolver: &'a dyn Resolver) -> (resolution: Self)
        ensures
            resolution.running() == Seq::<DependencyKey>::empty(),
            forall|key: DependencyKey| #[trigger] resolution.guards(key) == resolver.guards(key),
            forall|key: DependencyKey, outcome: Result<Instance, MakhzanError>|
                #[trigger] resolution.answers(key, outcome) == resolver.answers(key, outcome),
    {
        let running: Vec<DependencyKey> = Vec::new();
        proof {
            assert(ids_of(running@) =~= Seq::<KeyId>::empty());
        }
        let list = alone(resolver);
        Resolution { resolver: list, running }
    }

    /// A resolution with `resolver` in which the factories of the
    /// registrations of `running` are running. The resolver must guard each
    /// of these keys: a recipe that runs once relies on it.
    pub fn within(resolver: &'a dyn Resolver, running: Vec<DependencyKey>) -> (resolution: Self)
        requires
            forall|key: DependencyKey|
                ids_of(running@).contains(key@) ==> #[trigger] resolver.guards(key),
        ensures
            resolution.running() == running@,
            forall|key: DependencyKey| #[trigger] resolution.guards(key) == resolver.guards(key),
            forall|key: DependencyKey, outcome: Result<Instance, MakhzanError>|
                #[trigger] resolution.answers(key, outcome) == resolver.answers(key, outcome),
    {
        let list = alone(resolver);
        Resolution { resolver: list, running }
    }

    /// The resolver, for a factory to resolve its own dependencies.
    pub fn resolver(&self) -> &'a dyn Resolver {
        self.resolver.0
    }

    /// Whether the factory of the registration of `key` is running. Where it
    /// is, the resolver guards the key.
    pub fn is_running(&self, key: &DependencyKey) -> (running: bool)
        ensures
            running == ids_of(self.running()).contains(key@),
            running ==> self.guards(*key),
    {
        proof {
            use_type_invariant(self);
        }
        holds_key(&self.running, key)
    }
}

/// A recipe for building instances of one dependency.
///
/// A recipe is run in a [`Resolution`], which gives it a [`Resolver`] to
/// resolve its own dependencies, and returns the built instance or a fault.
pub trait Recipe: Send + Sync {
    /// Whether running this recipe in a resolution in which the factories of
    /// the registrations of `running` are running may give `outcome`. Of a
    /// recipe that does not say, nothing is known.
    open spec fn may_create(
        &self,
        running: Seq<DependencyKey>,
        outcome: Result<Instance, MakhzanError>,
    ) -> bool {
        true
    }

    /// Runs the recipe.
    fn create(&self, resolution: &Resolution<'_>) -> (outcome: Result<Instance, MakhzanError>)
        ensures
            self.may_create(resolution.running(), outcome),
    ;
}

/// A type-erased factory: the recipe of one registration.
pub struct FactoryFn {
    /// The recipe, as a list of one: see [`alone`].
    recipe: (Box<dyn Recipe>,),
}

impl FactoryFn {
    /// Wraps a recipe as a factory: the factory yields what the recipe
    /// creates.
    pub fn new(recipe: Box<dyn Recipe>) -> (factory: FactoryFn)
        ensures
            forall|running: Seq<DependencyKey>, outcome: Result<Instance, MakhzanError>|
                #[trigger] factory.may_yield(running, outcome) <==> recipe.may_create(
                    running,
                    outcome,
                ),
    {
        let list = alone(recipe);
        FactoryFn { recipe: list }
    }

    /// Whether this factory may yield exactly the outcomes that are `allowed`
    /// for the keys whose factories are running.
    pub open spec fn yields_exactly(
        &self,
        allowed: spec_fn(Seq<DependencyKey>, Result<Instance, MakhzanError>) -> bool,
    ) -> bool {
        forall|running: Seq<DependencyKey>, outcome: Result<Instance, MakhzanError>|
            #[trigger] self.may_yield(running, outcome) <==> allowed(running, outcome)
    }

    /// A factory that hands out copies of `value`: it never fails.
    pub fn of_value<T: Clone + Send + Sync + 'static>(value: T) -> (factory: FactoryFn)
        ensures
            factory.yields_exactly(
                |running: Seq<DependencyKey>, outcome: Result<Instance, MakhzanError>|
                    outcome is Ok,
            ),
    {
        FactoryFn::new(Box::new(ValueRecipe::new(value)))
    }

    /// A factory that runs `build` on every call: it yields what a run of
    /// `build` comes to.
    pub fn fresh<T, F>(build: F) -> (factory: FactoryFn) where
        T: Send + Sync + 'static,
        F: Fn(&dyn Resolver) -> Result<T, MakhzanError> + Send + Sync + 'static,

        requires
            forall|args: (&dyn Resolver,)| #[trigger] call_requires(build, args),
        ensures
            factory.yields_exactly(
                |running: Seq<DependencyKey>, outcome: Result<Instance, MakhzanError>|
                    built_by::<T, F>(build, outcome),
            ),
    {
        FactoryFn::new(Box::new(FreshRecipe::new(build)))
    }

    /// A factory for the registration of `key` that runs `build` once and
    /// hands out copies of its outcome.
    ///
    /// In a resolution in which the factory of `key` is running, it yields a
    /// copy of an outcome of `build`. In any other it refuses to run, so that
    /// `build` cannot come back to it and wait for itself.
    pub fn once<T, F>(key: DependencyKey, build: F) -> (factory: FactoryFn) where
        T: Clone + Send + Sync + 'static,
        F: Fn(&dyn Resolver) -> Result<T, MakhzanError> + Send + Sync + 'static,

        requires
            forall|args: (&dyn Resolver,)| #[trigger] call_requires(build, args),
        ensures
            factory.yields_exactly(
                |running: Seq<DependencyKey>, outcome: Result<Instance, MakhzanError>|
                    once_outcome::<T, F>(key, build, running, outcome),
            ),
    {
        FactoryFn::new(Box::new(OnceRecipe::new(key, build)))
    }

    /// Wraps a function that builds an instance as a factory: the factory
    /// yields what the function returns.
    pub fn from_fn(
        factory: impl Fn(&dyn Resolver) -> Result<Instance, MakhzanError> + Send + Sync + 'static,
    ) -> (wrapped: FactoryFn)
        requires
            forall|args: (&dyn Resolver,)| #[trigger] call_requires(factory, args),
        ensures
            wrapped.yields_exactly(
                |running: Seq<DependencyKey>, outcome: Result<Instance, MakhzanError>|
                    may_return(factory, outcome),
            ),
    {
        FactoryFn::new(Box::new(ErasedRecipe::new(factory)))
    }

    /// Whether running the recipe of this factory, in a resolution in which
    /// the factories of the registrations of `running` are running, may give
    /// `outcome`.
    pub closed spec fn may_yield(
        &self,
        running: Seq<DependencyKey>,
        outcome: Result<Instance, MakhzanError>,
    ) -> bool {
        self.recipe.0.may_create(running, outcome)
    }

    /// Runs the recipe in a resolution: the result is what the recipe creates
    /// there.
    pub fn call(&self, resolution: &Resolution<'_>) -> (r: Result<Instance, MakhzanError>)
        ensures
            self.may_yield(resolution.running(), r),
    {
        self.recipe.0.create(resolution)
    }
}

/// Registration entry for a single dependency.
pub struct Registration {
    pub key: DependencyKey,
    pub factory: FactoryFn,
    pub scope: Scope,
    pub dependencies: Vec<DependencyKey>,
}

/// Stores all dependency registrations.
///
/// The registry is filled while the container is being assembled and is only
/// read once the container is built.
pub struct Registry {
    registrations: KeyMap<Registration>,
    aliases: KeyMap<DependencyKey>,
}

impl Registry {
    /// The registrations, by key identity.
    pub closed spec fn entries(&self) -> Map<KeyId, Registration> {
        self.registrations@
    }

    /// The registered keys, in the order of their first registration.
    pub closed spec fn keys(&self) -> Seq<DependencyKey> {
        self.registrations.spec_keys()
    }

    /// The aliases: the key that each aliased identity is bound to.
    pub closed spec fn alias_targets(&self) -> Map<KeyId, DependencyKey> {
        self.aliases@
    }

    /// The aliased keys, in the order in which they were first bound.
    pub closed spec fn alias_keys(&self) -> Seq<DependencyKey> {
        self.aliases.spec_keys()
    }

    /// The registrations as validation sees them, in the order of their
    /// first registration: each stored key with the dependencies and the
    /// lifetime of the registration that is stored under it.
    pub open spec fn declared(&self) -> Seq<Declared> {
        Seq::new(
            self.keys().len(),
            |i: int|
                Declared {
                    key: self.keys()[i],
                    dependencies: self.entries()[self.keys()[i]@].dependencies@,
                    scope: self.entries()[self.keys()[i]@].scope,
                },
        )
    }

    /// The dependency graph that the registrations describe.
    pub open spec fn graph(&self) -> Map<KeyId, Node> {
        graph_of(self.declared())
    }

    /// The identity under which a key is looked up: the target of its alias if
    /// it has one, and its own identity otherwise. Aliases are followed once.
    pub open spec fn target(&self, id: KeyId) -> KeyId {
        if self.alias_targets().dom().contains(id) {
            self.alias_targets()[id]@
        } else {
            id
        }
    }

    /// Whether resolving `id` finds a registration.
    pub open spec fn resolvable(&self, id: KeyId) -> bool {
        self.entries().dom().contains(self.target(id))
    }

    /// Creates an empty registry.
    pub fn new() -> (registry: Self)
        ensures
            registry.entries() == Map::<KeyId, Registration>::empty(),
            registry.alias_targets() == Map::<KeyId, DependencyKey>::empty(),
            registry.keys() == Seq::<DependencyKey>::empty(),
            registry.alias_keys() == Seq::<DependencyKey>::empty(),
    {
        Registry { registrations: KeyMap::new(), aliases: KeyMap::new() }
    }

    /// Registers a factory for a dependency key.
    ///
    /// Fails with an already-registered fault, and changes nothing, if the key is
    /// registered and `allow_override` is false. Otherwise the registration
    /// is stored under its key, in place of an earlier one if there was one.
    pub fn register(&mut self, registration: Registration, allow_override: bool) -> (r: Result<
        (),
        MakhzanError,
    >)
        ensures
            final(self).alias_targets() == old(self).alias_targets(),
            final(self).alias_keys() == old(self).alias_keys(),
            r is Err <==> !allow_override && old(self).entries().dom().contains(registration.key@),
            r matches Err(fault) ==> {
                &&& fault matches MakhzanError::AlreadyRegistered(e) && e.key == registration.key
                &&& final(self).entries() == old(self).entries()
                &&& final(self).keys() == old(self).keys()
            },
            r is Ok ==> {
                &&& final(self).entries() == old(self).entries().insert(
                    registration.key@,
                    registration,
                )
                &&& final(self).keys() == if old(self).entries().dom().contains(registration.key@) {
                    old(self).keys()
                } else {
                    old(self).keys().push(registration.key)
                }
            },
    {
        let key = registration.key;
        if !allow_override && self.registrations.contains_key(&key) {
            return Err(MakhzanError::AlreadyRegistered(AlreadyRegisteredError { key }));
        }
        self.registrations.insert(key, registration);
        Ok(())
    }

    /// Registers an alias: resolving `from` will resolve `to` instead.
    ///
    /// An earlier alias of `from` is replaced. Nothing is checked here: an
    /// alias to a key that is not registered shows when it is resolved.
    pub fn register_alias(&mut self, from: DependencyKey, to: DependencyKey)
        ensures
            final(self).entries() == old(self).entries(),
            final(self).keys() == old(self).keys(),
            final(self).alias_targets() == old(self).alias_targets().insert(from@, to),
            final(self).alias_keys() == if old(self).alias_targets().dom().contains(from@) {
                old(self).alias_keys()
            } else {
                old(self).alias_keys().push(from)
            },
    {
        self.aliases.insert(from, to);
    }

    /// Looks up a registration by key, following an alias once.
    pub fn get(&self, key: &DependencyKey) -> (r: Option<&Registration>)
        ensures
            r is Some == self.resolvable(key@),
            r matches Some(registration) ==> *registration == self.entries()[self.target(key@)],
    {
        match self.aliases.get(key) {
            Some(aliased_key) => self.registrations.get(aliased_key),
            None => self.registrations.get(key),
        }
    }

    /// Returns all registrations, for validation.
    pub fn all_registrations(&self) -> (all: &KeyMap<Registration>)
        ensures
            all@ == self.entries(),
            all.spec_keys() == self.keys(),
    {
        &self.registrations
    }

    /// Returns the number of registered dependencies.
    pub fn len(&self) -> (n: usize)
        ensures
            n == self.keys().len(),
            n == self.entries().dom().len(),
    {
        self.registrations.len()
    }

    /// Returns true if no dependencies are registered.
    pub fn is_empty(&self) -> (b: bool)
        ensures
            b == (self.keys().len() == 0),
    {
        self.registrations.is_empty()
    }

    /// Returns the registered keys, followed by the aliased keys.
    ///
    /// Each registered identity occurs once among the registered keys, and
    /// each aliased identity once among the aliased keys, so that a key which
    /// is both registered and aliased occurs twice and no key more often.
    pub fn registered_keys(&self) -> (keys: Vec<DependencyKey>)
        ensures
            keys@ == self.keys() + self.alias_keys(),
            ids_of(self.keys()).no_duplicates(),
            ids_of(self.keys()).to_set() == self.entries().dom(),
            ids_of(self.alias_keys()).no_duplicates(),
            ids_of(self.alias_keys()).to_set() == self.alias_targets().dom(),
            keys@.len() == self.entries().dom().len() + self.alias_targets().dom().len(),
    {
        let mut keys = self.registrations.keys();
        let mut aliased = self.aliases.keys();
        keys.append(&mut aliased);
        keys
    }
}

} // verus!
