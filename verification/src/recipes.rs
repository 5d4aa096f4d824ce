//! Recipes: how the instances of one registration are built.
//!
//! A recipe either hands out copies of a value, runs a factory on every
//! call, or runs a factory once and hands out copies of its outcome from then
//! on. The last kind keeps its outcome in a cell that is written once, so that
//! callers that arrive while the factory runs wait for the outcome and see
//! the same one. So that a factory cannot wait for itself, such a recipe runs
//! only in a resolution in which the factory of its registration is known to
//! be running, and in which the resolver therefore guards its key.

use crate::collections::ids_of;
use crate::error::MakhzanError;
use crate::key::DependencyKey;
use crate::registry::alone;
use crate::registry::Instance;
use crate::registry::Recipe;
use crate::registry::Resolution;
use crate::registry::Resolver;
use crate::text::push_text;
use once_cell::sync::OnceCell;
use std::marker::PhantomData;
use vstd::prelude::*;

verus! {

/// A cell that is written at most once, by the first caller that asks for its
/// value; callers that arrive meanwhile wait for that value.
#[verifier::external_type_specification]
#[verifier::external_body]
#[verifier::reject_recursive_types(T)]
pub struct ExOnceCell<T>(OnceCell<T>);

/// `OnceCell::new`: an empty cell.
#[verifier::external_body]
fn empty_cell<T>() -> (cell: OnceCell<T>) {
    OnceCell::new()
}

/// Whether `factory` may return `outcome` when it is run with a resolver.
pub open spec fn may_return<T, F: Fn(&dyn Resolver) -> Result<T, MakhzanError>>(
    factory: F,
    outcome: Result<T, MakhzanError>,
) -> bool {
    exists|args: (&dyn Resolver,)| #[trigger] call_ensures(factory, args, outcome)
}

/// Calls a function of one argument, given as a list of one.
fn call_with<A, T, F: Fn(A) -> T>(function: &F, args: (A,)) -> (r: T)
    requires
        call_requires(*function, args),
    ensures
        call_ensures(*function, args, r),
{
    function(args.0)
}

/// Runs a factory with a resolver: the result is what the factory returns.
///
/// The resolver is handed over in a list of one, so that it reaches the
/// factory as it is.
fn run_factory<T, F: Fn(&dyn Resolver) -> Result<T, MakhzanError>>(
    factory: &F,
    resolver: &dyn Resolver,
) -> (r: Result<T, MakhzanError>)
    requires
        forall|args: (&dyn Resolver,)| #[trigger] call_requires(*factory, args),
    ensures
        may_return(*factory, r),
{
    call_with(factory, alone(resolver))
}

/// Whether `outcome` is what a recipe makes of a run of `factory`: success
/// where the factory returns a value, and the fault that the factory returns.
pub open spec fn built_by<T, F: Fn(&dyn Resolver) -> Result<T, MakhzanError>>(
    factory: F,
    outcome: Result<Instance, MakhzanError>,
) -> bool {
    match outcome {
        Ok(_) => exists|value: T| #[trigger] may_return(factory, Ok::<T, MakhzanError>(value)),
        Err(fault) => may_return(factory, Err::<T, MakhzanError>(fault)),
    }
}

/// Whether `outcome` is a copy of an outcome of `factory` that was kept:
/// success where the factory returned a value, and a fault that says what the
/// fault says that the factory returned.
pub open spec fn kept_from<T, F: Fn(&dyn Resolver) -> Result<T, MakhzanError>>(
    factory: F,
    outcome: Result<Instance, MakhzanError>,
) -> bool {
    match outcome {
        Ok(_) => exists|value: T| #[trigger] may_return(factory, Ok::<T, MakhzanError>(value)),
        Err(fault) => exists|kept: MakhzanError|
            #[trigger] may_return(factory, Err::<T, MakhzanError>(kept)) && fault.alike(&kept),
    }
}

/// The text of the fault with which a once recipe refuses to run.
pub open spec fn unguarded_text() -> Seq<char> {
    "A factory that runs once was run while its own key was not being resolved"@
}

/// Whether `outcome` is the fault with which the once recipe of `key` refuses
/// to run in a resolution in which the factory of `key` is not running.
pub open spec fn unguarded(key: DependencyKey, outcome: Result<Instance, MakhzanError>) -> bool {
    outcome matches Err(MakhzanError::ConstructionFailed { key: refused, source }) && refused == key
        && source@ == unguarded_text()
}

/// Whether `outcome` is what the once recipe of `key` makes of `factory` in a
/// resolution in which the factories of the registrations of `running` are
/// running: a copy of an outcome of `factory` that was kept where the factory
/// of `key` is among them, and the refusal where it is not.
pub open spec fn once_outcome<T, F: Fn(&dyn Resolver) -> Result<T, MakhzanError>>(
    key: DependencyKey,
    factory: F,
    running: Seq<DependencyKey>,
    outcome: Result<Instance, MakhzanError>,
) -> bool {
    if ids_of(running).contains(key@) {
        kept_from::<T, F>(factory, outcome)
    } else {
        unguarded(key, outcome)
    }
}

/// A copy of the outcome that a cell holds, as a recipe hands it out: the value
/// with its type erased, or a fault that says what the held fault says.
pub fn hand_out<T: Clone + Send + Sync + 'static>(held: &Result<T, MakhzanError>) -> (r: Result<
    Instance,
    MakhzanError,
>)
    ensures
        r is Ok == held is Ok,
        r matches Err(fault) ==> held matches Err(kept) && fault.alike(&kept),
{
    match held {
        Ok(value) => Ok(Instance::new(value.clone())),
        Err(fault) => Err(fault.duplicate()),
    }
}

/// A recipe that hands out copies of one value.
pub struct ValueRecipe<T: Clone + Send + Sync + 'static> {
    value: T,
}

impl<T: Clone + Send + Sync + 'static> ValueRecipe<T> {
    /// The value that is handed out.
    pub closed spec fn value(&self) -> T {
        self.value
    }

    /// A recipe that hands out copies of `value`.
    pub fn new(value: T) -> (recipe: Self)
        ensures
            recipe.value() == value,
    {
        ValueRecipe { value }
    }
}

impl<T: Clone + Send + Sync + 'static> Recipe for ValueRecipe<T> {
    /// A value recipe never fails.
    open spec fn may_create(
        &self,
        running: Seq<DependencyKey>,
        outcome: Result<Instance, MakhzanError>,
    ) -> bool {
        outcome is Ok
    }

    /// Hands out a copy of the value.
    fn create(&self, resolution: &Resolution<'_>) -> (r: Result<Instance, MakhzanError>) {
        Ok(Instance::new(self.value.clone()))
    }
}

/// A recipe that runs its factory on every call.
#[verifier::reject_recursive_types(T)]
pub struct FreshRecipe<T, F> where
    T: Send + Sync + 'static,
    F: Fn(&dyn Resolver) -> Result<T, MakhzanError> + Send + Sync + 'static,
{
    factory: F,
    built: PhantomData<T>,
}

impl<T, F> FreshRecipe<T, F> where
    T: Send + Sync + 'static,
    F: Fn(&dyn Resolver) -> Result<T, MakhzanError> + Send + Sync + 'static,
{
    #[verifier::type_invariant]
    spec fn callable(&self) -> bool {
        forall|args: (&dyn Resolver,)| #[trigger] call_requires(self.factory, args)
    }

    /// The factory that this recipe runs.
    pub closed spec fn factory(&self) -> F {
        self.factory
    }

    /// A recipe that runs `factory` on every call.
    pub fn new(factory: F) -> (recipe: Self)
        requires
            forall|args: (&dyn Resolver,)| #[trigger] call_requires(factory, args),
        ensures
            recipe.factory() == factory,
    {
        FreshRecipe { factory, built: PhantomData }
    }
}

impl<T, F> Recipe for FreshRecipe<T, F> where
    T: Send + Sync + 'static,
    F: Fn(&dyn Resolver) -> Result<T, MakhzanError> + Send + Sync + 'static,
{
    /// The recipe succeeds where its factory returns a value, and fails with
    /// the fault that its factory returns.
    open spec fn may_create(
        &self,
        running: Seq<DependencyKey>,
        outcome: Result<Instance, MakhzanError>,
    ) -> bool {
        built_by::<T, F>(self.factory(), outcome)
    }

    /// Runs the factory and erases the type of what it built.
    fn create(&self, resolution: &Resolution<'_>) -> (r: Result<Instance, MakhzanError>) {
        proof {
            use_type_invariant(self);
        }
        match run_factory(&self.factory, resolution.resolver()) {
            Ok(value) => {
                assert(may_return(self.factory(), Ok::<T, MakhzanError>(value)));
                Ok(Instance::new(value))
            },
            Err(fault) => Err(fault),
        }
    }
}

/// A recipe that runs its factory once and hands out copies of what it built,
/// or of the fault with which it failed.
///
/// The recipe belongs to the registration of one key. While its factory runs,
/// a second run on the same chain of resolutions would wait for the first
/// for ever. The recipe therefore runs only in a resolution in which the
/// factory of its key is running: there the resolver guards the key, so that
/// the factory cannot come back to the recipe through it.
#[verifier::reject_recursive_types(T)]
pub struct OnceRecipe<T, F> where
    T: Clone + Send + Sync + 'static,
    F: Fn(&dyn Resolver) -> Result<T, MakhzanError> + Send + Sync + 'static,
{
    key: DependencyKey,
    cell: OnceCell<Result<T, MakhzanError>>,
    factory: F,
}

/// One run of a once recipe: the recipe, and the resolution in which it runs.
#[verifier::reject_recursive_types(T)]
struct Run<'a, 'b, T, F> where
    T: Clone + Send + Sync + 'static,
    F: Fn(&dyn Resolver) -> Result<T, MakhzanError> + Send + Sync + 'static,
{
    recipe: &'a OnceRecipe<T, F>,
    resolution: &'a Resolution<'b>,
}

impl<'a, 'b, T, F> Run<'a, 'b, T, F> where
    T: Clone + Send + Sync + 'static,
    F: Fn(&dyn Resolver) -> Result<T, MakhzanError> + Send + Sync + 'static,
{
    /// `OnceCell::get_or_init` on the cell of the recipe: the outcome that the
    /// cell holds, which is the outcome of running the factory now if the
    /// cell was empty.
    ///
    /// The cell is written here and nowhere else, so what it holds is an
    /// outcome of the factory of the recipe. A run from inside the factory
    /// would not return; the resolver of the resolution must guard the key of
    /// the recipe, so that a factory, which reaches the container through its
    /// resolver alone, cannot start one.
    #[verifier::external_body]
    fn first_outcome(&self) -> (outcome: &'a Result<T, MakhzanError>)
        requires
            self.resolution.guards(self.recipe.key()),
            forall|args: (&dyn Resolver,)| #[trigger] call_requires(self.recipe.factory(), args),
        ensures
            may_return(self.recipe.factory(), *outcome),
    {
        self.recipe.cell.get_or_init(
            || run_factory(&self.recipe.factory, self.resolution.resolver()),
        )
    }
}

impl<T, F> OnceRecipe<T, F> where
    T: Clone + Send + Sync + 'static,
    F: Fn(&dyn Resolver) -> Result<T, MakhzanError> + Send + Sync + 'static,
{
    #[verifier::type_invariant]
    spec fn callable(&self) -> bool {
        forall|args: (&dyn Resolver,)| #[trigger] call_requires(self.factory, args)
    }

    /// The factory that this recipe runs.
    pub closed spec fn factory(&self) -> F {
        self.factory
    }

    /// The key of the registration that this recipe belongs to.
    pub closed spec fn key(&self) -> DependencyKey {
        self.key
    }

    /// A recipe for the registration of `key` that runs `factory` on the first
    /// call and never again.
    pub fn new(key: DependencyKey, factory: F) -> (recipe: Self)
        requires
            forall|args: (&dyn Resolver,)| #[trigger] call_requires(factory, args),
        ensures
            recipe.factory() == factory,
            recipe.key() == key,
    {
        OnceRecipe { key, cell: empty_cell(), factory }
    }
}

impl<T, F> Recipe for OnceRecipe<T, F> where
    T: Clone + Send + Sync + 'static,
    F: Fn(&dyn Resolver) -> Result<T, MakhzanError> + Send + Sync + 'static,
{
    /// Where the factory of its key is running, the recipe hands out a copy
    /// of an outcome of its factory. Where it is not, the recipe refuses.
    open spec fn may_create(
        &self,
        running: Seq<DependencyKey>,
        outcome: Result<Instance, MakhzanError>,
    ) -> bool {
        once_outcome::<T, F>(self.key(), self.factory(), running, outcome)
    }

    /// Runs the factory if it has not run yet, and hands out a copy of the
    /// outcome of its one run. In a resolution in which the factory of its key
    /// is not running, nothing is run and the result is a construction fault.
    fn create(&self, resolution: &Resolution<'_>) -> (r: Result<Instance, MakhzanError>) {
        proof {
            use_type_invariant(self);
        }
        if !resolution.is_running(&self.key) {
            let mut source = String::new();
            push_text(
                &mut source,
                "A factory that runs once was run while its own key was not being resolved",
            );
            return Err(MakhzanError::ConstructionFailed { key: self.key, source });
        }
        let run = Run { recipe: self, resolution };
        let held = run.first_outcome();
        let r = hand_out(held);
        proof {
            if held is Ok {
                assert(may_return(self.factory(), Ok::<T, MakhzanError>(held->Ok_0)));
            } else {
                assert(may_return(self.factory(), Err::<T, MakhzanError>(held->Err_0))
                    && r->Err_0.alike(&held->Err_0));
            }
        }
        r
    }
}

/// A recipe made of a function that builds the instance itself.
pub struct ErasedRecipe<F> where
    F: Fn(&dyn Resolver) -> Result<Instance, MakhzanError> + Send + Sync + 'static,
{
    factory: F,
}

impl<F> ErasedRecipe<F> where
    F: Fn(&dyn Resolver) -> Result<Instance, MakhzanError> + Send + Sync + 'static,
{
    #[verifier::type_invariant]
    spec fn callable(&self) -> bool {
        forall|args: (&dyn Resolver,)| #[trigger] call_requires(self.factory, args)
    }

    /// The factory that this recipe runs.
    pub closed spec fn factory(&self) -> F {
        self.factory
    }

    /// A recipe that runs `factory` on every call and hands on what it built.
    pub fn new(factory: F) -> (recipe: Self)
        requires
            forall|args: (&dyn Resolver,)| #[trigger] call_requires(factory, args),
        ensures
            recipe.factory() == factory,
    {
        ErasedRecipe { factory }
    }
}

impl<F> Recipe for ErasedRecipe<F> where
    F: Fn(&dyn Resolver) -> Result<Instance, MakhzanError> + Send + Sync + 'static,
{
    /// The recipe returns what its factory returns.
    open spec fn may_create(
        &self,
        running: Seq<DependencyKey>,
        outcome: Result<Instance, MakhzanError>,
    ) -> bool {
        may_return(self.factory(), outcome)
    }

    /// Returns what the factory returns.
    fn create(&self, resolution: &Resolution<'_>) -> (r: Result<Instance, MakhzanError>) {
        proof {
            use_type_invariant(self);
        }
        run_factory(&self.factory, resolution.resolver())
    }
}

} // verus!
