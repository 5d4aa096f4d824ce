//! Dependency graph validation.
//!
//! Before a container is built, the registrations are checked as a graph: every
//! declared dependency is registered, no dependency outlived by its consumer,
//! and no cycle. [`GraphValidator`] walks the graph as [`crate::traversal`]
//! lays down and reports the first fault that it meets; by
//! [`crate::correctness`] it succeeds exactly on the graphs that are valid,
//! and every fault that it reports is a genuine one.

use crate::collections::closing_chain;
use crate::collections::copy_keys;
use crate::collections::ids_of;
use crate::collections::KeySet;
use crate::correctness::lemma_first_visit_is_sound;
use crate::correctness::lemma_report_is_sound;
use crate::error::CircularDependencyError;
use crate::error::MakhzanError;
use crate::error::NotRegisteredError;
use crate::error::ScopeMismatchError;
use crate::key::DependencyKey;
use crate::key::KeyId;
use crate::scope::Scope;
use crate::similarity::lowercase;
use crate::similarity::lowered_names_similar;
use crate::similarity::to_lowercase;
use crate::traversal::agrees;
use crate::traversal::first_finding;
use crate::traversal::first_occurrence;
use crate::traversal::lemma_off_path_decreases;
use crate::traversal::off_path;
use crate::traversal::tells;
use crate::traversal::visit;
use crate::traversal::visit_declared;
use crate::traversal::visit_listed;
use crate::validity::defines;
use crate::validity::graph_of;
use crate::validity::is_cycle;
use crate::validity::keys_of;
use crate::validity::lemma_defines;
use crate::validity::position_of;
use crate::validity::similar_keys;
use crate::validity::validation_outcome;
use crate::validity::Declared;
use crate::validity::Node;
use vstd::prelude::*;

verus! {

/// What validation needs to know of one registration.
#[derive(Debug, Clone)]
pub struct DependencyInfo {
    /// What this factory produces.
    pub key: DependencyKey,
    /// What this factory needs.
    pub dependencies: Vec<DependencyKey>,
    /// Scope of this factory.
    pub scope: Scope,
}

impl DependencyInfo {
    /// This registration as validation sees it.
    pub open spec fn declared(&self) -> Declared {
        Declared { key: self.key, dependencies: self.dependencies@, scope: self.scope }
    }
}

/// A list of registrations as validation sees them.
pub open spec fn declared_of(infos: Seq<DependencyInfo>) -> Seq<Declared> {
    infos.map_values(|info: DependencyInfo| info.declared())
}

/// Validates the dependency graph for correctness.
///
/// Three checks are made in one depth-first traversal over all registered
/// keys: completeness, acyclicity and lifetime compatibility.
pub struct GraphValidator {
    /// All registered dependencies.
    dependencies: Vec<DependencyInfo>,
    /// Currently being visited (for cycle detection).
    visiting: KeySet,
    /// Already validated.
    validated: KeySet,
    /// Current traversal path (for error reporting).
    path: Vec<DependencyKey>,
}

impl GraphValidator {
    /// The registrations under validation, as they were given.
    pub closed spec fn registrations(&self) -> Seq<Declared> {
        declared_of(self.dependencies@)
    }

    /// The graph under validation.
    pub open spec fn graph(&self) -> Map<KeyId, Node> {
        graph_of(self.registrations())
    }

    /// The keys of the registrations under validation, in order.
    pub open spec fn keys(&self) -> Seq<DependencyKey> {
        keys_of(self.registrations())
    }

    /// The identities of the keys that are validated already.
    pub closed spec fn finished(&self) -> Set<KeyId> {
        self.validated@
    }

    /// The keys that are being visited, in the order in which they were
    /// reached.
    pub closed spec fn path(&self) -> Seq<DependencyKey> {
        self.path@
    }

    /// What holds between two steps of the traversal: the keys being visited
    /// are the keys of the path.
    pub closed spec fn in_step(&self) -> bool {
        self.visiting@ == ids_of(self.path@).to_set()
    }

    /// Creates a new validator with the given dependency registrations:
    /// nothing is validated yet, and nothing is being visited.
    pub fn new(dependencies: Vec<DependencyInfo>) -> (v: Self)
        ensures
            v.registrations() == declared_of(dependencies@),
            v.in_step(),
            v.finished() == Set::<KeyId>::empty(),
            v.path() == Seq::<DependencyKey>::empty(),
    {
        proof {
            assert(ids_of(Seq::<DependencyKey>::empty()).to_set() =~= Set::<KeyId>::empty());
        }
        GraphValidator {
            dependencies,
            visiting: KeySet::new(),
            validated: KeySet::new(),
            path: Vec::new(),
        }
    }

    /// The position of the registration that defines `key`, if it is registered.
    fn lookup(&self, key: &DependencyKey) -> (r: Option<usize>)
        ensures
            r is Some == self.graph().dom().contains(key@),
            r matches Some(i) ==> defines(self.registrations(), key@, i as int),
    {
        let n = self.dependencies.len();
        let mut i: usize = 0;
        while i < n
            invariant
                n == self.dependencies.len(),
                i <= n,
                forall|j: int| 0 <= j < i ==> (#[trigger] self.registrations()[j]).key@ != key@,
            decreases n - i,
        {
            if self.dependencies[i].key.same(key) {
                proof {
                    lemma_defines(self.registrations(), key@, i as int);
                }
                return Some(i);
            }
            i = i + 1;
        }
        None
    }

    /// Validates the entire dependency graph.
    ///
    /// Every call starts the traversal afresh. It succeeds exactly when the
    /// graph is valid. A fault that is returned is true of the graph (see
    /// [`crate::validity::genuine_fault`]), and it is the first one that the
    /// traversal meets (see [`first_finding`]).
    pub fn validate(&mut self) -> (r: Result<(), MakhzanError>)
        ensures
            final(self).registrations() == old(self).registrations(),
            tells(old(self).registrations(), first_finding(old(self).registrations()), r),
            validation_outcome(old(self).graph(), old(self).keys(), r),
    {
        self.visiting = KeySet::new();
        self.validated = KeySet::new();
        self.path = Vec::new();
        let ghost listed = self.registrations();
        proof {
            assert(ids_of(self.path@).to_set() =~= Set::<KeyId>::empty());
        }
        let n = self.dependencies.len();
        let mut i: usize = 0;
        while i < n
            invariant
                n == self.dependencies.len(),
                i <= n,
                listed == self.registrations(),
                listed == old(self).registrations(),
                self.in_step(),
                self.path@.len() == 0,
                visit_listed(listed, Set::empty(), 0) == visit_listed(
                    listed,
                    self.validated@,
                    i as nat,
                ),
            decreases n - i,
        {
            let key = self.dependencies[i].key;
            proof {
                assert(self.path@ =~= Seq::<DependencyKey>::empty());
            }
            if !self.validated.contains(&key) {
                match self.validate_key(&key) {
                    Ok(()) => {},
                    Err(fault) => {
                        proof {
                            lemma_report_is_sound(listed, Err(fault));
                        }
                        return Err(fault);
                    },
                }
            }
            i = i + 1;
        }
        proof {
            lemma_report_is_sound(listed, Ok(()));
        }
        Ok(())
    }

    /// Validates a single dependency key and, depth first, all that it
    /// declares: it does what [`visit`] says.
    ///
    /// After a success another key can be validated. A cycle fault of a
    /// validator in which nothing was validated or being visited names a
    /// cycle of the graph: its chain has at least two keys, starts and ends
    /// at the same key, follows declared dependencies, and holds no key twice
    /// but for the last.
    pub fn validate_key(&mut self, key: &DependencyKey) -> (r: Result<(), MakhzanError>)
        requires
            old(self).in_step(),
        ensures
            final(self).registrations() == old(self).registrations(),
            r is Ok ==> final(self).in_step() && final(self).path() == old(self).path(),
            agrees(
                old(self).registrations(),
                visit(old(self).registrations(), old(self).finished(), old(self).path(), *key),
                r,
                final(self).finished(),
            ),
            old(self).finished() == Set::<KeyId>::empty() && old(self).path() == Seq::<
                DependencyKey,
            >::empty() ==> (r matches Err(MakhzanError::CircularDependency(e)) ==> is_cycle(
                old(self).graph(),
                ids_of(e.chain@),
            ) && ids_of(e.chain@).drop_last().no_duplicates()),
        decreases off_path(old(self).registrations(), old(self).path()),
    {
        let ghost listed = self.registrations();
        let ghost before = self.path@;
        let ghost finished = self.validated@;
        // Already validated: nothing to do.
        if self.validated.contains(key) {
            return Ok(());
        }
        // On the current path: a cycle.
        if self.visiting.contains(key) {
            let chain = self.cycle_from(key);
            return Err(MakhzanError::CircularDependency(CircularDependencyError { chain }));
        }
        // Check that the dependency is registered.
        let position = match self.lookup(key) {
            Some(position) => position,
            None => {
                let suggestions = self.find_similar_keys(key);
                let required_by = if self.path.len() > 0 {
                    Some(self.path[self.path.len() - 1])
                } else {
                    None
                };
                return Err(
                    MakhzanError::NotRegistered(
                        NotRegisteredError { requested: *key, required_by, suggestions },
                    ),
                );
            },
        };
        let declared = copy_keys(&self.dependencies[position].dependencies);
        let ghost info = listed[position as int];
        proof {
            lemma_defines(listed, key@, position as int);
            lemma_off_path_decreases(listed, before, *key);
        }
        // Mark as being visited and add to the path.
        self.visiting.insert(*key);
        self.path.push(*key);
        proof {
            assert(ids_of(self.path@) =~= ids_of(before).push(key@));
            ids_of(before).lemma_push_to_set_commute(key@);
        }
        // Validate everything this key declares.
        let m = declared.len();
        let mut j: usize = 0;
        while j < m
            invariant
                m == declared.len(),
                j <= m,
                position < self.dependencies.len(),
                listed == self.registrations(),
                listed == old(self).registrations(),
                info == listed[position as int],
                declared@ == info.dependencies,
                self.in_step(),
                self.path@ == before.push(*key),
                off_path(listed, before.push(*key)) < off_path(listed, before),
                before == old(self).path@,
                finished == old(self).validated@,
                !finished.contains(key@),
                !ids_of(before).contains(key@),
                graph_of(listed).dom().contains(key@),
                position_of(listed, key@) == position,
                visit_declared(listed, finished, before.push(*key), info, 0) == visit_declared(
                    listed,
                    self.validated@,
                    before.push(*key),
                    info,
                    j as nat,
                ),
            decreases m - j,
        {
            let dep_key = declared[j];
            // Check lifetime compatibility before going deeper.
            match self.lookup(&dep_key) {
                Some(dep_position) => {
                    proof {
                        lemma_defines(listed, dep_key@, dep_position as int);
                    }
                    match self.check_scope_compatibility(
                        &self.dependencies[position],
                        &self.dependencies[dep_position],
                    ) {
                        Ok(()) => {},
                        Err(fault) => {
                            return Err(fault);
                        },
                    }
                },
                None => {},
            }
            match self.validate_key(&dep_key) {
                Ok(()) => {},
                Err(fault) => {
                    proof {
                        if fault is CircularDependency {
                            let chain = fault->CircularDependency_0.chain@;
                            lemma_first_visit_is_sound(listed, *key);
                            if chain.len() >= 2 {
                                assert(ids_of(chain).first() == chain.first()@);
                                assert(ids_of(chain).last() == chain.last()@);
                            }
                        }
                    }
                    return Err(fault);
                },
            }
            j = j + 1;
        }
        // Done: leave the path and mark as validated.
        self.path.pop();
        self.visiting.remove(key);
        self.validated.insert(*key);
        proof {
            assert(self.path@ =~= before);
            assert(self.visiting@ =~= ids_of(before).to_set());
        }
        Ok(())
    }

    /// The chain that closes at `key`: the current path from the first
    /// occurrence of `key`, and `key` once more.
    fn cycle_from(&self, key: &DependencyKey) -> (chain: Vec<DependencyKey>)
        requires
            ids_of(self.path@).contains(key@),
        ensures
            chain@ == self.path@.subrange(
                first_occurrence(ids_of(self.path@), key@),
                self.path@.len() as int,
            ).push(*key),
    {
        closing_chain(&self.path, key)
    }

    /// Checks that the consumer does not outlive its dependency.
    ///
    /// A dependency must not have a shorter lifetime than its consumer: a
    /// singleton cannot depend on a scoped or transient dependency, a scoped
    /// one cannot depend on a transient one, and a transient one can depend
    /// on anything.
    pub fn check_scope_compatibility(
        &self,
        consumer: &DependencyInfo,
        dependency: &DependencyInfo,
    ) -> (r: Result<(), MakhzanError>)
        ensures
            r is Err == consumer.scope.outlives(dependency.scope),
            r matches Err(fault) ==> fault matches MakhzanError::ScopeMismatch(e) && e.consumer
                == consumer.key && e.consumer_scope == consumer.scope && e.dependency
                == dependency.key && e.dependency_scope == dependency.scope,
    {
        if consumer.scope > dependency.scope {
            return Err(
                MakhzanError::ScopeMismatch(
                    ScopeMismatchError {
                        consumer: consumer.key,
                        consumer_scope: consumer.scope,
                        dependency: dependency.key,
                        dependency_scope: dependency.scope,
                    },
                ),
            );
        }
        Ok(())
    }

    /// Finds registered keys with a similar display name, for suggestions.
    pub fn find_similar_keys(&self, target: &DependencyKey) -> (found: Vec<DependencyKey>)
        ensures
            found@ == similar_keys(keys_of(self.registrations()), target.spec_display_name()),
    {
        let target_name = to_lowercase(target.display_name());
        let ghost keys = keys_of(self.registrations());
        let n = self.dependencies.len();
        let mut found: Vec<DependencyKey> = Vec::new();
        let mut i: usize = 0;
        while i < n
            invariant
                n == self.dependencies.len(),
                i <= n,
                keys == keys_of(self.registrations()),
                target_name@ == lowercase(target.spec_display_name()),
                found@ == similar_keys(keys.take(i as int), target.spec_display_name()),
            decreases n - i,
        {
            let candidate = self.dependencies[i].key;
            let name = to_lowercase(candidate.display_name());
            proof {
                assert(keys.take(i as int + 1).drop_last() =~= keys.take(i as int));
            }
            if lowered_names_similar(name.as_str(), target_name.as_str()) {
                found.push(candidate);
            }
            i = i + 1;
        }
        assert(keys.take(n as int) =~= keys);
        found
    }
}

} // verus!
