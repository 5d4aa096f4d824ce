//! The order of the traversal.
//!
//! Validation visits the registrations in the order in which they are listed
//! and, depth first, the dependencies of each in the order in which they are
//! declared. It stops at the first fault. This module says which fault that
//! is: [`first_finding`] is what a validator reports for a list of
//! registrations.

use crate::collections::ids_of;
use crate::error::MakhzanError;
use crate::key::DependencyKey;
use crate::key::KeyId;
use crate::scope::Scope;
use crate::validity::graph_of;
use crate::validity::keys_of;
use crate::validity::lemma_defines;
use crate::validity::lemma_graph_keys;
use crate::validity::position_of;
use crate::validity::similar_keys;
use crate::validity::Declared;
use vstd::prelude::*;

verus! {

/// A fault as the traversal finds it.
pub enum Finding {
    /// `requested` is declared by `required_by` and not registered.
    Missing { requested: DependencyKey, required_by: Option<DependencyKey> },
    /// The keys of `chain` lead from a key back to itself.
    Cycle { chain: Seq<DependencyKey> },
    /// `consumer` declares `dependency` and outlives it.
    Mismatch {
        consumer: DependencyKey,
        consumer_scope: Scope,
        dependency: DependencyKey,
        dependency_scope: Scope,
    },
}

/// How far the traversal has come: the keys that are finished, or the fault
/// at which it stopped.
pub enum Progress {
    Finished(Set<KeyId>),
    Stopped(Finding),
}

/// How many registered keys are not on the path.
pub open spec fn off_path(listed: Seq<Declared>, path: Seq<DependencyKey>) -> nat {
    graph_of(listed).dom().difference(ids_of(path).to_set()).len()
}

/// The first position of `id` among `ids`.
pub open spec fn first_occurrence(ids: Seq<KeyId>, id: KeyId) -> int {
    choose|i: int| 0 <= i < ids.len() && ids[i] == id && forall|j: int| 0 <= j < i ==> ids[j] != id
}

/// A registered key that is put on the path leaves fewer keys off the path.
pub proof fn lemma_off_path_decreases(
    listed: Seq<Declared>,
    path: Seq<DependencyKey>,
    key: DependencyKey,
)
    requires
        graph_of(listed).dom().contains(key@),
        !ids_of(path).contains(key@),
    ensures
        off_path(listed, path.push(key)) < off_path(listed, path),
{
    let dom = graph_of(listed).dom();
    let before = ids_of(path).to_set();
    let after = ids_of(path.push(key)).to_set();
    lemma_graph_keys(listed);
    assert(ids_of(path.push(key)) =~= ids_of(path).push(key@));
    ids_of(path).lemma_push_to_set_commute(key@);
    assert(dom.difference(after) =~= dom.difference(before).remove(key@));
}

/// Visits `key` with the keys `done` finished and the keys of `path` being
/// visited.
///
/// A finished key is passed over. A key on the path closes a cycle: the chain
/// is the path from the first occurrence of the key, and the key once more. A
/// key that is not registered is missing, required by the last key of the
/// path. Otherwise everything that the key declares is visited with the key
/// on the path, and then the key is finished.
pub open spec fn visit(
    listed: Seq<Declared>,
    done: Set<KeyId>,
    path: Seq<DependencyKey>,
    key: DependencyKey,
) -> Progress
    decreases off_path(listed, path), 0nat,
{
    if done.contains(key@) {
        Progress::Finished(done)
    } else if ids_of(path).contains(key@) {
        Progress::Stopped(
            Finding::Cycle {
                chain: path.subrange(first_occurrence(ids_of(path), key@), path.len() as int).push(
                    key,
                ),
            },
        )
    } else if !graph_of(listed).dom().contains(key@) {
        Progress::Stopped(
            Finding::Missing {
                requested: key,
                required_by: if path.len() > 0 {
                    Some(path.last())
                } else {
                    None
                },
            },
        )
    } else {
        proof {
            lemma_off_path_decreases(listed, path, key);
        }
        match visit_declared(listed, done, path.push(key), listed[position_of(listed, key@)], 0) {
            Progress::Finished(more) => Progress::Finished(more.insert(key@)),
            Progress::Stopped(finding) => Progress::Stopped(finding),
        }
    }
}

/// Visits what `info` declares, from position `from` on, in order.
///
/// Before a declared key is visited, its lifetime is held against that of
/// `info` if it is registered: a consumer that outlives it is a mismatch.
pub open spec fn visit_declared(
    listed: Seq<Declared>,
    done: Set<KeyId>,
    path: Seq<DependencyKey>,
    info: Declared,
    from: nat,
) -> Progress
    decreases off_path(listed, path), info.dependencies.len() - from + 1,
{
    if from >= info.dependencies.len() {
        Progress::Finished(done)
    } else {
        let declared = info.dependencies[from as int];
        let g = graph_of(listed);
        if g.dom().contains(declared@) && info.scope.outlives(g[declared@].scope) {
            Progress::Stopped(
                Finding::Mismatch {
                    consumer: info.key,
                    consumer_scope: info.scope,
                    dependency: listed[position_of(listed, declared@)].key,
                    dependency_scope: g[declared@].scope,
                },
            )
        } else {
            match visit(listed, done, path, declared) {
                Progress::Finished(more) => visit_declared(listed, more, path, info, from + 1),
                Progress::Stopped(finding) => Progress::Stopped(finding),
            }
        }
    }
}

/// Visits the listed registrations from position `from` on, in order, passing
/// over those that are finished.
pub open spec fn visit_listed(listed: Seq<Declared>, done: Set<KeyId>, from: nat) -> Progress
    decreases listed.len() - from,
{
    if from >= listed.len() {
        Progress::Finished(done)
    } else {
        match visit(listed, done, Seq::empty(), listed[from as int].key) {
            Progress::Finished(more) => visit_listed(listed, more, from + 1),
            Progress::Stopped(finding) => Progress::Stopped(finding),
        }
    }
}

/// The first fault that the traversal meets, if it meets one.
pub open spec fn first_finding(listed: Seq<Declared>) -> Option<Finding> {
    match visit_listed(listed, Set::empty(), 0) {
        Progress::Finished(_) => None,
        Progress::Stopped(finding) => Some(finding),
    }
}

/// Two registrations that declare each other and nothing else, with one
/// lifetime: the traversal stops at the cycle that starts at the one listed
/// first, and the chain names it, the other one, and it again.
pub proof fn lemma_mutual_dependency_is_found(first: Declared, second: Declared)
    requires
        first.key@ != second.key@,
        first.dependencies == seq![second.key],
        second.dependencies == seq![first.key],
        first.scope == second.scope,
    ensures
        first_finding(seq![first, second]) == Some(
            Finding::Cycle { chain: seq![first.key, second.key, first.key] },
        ),
{
    let listed = seq![first, second];
    let a = first.key;
    let b = second.key;
    let nothing = Set::<KeyId>::empty();
    let none = Seq::<DependencyKey>::empty();
    let one = none.push(a);
    let both = one.push(b);
    let found = Progress::Stopped(Finding::Cycle { chain: both.push(a) });
    lemma_defines(listed, a@, 0);
    lemma_defines(listed, b@, 1);
    assert(ids_of(both) =~= seq![a@, b@]);
    assert(both.subrange(0, 2) =~= both);
    assert(visit(listed, nothing, both, a) == found);
    assert(visit(listed, nothing, one, b) == found);
    assert(both.push(a) =~= seq![first.key, second.key, first.key]);
}

/// Whether `fault` reports `finding`, with the suggestions that go with a
/// missing key: the listed keys whose display name is similar to its own.
pub open spec fn reports(listed: Seq<Declared>, finding: Finding, fault: MakhzanError) -> bool {
    match finding {
        Finding::Missing { requested, required_by } => {
            &&& fault matches MakhzanError::NotRegistered(e)
            &&& e.requested == requested
            &&& e.required_by == required_by
            &&& e.suggestions@ == similar_keys(keys_of(listed), requested.spec_display_name())
        },
        Finding::Cycle { chain } => {
            &&& fault matches MakhzanError::CircularDependency(e)
            &&& e.chain@ == chain
        },
        Finding::Mismatch { consumer, consumer_scope, dependency, dependency_scope } => {
            &&& fault matches MakhzanError::ScopeMismatch(e)
            &&& e.consumer == consumer
            &&& e.consumer_scope == consumer_scope
            &&& e.dependency == dependency
            &&& e.dependency_scope == dependency_scope
        },
    }
}

/// Whether a visit that returned `outcome` and left the keys `done` finished
/// did what `progress` says: it finished with exactly those keys, or stopped
/// at the fault that is reported.
pub open spec fn agrees(
    listed: Seq<Declared>,
    progress: Progress,
    outcome: Result<(), MakhzanError>,
    done: Set<KeyId>,
) -> bool {
    match progress {
        Progress::Finished(expected) => outcome is Ok && done == expected,
        Progress::Stopped(finding) => outcome matches Err(fault) && reports(listed, finding, fault),
    }
}

/// Whether `outcome` is what validation returns where the traversal met
/// `finding`: success where it met no fault, and otherwise the report of the
/// fault that it met.
pub open spec fn tells(
    listed: Seq<Declared>,
    finding: Option<Finding>,
    outcome: Result<(), MakhzanError>,
) -> bool {
    match finding {
        None => outcome is Ok,
        Some(finding) => outcome matches Err(fault) && reports(listed, finding, fault),
    }
}

/// Validation succeeds exactly when the traversal meets no fault, and the
/// fault that it reports is of the kind of the first fault that the traversal
/// meets: a missing key, a cycle or a lifetime mismatch.
pub proof fn lemma_fault_is_first_finding(listed: Seq<Declared>, outcome: Result<(), MakhzanError>)
    requires
        tells(listed, first_finding(listed), outcome),
    ensures
        outcome is Ok <==> first_finding(listed) is None,
        outcome matches Err(fault) ==> {
            &&& fault is NotRegistered <==> first_finding(listed)->Some_0 is Missing
            &&& fault is CircularDependency <==> first_finding(listed)->Some_0 is Cycle
            &&& fault is ScopeMismatch <==> first_finding(listed)->Some_0 is Mismatch
        },
{
}

} // verus!
