//! The traversal decides validity.
//!
//! The traversal of [`crate::traversal`] meets no fault exactly on the valid
//! graphs, and a fault that it meets is a true statement about the graph. It
//! follows that a validator which reports what the traversal finds succeeds
//! exactly on the valid graphs and reports only genuine faults.

use crate::collections::ids_of;
use crate::error::MakhzanError;
use crate::key::DependencyKey;
use crate::key::KeyId;
use crate::traversal::first_finding;
use crate::traversal::first_occurrence;
use crate::traversal::lemma_off_path_decreases;
use crate::traversal::off_path;
use crate::traversal::tells;
use crate::traversal::visit;
use crate::traversal::visit_declared;
use crate::traversal::visit_listed;
use crate::traversal::Finding;
use crate::traversal::Progress;
use crate::validity::defines;
use crate::validity::graph_of;
use crate::validity::has_edge;
use crate::validity::is_cycle;
use crate::validity::is_walk;
use crate::validity::keys_of;
use crate::validity::lemma_defines;
use crate::validity::position_of;
use crate::validity::valid;
use crate::validity::validation_outcome;
use crate::validity::Declared;
use crate::validity::Node;
use vstd::prelude::*;

verus! {

/// Whether `finding` is a true statement about the graph `g`.
///
/// - A missing key is not registered, and the key that requires it is
///   registered and declares it.
/// - The chain of a cycle is a cycle of the graph and passes through no key
///   twice.
/// - The consumer of a mismatch is registered, declares the dependency, which
///   is registered too, and outlives it; the lifetimes are theirs.
pub open spec fn genuine_finding(g: Map<KeyId, Node>, finding: Finding) -> bool {
    match finding {
        Finding::Missing { requested, required_by } => {
            &&& !g.dom().contains(requested@)
            &&& required_by matches Some(parent) && has_edge(g, parent@, requested@)
        },
        Finding::Cycle { chain } => {
            &&& is_cycle(g, ids_of(chain))
            &&& ids_of(chain).drop_last().no_duplicates()
        },
        Finding::Mismatch { consumer, consumer_scope, dependency, dependency_scope } => {
            &&& has_edge(g, consumer@, dependency@)
            &&& g.dom().contains(dependency@)
            &&& consumer_scope == g[consumer@].scope
            &&& dependency_scope == g[dependency@].scope
            &&& consumer_scope.outlives(dependency_scope)
        },
    }
}

/// What holds of the keys whose visit is finished: they are registered,
/// everything they declare is registered, finished and lives long enough, and
/// no cycle starts at any of them.
spec fn settled(g: Map<KeyId, Node>, done: Set<KeyId>) -> bool {
    &&& forall|k: KeyId| #[trigger] done.contains(k) ==> g.dom().contains(k)
    &&& forall|a: KeyId, b: KeyId|
        done.contains(a) && #[trigger] has_edge(g, a, b) ==> done.contains(b) && g.dom().contains(b)
            && !g[a].scope.outlives(g[b].scope)
    &&& forall|chain: Seq<KeyId>| #[trigger] is_cycle(g, chain) ==> !done.contains(chain.first())
}

/// What holds while the keys of `path` are being visited and the keys `done`
/// are finished: the path runs along declared dependencies through registered
/// keys, through none of them twice and through no finished one.
spec fn on_track(g: Map<KeyId, Node>, done: Set<KeyId>, path: Seq<DependencyKey>) -> bool {
    let ids = ids_of(path);
    &&& ids.no_duplicates()
    &&& forall|i: int| 0 <= i < ids.len() ==> g.dom().contains(#[trigger] ids[i])
    &&& is_walk(g, ids)
    &&& settled(g, done)
    &&& forall|i: int| 0 <= i < ids.len() ==> !done.contains(#[trigger] ids[i])
}

/// Whether `key` may be visited next: it is declared by the last key of the
/// path, or registered where the path is empty.
spec fn is_next(g: Map<KeyId, Node>, path: Seq<DependencyKey>, key: DependencyKey) -> bool {
    if path.len() > 0 {
        has_edge(g, path.last()@, key@)
    } else {
        g.dom().contains(key@)
    }
}

/// A walk that starts among the finished keys stays among them.
proof fn lemma_walk_stays(g: Map<KeyId, Node>, done: Set<KeyId>, chain: Seq<KeyId>, i: int)
    requires
        forall|a: KeyId, b: KeyId| done.contains(a) && #[trigger] has_edge(g, a, b) ==> done.contains(b),
        is_walk(g, chain),
        0 <= i < chain.len(),
        done.contains(chain[0]),
    ensures
        done.contains(chain[i]),
    decreases i,
{
    if i > 0 {
        lemma_walk_stays(g, done, chain, i - 1);
    }
}

/// A key all of whose declared dependencies are finished and live long enough
/// can be added to the finished keys.
proof fn lemma_settle(g: Map<KeyId, Node>, done: Set<KeyId>, k: KeyId)
    requires
        settled(g, done),
        g.dom().contains(k),
        !done.contains(k),
        forall|b: KeyId| #[trigger] has_edge(g, k, b) ==> done.contains(b) && g.dom().contains(b)
            && !g[k].scope.outlives(g[b].scope),
    ensures
        settled(g, done.insert(k)),
{
    let more = done.insert(k);
    assert forall|chain: Seq<KeyId>| #[trigger] is_cycle(g, chain) implies !more.contains(
        chain.first(),
    ) by {
        if chain.first() == k {
            let tail = chain.subrange(1, chain.len() as int);
            assert forall|i: int| 0 <= i < tail.len() - 1 implies has_edge(
                g,
                #[trigger] tail[i],
                tail[i + 1],
            ) by {
                assert(has_edge(g, chain[i + 1], chain[i + 1 + 1]));
            }
            lemma_walk_stays(g, done, tail, tail.len() - 1);
        }
    }
    assert forall|a: KeyId, b: KeyId| more.contains(a) && #[trigger] has_edge(g, a, b) implies more.contains(
        b,
    ) && g.dom().contains(b) && !g[a].scope.outlives(g[b].scope) by {}
}

/// Once every registered key is finished, the graph is valid.
proof fn lemma_all_settled(g: Map<KeyId, Node>, done: Set<KeyId>)
    requires
        settled(g, done),
        forall|k: KeyId| g.dom().contains(k) ==> done.contains(k),
    ensures
        valid(g),
{
    assert forall|chain: Seq<KeyId>| !#[trigger] is_cycle(g, chain) by {
        if is_cycle(g, chain) {
            assert(has_edge(g, chain[0], chain[0int + 1]));
        }
    }
    assert forall|a: KeyId, b: KeyId| #[trigger] has_edge(g, a, b) implies g.dom().contains(b) by {}
}

/// A registered key has a registration that defines it: the one at its
/// position.
pub proof fn lemma_position_defines(listed: Seq<Declared>, id: KeyId)
    requires
        graph_of(listed).dom().contains(id),
    ensures
        defines(listed, id, position_of(listed, id)),
        graph_of(listed)[id] == listed[position_of(listed, id)].node(),
{
    let some = choose|i: int| 0 <= i < listed.len() && (#[trigger] listed[i]).key@ == id;
    let first = lemma_first_listing(listed, id, some);
    lemma_defines(listed, id, first);
}

/// A key that is listed at some position has a first listing at or before it.
proof fn lemma_first_listing(listed: Seq<Declared>, id: KeyId, at: int) -> (first: int)
    requires
        0 <= at < listed.len(),
        listed[at].key@ == id,
    ensures
        0 <= first <= at,
        defines(listed, id, first),
    decreases at,
{
    if exists|j: int| 0 <= j < at && (#[trigger] listed[j]).key@ == id {
        let j = choose|j: int| 0 <= j < at && (#[trigger] listed[j]).key@ == id;
        lemma_first_listing(listed, id, j)
    } else {
        at
    }
}

/// The chain that closes at a key on the path is a cycle that passes through
/// no key twice.
proof fn lemma_closing_chain(g: Map<KeyId, Node>, path: Seq<DependencyKey>, key: DependencyKey)
    requires
        ids_of(path).no_duplicates(),
        is_walk(g, ids_of(path)),
        ids_of(path).contains(key@),
        has_edge(g, path.last()@, key@),
    ensures
        genuine_finding(
            g,
            Finding::Cycle {
                chain: path.subrange(first_occurrence(ids_of(path), key@), path.len() as int).push(
                    key,
                ),
            },
        ),
{
    let ids = ids_of(path);
    let some = choose|i: int| 0 <= i < ids.len() && ids[i] == key@;
    let start = first_occurrence(ids, key@);
    assert(0 <= start < ids.len() && ids[start] == key@) by {
        lemma_first_id(ids, key@, some);
    }
    let chain = ids_of(path.subrange(start, path.len() as int).push(key));
    assert(chain.drop_last() =~= ids.subrange(start, ids.len() as int));
    assert forall|i: int| 0 <= i < chain.len() - 1 implies has_edge(
        g,
        #[trigger] chain[i],
        chain[i + 1],
    ) by {
        assert(chain[i] == ids[start + i]);
        if i < chain.len() - 2 {
            assert(chain[i + 1] == ids[start + i + 1]);
        } else {
            assert(ids[start + i] == path.last()@);
        }
    }
}

/// An identity that occurs in a sequence has a first occurrence.
proof fn lemma_first_id(ids: Seq<KeyId>, id: KeyId, at: int)
    requires
        0 <= at < ids.len(),
        ids[at] == id,
    ensures
        0 <= first_occurrence(ids, id) <= at,
        ids[first_occurrence(ids, id)] == id,
        forall|j: int| 0 <= j < first_occurrence(ids, id) ==> ids[j] != id,
    decreases at,
{
    if exists|j: int| 0 <= j < at && ids[j] == id {
        let j = choose|j: int| 0 <= j < at && ids[j] == id;
        lemma_first_id(ids, id, j);
    }
}

/// What a visit comes to: it finishes the key and keeps what held, or it
/// stops at a genuine fault.
proof fn lemma_visit(
    listed: Seq<Declared>,
    done: Set<KeyId>,
    path: Seq<DependencyKey>,
    key: DependencyKey,
)
    requires
        on_track(graph_of(listed), done, path),
        is_next(graph_of(listed), path, key),
    ensures
        match visit(listed, done, path, key) {
            Progress::Finished(more) => on_track(graph_of(listed), more, path) && done.subset_of(more)
                && more.contains(key@),
            Progress::Stopped(finding) => genuine_finding(graph_of(listed), finding),
        },
    decreases off_path(listed, path), 0nat,
{
    let g = graph_of(listed);
    let ids = ids_of(path);
    if done.contains(key@) {
        // passed over: nothing changes
    } else if ids.contains(key@) {
        lemma_closing_chain(g, path, key);
    } else if !g.dom().contains(key@) {
        // missing: the last key of the path declares it
    } else {
        lemma_position_defines(listed, key@);
        lemma_off_path_decreases(listed, path, key);
        let info = listed[position_of(listed, key@)];
        let longer = path.push(key);
        assert(ids_of(longer) =~= ids.push(key@));
        assert forall|i: int| 0 <= i < ids_of(longer).len() - 1 implies has_edge(
            g,
            #[trigger] ids_of(longer)[i],
            ids_of(longer)[i + 1],
        ) by {
            if i < ids.len() - 1 {
                assert(has_edge(g, ids[i], ids[i + 1]));
            } else {
                assert(ids[i] == path.last()@);
            }
        }
        lemma_visit_declared(listed, done, longer, info, 0);
        match visit_declared(listed, done, longer, info, 0) {
            Progress::Finished(more) => {
                assert(!more.contains(key@)) by {
                    assert(ids_of(longer)[ids.len() as int] == key@);
                }
                assert forall|b: KeyId| #[trigger] has_edge(g, key@, b) implies more.contains(b)
                    && g.dom().contains(b) && !g[key@].scope.outlives(g[b].scope) by {
                    let t = choose|t: int| 0 <= t < g[key@].deps.len() && g[key@].deps[t] == b;
                }
                lemma_settle(g, more, key@);
                assert forall|i: int| 0 <= i < ids.len() implies !more.insert(key@).contains(
                    #[trigger] ids[i],
                ) by {
                    assert(ids_of(longer)[i] == ids[i]);
                }
            },
            Progress::Stopped(finding) => {},
        }
    }
}

/// What visiting the declared keys comes to: every one of them is finished
/// and lives long enough, or the traversal stops at a genuine fault.
proof fn lemma_visit_declared(
    listed: Seq<Declared>,
    done: Set<KeyId>,
    path: Seq<DependencyKey>,
    info: Declared,
    from: nat,
)
    requires
        on_track(graph_of(listed), done, path),
        path.len() > 0,
        graph_of(listed).dom().contains(path.last()@),
        info == listed[position_of(listed, path.last()@)],
        forall|t: int|
            0 <= t < from && t < info.dependencies.len() ==> done.contains(
                (#[trigger] info.dependencies[t])@,
            ) && graph_of(listed).dom().contains(info.dependencies[t]@) && !info.scope.outlives(
                graph_of(listed)[info.dependencies[t]@].scope,
            ),
    ensures
        match visit_declared(listed, done, path, info, from) {
            Progress::Finished(more) => {
                &&& on_track(graph_of(listed), more, path)
                &&& done.subset_of(more)
                &&& forall|t: int|
                    0 <= t < info.dependencies.len() ==> more.contains(
                        (#[trigger] info.dependencies[t])@,
                    ) && graph_of(listed).dom().contains(info.dependencies[t]@)
                        && !info.scope.outlives(graph_of(listed)[info.dependencies[t]@].scope)
            },
            Progress::Stopped(finding) => genuine_finding(graph_of(listed), finding),
        },
    decreases off_path(listed, path), info.dependencies.len() - from + 1,
{
    let g = graph_of(listed);
    lemma_position_defines(listed, path.last()@);
    if from < info.dependencies.len() {
        let declared = info.dependencies[from as int];
        assert(has_edge(g, path.last()@, declared@)) by {
            assert(ids_of(info.dependencies)[from as int] == declared@);
        }
        if g.dom().contains(declared@) && info.scope.outlives(g[declared@].scope) {
            lemma_position_defines(listed, declared@);
        } else {
            lemma_visit(listed, done, path, declared);
            match visit(listed, done, path, declared) {
                Progress::Finished(more) => {
                    lemma_visit_declared(listed, more, path, info, from + 1);
                },
                Progress::Stopped(finding) => {},
            }
        }
    }
}

/// What visiting the listed registrations comes to: the graph is valid, or the
/// traversal stops at a genuine fault.
proof fn lemma_visit_listed(listed: Seq<Declared>, done: Set<KeyId>, from: nat)
    requires
        settled(graph_of(listed), done),
        forall|t: int| 0 <= t < from && t < listed.len() ==> done.contains((#[trigger] listed[t]).key@),
    ensures
        match visit_listed(listed, done, from) {
            Progress::Finished(_) => valid(graph_of(listed)),
            Progress::Stopped(finding) => genuine_finding(graph_of(listed), finding),
        },
    decreases listed.len() - from,
{
    let g = graph_of(listed);
    let none = Seq::<DependencyKey>::empty();
    if from >= listed.len() {
        assert forall|k: KeyId| g.dom().contains(k) implies done.contains(k) by {
            let t = choose|t: int| 0 <= t < listed.len() && (#[trigger] listed[t]).key@ == k;
        }
        lemma_all_settled(g, done);
    } else {
        let key = listed[from as int].key;
        lemma_visit(listed, done, none, key);
        match visit(listed, done, none, key) {
            Progress::Finished(more) => {
                lemma_visit_listed(listed, more, from + 1);
            },
            Progress::Stopped(finding) => {},
        }
    }
}

/// A visit that starts at a registered key with nothing finished and an empty
/// path stops only at a fault that is true of the graph: a chain that it
/// reports is a cycle of the graph that passes through no key twice.
pub proof fn lemma_first_visit_is_sound(listed: Seq<Declared>, key: DependencyKey)
    requires
        graph_of(listed).dom().contains(key@),
    ensures
        visit(listed, Set::empty(), Seq::empty(), key) matches Progress::Stopped(finding)
            ==> genuine_finding(graph_of(listed), finding),
        visit(listed, Set::empty(), Seq::empty(), key) matches Progress::Stopped(
            Finding::Cycle { chain },
        ) ==> chain.len() >= 2 && chain.first()@ == chain.last()@ && is_walk(
            graph_of(listed),
            ids_of(chain),
        ) && ids_of(chain).drop_last().no_duplicates(),
{
    let g = graph_of(listed);
    let nothing = Set::<KeyId>::empty();
    let none = Seq::<DependencyKey>::empty();
    assert(ids_of(none) =~= Seq::<KeyId>::empty());
    assert(settled(g, nothing)) by {
        assert forall|chain: Seq<KeyId>| #[trigger] is_cycle(g, chain) implies !nothing.contains(
            chain.first(),
        ) by {}
    }
    lemma_visit(listed, nothing, none, key);
    if let Progress::Stopped(Finding::Cycle { chain }) = visit(listed, nothing, none, key) {
        assert(ids_of(chain).first() == chain.first()@);
        assert(ids_of(chain).last() == chain.last()@);
    }
}

/// A genuine finding refutes validity, each kind its own part of it.
pub proof fn lemma_finding_refutes_validity(g: Map<KeyId, Node>, finding: Finding)
    requires
        genuine_finding(g, finding),
    ensures
        !valid(g),
{
    match finding {
        Finding::Missing { requested, required_by } => {
            assert(has_edge(g, required_by->0@, requested@));
        },
        Finding::Cycle { chain } => {
            assert(is_cycle(g, ids_of(chain)));
        },
        Finding::Mismatch { consumer, consumer_scope, dependency, dependency_scope } => {
            assert(has_edge(g, consumer@, dependency@));
        },
    }
}

/// The traversal decides validity: it meets no fault exactly when the graph
/// is valid, and a fault that it meets is a true statement about the graph.
pub proof fn lemma_traversal_decides_validity(listed: Seq<Declared>)
    ensures
        first_finding(listed) is None <==> valid(graph_of(listed)),
        first_finding(listed) matches Some(finding) ==> genuine_finding(graph_of(listed), finding),
{
    let g = graph_of(listed);
    let nothing = Set::<KeyId>::empty();
    assert(settled(g, nothing)) by {
        assert forall|chain: Seq<KeyId>| #[trigger] is_cycle(g, chain) implies !nothing.contains(
            chain.first(),
        ) by {}
    }
    lemma_visit_listed(listed, nothing, 0);
    if let Some(finding) = first_finding(listed) {
        lemma_finding_refutes_validity(g, finding);
    }
}

/// A validator that reports what the traversal finds succeeds exactly on the
/// valid graphs and reports only genuine faults.
pub proof fn lemma_report_is_sound(listed: Seq<Declared>, outcome: Result<(), MakhzanError>)
    requires
        tells(listed, first_finding(listed), outcome),
    ensures
        validation_outcome(graph_of(listed), keys_of(listed), outcome),
{
    lemma_traversal_decides_validity(listed);
}

} // verus!
