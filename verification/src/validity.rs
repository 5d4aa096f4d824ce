//! What makes a set of registrations valid.
//!
//! The registrations form a graph: each registered key is a node, and each
//! declared dependency an edge. The graph is [`valid`] when every declared
//! dependency is registered, no consumer outlives a dependency, and no chain
//! of dependencies leads from a key back to itself. This module defines these
//! notions, says when a fault is a true statement about a graph, and proves
//! what follows for every validation that succeeds exactly on valid graphs.

use crate::collections::ids_of;
use crate::error::MakhzanError;
use crate::key::DependencyKey;
use crate::key::KeyId;
use crate::scope::Scope;
use crate::similarity::similar;
use vstd::prelude::*;

verus! {

/// A node of the dependency graph: the declared dependencies and the lifetime.
pub struct Node {
    pub deps: Seq<KeyId>,
    pub scope: Scope,
}

/// A registration as validation sees it: its key, the keys that it declares
/// as dependencies, in order, and its lifetime.
pub struct Declared {
    pub key: DependencyKey,
    pub dependencies: Seq<DependencyKey>,
    pub scope: Scope,
}

impl Declared {
    /// This registration as a node of the graph.
    pub open spec fn node(&self) -> Node {
        Node { deps: ids_of(self.dependencies), scope: self.scope }
    }
}

/// Whether position `i` holds the registration that defines `id`: the first one
/// whose key has that identity.
pub open spec fn defines(listed: Seq<Declared>, id: KeyId, i: int) -> bool {
    &&& 0 <= i < listed.len()
    &&& listed[i].key@ == id
    &&& forall|j: int| 0 <= j < i ==> (#[trigger] listed[j]).key@ != id
}

/// The position of the registration that defines `id`.
pub open spec fn position_of(listed: Seq<Declared>, id: KeyId) -> int {
    choose|i: int| defines(listed, id, i)
}

/// The graph that a list of registrations describes. Where a key is listed more
/// than once, its first registration counts.
pub open spec fn graph_of(listed: Seq<Declared>) -> Map<KeyId, Node> {
    Map::new(
        |id: KeyId| exists|i: int| 0 <= i < listed.len() && (#[trigger] listed[i]).key@ == id,
        |id: KeyId| listed[position_of(listed, id)].node(),
    )
}

/// The keys of a list of registrations, in order.
pub open spec fn keys_of(listed: Seq<Declared>) -> Seq<DependencyKey> {
    listed.map_values(|info: Declared| info.key)
}

/// Whether `from` is registered and declares `to` as a dependency.
pub open spec fn has_edge(g: Map<KeyId, Node>, from: KeyId, to: KeyId) -> bool {
    g.dom().contains(from) && g[from].deps.contains(to)
}

/// Every declared dependency is registered.
pub open spec fn complete(g: Map<KeyId, Node>) -> bool {
    forall|a: KeyId, b: KeyId| #[trigger] has_edge(g, a, b) ==> g.dom().contains(b)
}

/// No consumer outlives a registered dependency of its own.
pub open spec fn scope_consistent(g: Map<KeyId, Node>) -> bool {
    forall|a: KeyId, b: KeyId|
        #[trigger] has_edge(g, a, b) && g.dom().contains(b) ==> !g[a].scope.outlives(g[b].scope)
}

/// Each key of `chain` but the last declares the next one as a dependency.
pub open spec fn is_walk(g: Map<KeyId, Node>, chain: Seq<KeyId>) -> bool {
    forall|i: int| 0 <= i < chain.len() - 1 ==> has_edge(g, #[trigger] chain[i], chain[i + 1])
}

/// `chain` runs along declared dependencies from a key back to the same key.
pub open spec fn is_cycle(g: Map<KeyId, Node>, chain: Seq<KeyId>) -> bool {
    chain.len() >= 2 && is_walk(g, chain) && chain.first() == chain.last()
}

/// No chain of declared dependencies leads from a key back to itself.
pub open spec fn acyclic(g: Map<KeyId, Node>) -> bool {
    forall|chain: Seq<KeyId>| !#[trigger] is_cycle(g, chain)
}

/// The graph is complete, lifetime-consistent and free of cycles.
pub open spec fn valid(g: Map<KeyId, Node>) -> bool {
    complete(g) && scope_consistent(g) && acyclic(g)
}

/// The keys among `keys` whose display name is similar to `target`, in order.
pub open spec fn similar_keys(keys: Seq<DependencyKey>, target: Seq<char>) -> Seq<DependencyKey>
    decreases keys.len(),
{
    if keys.len() == 0 {
        Seq::empty()
    } else {
        let rest = similar_keys(keys.drop_last(), target);
        if similar(keys.last().spec_display_name(), target) {
            rest.push(keys.last())
        } else {
            rest
        }
    }
}

/// Whether `fault` is a true statement about the graph `g`, whose keys are
/// listed in `keys`.
///
/// - A not-registered fault names a key that is not registered, the registered
///   key that declares it, and the registered keys with a similar name.
/// - A cycle fault carries a chain that is a cycle of the graph and passes
///   through no key twice.
/// - A lifetime fault names a registered consumer and a registered dependency
///   that it declares, with their lifetimes, the consumer's being the longer.
pub open spec fn genuine_fault(
    g: Map<KeyId, Node>,
    keys: Seq<DependencyKey>,
    fault: MakhzanError,
) -> bool {
    match fault {
        MakhzanError::NotRegistered(e) => {
            &&& !g.dom().contains(e.requested@)
            &&& e.required_by matches Some(parent) && has_edge(g, parent@, e.requested@)
            &&& e.suggestions@ == similar_keys(keys, e.requested.spec_display_name())
        },
        MakhzanError::CircularDependency(e) => {
            &&& is_cycle(g, ids_of(e.chain@))
            &&& ids_of(e.chain@).drop_last().no_duplicates()
        },
        MakhzanError::ScopeMismatch(e) => {
            &&& has_edge(g, e.consumer@, e.dependency@)
            &&& g.dom().contains(e.dependency@)
            &&& e.consumer_scope == g[e.consumer@].scope
            &&& e.dependency_scope == g[e.dependency@].scope
            &&& e.consumer_scope.outlives(e.dependency_scope)
        },
        _ => false,
    }
}

/// A graph about which a genuine fault can be stated is not valid.
pub proof fn lemma_fault_refutes_validity(
    g: Map<KeyId, Node>,
    keys: Seq<DependencyKey>,
    fault: MakhzanError,
)
    requires
        genuine_fault(g, keys, fault),
    ensures
        !valid(g),
        fault is NotRegistered ==> !complete(g),
        fault is CircularDependency ==> !acyclic(g),
        fault is ScopeMismatch ==> !scope_consistent(g),
{
    match fault {
        MakhzanError::NotRegistered(e) => {
            assert(has_edge(g, e.required_by->0@, e.requested@));
        },
        MakhzanError::CircularDependency(e) => {
            assert(is_cycle(g, ids_of(e.chain@)));
        },
        MakhzanError::ScopeMismatch(e) => {
            assert(has_edge(g, e.consumer@, e.dependency@));
        },
        _ => {},
    }
}

/// The registration that defines a key is the node of that key.
pub proof fn lemma_defines(listed: Seq<Declared>, id: KeyId, i: int)
    requires
        defines(listed, id, i),
    ensures
        graph_of(listed).dom().contains(id),
        graph_of(listed)[id] == listed[i].node(),
        position_of(listed, id) == i,
{
    let p = position_of(listed, id);
    if p < i {
        assert(listed[p].key@ != id);
    }
    if i < p {
        assert(listed[i].key@ != id);
    }
}

/// The graph of a list of registrations has finitely many keys, and each of
/// them is the key of a listed registration.
pub proof fn lemma_graph_keys(listed: Seq<Declared>)
    ensures
        graph_of(listed).dom().finite(),
        graph_of(listed).dom() == ids_of(keys_of(listed)).to_set(),
{
    let ids = ids_of(keys_of(listed));
    vstd::seq_lib::seq_to_set_is_finite(ids);
    assert forall|id: KeyId| graph_of(listed).dom().contains(id) implies ids.to_set().contains(id) by {
        let i = choose|i: int| 0 <= i < listed.len() && (#[trigger] listed[i]).key@ == id;
        assert(ids[i] == id);
    }
    assert forall|id: KeyId| ids.to_set().contains(id) implies graph_of(listed).dom().contains(id) by {
        let i = choose|i: int| 0 <= i < ids.len() && ids[i] == id;
    }
    assert(graph_of(listed).dom() =~= ids.to_set());
}

/// What validation returns for a graph whose keys are listed in `keys`:
/// success exactly when the graph is valid, and otherwise a fault that is true
/// of the graph.
pub open spec fn validation_outcome(
    g: Map<KeyId, Node>,
    keys: Seq<DependencyKey>,
    outcome: Result<(), MakhzanError>,
) -> bool {
    &&& outcome is Ok <==> valid(g)
    &&& outcome matches Err(fault) ==> genuine_fault(g, keys, fault)
}

/// A complete, lifetime-consistent graph without cycles passes validation.
pub proof fn lemma_valid_graph_passes(
    g: Map<KeyId, Node>,
    keys: Seq<DependencyKey>,
    outcome: Result<(), MakhzanError>,
)
    requires
        validation_outcome(g, keys, outcome),
        complete(g),
        scope_consistent(g),
        acyclic(g),
    ensures
        outcome is Ok,
{
}

/// A graph with a cycle fails validation, a key that declares itself included.
/// Where nothing else is wrong with the graph, the fault is a cycle fault, and
/// the chain of every cycle fault has at least two keys, starts and ends at the
/// same key, and follows declared dependencies.
pub proof fn lemma_cycle_is_refused(
    g: Map<KeyId, Node>,
    keys: Seq<DependencyKey>,
    outcome: Result<(), MakhzanError>,
    cycle: Seq<KeyId>,
)
    requires
        validation_outcome(g, keys, outcome),
        is_cycle(g, cycle),
    ensures
        outcome is Err,
        complete(g) && scope_consistent(g) ==> outcome->Err_0 is CircularDependency,
        outcome matches Err(MakhzanError::CircularDependency(e)) ==> e.chain@.len() >= 2
            && e.chain@.first()@ == e.chain@.last()@ && is_walk(g, ids_of(e.chain@)),
{
    let fault = outcome->Err_0;
    lemma_fault_refutes_validity(g, keys, fault);
    if let MakhzanError::CircularDependency(e) = fault {
        let chain = ids_of(e.chain@);
    }
}

/// A key that declares itself is a cycle of one step.
pub proof fn lemma_self_dependency_is_cycle(g: Map<KeyId, Node>, k: KeyId)
    requires
        has_edge(g, k, k),
    ensures
        is_cycle(g, seq![k, k]),
{
}

/// A graph in which a registered key declares an unregistered one fails
/// validation. Where nothing else is wrong with the graph, the fault is a
/// not-registered fault that names an unregistered key that is declared; it
/// names `missing` where that is the only such key.
pub proof fn lemma_missing_dependency_is_refused(
    g: Map<KeyId, Node>,
    keys: Seq<DependencyKey>,
    outcome: Result<(), MakhzanError>,
    consumer: KeyId,
    missing: KeyId,
)
    requires
        validation_outcome(g, keys, outcome),
        has_edge(g, consumer, missing),
        !g.dom().contains(missing),
    ensures
        outcome is Err,
        acyclic(g) && scope_consistent(g) ==> outcome->Err_0 is NotRegistered,
        outcome matches Err(MakhzanError::NotRegistered(e)) ==> {
            &&& !g.dom().contains(e.requested@)
            &&& e.required_by matches Some(parent) && has_edge(g, parent@, e.requested@)
            &&& (forall|a: KeyId, b: KeyId|
                #[trigger] has_edge(g, a, b) && !g.dom().contains(b) ==> b == missing)
                ==> e.requested@ == missing
        },
{
    let fault = outcome->Err_0;
    lemma_fault_refutes_validity(g, keys, fault);
    if let MakhzanError::NotRegistered(e) = fault {
        assert(has_edge(g, e.required_by->0@, e.requested@));
    }
}

/// A graph in which a consumer outlives a registered dependency that it
/// declares fails validation. Where nothing else is wrong with the graph, the
/// fault is a lifetime fault; every lifetime fault names a consumer, a
/// dependency that it declares, and their lifetimes, the consumer's the longer.
pub proof fn lemma_short_lived_dependency_is_refused(
    g: Map<KeyId, Node>,
    keys: Seq<DependencyKey>,
    outcome: Result<(), MakhzanError>,
    consumer: KeyId,
    dependency: KeyId,
)
    requires
        validation_outcome(g, keys, outcome),
        has_edge(g, consumer, dependency),
        g.dom().contains(dependency),
        g[consumer].scope.outlives(g[dependency].scope),
    ensures
        outcome is Err,
        complete(g) && acyclic(g) ==> outcome->Err_0 is ScopeMismatch,
        outcome matches Err(MakhzanError::ScopeMismatch(e)) ==> {
            &&& has_edge(g, e.consumer@, e.dependency@)
            &&& e.consumer_scope == g[e.consumer@].scope
            &&& e.dependency_scope == g[e.dependency@].scope
            &&& e.consumer_scope.outlives(e.dependency_scope)
            &&& (forall|a: KeyId, b: KeyId|
                #[trigger] has_edge(g, a, b) && g.dom().contains(b) && g[a].scope.outlives(
                    g[b].scope,
                ) ==> a == consumer && b == dependency) ==> e.consumer@ == consumer
                && e.dependency@ == dependency
        },
{
    let fault = outcome->Err_0;
    lemma_fault_refutes_validity(g, keys, fault);
    if let MakhzanError::ScopeMismatch(e) = fault {
        assert(has_edge(g, e.consumer@, e.dependency@));
    }
}

/// Two registrations, the second declaring the first and nothing else declared:
/// validation succeeds exactly when the consumer does not outlive the
/// dependency, and otherwise reports these two keys with their lifetimes.
pub proof fn lemma_pair_of_lifetimes(
    dependency: Declared,
    consumer: Declared,
    outcome: Result<(), MakhzanError>,
)
    requires
        dependency.key@ != consumer.key@,
        dependency.dependencies.len() == 0,
        consumer.dependencies.len() == 1,
        consumer.dependencies[0]@ == dependency.key@,
        validation_outcome(
            graph_of(seq![dependency, consumer]),
            keys_of(seq![dependency, consumer]),
            outcome,
        ),
    ensures
        outcome is Ok <==> !consumer.scope.outlives(dependency.scope),
        outcome matches Err(fault) ==> fault matches MakhzanError::ScopeMismatch(e) && e.consumer@
            == consumer.key@ && e.consumer_scope == consumer.scope && e.dependency@
            == dependency.key@ && e.dependency_scope == dependency.scope,
{
    let listed = seq![dependency, consumer];
    let g = graph_of(listed);
    let d = dependency.key@;
    let c = consumer.key@;
    lemma_defines(listed, d, 0);
    lemma_defines(listed, c, 1);
    assert forall|a: KeyId, b: KeyId| #[trigger] has_edge(g, a, b) implies a == c && b == d by {
        if a != c {
            let i = choose|i: int| 0 <= i < listed.len() && (#[trigger] listed[i]).key@ == a;
        }
        let t = choose|t: int| 0 <= t < g[a].deps.len() && g[a].deps[t] == b;
    }
    assert(has_edge(g, c, d)) by {
        assert(g[c].deps[0] == d);
    }
    assert forall|chain: Seq<KeyId>| !#[trigger] is_cycle(g, chain) by {
        if is_cycle(g, chain) {
            if chain.len() > 2 {
                assert(has_edge(g, chain[1], chain[1int + 1]));
            }
        }
    }
    if consumer.scope.outlives(dependency.scope) {
        lemma_short_lived_dependency_is_refused(g, keys_of(listed), outcome, c, d);
    } else {
        assert(scope_consistent(g));
    }
    if let Err(fault) = outcome {
        lemma_fault_refutes_validity(g, keys_of(listed), fault);
        if let MakhzanError::ScopeMismatch(e) = fault {
            assert(has_edge(g, e.consumer@, e.dependency@));
        }
    }
}

} // verus!
