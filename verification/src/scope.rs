//! Lifetimes of resolved dependencies.
//!
//! A scope says how long an instance lives once it has been built. Scopes are
//! totally ordered by how long they live: `Singleton > Scoped > Transient`.

use std::cmp::Ordering;
use vstd::prelude::*;
use vstd::std_specs::cmp::PartialOrdSpecImpl;

verus! {

/// How long a resolved dependency lives.
#[derive(Debug, Clone, Copy, PartialEq, Eq, Hash, Structural)]
pub enum Scope {
    /// One instance for the whole application, built on first use.
    Singleton,
    /// One instance per scope, such as one request.
    Scoped,
    /// A new instance on every resolution; never cached.
    Transient,
}

impl Scope {
    /// The position of this scope in the lifetime order: a higher rank lives longer.
    pub open spec fn rank(self) -> nat {
        match self {
            Scope::Singleton => 2,
            Scope::Scoped => 1,
            Scope::Transient => 0,
        }
    }

    /// Whether an instance of this scope lives strictly longer than one of `other`.
    pub open spec fn outlives(self, other: Scope) -> bool {
        self.rank() > other.rank()
    }

    /// Whether instances of this scope are kept after they are built.
    pub open spec fn cached(self) -> bool {
        self != Scope::Transient
    }

    /// Returns `true` if this scope caches instances.
    pub fn is_cached(&self) -> (r: bool)
        ensures
            r == self.cached(),
    {
        match self {
            Scope::Singleton => true,
            Scope::Scoped => true,
            Scope::Transient => false,
        }
    }

    /// Returns `true` if this scope lives for the entire application.
    pub fn is_singleton(&self) -> (r: bool)
        ensures
            r == (*self == Scope::Singleton),
    {
        match self {
            Scope::Singleton => true,
            _ => false,
        }
    }

    /// Returns the ordering value (higher = longer lifetime).
    pub fn ordering(&self) -> (r: u8)
        ensures
            r == self.rank(),
    {
        match self {
            Scope::Singleton => 2,
            Scope::Scoped => 1,
            Scope::Transient => 0,
        }
    }

    /// The name of this scope as shown in messages.
    pub open spec fn spec_label(self) -> Seq<char> {
        match self {
            Scope::Singleton => "Singleton"@,
            Scope::Scoped => "Scoped"@,
            Scope::Transient => "Transient"@,
        }
    }

    /// The name of this scope as shown in messages.
    pub fn label(&self) -> (r: &'static str)
        ensures
            r@ == self.spec_label(),
    {
        match self {
            Scope::Singleton => "Singleton",
            Scope::Scoped => "Scoped",
            Scope::Transient => "Transient",
        }
    }
}

impl PartialOrd for Scope {
    fn partial_cmp(&self, other: &Self) -> (r: Option<Ordering>) {
        let a: u8 = self.ordering();
        let b: u8 = other.ordering();
        if a < b {
            Some(Ordering::Less)
        } else if a == b {
            Some(Ordering::Equal)
        } else {
            Some(Ordering::Greater)
        }
    }
}

impl PartialOrdSpecImpl for Scope {
    open spec fn obeys_partial_cmp_spec() -> bool {
        true
    }

    open spec fn partial_cmp_spec(&self, other: &Self) -> Option<Ordering> {
        if self.rank() < other.rank() {
            Some(Ordering::Less)
        } else if self.rank() == other.rank() {
            Some(Ordering::Equal)
        } else {
            Some(Ordering::Greater)
        }
    }
}

/// The lifetime order is total: of two scopes, exactly one outlives the other
/// unless they are the same scope.
pub proof fn lemma_scope_order_total(a: Scope, b: Scope)
    ensures
        a == b || a.outlives(b) || b.outlives(a),
        !(a.outlives(b) && b.outlives(a)),
        a == b ==> !a.outlives(b),
        Scope::Singleton.outlives(Scope::Scoped),
        Scope::Scoped.outlives(Scope::Transient),
        Scope::Singleton.outlives(Scope::Transient),
{
}

/// Outliving is transitive.
pub proof fn lemma_scope_order_transitive(a: Scope, b: Scope, c: Scope)
    requires
        a.outlives(b),
        b.outlives(c),
    ensures
        a.outlives(c),
{
}

} // verus!
