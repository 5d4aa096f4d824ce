//! A dependency-injection container whose registration graph is validated
//! before the first instance is built.
//!
//! Registrations are keyed by [`DependencyKey`] and kept in a
//! [`registry::Registry`]. Before a [`container::Container`] is handed out,
//! [`graph::GraphValidator`] checks the registrations as a graph: every
//! declared dependency registered, no consumer outliving a dependency, no
//! cycle. The container then resolves keys to instances as the [`Scope`] of
//! each registration says.
//!
//! What it means for the registrations to be valid is defined in
//! [`validity`]; the order in which faults are looked for in [`traversal`];
//! and [`correctness`] proves that the traversal finds a fault exactly when
//! the registrations are not valid.

pub mod collections;
pub mod container;
pub mod correctness;
pub mod error;
pub mod graph;
pub mod key;
pub mod prelude;
pub mod provider;
pub mod recipes;
pub mod registry;
pub mod rendering;
pub mod scope;
pub mod similarity;
pub mod text;
pub mod traversal;
pub mod validity;

pub use error::MakhzanError;
pub use key::DependencyKey;
pub use scope::Scope;
