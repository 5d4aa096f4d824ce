//! The names that most users of the container need.

pub use crate::container::resolve;
pub use crate::container::Container;
pub use crate::container::ContainerBuilder;
pub use crate::container::ScopedContainer;
pub use crate::error::MakhzanError;
pub use crate::key::DependencyKey;
pub use crate::provider::Provider;
pub use crate::scope::Scope;
