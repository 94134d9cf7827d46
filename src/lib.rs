//! Resolution of the repository that provides a requested package.
//!
//! Repository definitions are converted into providers, the valid ones are
//! ordered by name, and the providers are consulted one at a time until one
//! of them confirms that it holds the package.

pub mod package;
pub mod text;
pub mod provider;
pub mod order;
pub mod resolver;
