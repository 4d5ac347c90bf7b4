//! A small library of named, parameterized shell command templates
//! ("workflows"), loaded from YAML documents and held in in-memory stores:
//! a directory-backed store, a git-backed store that wraps one, and a
//! composite view that merges a local store with an upstream one.

pub mod error;
pub mod text;
pub mod workflow;
pub mod repository;
pub mod yaml;

pub use error::{WorkflowError, WorkflowResult, W};
pub use repository::{
    CompositeRepository, DirectoryRepository, FileEntry, GitRepository, WorkflowRepository,
};
pub use workflow::{Argument, Shell, Workflow};
pub use yaml::workflow_from_yaml;
