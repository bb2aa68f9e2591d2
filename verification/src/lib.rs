//! Compose a Docker Compose document out of services found in compose files
//! that live in GitHub repositories.
//!
//! A service specification such as
//! `omnivore-app/omnivore+main:docker-compose.yml@redis,x-postgres` names a
//! file in a repository, optionally a branch, and the services to take from
//! that file. This crate parses such specifications, builds the address the
//! file is served from, looks services up in a decoded compose document and
//! merges the services gathered from many documents into one.

pub mod compose;
pub mod grammar;
pub mod locator;
pub mod merge;
pub mod service_spec;
pub mod yaml;

pub use compose::DockerComposeFile;
pub use locator::GithubFileSpec;
pub use merge::{MergeError, MergedResult};
pub use service_spec::{ComposeServiceGithubSpec, Field, ParseError};
