//! Artifact discovery catalog: the provider tree of repositories, releases,
//! targets and assets, the rules that keep it current from an upstream
//! source host, and the text formats it reads.

pub mod asset;
pub mod config;
pub mod data;
pub mod env;
pub mod etag;
pub mod names;
pub mod paths;
pub mod provider;
pub mod registry;
pub mod release;
pub mod repo;
pub mod target;
pub mod text;
pub mod updater;

pub use asset::Asset;
pub use etag::ETag;
pub use provider::Provider;
pub use registry::Registry;
pub use release::Release;
pub use repo::Repo;
pub use target::Target;
