//! Consistency checking for sets of plugin components ("mods"): dependency
//! resolution per ecosystem, two version-range grammars, and one report that
//! lists every fault found.

pub mod analyze;
pub mod fabric;
pub mod fault;
pub mod forge;
pub mod laws;
pub mod manifest;
pub mod metadata;
pub mod neoforge;
pub mod resolve;
pub mod text;
pub mod version;

pub use analyze::analyze_dependencies;
pub use fault::{DependencyError, DependencyErrors};
pub use metadata::{DependencyVersionRange, ModDependency, ModMetadata, Platform};
pub use resolve::resolve_dependencies;
pub use version::{SemVer, SemVerReq, VersionBound, VersionConstraint};
