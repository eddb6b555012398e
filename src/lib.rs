use vstd::prelude::*;

pub mod catalog;
pub mod config;
pub mod detect;
pub mod display;
pub mod metrics;
pub mod page;
pub mod query;
pub mod scan;
pub mod vcs;

pub use catalog::{Catalog, CatalogEntry, CatalogError, Metrics, ProjectRow};
pub use config::{AppConfig, ConfigStore, GitConfig, SizeMode};
pub use query::{ProjectRecord, SortKey};
pub use page::ProjectsPage;
pub use scan::{FoundProject, RootScan, ScanOptions};

verus! {

} // verus!
