//! Resolution of semantic-convention registries: merging same-identity groups
//! coming from different registries, and classifying the changes between two
//! resolved snapshots.

pub mod text;
pub mod schema_changes;
pub mod config;
pub mod group;
pub mod lineage;
pub mod merge;
pub mod diff;
pub mod reducer;
