//! Build-time tooling for manuscripts: label resolution, directive
//! preprocessing, metadata validation and publication tracking.

pub mod args;
pub mod bazel;
pub mod calendar;
pub mod collection;
pub mod deserializers;
pub mod field_validators;
pub mod group_publications;
pub mod group_summary;
pub mod labels;
pub mod lint;
pub mod metadata;
pub mod preprocess;
pub mod problems;
pub mod publications;
pub mod shunn;
pub mod source_hash;
pub mod targets;
pub mod text;
pub mod validation;
pub mod version;
