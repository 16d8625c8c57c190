//! Conversions between fixed-schema records and ordered, string-keyed maps of
//! tagged values, together with the schema derivation that drives them.
//!
//! * [`value`]: the tagged value and its kind-specific extractors.
//! * [`ordered_map`]: the key-sorted map from strings to tagged values.
//! * [`string_map`]: the key-sorted map from strings to texts.
//! * [`schema`]: the declaration model, rename directives and field descriptors.
//! * [`convert`]: record to map, map to record, and the laws relating them.

pub mod value;
pub mod ordered_map;
pub mod string_map;
pub mod schema;
pub mod convert;
