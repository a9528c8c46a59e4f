//! Chart layout and aggregation library.
//!
//! Two verified subsystems: an ordered categorical aggregation engine
//! (`OrderedSet`, `SegmentedValue`, `CategorisedValues`) that buckets raw
//! (category, segment, value) triples in stable first-seen order, and a
//! nested bar-group layout engine (`BarGroup`, `BarLabel`) that places bars
//! along a one-dimensional pixel range.

pub mod decimal;
pub mod keys;
pub mod values;
pub mod ordered_set;
pub mod segmented_value;
pub mod categorised_value;
pub mod categorised_values;
pub mod bar_label;
pub mod bar_group;

pub use bar_group::BarGroup;
pub use bar_group::BarPosition;
pub use bar_label::BarLabel;
pub use categorised_value::CategorisedValue;
pub use categorised_values::CategorisedValues;
pub use keys::ChartKey;
pub use ordered_set::OrderedSet;
pub use segmented_value::SegmentedValue;
pub use values::ChartValue;
