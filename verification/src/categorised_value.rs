//! A single normalized aggregation input.

use vstd::prelude::*;

use crate::keys::ChartKey;
use crate::values::ChartValue;

verus! {

/// One normalized input tuple for the aggregation engine: a category key,
/// a segment key, and a value.
///
/// A bare category converts to `(category, segment 0, one unit)` for
/// histogram counting; a `(category, value)` pair converts to
/// `(category, segment 0, value)` for simple bar charts.
pub struct CategorisedValue<CAT: ChartKey, SEG: ChartKey, VAL: ChartValue> {
    /// The category key.
    pub category_key: CAT,
    /// The segment key within the category.
    pub segment_key: SEG,
    /// The value to accumulate.
    pub value: VAL,
}

impl<CAT: ChartKey, SEG: ChartKey, VAL: ChartValue> CategorisedValue<CAT, SEG, VAL> {
    /// A triple with default keys and a zero value.
    pub fn new() -> (r: Self)
        ensures
            r.category_key.is_default(),
            r.segment_key.is_default(),
            r.value == VAL::zero_spec(),
    {
        CategorisedValue {
            category_key: CAT::default_key(),
            segment_key: SEG::default_key(),
            value: VAL::zero_value(),
        }
    }

    /// Replaces the category key.
    pub fn bar_key(self, key: CAT) -> (r: Self)
        ensures
            r.category_key == key,
            r.segment_key == self.segment_key,
            r.value == self.value,
    {
        CategorisedValue {
            category_key: key,
            segment_key: self.segment_key,
            value: self.value,
        }
    }

    /// Replaces the segment key.
    pub fn stack_key(self, key: SEG) -> (r: Self)
        ensures
            r.category_key == self.category_key,
            r.segment_key == key,
            r.value == self.value,
    {
        CategorisedValue {
            category_key: self.category_key,
            segment_key: key,
            value: self.value,
        }
    }

    /// Replaces the value.
    pub fn value(self, value: VAL) -> (r: Self)
        ensures
            r.category_key == self.category_key,
            r.segment_key == self.segment_key,
            r.value == value,
    {
        CategorisedValue {
            category_key: self.category_key,
            segment_key: self.segment_key,
            value,
        }
    }
}

impl<CAT: ChartKey> From<CAT> for CategorisedValue<CAT, usize, usize> {
    /// A bare category counts one unit in segment 0.
    fn from(definition: CAT) -> (r: Self) {
        CategorisedValue { category_key: definition, segment_key: 0, value: 1 }
    }
}

impl<CAT: ChartKey> vstd::std_specs::convert::FromSpecImpl<CAT> for CategorisedValue<CAT, usize, usize> {
    open spec fn obeys_from_spec() -> bool {
        true
    }

    open spec fn from_spec(v: CAT) -> Self {
        CategorisedValue { category_key: v, segment_key: 0, value: 1 }
    }
}

impl<CAT: ChartKey, VAL: ChartValue> From<(CAT, VAL)> for CategorisedValue<CAT, usize, VAL> {
    /// A `(category, value)` pair goes to segment 0.
    fn from(definition: (CAT, VAL)) -> (r: Self) {
        CategorisedValue { category_key: definition.0, segment_key: 0, value: definition.1 }
    }
}

impl<CAT: ChartKey, VAL: ChartValue> vstd::std_specs::convert::FromSpecImpl<(CAT, VAL)> for CategorisedValue<CAT, usize, VAL> {
    open spec fn obeys_from_spec() -> bool {
        true
    }

    open spec fn from_spec(v: (CAT, VAL)) -> Self {
        CategorisedValue { category_key: v.0, segment_key: 0, value: v.1 }
    }
}

impl<CAT: ChartKey, SEG: ChartKey, VAL: ChartValue> From<(CAT, SEG, VAL)> for CategorisedValue<CAT, SEG, VAL> {
    /// A full triple converts as it stands.
    fn from(definition: (CAT, SEG, VAL)) -> (r: Self) {
        CategorisedValue {
            category_key: definition.0,
            segment_key: definition.1,
            value: definition.2,
        }
    }
}

impl<CAT: ChartKey, SEG: ChartKey, VAL: ChartValue> vstd::std_specs::convert::FromSpecImpl<(CAT, SEG, VAL)> for CategorisedValue<CAT, SEG, VAL> {
    open spec fn obeys_from_spec() -> bool {
        true
    }

    open spec fn from_spec(v: (CAT, SEG, VAL)) -> Self {
        CategorisedValue { category_key: v.0, segment_key: v.1, value: v.2 }
    }
}

} // verus!
