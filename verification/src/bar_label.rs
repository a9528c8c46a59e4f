//! A leaf of the bar layout tree.

use vstd::prelude::*;

use crate::decimal::{append_decimal, dec_rep};
use crate::keys::ChartKey;

verus! {

/// A leaf of the layout tree: a numeric key plus a display label.
pub struct BarLabel {
    /// The numeric key that `bar_positions` reports back.
    pub key: usize,
    /// The display label.
    pub label: String,
}

impl BarLabel {
    /// A label whose text is the decimal rendering of `key`.
    pub fn new(key: usize) -> (r: Self)
        ensures
            r.key == key,
            r.label@ == dec_rep(key as int),
    {
        let mut label = String::new();
        append_decimal(&mut label, key as u64);
        proof {
            assert(label@ =~= dec_rep(key as int));
        }
        BarLabel { key, label }
    }

    /// A label with the given key and the display label of `text`.
    pub fn with_text<D: ChartKey>(key: usize, text: D) -> (r: Self)
        ensures
            r.key == key,
            r.label@ == text.key_label_spec(),
    {
        BarLabel { key, label: text.key_label() }
    }
}

impl From<usize> for BarLabel {
    /// The label text is the decimal rendering of the key.
    fn from(key: usize) -> (r: Self) {
        BarLabel::new(key)
    }
}

impl vstd::std_specs::convert::FromSpecImpl<usize> for BarLabel {
    open spec fn obeys_from_spec() -> bool {
        false
    }

    open spec fn from_spec(v: usize) -> Self {
        arbitrary()
    }
}

impl<D: ChartKey> From<(usize, D)> for BarLabel {
    /// The label text is the display label of the pair's second part.
    fn from(data: (usize, D)) -> (r: Self) {
        BarLabel::with_text(data.0, data.1)
    }
}

impl<D: ChartKey> vstd::std_specs::convert::FromSpecImpl<(usize, D)> for BarLabel {
    open spec fn obeys_from_spec() -> bool {
        false
    }

    open spec fn from_spec(v: (usize, D)) -> Self {
        arbitrary()
    }
}

} // verus!
