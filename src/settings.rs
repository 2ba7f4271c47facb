use vstd::prelude::*;

use crate::filter::ScriptFilter;
use crate::text::{decimal_digits, decimal_text};

verus! {

/// One scan request: the query program, the type filter and the cap on
/// matched objects whose outputs are kept.
#[derive(Debug, Clone)]
pub struct ScanSettings {
    pub query: String,
    pub script: ScriptFilter,
    pub limit: usize,
}

/// A numeric text field: the text as typed and the last value it held that
/// was a valid number.
#[derive(Debug, Clone, PartialEq, Eq)]
pub struct NumberInputState {
    pub raw: String,
    pub last_valid: usize,
}

impl NumberInputState {
    /// A field showing `value`.
    pub fn new(value: usize) -> (r: NumberInputState)
        ensures
            r.raw@ == decimal_digits(value as nat),
            r.last_valid == value,
    {
        NumberInputState { raw: decimal_text(value), last_valid: value }
    }
}

} // verus!
