use vstd::prelude::*;

verus! {

/// An error of the extraction library.
///
/// `Selector` reports a field specification or CSS selector that could not be
/// compiled, carrying the offending selector text and, for a field selector,
/// the field it was given for. `Encoding` reports a byte sequence that is not
/// valid UTF-8, carrying the length of its longest valid prefix.
#[derive(Debug, Clone)]
pub enum ExtractError {
    Selector { selector: String, field: Option<String> },
    Encoding { valid_up_to: usize },
}

} // verus!
