//! Recognising the stock schema files that a wiki may hold copies of.
use vstd::prelude::*;

verus! {

/// Whether the two texts parse as JSON to equal values (`serde_json::Value`
/// equality: key order and whitespace do not count); false when either is not
/// valid JSON.
pub uninterp spec fn json_equal(a: Seq<char>, b: Seq<char>) -> bool;

/// Parses both texts with `serde_json::from_str` into `serde_json::Value` and
/// compares the values with `==`; false when either text does not parse. The
/// result is named `json_equal`.
#[verifier::external_body]
fn same_json(a: &str, b: &str) -> (r: bool)
    ensures
        r == json_equal(a@, b@),
{
    match (
        serde_json::from_str::<serde_json::Value>(a),
        serde_json::from_str::<serde_json::Value>(b),
    ) {
        (Ok(x), Ok(y)) => x == y,
        _ => false,
    }
}

/// The content is, as JSON, one of the stock schema contents.
pub open spec fn stock_content(content: Seq<char>, stock: Seq<String>) -> bool {
    exists|i: int| 0 <= i < stock.len() && json_equal(content, #[trigger] stock[i]@)
}

/// Whether `content` is semantically one of the `stock` schema contents
/// (current or archived versions): parsed JSON equality, immune to
/// whitespace, key order and line endings. Not valid JSON is never stock.
pub fn is_stock_schema(content: &str, stock: &Vec<String>) -> (r: bool)
    ensures
        r == exists|i: int| 0 <= i < stock@.len() && json_equal(content@, #[trigger] stock@[i]@),
{
    let mut i: usize = 0;
    while i < stock.len()
        invariant
            i <= stock@.len(),
            forall|k: int| 0 <= k < i ==> !json_equal(content@, #[trigger] stock@[k]@),
        decreases stock@.len() - i,
    {
        if same_json(content, stock[i].as_str()) {
            return true;
        }
        i += 1;
    }
    false
}

} // verus!
