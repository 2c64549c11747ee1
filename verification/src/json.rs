use vstd::prelude::*;

verus! {

/// Shape of the root of a JSON document.
#[derive(Debug)]
pub enum JsonRoot {
    /// Not valid JSON; the parser's message.
    Invalid(String),
    /// An array.
    Array,
    /// An object.
    Object,
    /// A scalar; its JSON text.
    Other(String),
}

/// `JsonRoot` with its texts as character sequences.
pub enum JsonRootView {
    Invalid(Seq<char>),
    Array,
    Object,
    Other(Seq<char>),
}

impl View for JsonRoot {
    type V = JsonRootView;

    open spec fn view(&self) -> JsonRootView {
        match self {
            JsonRoot::Invalid(m) => JsonRootView::Invalid(m@),
            JsonRoot::Array => JsonRootView::Array,
            JsonRoot::Object => JsonRootView::Object,
            JsonRoot::Other(t) => JsonRootView::Other(t@),
        }
    }
}

/// What `serde_json::from_slice::<serde_json::Value>` makes of a byte string:
/// the parse error's message, or the root's shape (with the scalar's text).
pub uninterp spec fn json_root(bytes: Seq<u8>) -> JsonRootView;

/// Calls `serde_json::from_slice::<serde_json::Value>` and reports the root's
/// shape; the result is named by `json_root`.
#[verifier::external_body]
pub(crate) fn parse_json_root(bytes: &[u8]) -> (r: JsonRoot)
    ensures
        r@ == json_root(bytes@),
{
    match serde_json::from_slice::<serde_json::Value>(bytes) {
        Err(e) => JsonRoot::Invalid(e.to_string()),
        Ok(serde_json::Value::Array(_)) => JsonRoot::Array,
        Ok(serde_json::Value::Object(_)) => JsonRoot::Object,
        Ok(other) => JsonRoot::Other(other.to_string()),
    }
}

} // verus!
