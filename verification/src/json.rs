//! Reading single values out of JSON texts.

use vstd::prelude::*;

verus! {

/// What stands at one place of a JSON text.
#[derive(Debug)]
pub enum Leaf {
    Text(String),
    /// A number, as `serde_json` writes it, which need not be as it stood
    Number(String),
    /// A list, by its length
    List(usize),
    Object,
    Truth(bool),
    Null,
}

/// What a [`Leaf`] stands for.
pub enum LeafView {
    Text(Seq<char>),
    Number(Seq<char>),
    List(nat),
    Object,
    Truth(bool),
    Null,
}

impl View for Leaf {
    type V = LeafView;

    open spec fn view(&self) -> LeafView {
        match self {
            Leaf::Text(s) => LeafView::Text(s@),
            Leaf::Number(s) => LeafView::Number(s@),
            Leaf::List(n) => LeafView::List(*n as nat),
            Leaf::Object => LeafView::Object,
            Leaf::Truth(b) => LeafView::Truth(*b),
            Leaf::Null => LeafView::Null,
        }
    }
}

/// What may stand at one place.
pub open spec fn leaf_view(leaf: Option<Leaf>) -> Option<LeafView> {
    match leaf {
        Some(l) => Some(l@),
        None => None,
    }
}

/// What stands in a JSON text at a JSON pointer; nothing where the text is no JSON or the pointer
/// leads nowhere.
pub uninterp spec fn json_leaf(text: Seq<char>, pointer: Seq<char>) -> Option<LeafView>;

/// [`serde_json::from_str`] reads the text, and [`serde_json::Value::pointer`] follows the
/// pointer in it. What they find depends on the text and the pointer alone; it is named, not
/// described.
#[verifier::external_body]
pub(crate) fn json_at(text: &str, pointer: &str) -> (r: Option<Leaf>)
    ensures
        leaf_view(r) == json_leaf(text@, pointer@),
{
    let value: serde_json::Value = serde_json::from_str(text).ok()?;
    Some(
        match value.pointer(pointer)? {
            serde_json::Value::String(s) => Leaf::Text(s.clone()),
            serde_json::Value::Number(n) => Leaf::Number(n.to_string()),
            serde_json::Value::Array(a) => Leaf::List(a.len()),
            serde_json::Value::Object(_) => Leaf::Object,
            serde_json::Value::Bool(b) => Leaf::Truth(*b),
            serde_json::Value::Null => Leaf::Null,
        },
    )
}

} // verus!
