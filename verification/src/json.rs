//! The JSON values that attribute conversion produces.

use vstd::prelude::*;
use crate::proto::clone_number;

verus! {

/// A JSON value that is neither an array nor an object.
#[derive(Debug, PartialEq)]
pub enum JsonScalar {
    Null,
    Bool(bool),
    Int(i64),
    Double(serde_json::Number),
    Text(String),
}

/// The model of [`JsonScalar`].
pub enum JsonScalarView {
    Null,
    Bool(bool),
    Int(i64),
    Double(serde_json::Number),
    Text(Seq<char>),
}

impl DeepView for JsonScalar {
    type V = JsonScalarView;

    open spec fn deep_view(&self) -> JsonScalarView {
        match *self {
            JsonScalar::Null => JsonScalarView::Null,
            JsonScalar::Bool(b) => JsonScalarView::Bool(b),
            JsonScalar::Int(i) => JsonScalarView::Int(i),
            JsonScalar::Double(n) => JsonScalarView::Double(n),
            JsonScalar::Text(s) => JsonScalarView::Text(s@),
        }
    }
}

impl Clone for JsonScalar {
    fn clone(&self) -> (r: Self)
        ensures
            r.deep_view() == self.deep_view(),
    {
        match self {
            JsonScalar::Null => JsonScalar::Null,
            JsonScalar::Bool(b) => JsonScalar::Bool(*b),
            JsonScalar::Int(i) => JsonScalar::Int(*i),
            JsonScalar::Double(n) => JsonScalar::Double(clone_number(n)),
            JsonScalar::Text(s) => JsonScalar::Text(s.clone()),
        }
    }
}

/// The compact JSON text of the array that holds the given elements, in
/// their order.
pub uninterp spec fn json_array_text(elements: Seq<JsonScalarView>) -> Seq<char>;

/// `serde_json::Value::to_string` on an array, behind a contract. Each
/// element becomes the `serde_json::Value` of its kind, and the text that
/// comes back is the compact JSON form of the array of them: the same text
/// for the same elements, whatever the process or the machine.
#[verifier::external_body]
pub(crate) fn array_text(elements: &Vec<JsonScalar>) -> (text: String)
    ensures
        text@ == json_array_text(elements.deep_view()),
{
    let values = elements.iter().map(|e| match e {
        JsonScalar::Null => serde_json::Value::Null,
        JsonScalar::Bool(b) => serde_json::Value::Bool(*b),
        JsonScalar::Int(i) => serde_json::Value::Number((*i).into()),
        JsonScalar::Double(n) => serde_json::Value::Number(n.clone()),
        JsonScalar::Text(s) => serde_json::Value::String(s.clone()),
    }).collect();
    serde_json::Value::Array(values).to_string()
}

} // verus!
