//! The JSON-like ordered tree that the renderer walks.

use vstd::prelude::*;

verus! {

/// A JSON-like value: the input of the renderer.
///
/// Numbers carry their canonical decimal text, supplied by whatever built
/// the tree; the renderer emits that text unchanged. Object entries are an
/// ordered sequence of key/value pairs: insertion order is significant and
/// is preserved through rendering.
#[derive(Debug)]
pub enum Value {
    Null,
    Bool(bool),
    Number(String),
    String(String),
    Array(Vec<Value>),
    Object(Vec<(String, Value)>),
}

} // verus!
