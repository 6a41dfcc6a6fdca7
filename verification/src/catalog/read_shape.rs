//! How a read surface exposes its rows: as a list or as a single detail.

use vstd::prelude::*;

use crate::text::{joined, str_equal};

verus! {

/// Name of the list surface every aggregate root and entity must declare once.
pub const DEFAULT_LIST: &'static str = "default";

#[derive(Debug)]
pub enum ReadShape {
    List(String),
    Detail(String),
}

/// The shapes agree: same variant, same surface name.
pub open spec fn same_shape(left: ReadShape, right: ReadShape) -> bool {
    match (left, right) {
        (ReadShape::List(a), ReadShape::List(b)) => a@ == b@,
        (ReadShape::Detail(a), ReadShape::Detail(b)) => a@ == b@,
        _ => false,
    }
}

/// The text a shape is shown as: `list:<name>` or `detail:<name>`.
pub open spec fn shape_text(shape: ReadShape) -> Seq<char> {
    match shape {
        ReadShape::List(name) => "list:"@ + name@,
        ReadShape::Detail(name) => "detail:"@ + name@,
    }
}

impl PartialEq for ReadShape {
    fn eq(&self, other: &Self) -> (equal: bool) {
        match (self, other) {
            (ReadShape::List(a), ReadShape::List(b)) => str_equal(a.as_str(), b.as_str()),
            (ReadShape::Detail(a), ReadShape::Detail(b)) => str_equal(a.as_str(), b.as_str()),
            _ => false,
        }
    }
}

impl vstd::std_specs::cmp::PartialEqSpecImpl for ReadShape {
    open spec fn obeys_eq_spec() -> bool {
        true
    }

    open spec fn eq_spec(&self, other: &ReadShape) -> bool {
        same_shape(*self, *other)
    }
}

impl Eq for ReadShape {}

impl Clone for ReadShape {
    fn clone(&self) -> (copy: Self)
        ensures
            copy == *self,
    {
        match self {
            ReadShape::List(name) => ReadShape::List(name.clone()),
            ReadShape::Detail(name) => ReadShape::Detail(name.clone()),
        }
    }
}

impl ReadShape {
    /// The shape as text, `list:<name>` or `detail:<name>`.
    pub fn to_display_string(&self) -> (text: String)
        ensures
            text@ == shape_text(*self),
    {
        match self {
            ReadShape::List(name) => joined("list:", name.as_str()),
            ReadShape::Detail(name) => joined("detail:", name.as_str()),
        }
    }
}

} // verus!
