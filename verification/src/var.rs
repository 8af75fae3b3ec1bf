//! The value of one search-path style environment variable.

use crate::model::split_entries;
use crate::splitter::PathVar;
use vstd::prelude::*;

verus! {

/// An owned environment-variable value: a piece of text that serializes an
/// ordered, delimiter-separated list of path entries. Its view is the
/// sequence of characters of that text.
#[derive(Debug, Clone)]
pub struct Var {
    payload: String,
}

impl View for Var {
    type V = Seq<char>;

    closed spec fn view(&self) -> Seq<char> {
        self.payload@
    }
}

impl Var {
    /// Construct a variable from borrowed text. Never fails: any text is a
    /// valid variable value.
    pub fn from_text(s: &str) -> (v: Var)
        ensures
            v@ == s@,
    {
        Var { payload: s.to_owned() }
    }

    /// Construct a variable from an owned text value.
    pub fn from_string(s: String) -> (v: Var)
        ensures
            v@ == s@,
    {
        Var { payload: s }
    }

    /// Parse the variable's text into its ordered sequence of path entries.
    pub fn split(&self) -> (r: PathVar)
        ensures
            r@ == split_entries(self@),
    {
        PathVar::new(self.payload.as_str())
    }

    /// Surrender the variable's text as an owned string.
    pub fn into_string(self) -> (s: String)
        ensures
            s@ == self@,
    {
        self.payload
    }

    /// Borrow the variable's text.
    pub fn as_str(&self) -> (s: &str)
        ensures
            s@ == self@,
    {
        self.payload.as_str()
    }
}

impl PartialEq for Var {
    /// Character-wise equality of the payloads.
    fn eq(&self, other: &Self) -> bool {
        self.payload == other.payload
    }
}

impl vstd::std_specs::cmp::PartialEqSpecImpl for Var {
    open spec fn obeys_eq_spec() -> bool {
        true
    }

    open spec fn eq_spec(&self, other: &Self) -> bool {
        self@ == other@
    }
}

} // verus!
