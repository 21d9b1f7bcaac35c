//! Small string carriers used as cache keys.
//!
//! `AnyString` holds either an owned or a static string and compares by
//! variant structure; `AnyUniqueString` compares by text content alone, so
//! an owned and a static value holding the same characters are equal.

use vstd::prelude::*;

verus! {

/// A string that is either owned or borrowed from static storage.
#[derive(Debug, Clone, PartialEq, Eq, Hash)]
pub enum AnyString {
    Owned(String),
    Static(&'static str),
}

impl AnyString {
    /// The characters the value holds, whichever variant carries them.
    pub open spec fn chars(self) -> Seq<char> {
        match self {
            AnyString::Owned(s) => s@,
            AnyString::Static(s) => s@,
        }
    }

    pub fn as_str(&self) -> (r: &str)
        ensures
            r@ == self.chars(),
    {
        match self {
            AnyString::Owned(s) => s.as_str(),
            AnyString::Static(s) => s,
        }
    }

    /// The owned text of the value.
    pub fn as_string(&self) -> (r: String)
        ensures
            r@ == self.chars(),
    {
        self.as_str().to_owned()
    }
}

impl From<String> for AnyString {
    fn from(value: String) -> (r: Self) {
        AnyString::Owned(value)
    }
}

impl vstd::std_specs::convert::FromSpecImpl<String> for AnyString {
    open spec fn obeys_from_spec() -> bool {
        true
    }

    open spec fn from_spec(v: String) -> Self {
        AnyString::Owned(v)
    }
}

impl From<&'static str> for AnyString {
    fn from(value: &'static str) -> (r: Self) {
        AnyString::Static(value)
    }
}

impl vstd::std_specs::convert::FromSpecImpl<&'static str> for AnyString {
    open spec fn obeys_from_spec() -> bool {
        true
    }

    open spec fn from_spec(v: &'static str) -> Self {
        AnyString::Static(v)
    }
}

/// A string compared by its text alone: an owned and a static value holding
/// the same characters are equal.
#[derive(Debug, Clone)]
pub enum AnyUniqueString {
    Owned(String),
    Static(&'static str),
}

impl AnyUniqueString {
    /// The characters the value holds, whichever variant carries them.
    pub open spec fn chars(self) -> Seq<char> {
        match self {
            AnyUniqueString::Owned(s) => s@,
            AnyUniqueString::Static(s) => s@,
        }
    }

    pub fn as_str(&self) -> (r: &str)
        ensures
            r@ == self.chars(),
    {
        match self {
            AnyUniqueString::Owned(s) => s.as_str(),
            AnyUniqueString::Static(s) => s,
        }
    }

    /// The owned text of the value.
    pub fn as_string(&self) -> (r: String)
        ensures
            r@ == self.chars(),
    {
        self.as_str().to_owned()
    }
}

impl PartialEq for AnyUniqueString {
    fn eq(&self, other: &Self) -> (r: bool) {
        self.as_str().to_owned() == other.as_str().to_owned()
    }
}

impl vstd::std_specs::cmp::PartialEqSpecImpl for AnyUniqueString {
    open spec fn obeys_eq_spec() -> bool {
        true
    }

    open spec fn eq_spec(&self, other: &Self) -> bool {
        self.chars() == other.chars()
    }
}

impl Eq for AnyUniqueString {

}

impl From<String> for AnyUniqueString {
    fn from(value: String) -> (r: Self) {
        AnyUniqueString::Owned(value)
    }
}

impl vstd::std_specs::convert::FromSpecImpl<String> for AnyUniqueString {
    open spec fn obeys_from_spec() -> bool {
        true
    }

    open spec fn from_spec(v: String) -> Self {
        AnyUniqueString::Owned(v)
    }
}

impl From<&'static str> for AnyUniqueString {
    fn from(value: &'static str) -> (r: Self) {
        AnyUniqueString::Static(value)
    }
}

impl vstd::std_specs::convert::FromSpecImpl<&'static str> for AnyUniqueString {
    open spec fn obeys_from_spec() -> bool {
        true
    }

    open spec fn from_spec(v: &'static str) -> Self {
        AnyUniqueString::Static(v)
    }
}

} // verus!
