//! Values that never show what they hold.
//!
//! A protected value can be compared and handed on, but its text form is a
//! fixed placeholder, so that a secret cannot slip into a log line.

use std::ops::Deref;
use vstd::prelude::*;
use vstd::std_specs::cmp::PartialEqSpecImpl;

verus! {

/// The text that stands for every protected value.
pub open spec fn placeholder() -> Seq<char> {
    "[PROTECTED]"@
}

/// A secret text.
pub struct ProtectedValue(String);

impl View for ProtectedValue {
    type V = Seq<char>;

    /// The text that is held.
    closed spec fn view(&self) -> Seq<char> {
        self.0@
    }
}

impl ProtectedValue {
    /// The placeholder, whatever is held.
    pub fn to_text(&self) -> (text: String)
        ensures
            text@ == placeholder(),
    {
        "[PROTECTED]".to_owned()
    }
}

impl Deref for ProtectedValue {
    type Target = str;

    /// The text that is held.
    fn deref(&self) -> (text: &str)
        ensures
            text@ == self@,
    {
        self.0.as_str()
    }
}

impl Clone for ProtectedValue {
    fn clone(&self) -> (copy: Self)
        ensures
            copy@ == self@,
    {
        ProtectedValue(self.0.clone())
    }
}

impl PartialEq<str> for ProtectedValue {
    fn eq(&self, other: &str) -> (same: bool) {
        let other_text = other.to_owned();
        self.0 == other_text
    }
}

impl PartialEqSpecImpl<str> for ProtectedValue {
    open spec fn obeys_eq_spec() -> bool {
        true
    }

    open spec fn eq_spec(&self, other: &str) -> bool {
        self@ == other@
    }
}

/// A secret that may be absent.
pub struct ProtectedSecret {
    value: Option<ProtectedValue>,
}

impl View for ProtectedSecret {
    type V = Option<Seq<char>>;

    /// The text that is held, if any.
    closed spec fn view(&self) -> Option<Seq<char>> {
        match self.value {
            Some(v) => Some(v@),
            None => None,
        }
    }
}

impl ProtectedSecret {
    /// Wraps a secret that was found, or the fact that none was.
    pub fn new(value: Option<String>) -> (secret: Self)
        ensures
            secret@ == value.deep_view(),
    {
        match value {
            Some(text) => ProtectedSecret { value: Some(ProtectedValue(text)) },
            None => ProtectedSecret { value: None },
        }
    }

    /// The value that is held, if any.
    pub fn get_value(&self) -> (value: Option<&ProtectedValue>)
        ensures
            value is Some <==> self@ is Some,
            value matches Some(v) ==> self@ == Some(v@),
    {
        self.value.as_ref()
    }

    /// Whether a value is held.
    pub fn has_value(&self) -> (held: bool)
        ensures
            held == self@ is Some,
    {
        self.value.is_some()
    }

    /// The placeholder, whatever is held.
    pub fn to_text(&self) -> (text: String)
        ensures
            text@ == placeholder(),
    {
        "[PROTECTED]".to_owned()
    }

    /// The text that is held, for the wire and nowhere else.
    pub fn expose(&self) -> (text: Option<String>)
        ensures
            text.deep_view() == self@,
    {
        match &self.value {
            Some(v) => Some(v.0.clone()),
            None => None,
        }
    }
}

impl Clone for ProtectedSecret {
    fn clone(&self) -> (copy: Self)
        ensures
            copy@ == self@,
    {
        match &self.value {
            Some(v) => ProtectedSecret { value: Some(v.clone()) },
            None => ProtectedSecret { value: None },
        }
    }
}

impl PartialEq<str> for ProtectedSecret {
    fn eq(&self, other: &str) -> (same: bool) {
        match &self.value {
            Some(v) => {
                let other_text = other.to_owned();
                v.0 == other_text
            },
            None => false,
        }
    }
}

impl PartialEqSpecImpl<str> for ProtectedSecret {
    open spec fn obeys_eq_spec() -> bool {
        true
    }

    open spec fn eq_spec(&self, other: &str) -> bool {
        self@ == Some(other@)
    }
}

} // verus!
