//! What can be wrong with a value that was given as text.

use vstd::prelude::*;
use vstd::string::StringExecFns;

verus! {

/// A text that does not hold the value asked for, or a key without a value.
#[derive(Debug, Clone, PartialEq, Eq)]
pub enum ValueError {
    /// The text is none of the words for true and false.
    NoBoolean(String),
    /// The text is no whole number that fits.
    NoInteger(String),
    /// The key has no value.
    MissingKey(String),
}

/// A `ValueError` with its text as a character sequence.
pub enum ValueErrorView {
    NoBoolean(Seq<char>),
    NoInteger(Seq<char>),
    MissingKey(Seq<char>),
}

impl View for ValueError {
    type V = ValueErrorView;

    open spec fn view(&self) -> ValueErrorView {
        match self {
            ValueError::NoBoolean(text) => ValueErrorView::NoBoolean(text@),
            ValueError::NoInteger(text) => ValueErrorView::NoInteger(text@),
            ValueError::MissingKey(key) => ValueErrorView::MissingKey(key@),
        }
    }
}

impl ValueErrorView {
    /// The text that describes the error.
    pub open spec fn message(self) -> Seq<char> {
        match self {
            ValueErrorView::NoBoolean(text) => "\""@ + text + "\" no boolean value"@,
            ValueErrorView::NoInteger(text) => "\""@ + text + "\" no integer value"@,
            ValueErrorView::MissingKey(key) => "key \""@ + key + "\" is missing"@,
        }
    }
}

impl ValueError {
    /// The text that describes the error.
    pub fn message(&self) -> (text: String)
        ensures
            text@ == self@.message(),
    {
        match self {
            ValueError::NoBoolean(value) => {
                let mut text = "\"".to_owned();
                text.append(value.as_str());
                text.append("\" no boolean value");
                text
            },
            ValueError::NoInteger(value) => {
                let mut text = "\"".to_owned();
                text.append(value.as_str());
                text.append("\" no integer value");
                text
            },
            ValueError::MissingKey(key) => {
                let mut text = "key \"".to_owned();
                text.append(key.as_str());
                text.append("\" is missing");
                text
            },
        }
    }
}

} // verus!
