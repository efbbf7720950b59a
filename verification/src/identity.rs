//! Identifiers and output values that calls carry through unchanged.

use vstd::prelude::*;

verus! {

/// The adapter on whose behalf a call is made.
#[derive(Debug, Clone, PartialEq, Eq)]
pub struct AdapterId {
    value: String,
}

impl View for AdapterId {
    type V = Seq<char>;

    closed spec fn view(&self) -> Seq<char> {
        self.value@
    }
}

impl AdapterId {
    pub fn new(value: &str) -> (id: AdapterId)
        ensures
            id@ == value@,
    {
        AdapterId { value: value.to_owned() }
    }

    pub fn as_str(&self) -> (value: &str)
        ensures
            value@ == self@,
    {
        self.value.as_str()
    }

    /// The same identifier again.
    pub fn copy(&self) -> (id: AdapterId)
        ensures
            id@ == self@,
    {
        AdapterId { value: self.value.clone() }
    }
}

/// The request that a call answers.
#[derive(Debug, Clone, PartialEq, Eq)]
pub struct RequestId {
    value: String,
}

impl View for RequestId {
    type V = Seq<char>;

    closed spec fn view(&self) -> Seq<char> {
        self.value@
    }
}

impl RequestId {
    pub fn new(value: &str) -> (id: RequestId)
        ensures
            id@ == value@,
    {
        RequestId { value: value.to_owned() }
    }

    pub fn as_str(&self) -> (value: &str)
        ensures
            value@ == self@,
    {
        self.value.as_str()
    }
}

/// The text that a call produced.
#[derive(Debug, Clone, PartialEq, Eq)]
pub struct InvokeOutput {
    text: String,
}

impl View for InvokeOutput {
    type V = Seq<char>;

    closed spec fn view(&self) -> Seq<char> {
        self.text@
    }
}

impl InvokeOutput {
    pub fn text(text: String) -> (output: InvokeOutput)
        ensures
            output@ == text@,
    {
        InvokeOutput { text }
    }

    pub fn as_str(&self) -> (text: &str)
        ensures
            text@ == self@,
    {
        self.text.as_str()
    }
}

} // verus!
