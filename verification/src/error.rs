//! The one error type of the crate: a kind to branch on and a message to show.

use vstd::prelude::*;

use crate::text::concat3;

verus! {

/// What went wrong, by the part that a caller can act on.
#[derive(Clone, Copy, Debug, PartialEq, Eq, Structural)]
pub enum ErrorKind {
    /// A required value is missing, a field is malformed or a reference is unknown.
    Configuration,
    /// The server lacks a feature that the action needs.
    Capability,
    /// An entity has no owning scope although its statement needs one.
    MissingScope,
    /// A statement or a request failed.
    Execution,
    /// A test case could not be carried out as written.
    Case,
}

#[derive(Clone, Debug)]
pub struct KitError {
    pub kind: ErrorKind,
    pub message: String,
}

/// A `KitError` as contracts see it.
pub struct KitErrorView {
    pub kind: ErrorKind,
    pub message: Seq<char>,
}

impl View for KitError {
    type V = KitErrorView;

    open spec fn view(&self) -> KitErrorView {
        KitErrorView { kind: self.kind, message: self.message@ }
    }
}

impl KitError {
    pub fn new(kind: ErrorKind, message: String) -> (e: KitError)
        ensures
            e@ == (KitErrorView { kind, message: message@ }),
    {
        KitError { kind, message }
    }

    /// The message, as it is shown to the operator.
    pub fn to_text(&self) -> (s: String)
        ensures
            s@ == self@.message,
    {
        self.message.clone()
    }

    /// The same error with `context`, a colon and a space before its message.
    pub fn context(self, context: &str) -> (e: KitError)
        ensures
            e@ == with_context(self@, context@),
    {
        let message = concat3(context, ": ", self.message.as_str());
        KitError { kind: self.kind, message }
    }
}

pub open spec fn with_context(e: KitErrorView, context: Seq<char>) -> KitErrorView {
    KitErrorView { kind: e.kind, message: context + ": "@ + e.message }
}

pub open spec fn error_of(kind: ErrorKind, message: Seq<char>) -> KitErrorView {
    KitErrorView { kind, message }
}

} // verus!
