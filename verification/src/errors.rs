//! Error values carrying a human-readable message, either owned or static.

use vstd::prelude::*;

verus! {

/// An error carrying an owned message string.
#[derive(Debug)]
pub struct ErrorString {
    msg: String,
}

impl ErrorString {
    /// The message, for contracts.
    pub closed spec fn msg_view(&self) -> Seq<char> {
        self.msg@
    }

    pub fn new(msg: String) -> (r: Box<Self>)
        ensures
            r.msg_view() == msg@,
    {
        Box::new(Self { msg })
    }

    /// The message the error was created with.
    pub fn message(&self) -> (r: &String)
        ensures
            r@ == self.msg_view(),
    {
        &self.msg
    }
}

/// An error carrying a static message string.
#[derive(Debug)]
pub struct ErrorStr {
    msg: &'static str,
}

impl ErrorStr {
    /// The message, for contracts.
    pub closed spec fn msg_view(&self) -> Seq<char> {
        self.msg@
    }

    pub fn new(msg: &'static str) -> (r: Box<Self>)
        ensures
            r.msg_view() == msg@,
    {
        Box::new(Self { msg })
    }

    /// The message the error was created with.
    pub fn message(&self) -> (r: &'static str)
        ensures
            r@ == self.msg_view(),
    {
        self.msg
    }
}

} // verus!
