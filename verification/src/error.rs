//! The error type shared by all fallible operations of the library.
use crate::text::{append_str, copy_string};
use vstd::prelude::*;

verus! {

/// The text `message: 'subject'`.
pub open spec fn subject_message(message: Seq<char>, subject: Seq<char>) -> Seq<char> {
    message + ": '"@ + subject + "'"@
}

/// A failure together with a human readable description.
#[derive(Debug, Clone)]
pub struct Error {
    message: String,
}

impl Error {
    /// Creates an error with the given `message`.
    pub fn new(message: &str) -> (e: Self)
        ensures
            e.text() == message@,
    {
        Error { message: message.to_owned() }
    }

    /// Creates an error of the form `message: 'subject'`.
    pub fn with_subject(message: &str, subject: &str) -> (e: Self)
        ensures
            e.text() == subject_message(message@, subject@),
    {
        let mut m = message.to_owned();
        append_str(&mut m, ": '");
        append_str(&mut m, subject);
        append_str(&mut m, "'");
        Error { message: m }
    }

    /// Creates an error holding the given owned `message`.
    pub fn from_string(message: String) -> (e: Self)
        ensures
            e.text() == message@,
    {
        Error { message }
    }

    /// The description of this error.
    pub closed spec fn text(&self) -> Seq<char> {
        self.message@
    }

    /// Returns the description of this error.
    pub fn to_string(&self) -> (s: String)
        ensures
            s@ == self.text(),
    {
        copy_string(&self.message)
    }
}

} // verus!
