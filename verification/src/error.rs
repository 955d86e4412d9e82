//! What can go wrong, with enough detail to tell the cause.

use vstd::prelude::*;
use vstd::string::StringExecFns;
use crate::text::{decimal, push_decimal, push_digits};

verus! {

/// The families of failure that callers tell apart.
#[derive(Clone, Copy, Debug, PartialEq, Eq, Structural)]
pub enum ErrorKind {
    /// An action name that the registry does not know.
    InvalidAction,
    /// A field name outside the entry's schema, or one that may not be set.
    InvalidField,
    /// No row for the given key.
    NotFound,
    /// A change to an entry whose outcome is already recorded.
    Frozen,
    /// Input that breaks a rule of the interface.
    Validation,
    /// A failure of the row store, passed on.
    Storage,
}

/// What a validation error objects to.
#[derive(Debug, PartialEq, Eq)]
pub enum Invalid {
    /// A status outside the range that the operation takes.
    Status(i8),
    /// A negative token count.
    Tokens(i32),
    /// More action filters than one listing may carry; holds their number.
    TooManyActions(usize),
    /// An action filter that the registry does not know.
    UnknownAction(String),
}

/// A failure of one of the library's operations.
#[derive(Debug, PartialEq, Eq)]
pub enum Error {
    /// The action name has no code.
    InvalidAction(String),
    /// The field name is not one that the operation accepts.
    InvalidField(String),
    /// No row matches the key.
    NotFound,
    /// The entry has reached its outcome and takes no more changes.
    Frozen,
    /// The input breaks a rule of the interface.
    Validation(Invalid),
    /// A row came back with another number of columns than were asked for.
    RowShape { expected: usize, found: usize },
    /// The row store failed; holds its message.
    Storage(String),
}

impl Invalid {
    /// The text of the complaint.
    pub open spec fn text(self) -> Seq<char> {
        match self {
            Invalid::Status(s) => "invalid status, expected -1 or 1, got "@ + decimal(s as int),
            Invalid::Tokens(t) => "invalid tokens, expected 0 or more, got "@ + decimal(t as int),
            Invalid::TooManyActions(n) => "too many actions, expected at most 10, got "@ + decimal(
                n as int,
            ),
            Invalid::UnknownAction(name) => "invalid action "@ + name@,
        }
    }

    /// The complaint as a message for the caller.
    pub fn message(&self) -> (msg: String)
        ensures
            msg@ == self.text(),
    {
        match self {
            Invalid::Status(s) => {
                let mut msg = String::from_str("invalid status, expected -1 or 1, got ");
                push_decimal(&mut msg, *s as i64);
                msg
            },
            Invalid::Tokens(t) => {
                let mut msg = String::from_str("invalid tokens, expected 0 or more, got ");
                push_decimal(&mut msg, *t as i64);
                msg
            },
            Invalid::TooManyActions(n) => {
                let mut msg = String::from_str("too many actions, expected at most 10, got ");
                push_digits(&mut msg, *n as u64);
                msg
            },
            Invalid::UnknownAction(name) => {
                let mut msg = String::from_str("invalid action ");
                msg.append(name.as_str());
                msg
            },
        }
    }
}

impl Error {
    /// The family of the failure.
    pub open spec fn spec_kind(&self) -> ErrorKind {
        match *self {
            Error::InvalidAction(_) => ErrorKind::InvalidAction,
            Error::InvalidField(_) => ErrorKind::InvalidField,
            Error::NotFound => ErrorKind::NotFound,
            Error::Frozen => ErrorKind::Frozen,
            Error::Validation(_) => ErrorKind::Validation,
            Error::RowShape { .. } => ErrorKind::Storage,
            Error::Storage(_) => ErrorKind::Storage,
        }
    }

    /// The family of the failure.
    #[verifier::when_used_as_spec(spec_kind)]
    pub fn kind(&self) -> (k: ErrorKind)
        ensures
            k == self.spec_kind(),
    {
        match self {
            Error::InvalidAction(_) => ErrorKind::InvalidAction,
            Error::InvalidField(_) => ErrorKind::InvalidField,
            Error::NotFound => ErrorKind::NotFound,
            Error::Frozen => ErrorKind::Frozen,
            Error::Validation(_) => ErrorKind::Validation,
            Error::RowShape { .. } => ErrorKind::Storage,
            Error::Storage(_) => ErrorKind::Storage,
        }
    }

    /// The status code that a transport gives the failure: 404 where the row
    /// is missing, 500 where the store failed, 400 for what the caller sent.
    pub fn code(&self) -> (c: u16)
        ensures
            c == match self.spec_kind() {
                ErrorKind::NotFound => 404u16,
                ErrorKind::Storage => 500u16,
                _ => 400u16,
            },
    {
        match self {
            Error::NotFound => 404,
            Error::RowShape { .. } => 500,
            Error::Storage(_) => 500,
            _ => 400,
        }
    }

    /// The text of the failure.
    pub open spec fn text(self) -> Seq<char> {
        match self {
            Error::InvalidAction(name) => "invalid action "@ + name@,
            Error::InvalidField(name) => "Invalid field: "@ + name@,
            Error::NotFound => "log not found"@,
            Error::Frozen => "log is frozen"@,
            Error::Validation(what) => what.text(),
            Error::RowShape { expected, found } => "row has "@ + decimal(found as int)
                + " columns, expected "@ + decimal(expected as int),
            Error::Storage(msg) => msg@,
        }
    }

    /// The failure as a message for the caller.
    pub fn message(&self) -> (msg: String)
        ensures
            msg@ == self.text(),
    {
        match self {
            Error::InvalidAction(name) => {
                let mut msg = String::from_str("invalid action ");
                msg.append(name.as_str());
                msg
            },
            Error::InvalidField(name) => {
                let mut msg = String::from_str("Invalid field: ");
                msg.append(name.as_str());
                msg
            },
            Error::NotFound => String::from_str("log not found"),
            Error::Frozen => String::from_str("log is frozen"),
            Error::Validation(what) => what.message(),
            Error::RowShape { expected, found } => {
                let mut msg = String::from_str("row has ");
                push_digits(&mut msg, *found as u64);
                msg.append(" columns, expected ");
                push_digits(&mut msg, *expected as u64);
                msg
            },
            Error::Storage(msg) => msg.clone(),
        }
    }
}

} // verus!
