//! The error taxonomy: one closed result channel shared by every fallible
//! storage operation.
//!
//! Every operation of the storage contract reports failure through this one
//! enum. Most variants are recoverable at the session level; corrupt-file and
//! I/O failures may leave a backend permanently unusable, and callers can ask
//! a value whether it is of that fatal kind.

use vstd::prelude::*;

verus! {

/// The closed set of failure kinds of the storage contract.
///
/// - `Misc`: a state or argument error (for example, mutating without a
///   prepared collection); always recoverable, the session state is unchanged.
/// - `CorruptFile`: persisted data failed an integrity check; the payload is a
///   diagnostic label naming the suspected cause. May be fatal to the session.
/// - `Bson`: a document was malformed; recoverable, treated like bad input.
/// - `Io`: the underlying storage medium failed; carries the medium's message.
/// - `Utf8`: text inside a document was not valid UTF-8; recoverable.
/// - `Whatever`: a backend-specific failure, propagated opaquely.
#[derive(Debug)]
pub enum Error {
    Misc(&'static str),
    CorruptFile(&'static str),
    Bson(String),
    Io(String),
    Utf8(String),
    Whatever(String),
}

impl Error {
    /// Whether this failure kind may render the session permanently unusable.
    /// Only corrupt persisted state and medium failures are fatal; every other
    /// kind leaves the session usable.
    pub fn is_fatal(&self) -> (r: bool)
        ensures
            r == (self is CorruptFile || self is Io),
    {
        match self {
            Error::CorruptFile(_) => true,
            Error::Io(_) => true,
            _ => false,
        }
    }

    /// The human-readable message carried by the error.
    pub fn message(&self) -> (r: String)
        ensures
            r@ == self.spec_message(),
    {
        match self {
            Error::Misc(m) => (*m).to_owned(),
            Error::CorruptFile(m) => (*m).to_owned(),
            Error::Bson(m) => m.clone(),
            Error::Io(m) => m.clone(),
            Error::Utf8(m) => m.clone(),
            Error::Whatever(m) => m.clone(),
        }
    }

    /// The message of each variant, as a sequence of characters.
    pub open spec fn spec_message(&self) -> Seq<char> {
        match self {
            Error::Misc(m) => m@,
            Error::CorruptFile(m) => m@,
            Error::Bson(m) => m@,
            Error::Io(m) => m@,
            Error::Utf8(m) => m@,
            Error::Whatever(m) => m@,
        }
    }
}

} // verus!
