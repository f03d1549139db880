//! What can go wrong while reading a character.
use vstd::prelude::*;

verus! {

/// A reader's complaint, with its message.
#[derive(Debug)]
pub enum Error {
    /// The data breaks the format it claims to follow.
    Parse(String),
    /// The data follows a format that is not handled.
    Unsupported(String),
    /// The data could not be read.
    Io(String),
}

/// [`Error`] with its message as a sequence of characters.
pub enum Fault {
    Parse(Seq<char>),
    Unsupported(Seq<char>),
    Io(Seq<char>),
}

impl Fault {
    /// The message alone.
    pub open spec fn message(self) -> Seq<char> {
        match self {
            Fault::Parse(m) => m,
            Fault::Unsupported(m) => m,
            Fault::Io(m) => m,
        }
    }
}

impl View for Error {
    type V = Fault;

    open spec fn view(&self) -> Fault {
        match self {
            Error::Parse(m) => Fault::Parse(m@),
            Error::Unsupported(m) => Fault::Unsupported(m@),
            Error::Io(m) => Fault::Io(m@),
        }
    }
}

impl Error {
    /// A parse error with this message.
    pub fn parse(message: &str) -> (e: Error)
        ensures
            e@ == Fault::Parse(message@),
    {
        Error::Parse(message.to_owned())
    }

    /// The same complaint once more.
    pub fn copy(&self) -> (e: Error)
        ensures
            e@ == self@,
    {
        match self {
            Error::Parse(m) => Error::Parse(m.as_str().to_owned()),
            Error::Unsupported(m) => Error::Unsupported(m.as_str().to_owned()),
            Error::Io(m) => Error::Io(m.as_str().to_owned()),
        }
    }

    /// The message as shown to the user.
    pub fn message(&self) -> (r: &str)
        ensures
            r@ == self@.message(),
    {
        match self {
            Error::Parse(m) => m.as_str(),
            Error::Unsupported(m) => m.as_str(),
            Error::Io(m) => m.as_str(),
        }
    }
}

/// What is complained of is told in the words of the complaint, whatever its sort.
pub proof fn complaints_are_told_as_they_are(e: &Error, shown: &str)
    requires
        call_ensures(Error::message, (e,), shown),
    ensures
        match e {
            Error::Parse(m) => shown@ == m@ && e@ == Fault::Parse(m@),
            Error::Unsupported(m) => shown@ == m@ && e@ == Fault::Unsupported(m@),
            Error::Io(m) => shown@ == m@ && e@ == Fault::Io(m@),
        },
{
}

} // verus!
