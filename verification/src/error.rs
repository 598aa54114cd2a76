//! Crate-wide error type.
use vstd::prelude::*;

use crate::text::cat2;

verus! {

/// The top-level error type for the server.
#[derive(Debug, Clone, PartialEq, Eq)]
pub enum Error {
    /// A lower-level I/O failure, as its display text.
    Io(String),
    /// The client sent a malformed or unexpected protocol packet.
    Protocol(String),
    /// Authentication failed for a connecting client.
    Auth(String),
    /// A query could not be parsed.
    Parse(String),
    /// A query failed during execution.
    Execution(String),
    /// A feature that has not been implemented yet was requested.
    Unsupported(&'static str),
}

/// The mathematical content of an [`Error`]: its kind and its text.
pub ghost enum ErrorV {
    Io(Seq<char>),
    Protocol(Seq<char>),
    Auth(Seq<char>),
    Parse(Seq<char>),
    Execution(Seq<char>),
    Unsupported(Seq<char>),
}

impl View for Error {
    type V = ErrorV;

    open spec fn view(&self) -> ErrorV {
        match self {
            Error::Io(m) => ErrorV::Io(m@),
            Error::Protocol(m) => ErrorV::Protocol(m@),
            Error::Auth(m) => ErrorV::Auth(m@),
            Error::Parse(m) => ErrorV::Parse(m@),
            Error::Execution(m) => ErrorV::Execution(m@),
            Error::Unsupported(m) => ErrorV::Unsupported(m@),
        }
    }
}

impl ErrorV {
    /// The text an operator sees for this error.
    pub open spec fn text(self) -> Seq<char> {
        match self {
            ErrorV::Io(m) => "io error: "@ + m,
            ErrorV::Protocol(m) => "protocol error: "@ + m,
            ErrorV::Auth(m) => "authentication error: "@ + m,
            ErrorV::Parse(m) => "parse error: "@ + m,
            ErrorV::Execution(m) => "execution error: "@ + m,
            ErrorV::Unsupported(m) => "unsupported: "@ + m,
        }
    }
}

/// A result seen mathematically, for payloads that are already mathematical.
pub open spec fn outcome<T: View>(r: Result<T, Error>) -> Result<T::V, ErrorV> {
    match r {
        Ok(v) => Ok(v@),
        Err(e) => Err(e@),
    }
}

impl Error {
    /// Render the error for a human: its kind, then its message.
    pub fn to_text(&self) -> (r: String)
        ensures
            r@ == self@.text(),
    {
        match self {
            Error::Io(m) => cat2("io error: ", m.as_str()),
            Error::Protocol(m) => cat2("protocol error: ", m.as_str()),
            Error::Auth(m) => cat2("authentication error: ", m.as_str()),
            Error::Parse(m) => cat2("parse error: ", m.as_str()),
            Error::Execution(m) => cat2("execution error: ", m.as_str()),
            Error::Unsupported(m) => cat2("unsupported: ", m),
        }
    }
}

/// The text of an error ends with its message, behind a `:` and a blank, and
/// errors of different kinds with one message have different texts.
pub proof fn law_texts_tell_errors_apart(a: ErrorV, b: ErrorV, m: Seq<char>)
    requires
        a == ErrorV::Io(m) || a == ErrorV::Protocol(m) || a == ErrorV::Auth(m) || a == ErrorV::Parse(
            m,
        ) || a == ErrorV::Execution(m) || a == ErrorV::Unsupported(m),
        b == ErrorV::Io(m) || b == ErrorV::Protocol(m) || b == ErrorV::Auth(m) || b == ErrorV::Parse(
            m,
        ) || b == ErrorV::Execution(m) || b == ErrorV::Unsupported(m),
    ensures
        ({
            let n = a.text().len();
            &&& n >= m.len() + 2
            &&& a.text().subrange(n - m.len(), n as int) == m
            &&& a.text()[n - m.len() - 1] == ' '
            &&& a.text()[n - m.len() - 2] == ':'
        }),
        a != b ==> a.text() != b.text(),
{
    reveal_strlit("io error: ");
    reveal_strlit("protocol error: ");
    reveal_strlit("authentication error: ");
    reveal_strlit("parse error: ");
    reveal_strlit("execution error: ");
    reveal_strlit("unsupported: ");
    let n = a.text().len();
    assert(a.text().subrange(n - m.len(), n as int) =~= m);
    assert("io error: "@.len() == 10 && "protocol error: "@.len() == 16);
    assert("authentication error: "@.len() == 22 && "parse error: "@.len() == 13);
    assert("execution error: "@.len() == 17 && "unsupported: "@.len() == 13);
    if a != b {
        if a is Parse || a is Unsupported {
            assert(a.text()[0] == (if a is Parse {
                'p'
            } else {
                'u'
            }));
            assert(b is Parse ==> b.text()[0] == 'p');
            assert(b is Unsupported ==> b.text()[0] == 'u');
        }
    }
}

} // verus!
