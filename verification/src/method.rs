//! The request methods that a route can be bound to.

use vstd::prelude::*;
use vstd::utf8::is_ascii_chars;

verus! {

/// A request method, or [`Method::Any`] for a route that answers every
/// method.
#[derive(Clone, Copy, Debug, PartialEq, Eq, Hash, Structural)]
pub enum Method {
    Options,
    Get,
    Post,
    Put,
    Delete,
    Head,
    Trace,
    Connect,
    Patch,
    Any,
}

impl Method {
    /// The token that stands for the method at the start of a route key:
    /// its upper-case name, or `*` for [`Method::Any`].
    pub open spec fn token(self) -> Seq<char> {
        match self {
            Method::Options => "OPTIONS"@,
            Method::Get => "GET"@,
            Method::Post => "POST"@,
            Method::Put => "PUT"@,
            Method::Delete => "DELETE"@,
            Method::Head => "HEAD"@,
            Method::Trace => "TRACE"@,
            Method::Connect => "CONNECT"@,
            Method::Patch => "PATCH"@,
            Method::Any => "*"@,
        }
    }

    /// The method's token as a string.
    pub fn as_str(self) -> (s: &'static str)
        ensures
            s@ == self.token(),
    {
        match self {
            Method::Options => "OPTIONS",
            Method::Get => "GET",
            Method::Post => "POST",
            Method::Put => "PUT",
            Method::Delete => "DELETE",
            Method::Head => "HEAD",
            Method::Trace => "TRACE",
            Method::Connect => "CONNECT",
            Method::Patch => "PATCH",
            Method::Any => "*",
        }
    }

    /// A token is between one and seven ASCII characters, so that it takes
    /// as many bytes as it has characters, and holds no slash.
    pub proof fn lemma_token(self)
        ensures
            1 <= self.token().len() <= 7,
            is_ascii_chars(self.token()),
            !self.token().contains('/'),
    {
        reveal_strlit("OPTIONS");
        reveal_strlit("GET");
        reveal_strlit("POST");
        reveal_strlit("PUT");
        reveal_strlit("DELETE");
        reveal_strlit("HEAD");
        reveal_strlit("TRACE");
        reveal_strlit("CONNECT");
        reveal_strlit("PATCH");
        reveal_strlit("*");
    }
}

/// Whether `s` is the token of some method.
pub open spec fn is_method_token(s: Seq<char>) -> bool {
    exists|m: Method| #[trigger] m.token() == s
}

} // verus!
