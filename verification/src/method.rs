//! The HTTP method of a captured request, kept as its token text. A method
//! is accepted exactly when it is a non-empty RFC 7230 token, the check an
//! HTTP request line must itself have passed.

use crate::text::{is_digit, str_eq};
use vstd::prelude::*;
use vstd::string::StrSliceExecFns;
use vstd::string::StringExecFns;

verus! {

/// An RFC 7230 `tchar`: the characters allowed in an HTTP method token.
pub open spec fn is_tchar(c: char) -> bool {
    ('a' <= c && c <= 'z') || ('A' <= c && c <= 'Z') || is_digit(c) || c == '!' || c == '#' || c
        == '$' || c == '%' || c == '&' || c == '\'' || c == '*' || c == '+' || c == '-' || c == '.'
        || c == '^' || c == '_' || c == '`' || c == '|' || c == '~'
}

/// A valid method token: non-empty, all token characters.
pub open spec fn valid_token(s: Seq<char>) -> bool {
    s.len() > 0 && forall|i: int| 0 <= i < s.len() ==> is_tchar(#[trigger] s[i])
}

/// An HTTP method, held as its token.
#[derive(Clone, Debug)]
pub struct Method {
    token: String,
}

impl View for Method {
    type V = Seq<char>;

    closed spec fn view(&self) -> Seq<char> {
        self.token@
    }
}

pub fn is_tchar_exec(c: char) -> (b: bool)
    ensures
        b == is_tchar(c),
{
    ('a' <= c && c <= 'z') || ('A' <= c && c <= 'Z') || ('0' <= c && c <= '9') || c == '!' || c
        == '#' || c == '$' || c == '%' || c == '&' || c == '\'' || c == '*' || c == '+' || c == '-'
        || c == '.' || c == '^' || c == '_' || c == '`' || c == '|' || c == '~'
}

impl Method {
    /// Accepts a token exactly when it is a valid HTTP method token.
    pub fn from_token(token: String) -> (r: Option<Method>)
        ensures
            match r {
                Some(m) => valid_token(token@) && m@ == token@,
                None => !valid_token(token@),
            },
    {
        let n = token.as_str().unicode_len();
        if n == 0 {
            return None;
        }
        let mut i: usize = 0;
        while i < n
            invariant
                0 <= i <= n,
                n == token@.len(),
                forall|k: int| 0 <= k < i ==> is_tchar(#[trigger] token@[k]),
            decreases n - i,
        {
            if !is_tchar_exec(token.as_str().get_char(i)) {
                return None;
            }
            i = i + 1;
        }
        Some(Method { token })
    }

    pub fn as_str(&self) -> (r: &str)
        ensures
            r@ == self@,
    {
        self.token.as_str()
    }

    pub fn token_string(&self) -> (r: String)
        ensures
            r@ == self@,
    {
        self.token.clone()
    }

    /// The dashboard badge colour class for this method.
    pub fn color_class(&self) -> (r: String)
        ensures
            r@ == spec_color_class(self@),
    {
        let s = self.token.as_str();
        let c = if str_eq(s, "GET") {
            "bg-primary"
        } else if str_eq(s, "POST") {
            "bg-danger"
        } else if str_eq(s, "PATCH") {
            "bg-success"
        } else if str_eq(s, "PUT") {
            "bg-info"
        } else if str_eq(s, "OPTIONS") {
            "bg-warning"
        } else {
            "bg-secondary"
        };
        String::from_str(c)
    }
}

/// The badge colour drawn for each method on the dashboard.
pub open spec fn spec_color_class(m: Seq<char>) -> Seq<char> {
    if m == "GET"@ {
        "bg-primary"@
    } else if m == "POST"@ {
        "bg-danger"@
    } else if m == "PATCH"@ {
        "bg-success"@
    } else if m == "PUT"@ {
        "bg-info"@
    } else if m == "OPTIONS"@ {
        "bg-warning"@
    } else {
        "bg-secondary"@
    }
}

} // verus!
