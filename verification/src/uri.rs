//! The request-URI builder: composes a base service address with an encoded
//! command-query string into one request target.
//!
//! The base address is treated as an opaque string — host alone, or with a
//! scheme, a port or a path prefix. Composition only guarantees that
//! exactly one `/` stands between the base and the query part.

use vstd::prelude::*;

verus! {

/// How a base and an encoded query read once joined: exactly one `/`
/// between them, whether or not the base already ends in one.
pub open spec fn joined_uri(base: Seq<char>, query: Seq<char>) -> Seq<char> {
    if base.len() > 0 && base.last() == '/' {
        base + query
    } else {
        base + seq!['/'] + query
    }
}

/// A builder for the base part of a request target.
#[derive(Debug)]
pub struct URIBase {
    pub base: String,
}

impl URIBase {
    /// An empty base; fill it with [`URIBase::base_uri`].
    pub fn new() -> (r: URIBase)
        ensures
            r.base@ == Seq::<char>::empty(),
    {
        URIBase { base: String::new() }
    }

    /// Replaces the base with the given service address.
    pub fn base_uri(self, base: String) -> (r: URIBase)
        ensures
            r.base == base,
    {
        URIBase { base }
    }

    /// The base address as a string.
    pub fn build(self) -> (r: String)
        ensures
            r == self.base,
    {
        self.base
    }
}

/// One absolute request target, composed from a base address and an encoded
/// command-query string.
#[derive(Debug)]
pub struct RequestURI {
    pub uri: String,
}

impl RequestURI {
    /// Joins the base and the query with exactly one `/` between them.
    pub fn new(base: String, query: String) -> (r: RequestURI)
        ensures
            r.uri@ == joined_uri(base@, query@),
    {
        let mut out = base;
        let n = out.as_str().unicode_len();
        let ends_in_slash = if n > 0 {
            let c = out.as_str().get_char(n - 1);
            c == '/'
        } else {
            false
        };
        if !ends_in_slash {
            proof {
                reveal_strlit("/");
            }
            out.append("/");
        }
        out.append(query.as_str());
        proof {
            assert(out@ =~= joined_uri(base@, query@));
        }
        RequestURI { uri: out }
    }

    /// The composed request target.
    pub fn url(&self) -> (r: String)
        ensures
            r@ == self.uri@,
    {
        self.uri.clone()
    }
}

} // verus!
