//! The parts of a request that routing reads: method, path, host, scheme
//! and headers.
use vstd::prelude::*;

use crate::text::{same_text};

verus! {

/// The name that `http::header::HeaderName::from_bytes` makes of a header
/// name: its normalized (lower-case) form, or `None` for an invalid name.
pub uninterp spec fn header_name_of(name: Seq<u8>) -> Option<Seq<char>>;

/// The longest header name `http::header::HeaderName::from_bytes` takes
/// without panicking is one byte shorter than this.
pub const MAX_HEADER_NAME_LEN: usize = 65536;

/// The normalized form of a header name, or `None` for an invalid name or
/// one too long to parse.
pub open spec fn header_name_spec(name: Seq<char>) -> Option<Seq<char>> {
    if crate::text::bytes_of(name).len() < MAX_HEADER_NAME_LEN {
        header_name_of(crate::text::bytes_of(name))
    } else {
        None
    }
}

/// Relies on `http::header::HeaderName::from_bytes`, which validates and
/// normalizes a header name shorter than 65536 bytes (it panics on longer
/// ones); `as_str` gives the normalized text.
#[verifier::external_body]
fn normalize_header_name(name: &str) -> (r: Option<String>)
    requires
        crate::text::bytes_of(name@).len() < MAX_HEADER_NAME_LEN,
    ensures
        match header_name_of(crate::text::bytes_of(name@)) {
            Some(n) => r matches Some(s) && s@ == n,
            None => r is None,
        },
{
    match http::header::HeaderName::from_bytes(name.as_bytes()) {
        Ok(h) => Some(h.as_str().to_string()),
        Err(_) => None,
    }
}

/// An HTTP method.
#[derive(Debug, Clone, Copy, PartialEq, Eq, Structural)]
pub enum Method {
    Get,
    Post,
    Put,
    Delete,
    Head,
    Options,
    Connect,
    Patch,
    Trace,
}

/// What a request head holds, as values.
pub struct RequestModel {
    pub method: Method,
    pub path: Seq<char>,
    pub host: Seq<char>,
    pub scheme: Seq<char>,
    pub headers: Seq<(Seq<char>, Seq<char>)>,
}

/// The value of the first header named `name` at or after `from`.
pub open spec fn header_from(headers: Seq<(Seq<char>, Seq<char>)>, name: Seq<char>, from: int) -> Option<
    Seq<char>,
>
    decreases headers.len() - from,
{
    if from < 0 || from >= headers.len() {
        None
    } else if headers[from].0 == name {
        Some(headers[from].1)
    } else {
        header_from(headers, name, from + 1)
    }
}

/// The request line and headers of a request.
pub struct RequestHead {
    method: Method,
    path: String,
    host: String,
    scheme: String,
    headers: Vec<(String, String)>,
}

impl View for RequestHead {
    type V = RequestModel;

    closed spec fn view(&self) -> RequestModel {
        RequestModel {
            method: self.method,
            path: self.path@,
            host: self.host@,
            scheme: self.scheme@,
            headers: self.headers@.map_values(|h: (String, String)| (h.0@, h.1@)),
        }
    }
}

proof fn lemma_header_skip(headers: Seq<(Seq<char>, Seq<char>)>, name: Seq<char>, i: int)
    requires
        0 <= i <= headers.len(),
        forall|j: int| 0 <= j < i ==> headers[j].0 != name,
    ensures
        header_from(headers, name, 0) == header_from(headers, name, i),
    decreases i,
{
    if i > 0 {
        lemma_header_skip(headers, name, i - 1);
    }
}

impl RequestHead {
    /// A request head without headers.
    pub fn new(method: Method, path: &str, host: &str, scheme: &str) -> (r: RequestHead)
        ensures
            r@ == (RequestModel {
                method,
                path: path@,
                host: host@,
                scheme: scheme@,
                headers: Seq::empty(),
            }),
    {
        let r = RequestHead {
            method,
            path: path.to_owned(),
            host: host.to_owned(),
            scheme: scheme.to_owned(),
            headers: Vec::new(),
        };
        proof {
            assert(r@.headers =~= Seq::empty());
        }
        r
    }

    /// Adds a header, its name normalized; `false`, with nothing added, for
    /// an invalid or overlong name.
    pub fn insert_header(&mut self, name: &str, value: &str) -> (r: bool)
        ensures
            r == (header_name_spec(name@) is Some),
            r ==> final(self)@ == (RequestModel {
                headers: old(self)@.headers.push((header_name_spec(name@)->Some_0, value@)),
                ..old(self)@
            }),
            !r ==> final(self)@ == old(self)@,
    {
        match header_name(name) {
            Some(n) => {
                self.headers.push((n, value.to_owned()));
                proof {
                    assert(self@.headers =~= old(self)@.headers.push(
                        (header_name_spec(name@)->Some_0, value@),
                    ));
                }
                true
            },
            None => false,
        }
    }

    /// The method.
    pub fn method(&self) -> (r: Method)
        ensures
            r == self@.method,
    {
        self.method
    }

    /// The path.
    pub fn path(&self) -> (r: &str)
        ensures
            r@ == self@.path,
    {
        self.path.as_str()
    }

    /// The host.
    pub fn host(&self) -> (r: &str)
        ensures
            r@ == self@.host,
    {
        self.host.as_str()
    }

    /// The scheme.
    pub fn scheme(&self) -> (r: &str)
        ensures
            r@ == self@.scheme,
    {
        self.scheme.as_str()
    }

    /// The value of the first header with the given (normalized) name.
    pub fn header(&self, name: &str) -> (r: Option<&str>)
        ensures
            match header_from(self@.headers, name@, 0) {
                Some(v) => r matches Some(s) && s@ == v,
                None => r is None,
            },
    {
        let mut i: usize = 0;
        while i < self.headers.len()
            invariant
                i <= self@.headers.len(),
                forall|j: int| 0 <= j < i ==> self@.headers[j].0 != name@,
            decreases self@.headers.len() - i,
        {
            if same_text(self.headers[i].0.as_str(), name) {
                proof {
                    lemma_header_skip(self@.headers, name@, i as int);
                }
                return Some(self.headers[i].1.as_str());
            }
            i = i + 1;
        }
        proof {
            lemma_header_skip(self@.headers, name@, i as int);
        }
        None
    }
}

/// The normalized form of a header name, or `None` for an invalid or
/// overlong name.
pub fn header_name(name: &str) -> (r: Option<String>)
    ensures
        match header_name_spec(name@) {
            Some(n) => r matches Some(s) && s@ == n,
            None => r is None,
        },
{
    if crate::text::byte_len(name) >= MAX_HEADER_NAME_LEN {
        return None;
    }
    normalize_header_name(name)
}

} // verus!
