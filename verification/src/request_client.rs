use vstd::prelude::*;

use crate::error::Error;
use crate::text::{
    from_utf8_lossy, last_piece, replace, spec_last_piece, spec_replace, string_from_utf8, utf8_lossy,
};
use vstd::utf8::*;

verus! {

/// The bytes of a response body, in the order they arrived.
pub struct Collector(pub Vec<u8>);

impl Collector {
    /// Appends a chunk of the body; returns how many bytes were taken (all).
    pub fn write(&mut self, data: &[u8]) -> (n: usize)
        ensures
            final(self).0@ == old(self).0@ + data@,
            n == data@.len(),
    {
        let ghost start = self.0@;
        for i in 0..data.len()
            invariant
                self.0@ == start + data@.take(i as int),
        {
            self.0.push(data[i]);
            assert(self.0@ =~= start + data@.take(i + 1));
        }
        assert(data@.take(data.len() as int) =~= data@);
        data.len()
    }

    /// The body as text; an error when it is not valid UTF-8.
    pub fn get_text(&self) -> (r: Result<String, Error>)
        ensures
            r is Ok <==> valid_utf8(self.0@),
            r matches Ok(s) ==> s@ == decode_utf8(self.0@),
            r matches Err(e) ==> e == Error::InvalidUtf8,
    {
        let mut bytes: Vec<u8> = Vec::new();
        for i in 0..self.0.len()
            invariant
                bytes@ == self.0@.take(i as int),
        {
            bytes.push(self.0[i]);
            assert(bytes@ =~= self.0@.take(i + 1));
        }
        assert(bytes@ =~= self.0@);
        match string_from_utf8(bytes) {
            Ok(s) => Ok(s),
            Err(_) => Err(Error::InvalidUtf8),
        }
    }
}

/// The method of an HTTP request.
#[derive(Debug, Clone, Copy, PartialEq, Eq)]
pub enum HttpMethod {
    GET,
    POST,
    PUT,
    DELETE,
}

/// An HTTP request to be performed: where, with which extra headers,
/// which method and which body.
pub struct Request {
    pub url: String,
    pub headers: Option<Vec<String>>,
    pub method: HttpMethod,
    pub body: Option<Vec<u8>>,
}

/// The view of a `Request`.
pub struct RequestSpec {
    pub url: Seq<char>,
    pub headers: Option<Seq<Seq<char>>>,
    pub method: HttpMethod,
    pub body: Option<Seq<u8>>,
}

impl View for Request {
    type V = RequestSpec;

    open spec fn view(&self) -> RequestSpec {
        RequestSpec {
            url: self.url@,
            headers: match self.headers {
                Some(h) => Some(h.deep_view()),
                None => None,
            },
            method: self.method,
            body: match self.body {
                Some(b) => Some(b@),
                None => None,
            },
        }
    }
}

impl Request {
    /// A request with the given parts.
    pub fn new(url: String, headers: Option<Vec<String>>, method: HttpMethod, body: Option<Vec<u8>>) -> (r: Self)
        ensures
            r.url == url,
            r.headers == headers,
            r.method == method,
            r.body == body,
    {
        Request { url, headers, method, body }
    }
}

/// What a request sends as its body: the body of a `POST` or `PUT`; a
/// `GET` or `DELETE` sends none, whatever body it holds.
pub open spec fn spec_sent_body(r: RequestSpec) -> Option<Seq<u8>> {
    match r.method {
        HttpMethod::POST => r.body,
        HttpMethod::PUT => r.body,
        HttpMethod::GET => None,
        HttpMethod::DELETE => None,
    }
}

impl Request {
    /// The body this request sends (see `spec_sent_body`).
    pub fn sent_body(&self) -> (b: Option<&Vec<u8>>)
        ensures
            match b {
                Some(v) => spec_sent_body(self@) == Some(v@),
                None => spec_sent_body(self@) is None,
            },
    {
        match self.method {
            HttpMethod::POST | HttpMethod::PUT => match &self.body {
                Some(v) => Some(v),
                None => None,
            },
            HttpMethod::GET | HttpMethod::DELETE => None,
        }
    }
}

/// What a performed request gave back: whether it ran (or the
/// transfer's error text), the body, the cookies the transfer holds
/// (one raw line each) and the redirect target.
pub struct Reply {
    pub executed: Result<(), String>,
    pub data: Collector,
    pub cookies: Result<Vec<Vec<u8>>, String>,
    pub redirect: Result<Option<String>, String>,
}

/// The body of a reply as text, when it is valid UTF-8.
pub open spec fn body_text(r: Reply) -> Option<Seq<char>> {
    if valid_utf8(r.data.0@) {
        Some(decode_utf8(r.data.0@))
    } else {
        None
    }
}

/// The cookie a transfer holds, from its cookie list: the part of the last
/// line after its last `0<TAB>`, with each tab made `=`.
pub open spec fn spec_parse_cookie(list: Seq<Seq<u8>>) -> Result<Seq<char>, Error> {
    if list.len() == 0 {
        Err(Error::NoCookie)
    } else {
        Ok(spec_replace(spec_last_piece(utf8_lossy(list.last()), "0\t"@), "\t"@, "="@))
    }
}

/// The cookie a transfer holds, read from its cookie list (see
/// `spec_parse_cookie`).
pub fn cookie_from_lines(cookie_list: &Vec<Vec<u8>>) -> (r: Result<String, Error>)
    ensures
        match r {
            Ok(c) => spec_parse_cookie(cookie_list.deep_view()) == Ok::<Seq<char>, Error>(c@),
            Err(e) => spec_parse_cookie(cookie_list.deep_view()) == Err::<Seq<char>, Error>(e),
        },
{
    proof {
        reveal_strlit("0\t");
        reveal_strlit("\t");
    }
    let n = cookie_list.len();
    if n == 0 {
        return Err(Error::NoCookie);
    }
    let bytes = &cookie_list[n - 1];
    assert(cookie_list.deep_view().last() == bytes@);
    let cookie_string = from_utf8_lossy(bytes.as_slice());
    let piece = last_piece(cookie_string.as_str(), "0\t");
    Ok(replace(piece.as_str(), "\t", "="))
}

/// The redirect target of a reply: the transfer's error, the target, or
/// `NoRedirect` when there is none.
pub open spec fn spec_redirect_url(redirect: Result<Option<String>, String>) -> Result<Seq<char>, Error> {
    match redirect {
        Err(msg) => Err(Error::Transport(msg)),
        Ok(None) => Err(Error::NoRedirect),
        Ok(Some(u)) => Ok(u@),
    }
}

impl Reply {
    /// The redirect target of this reply.
    pub fn redirect_url(&self) -> (r: Result<String, Error>)
        ensures
            match (r, spec_redirect_url(self.redirect)) {
                (Ok(u), Ok(v)) => u@ == v,
                (Err(e), Err(f)) => e == f,
                _ => false,
            },
    {
        match &self.redirect {
            Err(msg) => Err(Error::Transport(msg.clone())),
            Ok(None) => Err(Error::NoRedirect),
            Ok(Some(u)) => Ok(u.clone()),
        }
    }
}


/// A cookie read from a cookie list holds no tab: each became `=`.
pub proof fn lemma_parsed_cookie_has_no_tab(list: Seq<Seq<u8>>)
    ensures
        spec_parse_cookie(list) matches Ok(c) ==> forall|j: int| 0 <= j < c.len() ==> c[j] != '\t',
{
    reveal_strlit("\t");
    reveal_strlit("=");
    if list.len() > 0 {
        let s = spec_last_piece(utf8_lossy(list.last()), "0\t"@);
        assert("\t"@ =~= seq!['\t']);
        crate::text::lemma_replace_removes_char(s, '\t', "="@);
    }
}

/// The UTF-8 bytes of a text, written into an empty collector, read back
/// as that text.
pub proof fn lemma_written_text_reads_back(empty: Collector, full: Collector, s: Seq<char>)
    requires
        empty.0@ == Seq::<u8>::empty(),
        full.0@ == empty.0@ + encode_utf8(s),
    ensures
        valid_utf8(full.0@),
        decode_utf8(full.0@) == s,
{
    assert(full.0@ =~= encode_utf8(s));
    encode_utf8_valid_utf8(s);
    encode_utf8_decode_utf8(s);
}

} // verus!
