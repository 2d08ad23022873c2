//! Decoding of one connection's payload into a request.
use vstd::prelude::*;
use vstd::string::StringSliceAdditionalSpecFns;
use vstd::slice::{slice_subrange, slice_to_vec};
use crate::bytes::{
    after_first, line, matches_at, matches_here, nth_line, nth_word, opt_seq, same_bytes,
    split_after, word,
};

verus! {

/// What a request asks for, decided once from its method and path.
#[derive(Clone, Copy, Debug, PartialEq, Eq, Structural)]
pub enum Method {
    /// `POST /register-secret`: the origin hands its secret to the edge.
    Register,
    /// `GET` on any path.
    Get,
    /// `POST /upload`.
    PostUpload,
    /// Anything else.
    Other,
}

/// Why a payload could not be decoded.
#[derive(Clone, Copy, Debug, PartialEq, Eq, Structural)]
pub enum FrameError {
    MalformedRequest,
}

/// A decoded request.
pub struct Request {
    pub kind: Method,
    pub method: Vec<u8>,
    pub path: Vec<u8>,
    /// The secret that the frame declares in its leading signature line, if any.
    pub signature: Option<Vec<u8>>,
    pub body: Vec<u8>,
    /// For an upload, the name given on the frame's fourth line.
    pub upload_filename: Option<Vec<u8>>,
}

pub open spec fn signature_header() -> Seq<u8> {
    "X-Proxy-Signature".spec_bytes()
}

pub open spec fn header_separator() -> Seq<u8> {
    ": ".spec_bytes()
}

pub open spec fn blank_line() -> Seq<u8> {
    "\r\n\r\n".spec_bytes()
}

pub open spec fn register_path() -> Seq<u8> {
    "/register-secret".spec_bytes()
}

pub open spec fn upload_path() -> Seq<u8> {
    "/upload".spec_bytes()
}

pub open spec fn kind_of(method: Seq<u8>, path: Seq<u8>) -> Method {
    if method == "POST".spec_bytes() && path == register_path() {
        Method::Register
    } else if method == "GET".spec_bytes() {
        Method::Get
    } else if method == "POST".spec_bytes() && path == upload_path() {
        Method::PostUpload
    } else {
        Method::Other
    }
}

/// The frame opens with a signature header line.
pub open spec fn has_signature_line(raw: Seq<u8>) -> bool {
    matches_at(raw, signature_header(), 0)
}

/// The secret declared by the signature line: what follows its first `": "`.
pub open spec fn declared_signature(raw: Seq<u8>) -> Option<Seq<u8>> {
    if has_signature_line(raw) {
        match line(raw, 0) {
            Some(l) => after_first(l, header_separator()),
            None => None,
        }
    } else {
        None
    }
}

/// The request line: the first line, or the second after a signature line.
pub open spec fn request_line(raw: Seq<u8>) -> Option<Seq<u8>> {
    if has_signature_line(raw) {
        line(raw, 1)
    } else {
        line(raw, 0)
    }
}

/// Everything after the first blank line, verbatim.
pub open spec fn body_of(raw: Seq<u8>) -> Option<Seq<u8>> {
    after_first(raw, blank_line())
}

/// The frame has a request line with a method and a path, and a blank line.
pub open spec fn well_formed(raw: Seq<u8>) -> bool {
    &&& request_line(raw) matches Some(rl)
    &&& word(rl, 0) is Some
    &&& word(rl, 1) is Some
    &&& body_of(raw) is Some
}

pub open spec fn method_of(raw: Seq<u8>) -> Seq<u8> {
    word(request_line(raw)->0, 0)->0
}

pub open spec fn path_of(raw: Seq<u8>) -> Seq<u8> {
    word(request_line(raw)->0, 1)->0
}

/// For an upload, what follows the first `": "` of the frame's fourth line.
pub open spec fn upload_filename_of(raw: Seq<u8>) -> Option<Seq<u8>> {
    if kind_of(method_of(raw), path_of(raw)) == Method::PostUpload {
        match line(raw, 3) {
            Some(l) => after_first(l, header_separator()),
            None => None,
        }
    } else {
        None
    }
}

impl Request {
    /// `self` is what `raw` decodes to.
    pub open spec fn decodes(self, raw: Seq<u8>) -> bool {
        &&& self.method@ == method_of(raw)
        &&& self.path@ == path_of(raw)
        &&& self.kind == kind_of(self.method@, self.path@)
        &&& opt_seq(self.signature) == declared_signature(raw)
        &&& self.body@ == body_of(raw)->0
        &&& opt_seq(self.upload_filename) == upload_filename_of(raw)
    }
}

/// The kind of a request with this method and path.
pub fn classify(method: &[u8], path: &[u8]) -> (r: Method)
    ensures
        r == kind_of(method@, path@),
{
    let post = same_bytes(method, "POST".as_bytes());
    if post && same_bytes(path, "/register-secret".as_bytes()) {
        Method::Register
    } else if same_bytes(method, "GET".as_bytes()) {
        Method::Get
    } else if post && same_bytes(path, "/upload".as_bytes()) {
        Method::PostUpload
    } else {
        Method::Other
    }
}

/// What follows the first `": "` of line `k` of `raw`.
fn header_value(raw: &[u8], k: usize) -> (r: Option<Vec<u8>>)
    ensures
        opt_seq(r) == match line(raw@, k as nat) {
            Some(l) => after_first(l, header_separator()),
            None => None,
        },
{
    match nth_line(raw, k) {
        Some((a, b)) => split_after(slice_subrange(raw, a, b), ": ".as_bytes()),
        None => None,
    }
}

/// Decodes one connection's payload.
pub fn parse_request(raw: &[u8]) -> (r: Result<Request, FrameError>)
    ensures
        r is Ok <==> well_formed(raw@),
        r matches Ok(q) ==> q.decodes(raw@),
{
    let signed = matches_here(raw, "X-Proxy-Signature".as_bytes(), 0);
    let signature = if signed {
        header_value(raw, 0)
    } else {
        None
    };
    let (la, lb) = match nth_line(raw, if signed { 1 } else { 0 }) {
        Some(bounds) => bounds,
        None => return Err(FrameError::MalformedRequest),
    };
    let rl = slice_subrange(raw, la, lb);
    let (ma, mb) = match nth_word(rl, 0) {
        Some(bounds) => bounds,
        None => return Err(FrameError::MalformedRequest),
    };
    let (pa, pb) = match nth_word(rl, 1) {
        Some(bounds) => bounds,
        None => return Err(FrameError::MalformedRequest),
    };
    let body = match split_after(raw, "\r\n\r\n".as_bytes()) {
        Some(b) => b,
        None => return Err(FrameError::MalformedRequest),
    };
    let method = slice_to_vec(slice_subrange(rl, ma, mb));
    let path = slice_to_vec(slice_subrange(rl, pa, pb));
    let kind = classify(method.as_slice(), path.as_slice());
    let upload_filename = if kind == Method::PostUpload {
        header_value(raw, 3)
    } else {
        None
    };
    Ok(Request { kind, method, path, signature, body, upload_filename })
}

} // verus!
