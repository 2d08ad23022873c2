//! The edge proxy: accepts registrations, and stamps and forwards everything else.
use vstd::prelude::*;
use vstd::slice::{slice_subrange, slice_to_vec};
use vstd::string::StringSliceAdditionalSpecFns;
use crate::bytes::{
    after_first, before_first, line, nth_line, opt_seq, push_all, push_decimal, same_bytes,
    split_after, split_before, strip_trailing_nul, trim_space, trimmed, without_trailing_nul,
    decimal,
};
use crate::frame::{
    blank_line, body_of, kind_of, method_of, parse_request, path_of, well_formed, Method,
    Request,
};
use crate::secret_cell::{installed, SecretCell};

verus! {

/// What the edge does with one client connection.
pub enum EdgeAction {
    /// Write these bytes back to the client.
    Reply(Vec<u8>),
    /// No secret is installed yet: answer service-unavailable, contact no origin.
    Unavailable,
    /// Dial the origin, write these bytes, and relay its answer to the client verbatim.
    Forward(Vec<u8>),
    /// A request of no relayable kind: drop it without a response.
    Ignore,
    /// The payload could not be decoded: abort the connection.
    Abort,
}

/// The address that forwarded requests name as their host.
pub open spec fn edge_host() -> Seq<u8> {
    "0.0.0.0:2006".spec_bytes()
}

pub open spec fn favicon_path() -> Seq<u8> {
    "/favicon.ico".spec_bytes()
}

/// The edge's answer to a successful registration.
pub open spec fn registered_ack() -> Seq<u8> {
    "HTTP/1.1 200 OK\r\n\r\n".spec_bytes()
}

/// The edge's answer to the cosmetic favicon request.
pub open spec fn no_content_reply() -> Seq<u8> {
    "HTTP/1.1 204 NO CONTENT\r\n\r\n".spec_bytes()
}

/// The secret carried by a registration body, without transport padding.
pub open spec fn registration_secret(body: Seq<u8>) -> Seq<u8> {
    strip_trailing_nul(trim_space(body))
}

/// `s` without its double quotes.
pub open spec fn without_quotes(s: Seq<u8>) -> Seq<u8>
    decreases s.len(),
{
    if s.len() == 0 {
        s
    } else if s.last() == 34u8 {
        without_quotes(s.drop_last())
    } else {
        without_quotes(s.drop_last()).push(s.last())
    }
}

/// The `k`-th piece of `s` split at each `sep`.
pub open spec fn piece(s: Seq<u8>, sep: Seq<u8>, k: nat) -> Option<Seq<u8>>
    decreases k,
{
    if k == 0 {
        match before_first(s, sep) {
            Some(p) => Some(p),
            None => Some(s),
        }
    } else {
        match after_first(s, sep) {
            Some(rest) => piece(rest, sep, (k - 1) as nat),
            None => None,
        }
    }
}

/// The file name of an upload body: on its second line, the third `"; "`-separated
/// field, after its `=`, without quotes.
pub open spec fn upload_name(body: Seq<u8>) -> Option<Seq<u8>> {
    match line(body, 1) {
        Some(l) => match piece(l, "; ".spec_bytes(), 2) {
            Some(p) => match after_first(p, "=".spec_bytes()) {
                Some(v) => Some(without_quotes(v)),
                None => None,
            },
            None => None,
        },
        None => None,
    }
}

/// The file content of an upload body: the first line after its blank line, without
/// padding.
pub open spec fn upload_content(body: Seq<u8>) -> Option<Seq<u8>> {
    match after_first(body, blank_line()) {
        Some(rest) => match before_first(rest, "\r\n".spec_bytes()) {
            Some(c) => Some(trim_space(strip_trailing_nul(c))),
            None => None,
        },
        None => None,
    }
}

/// Signature line and request line of a forwarded request, through its host header.
pub open spec fn signed_head(secret: Seq<u8>, method: Seq<u8>, path: Seq<u8>) -> Seq<u8> {
    "X-Proxy-Signature: ".spec_bytes() + secret + "\r\n".spec_bytes() + method + " ".spec_bytes()
        + path + " HTTP/1.1\r\nHost: ".spec_bytes() + edge_host()
}

/// A read request as the edge forwards it.
pub open spec fn forwarded_get(secret: Seq<u8>, method: Seq<u8>, path: Seq<u8>, body: Seq<u8>) -> Seq<u8> {
    signed_head(secret, method, path) + "\r\n\r\n".spec_bytes() + body
}

/// An upload as the edge forwards it, with its file name and content length.
pub open spec fn forwarded_upload(
    secret: Seq<u8>,
    method: Seq<u8>,
    path: Seq<u8>,
    name: Seq<u8>,
    content: Seq<u8>,
) -> Seq<u8> {
    signed_head(secret, method, path) + "\r\nFile-Name: ".spec_bytes() + name
        + "\r\nContent-Length: ".spec_bytes() + decimal(content.len()) + "\r\n\r\n".spec_bytes()
        + content
}

/// The cell's content after the edge handles `raw`: a registration installs its secret,
/// nothing else changes the cell.
pub open spec fn cell_after(cell: Option<Seq<u8>>, raw: Seq<u8>) -> Option<Seq<u8>> {
    if well_formed(raw) && kind_of(method_of(raw), path_of(raw)) == Method::Register {
        installed(cell, registration_secret(body_of(raw)->0))
    } else {
        cell
    }
}

/// A well-formed registration call.
pub open spec fn is_registration(raw: Seq<u8>) -> bool {
    well_formed(raw) && kind_of(method_of(raw), path_of(raw)) == Method::Register
}

/// The cell's content after the edge handles each of `frames` in order.
pub open spec fn cell_after_all(start: Option<Seq<u8>>, frames: Seq<Seq<u8>>) -> Option<Seq<u8>>
    decreases frames.len(),
{
    if frames.len() == 0 {
        start
    } else {
        cell_after(cell_after_all(start, frames.drop_last()), frames.last())
    }
}

/// Registrations always succeed and overwrite: after the edge handles any sequence of
/// payloads, its cell holds the secret of the latest registration among them.
pub proof fn lemma_latest_registration_wins(start: Option<Seq<u8>>, frames: Seq<Seq<u8>>, i: int)
    requires
        0 <= i < frames.len(),
        is_registration(frames[i]),
        forall|j: int| i < j < frames.len() ==> !is_registration(#[trigger] frames[j]),
    ensures
        cell_after_all(start, frames) == Some(registration_secret(body_of(frames[i])->0)),
    decreases frames.len(),
{
    if i < frames.len() - 1 {
        let init = frames.drop_last();
        assert forall|j: int| i < j < init.len() implies !is_registration(#[trigger] init[j]) by {
            assert(init[j] == frames[j]);
        }
        lemma_latest_registration_wins(start, init, i);
        assert(!is_registration(frames[frames.len() - 1]));
    }
}

/// Only registrations change the edge's secret: handling payloads none of which is a
/// registration leaves the cell as it was.
pub proof fn lemma_only_registrations_install(start: Option<Seq<u8>>, frames: Seq<Seq<u8>>)
    requires
        forall|j: int| 0 <= j < frames.len() ==> !is_registration(#[trigger] frames[j]),
    ensures
        cell_after_all(start, frames) == start,
    decreases frames.len(),
{
    if frames.len() > 0 {
        let init = frames.drop_last();
        assert forall|j: int| 0 <= j < init.len() implies !is_registration(#[trigger] init[j]) by {
            assert(init[j] == frames[j]);
        }
        lemma_only_registrations_install(start, init);
        assert(!is_registration(frames[frames.len() - 1]));
    }
}

/// `r` is what the edge does with `raw` while its cell holds `cell`.
pub open spec fn edge_decides(cell: Option<Seq<u8>>, raw: Seq<u8>, r: EdgeAction) -> bool {
    if !well_formed(raw) {
        r is Abort
    } else {
        let method = method_of(raw);
        let path = path_of(raw);
        let kind = kind_of(method, path);
        let body = body_of(raw)->0;
        if kind == Method::Register {
            r matches EdgeAction::Reply(b) && b@ == registered_ack()
        } else if kind == Method::Get && path == favicon_path() {
            r matches EdgeAction::Reply(b) && b@ == no_content_reply()
        } else if cell is None {
            r is Unavailable
        } else if kind == Method::Get {
            r matches EdgeAction::Forward(f) && f@ == forwarded_get(cell->0, method, path, body)
        } else if kind == Method::PostUpload {
            match (upload_name(body), upload_content(body)) {
                (Some(name), Some(content)) => r matches EdgeAction::Forward(f) && f@
                    == forwarded_upload(cell->0, method, path, name, content),
                _ => r is Abort,
            }
        } else {
            r is Ignore
        }
    }
}

/// Copy of `s` without its double quotes.
fn strip_quotes(s: &[u8]) -> (r: Vec<u8>)
    ensures
        r@ == without_quotes(s@),
{
    let mut out: Vec<u8> = Vec::new();
    let mut i: usize = 0;
    assert(s@.subrange(0, 0) =~= Seq::<u8>::empty());
    while i < s.len()
        invariant
            i <= s@.len(),
            out@ == without_quotes(s@.subrange(0, i as int)),
        decreases s@.len() - i,
    {
        assert(s@.subrange(0, i + 1).drop_last() =~= s@.subrange(0, i as int));
        if s[i] != 34 {
            out.push(s[i]);
        }
        i = i + 1;
    }
    assert(s@.subrange(0, s@.len() as int) =~= s@);
    out
}

/// Copy of the `k`-th piece of `s` split at each `sep`.
fn nth_piece(s: &[u8], sep: &[u8], k: usize) -> (r: Option<Vec<u8>>)
    ensures
        opt_seq(r) == piece(s@, sep@, k as nat),
{
    let mut cur: Vec<u8> = slice_to_vec(s);
    let mut j: usize = 0;
    loop
        invariant
            j <= k,
            piece(s@, sep@, k as nat) == piece(cur@, sep@, (k - j) as nat),
        decreases k - j,
    {
        if j == k {
            return match split_before(cur.as_slice(), sep) {
                Some(p) => Some(p),
                None => Some(cur),
            };
        }
        match split_after(cur.as_slice(), sep) {
            Some(rest) => {
                cur = rest;
            },
            None => return None,
        }
        j = j + 1;
    }
}

/// The file name that an upload body declares.
pub fn extract_upload_name(body: &[u8]) -> (r: Option<Vec<u8>>)
    ensures
        opt_seq(r) == upload_name(body@),
{
    let (a, b) = match nth_line(body, 1) {
        Some(bounds) => bounds,
        None => return None,
    };
    let p = match nth_piece(slice_subrange(body, a, b), "; ".as_bytes(), 2) {
        Some(p) => p,
        None => return None,
    };
    match split_after(p.as_slice(), "=".as_bytes()) {
        Some(v) => Some(strip_quotes(v.as_slice())),
        None => None,
    }
}

/// The file content that an upload body carries.
pub fn extract_upload_content(body: &[u8]) -> (r: Option<Vec<u8>>)
    ensures
        opt_seq(r) == upload_content(body@),
{
    let rest = match split_after(body, "\r\n\r\n".as_bytes()) {
        Some(rest) => rest,
        None => return None,
    };
    match split_before(rest.as_slice(), "\r\n".as_bytes()) {
        Some(c) => {
            let c = without_trailing_nul(c.as_slice());
            Some(trimmed(c.as_slice()))
        },
        None => None,
    }
}

fn signed_head_bytes(secret: &[u8], method: &[u8], path: &[u8]) -> (r: Vec<u8>)
    ensures
        r@ == signed_head(secret@, method@, path@),
{
    let mut out: Vec<u8> = Vec::new();
    push_all(&mut out, "X-Proxy-Signature: ".as_bytes());
    push_all(&mut out, secret);
    push_all(&mut out, "\r\n".as_bytes());
    push_all(&mut out, method);
    push_all(&mut out, " ".as_bytes());
    push_all(&mut out, path);
    push_all(&mut out, " HTTP/1.1\r\nHost: ".as_bytes());
    push_all(&mut out, "0.0.0.0:2006".as_bytes());
    assert(out@ =~= signed_head(secret@, method@, path@));
    out
}

/// The request forwarded to the origin for a read.
pub fn forward_get(secret: &[u8], method: &[u8], path: &[u8], body: &[u8]) -> (r: Vec<u8>)
    ensures
        r@ == forwarded_get(secret@, method@, path@, body@),
{
    let mut out = signed_head_bytes(secret, method, path);
    push_all(&mut out, "\r\n\r\n".as_bytes());
    push_all(&mut out, body);
    out
}

/// The request forwarded to the origin for an upload.
pub fn forward_upload(secret: &[u8], method: &[u8], path: &[u8], name: &[u8], content: &[u8]) -> (r: Vec<u8>)
    ensures
        r@ == forwarded_upload(secret@, method@, path@, name@, content@),
{
    let mut out = signed_head_bytes(secret, method, path);
    push_all(&mut out, "\r\nFile-Name: ".as_bytes());
    push_all(&mut out, name);
    push_all(&mut out, "\r\nContent-Length: ".as_bytes());
    push_decimal(&mut out, content.len());
    push_all(&mut out, "\r\n\r\n".as_bytes());
    push_all(&mut out, content);
    out
}

/// What the edge does with a decoded request that is not a registration, given the
/// secret installed at the moment it was read.
pub fn plan_forward(req: &Request, secret: Option<Vec<u8>>) -> (r: EdgeAction)
    requires
        req.kind == kind_of(req.method@, req.path@),
        req.kind != Method::Register,
    ensures
        edge_decides_request(opt_seq(secret), *req, r),
{
    if req.kind == Method::Get && same_bytes(req.path.as_slice(), "/favicon.ico".as_bytes()) {
        return EdgeAction::Reply(slice_to_vec("HTTP/1.1 204 NO CONTENT\r\n\r\n".as_bytes()));
    }
    let secret = match secret {
        Some(s) => s,
        None => return EdgeAction::Unavailable,
    };
    match req.kind {
        Method::Get => EdgeAction::Forward(
            forward_get(secret.as_slice(), req.method.as_slice(), req.path.as_slice(), req.body.as_slice()),
        ),
        Method::PostUpload => {
            let name = extract_upload_name(req.body.as_slice());
            let content = extract_upload_content(req.body.as_slice());
            match (name, content) {
                (Some(name), Some(content)) => EdgeAction::Forward(
                    forward_upload(
                        secret.as_slice(),
                        req.method.as_slice(),
                        req.path.as_slice(),
                        name.as_slice(),
                        content.as_slice(),
                    ),
                ),
                _ => EdgeAction::Abort,
            }
        },
        _ => EdgeAction::Ignore,
    }
}

/// The part of `edge_decides` that follows decoding, for a request that is not a
/// registration.
pub open spec fn edge_decides_request(cell: Option<Seq<u8>>, req: Request, r: EdgeAction) -> bool {
    let method = req.method@;
    let path = req.path@;
    let kind = req.kind;
    let body = req.body@;
    if kind == Method::Get && path == favicon_path() {
        r matches EdgeAction::Reply(b) && b@ == no_content_reply()
    } else if cell is None {
        r is Unavailable
    } else if kind == Method::Get {
        r matches EdgeAction::Forward(f) && f@ == forwarded_get(cell->0, method, path, body)
    } else if kind == Method::PostUpload {
        match (upload_name(body), upload_content(body)) {
            (Some(name), Some(content)) => r matches EdgeAction::Forward(f) && f@
                == forwarded_upload(cell->0, method, path, name, content),
            _ => r is Abort,
        }
    } else {
        r is Ignore
    }
}

/// Handles one client payload against the edge's secret cell.
pub fn handle_edge(cell: &mut SecretCell, raw: &[u8]) -> (r: EdgeAction)
    ensures
        final(cell)@ == cell_after(old(cell)@, raw@),
        edge_decides(old(cell)@, raw@, r),
        old(cell)@ is None ==> !(r is Forward),
        old(cell)@ is None && well_formed(raw@) && kind_of(method_of(raw@), path_of(raw@))
            != Method::Register && path_of(raw@) != favicon_path() ==> r is Unavailable,
{
    let req = match parse_request(raw) {
        Ok(q) => q,
        Err(_) => return EdgeAction::Abort,
    };
    if req.kind == Method::Register {
        cell.install(registration_secret_of(req.body.as_slice()));
        return EdgeAction::Reply(slice_to_vec("HTTP/1.1 200 OK\r\n\r\n".as_bytes()));
    }
    plan_forward(&req, cell.read_snapshot())
}

/// The secret that a registration body carries.
pub fn registration_secret_of(body: &[u8]) -> (r: Vec<u8>)
    ensures
        r@ == registration_secret(body@),
{
    let t = trimmed(body);
    without_trailing_nul(t.as_slice())
}

} // verus!
