//! The origin: authenticates each request by its declared signature, then routes it.
use vstd::prelude::*;
use vstd::slice::{slice_subrange, slice_to_vec};
use vstd::string::StringSliceAdditionalSpecFns;
use crate::bytes::{
    after_first, find, find_from, opt_seq, same_bytes, split_after, strip_trailing_nul,
    without_trailing_nul,
};
use crate::frame::{
    body_of, declared_signature, kind_of, method_of, parse_request, path_of, upload_filename_of,
    well_formed, Method, Request,
};

verus! {

/// The directory a requested file is looked up in.
#[derive(Clone, Copy, Debug, PartialEq, Eq, Structural)]
pub enum Folder {
    Pages,
    Data,
}

#[derive(Clone, Copy, Debug, PartialEq, Eq, Structural)]
pub enum ContentType {
    Html,
    Css,
    Jpeg,
    Png,
}

/// How the found file becomes the response body.
#[derive(Clone, Copy, Debug, PartialEq, Eq, Structural)]
pub enum Render {
    /// The listing page, with no file opened.
    Listing,
    /// The listing page with the file's escaped text opened in it.
    Document,
    /// The file itself.
    Verbatim,
}

/// A file that a read request resolves to.
pub struct ReadTarget {
    pub folder: Folder,
    pub file: Vec<u8>,
    pub content_type: ContentType,
    pub render: Render,
}

/// An upload to store.
pub struct Upload {
    pub file_name: Vec<u8>,
    pub content: Vec<u8>,
}

/// Where an authenticated request is dispatched.
pub enum Route {
    Serve(ReadTarget),
    Store(Upload),
    /// Nothing to serve or store: the connection is closed without a response.
    Drop,
}

/// What the origin does with one connection.
pub enum OriginAction {
    /// The declared signature is absent or wrong: answer forbidden.
    Rejected,
    /// The signature matched.
    Routed(Route),
    /// The payload could not be decoded: abort the connection.
    Abort,
}

pub open spec fn contains(s: Seq<u8>, pat: Seq<u8>) -> bool {
    find_from(s, pat, 0) is Some
}

pub open spec fn ends_with(s: Seq<u8>, pat: Seq<u8>) -> bool {
    pat.len() <= s.len() && s.subrange(s.len() - pat.len(), s.len() as int) == pat
}

/// `s` without its first `/`.
pub open spec fn without_first_slash(s: Seq<u8>) -> Seq<u8> {
    match find_from(s, "/".spec_bytes(), 0) {
        Some(i) => s.subrange(0, i) + s.subrange(i + 1, s.len() as int),
        None => s,
    }
}

/// The file a read path names: the value of its query, or the path without its slash.
pub open spec fn requested_file(path: Seq<u8>) -> Option<Seq<u8>> {
    match after_first(path, "?".spec_bytes()) {
        Some(query) => after_first(query, "=".spec_bytes()),
        None => Some(without_first_slash(path)),
    }
}

pub open spec fn content_type_of(file: Seq<u8>) -> ContentType {
    if contains(file, "html".spec_bytes()) || file.len() == 0 {
        ContentType::Html
    } else if contains(file, "css".spec_bytes()) {
        ContentType::Css
    } else if contains(file, "jpg".spec_bytes()) {
        ContentType::Jpeg
    } else if contains(file, "png".spec_bytes()) {
        ContentType::Png
    } else {
        ContentType::Html
    }
}

pub open spec fn folder_of(file: Seq<u8>) -> Folder {
    if contains(file, "html".spec_bytes()) || file.len() == 0 || contains(file, "css".spec_bytes()) {
        Folder::Pages
    } else {
        Folder::Data
    }
}

pub open spec fn render_of(file: Seq<u8>) -> Render {
    if file.len() == 0 {
        Render::Listing
    } else if !ends_with(file, ".css".spec_bytes()) {
        Render::Document
    } else {
        Render::Verbatim
    }
}

/// The text of a content type as a response header gives it.
pub open spec fn content_type_text(ct: ContentType) -> Seq<u8> {
    match ct {
        ContentType::Html => "text/html;charset=utf-8".spec_bytes(),
        ContentType::Css => "text/css".spec_bytes(),
        ContentType::Jpeg => "image/jpeg".spec_bytes(),
        ContentType::Png => "image/png".spec_bytes(),
    }
}

impl ReadTarget {
    /// `self` is what a read of `path` resolves to.
    pub open spec fn resolves(self, path: Seq<u8>) -> bool {
        &&& requested_file(path) == Some(self.file@)
        &&& self.folder == folder_of(self.file@)
        &&& self.content_type == content_type_of(self.file@)
        &&& self.render == render_of(self.file@)
    }
}

impl ContentType {
    /// The header text of this content type.
    pub fn text(&self) -> (r: Vec<u8>)
        ensures
            r@ == content_type_text(*self),
    {
        match self {
            ContentType::Html => slice_to_vec("text/html;charset=utf-8".as_bytes()),
            ContentType::Css => slice_to_vec("text/css".as_bytes()),
            ContentType::Jpeg => slice_to_vec("image/jpeg".as_bytes()),
            ContentType::Png => slice_to_vec("image/png".as_bytes()),
        }
    }
}

/// `r` is where an authenticated request of this kind, path, body and upload name goes.
pub open spec fn routes_to(
    kind: Method,
    path: Seq<u8>,
    body: Seq<u8>,
    upload_filename: Option<Seq<u8>>,
    r: Route,
) -> bool {
    if kind == Method::Get {
        match requested_file(path) {
            Some(_) => r matches Route::Serve(t) && t.resolves(path),
            None => r is Drop,
        }
    } else if kind == Method::PostUpload {
        match upload_filename {
            Some(name) => r matches Route::Store(u) && u.file_name@ == name && u.content@
                == strip_trailing_nul(body),
            None => r is Drop,
        }
    } else {
        r is Drop
    }
}

/// `r` is what the origin holding `secret` does with `raw`.
pub open spec fn origin_decides(secret: Seq<u8>, raw: Seq<u8>, r: OriginAction) -> bool {
    if !well_formed(raw) {
        r is Abort
    } else if declared_signature(raw) != Some(secret) {
        r is Rejected
    } else {
        r matches OriginAction::Routed(route) && routes_to(
            kind_of(method_of(raw), path_of(raw)),
            path_of(raw),
            body_of(raw)->0,
            upload_filename_of(raw),
            route,
        )
    }
}

fn contains_bytes(s: &[u8], pat: &[u8]) -> (r: bool)
    ensures
        r == contains(s@, pat@),
{
    find(s, pat, 0).is_some()
}

/// Copy of `s` without its first `/`.
fn drop_first_slash(s: &[u8]) -> (r: Vec<u8>)
    ensures
        r@ == without_first_slash(s@),
{
    let n = s.len();
    proof {
        reveal_strlit("/");
        vstd::string::is_ascii_spec_bytes("/");
    }
    match find(s, "/".as_bytes(), 0) {
        Some(i) => {
            let mut out = slice_to_vec(slice_subrange(s, 0, i));
            crate::bytes::push_all(&mut out, slice_subrange(s, i + 1, n));
            out
        },
        None => slice_to_vec(s),
    }
}

/// Resolves the path of a read to the file it names.
pub fn resolve_read(path: &[u8]) -> (r: Option<ReadTarget>)
    ensures
        r matches Some(t) ==> t.resolves(path@),
        r is None <==> requested_file(path@) is None,
{
    let file = match split_after(path, "?".as_bytes()) {
        Some(query) => match split_after(query.as_slice(), "=".as_bytes()) {
            Some(v) => v,
            None => return None,
        },
        None => drop_first_slash(path),
    };
    let f = file.as_slice();
    let html = contains_bytes(f, "html".as_bytes()) || f.len() == 0;
    let css = contains_bytes(f, "css".as_bytes());
    let (content_type, folder) = if html {
        (ContentType::Html, Folder::Pages)
    } else if css {
        (ContentType::Css, Folder::Pages)
    } else if contains_bytes(f, "jpg".as_bytes()) {
        (ContentType::Jpeg, Folder::Data)
    } else if contains_bytes(f, "png".as_bytes()) {
        (ContentType::Png, Folder::Data)
    } else {
        (ContentType::Html, Folder::Data)
    };
    let n = f.len();
    let render = if n == 0 {
        Render::Listing
    } else if !(n >= 4 && same_bytes(slice_subrange(f, n - 4, n), ".css".as_bytes())) {
        Render::Document
    } else {
        Render::Verbatim
    };
    proof {
        reveal_strlit(".css");
        vstd::string::is_ascii_spec_bytes(".css");
    }
    Some(ReadTarget { folder, file, content_type, render })
}

/// Whether `req` declares exactly `secret`.
pub fn authenticate(req: &Request, secret: &[u8]) -> (r: bool)
    ensures
        r == (opt_seq(req.signature) == Some(secret@)),
{
    match &req.signature {
        Some(s) => same_bytes(s.as_slice(), secret),
        None => false,
    }
}

/// Dispatches an authenticated request.
pub fn route(req: Request) -> (r: Route)
    ensures
        routes_to(req.kind, req.path@, req.body@, opt_seq(req.upload_filename), r),
{
    match req.kind {
        Method::Get => match resolve_read(req.path.as_slice()) {
            Some(t) => Route::Serve(t),
            None => Route::Drop,
        },
        Method::PostUpload => match req.upload_filename {
            Some(name) => Route::Store(
                Upload { file_name: name, content: without_trailing_nul(req.body.as_slice()) },
            ),
            None => Route::Drop,
        },
        _ => Route::Drop,
    }
}

/// Handles one payload at the origin holding `secret`.
pub fn handle_origin(secret: &[u8], raw: &[u8]) -> (r: OriginAction)
    ensures
        origin_decides(secret@, raw@, r),
        well_formed(raw@) ==> (r is Routed <==> declared_signature(raw@) == Some(secret@)),
{
    let req = match parse_request(raw) {
        Ok(q) => q,
        Err(_) => return OriginAction::Abort,
    };
    if !authenticate(&req, secret) {
        return OriginAction::Rejected;
    }
    OriginAction::Routed(route(req))
}

} // verus!
