//! Complete responses that carry a body with its length.
use vstd::prelude::*;
use vstd::string::StringSliceAdditionalSpecFns;
use crate::bytes::{decimal, push_all, push_decimal};

verus! {

/// `prefix`, the length of `contents` in decimal, `suffix`, then `contents`.
pub open spec fn framed(prefix: Seq<u8>, suffix: Seq<u8>, contents: Seq<u8>) -> Seq<u8> {
    prefix + decimal(contents.len()) + suffix + contents
}

pub open spec fn ok_response(content_type: Seq<u8>, contents: Seq<u8>) -> Seq<u8> {
    framed(
        "HTTP/1.1 200 OK\r\nContent-Type: ".spec_bytes() + content_type + "\r\nContent-Length: ".spec_bytes(),
        "\r\n\r\n".spec_bytes(),
        contents,
    )
}

pub open spec fn not_found_response(page: Seq<u8>) -> Seq<u8> {
    framed(
        "HTTP/1.1 404 NOT FOUND\r\nContent-Length: ".spec_bytes(),
        "\r\nContent-Type: text/html\r\n\r\n".spec_bytes(),
        page,
    )
}

pub open spec fn forbidden_response(page: Seq<u8>) -> Seq<u8> {
    framed(
        "HTTP/1.1 403 FORBIDDEN\r\nContent-Length: ".spec_bytes(),
        "\r\nContent-Type: text/html\r\n\r\n".spec_bytes(),
        page,
    )
}

pub open spec fn unavailable_response(page: Seq<u8>) -> Seq<u8> {
    framed(
        "HTTP/1.1 503 SERVICE UNAVAIBLE\r\nContent-Length: ".spec_bytes(),
        "\r\nContent-Type: text/html; charset=utf-8\r\n\r\n".spec_bytes(),
        page,
    )
}

pub open spec fn redirect_response(page: Seq<u8>) -> Seq<u8> {
    framed(
        "HTTP/1.1 302 MOVED PERMANENTLY\r\nLocation:/\r\nContent-Type: text/html\r\nContent-Length: ".spec_bytes(),
        "\r\n\r\n".spec_bytes(),
        page,
    )
}

fn framed_bytes(prefix: &[u8], suffix: &[u8], contents: &[u8]) -> (r: Vec<u8>)
    ensures
        r@ == framed(prefix@, suffix@, contents@),
{
    let mut out: Vec<u8> = Vec::new();
    push_all(&mut out, prefix);
    push_decimal(&mut out, contents.len());
    push_all(&mut out, suffix);
    push_all(&mut out, contents);
    assert(out@ =~= framed(prefix@, suffix@, contents@));
    out
}

/// 200 with the given content type.
pub fn ok(content_type: &[u8], contents: &[u8]) -> (r: Vec<u8>)
    ensures
        r@ == ok_response(content_type@, contents@),
{
    let mut prefix: Vec<u8> = Vec::new();
    push_all(&mut prefix, "HTTP/1.1 200 OK\r\nContent-Type: ".as_bytes());
    push_all(&mut prefix, content_type);
    push_all(&mut prefix, "\r\nContent-Length: ".as_bytes());
    framed_bytes(prefix.as_slice(), "\r\n\r\n".as_bytes(), contents)
}

/// 404 with the not-found page.
pub fn not_found(page: &[u8]) -> (r: Vec<u8>)
    ensures
        r@ == not_found_response(page@),
{
    framed_bytes(
        "HTTP/1.1 404 NOT FOUND\r\nContent-Length: ".as_bytes(),
        "\r\nContent-Type: text/html\r\n\r\n".as_bytes(),
        page,
    )
}

/// 403 with the forbidden page.
pub fn forbidden(page: &[u8]) -> (r: Vec<u8>)
    ensures
        r@ == forbidden_response(page@),
{
    framed_bytes(
        "HTTP/1.1 403 FORBIDDEN\r\nContent-Length: ".as_bytes(),
        "\r\nContent-Type: text/html\r\n\r\n".as_bytes(),
        page,
    )
}

/// 503 with the fallback page.
pub fn unavailable(page: &[u8]) -> (r: Vec<u8>)
    ensures
        r@ == unavailable_response(page@),
{
    framed_bytes(
        "HTTP/1.1 503 SERVICE UNAVAIBLE\r\nContent-Length: ".as_bytes(),
        "\r\nContent-Type: text/html; charset=utf-8\r\n\r\n".as_bytes(),
        page,
    )
}

/// 302 to the listing view, with the listing page.
pub fn redirect_to_listing(page: &[u8]) -> (r: Vec<u8>)
    ensures
        r@ == redirect_response(page@),
{
    framed_bytes(
        "HTTP/1.1 302 MOVED PERMANENTLY\r\nLocation:/\r\nContent-Type: text/html\r\nContent-Length: ".as_bytes(),
        "\r\n\r\n".as_bytes(),
        page,
    )
}

} // verus!
