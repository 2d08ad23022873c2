//! Provenance: what the edge stamps, the origin decodes with exactly that signature.
use vstd::prelude::*;
use vstd::string::StringSliceAdditionalSpecFns;
use crate::bytes::{
    after_first, is_space, lemma_find_first, lemma_word_has_no_space, lemma_mismatch_at, lemma_skip_space, lemma_word_end, line,
    decimal, line_end, line_start_from, matches_at, strip_trailing_nul, trim_end_space,
    trim_start_space, word, word_from,
};
use crate::edge::{
    cell_after, edge_decides, edge_host, forwarded_get, forwarded_upload, is_registration,
    upload_content, upload_name, EdgeAction,
};
use crate::handshake::{hex_of, lemma_hex_of_digits, registration_request};
use crate::origin::{origin_decides, OriginAction, Route};
use crate::frame::{
    kind_of, register_path, upload_filename_of, upload_path, Method, blank_line, body_of, declared_signature, has_signature_line, header_separator, method_of,
    path_of, request_line, signature_header, well_formed,
};

verus! {

/// A non-empty run of bytes without white space, as the request line's words are.
pub open spec fn is_word(w: Seq<u8>) -> bool {
    w.len() > 0 && forall|i: int| 0 <= i < w.len() ==> !is_space(#[trigger] w[i])
}

/// No carriage return or line feed in `s`.
pub open spec fn no_line_break(s: Seq<u8>) -> bool {
    forall|i: int| 0 <= i < s.len() ==> #[trigger] s[i] != 10u8 && s[i] != 13u8
}

proof fn lemma_literal_bytes()
    ensures
        "X-Proxy-Signature: ".spec_bytes() == seq![88u8, 45u8, 80u8, 114u8, 111u8, 120u8, 121u8, 45u8, 83u8, 105u8, 103u8, 110u8, 97u8, 116u8, 117u8, 114u8, 101u8, 58u8, 32u8],
        "X-Proxy-Signature".spec_bytes() == seq![88u8, 45u8, 80u8, 114u8, 111u8, 120u8, 121u8, 45u8, 83u8, 105u8, 103u8, 110u8, 97u8, 116u8, 117u8, 114u8, 101u8],
        ": ".spec_bytes() == seq![58u8, 32u8],
        "\r\n".spec_bytes() == seq![13u8, 10u8],
        " ".spec_bytes() == seq![32u8],
        " HTTP/1.1\r\nHost: ".spec_bytes() == seq![32u8, 72u8, 84u8, 84u8, 80u8, 47u8, 49u8, 46u8, 49u8, 13u8, 10u8, 72u8, 111u8, 115u8, 116u8, 58u8, 32u8],
        "0.0.0.0:2006".spec_bytes() == seq![48u8, 46u8, 48u8, 46u8, 48u8, 46u8, 48u8, 58u8, 50u8, 48u8, 48u8, 54u8],
        "\r\n\r\n".spec_bytes() == seq![13u8, 10u8, 13u8, 10u8],
        "\n".spec_bytes() == seq![10u8],
{
    reveal_strlit("X-Proxy-Signature: ");
    vstd::string::is_ascii_spec_bytes("X-Proxy-Signature: ");
    assert("X-Proxy-Signature: ".spec_bytes() =~= seq![88u8, 45u8, 80u8, 114u8, 111u8, 120u8, 121u8, 45u8, 83u8, 105u8, 103u8, 110u8, 97u8, 116u8, 117u8, 114u8, 101u8, 58u8, 32u8]);
    reveal_strlit("X-Proxy-Signature");
    vstd::string::is_ascii_spec_bytes("X-Proxy-Signature");
    assert("X-Proxy-Signature".spec_bytes() =~= seq![88u8, 45u8, 80u8, 114u8, 111u8, 120u8, 121u8, 45u8, 83u8, 105u8, 103u8, 110u8, 97u8, 116u8, 117u8, 114u8, 101u8]);
    reveal_strlit(": ");
    vstd::string::is_ascii_spec_bytes(": ");
    assert(": ".spec_bytes() =~= seq![58u8, 32u8]);
    reveal_strlit("\r\n");
    vstd::string::is_ascii_spec_bytes("\r\n");
    assert("\r\n".spec_bytes() =~= seq![13u8, 10u8]);
    reveal_strlit(" ");
    vstd::string::is_ascii_spec_bytes(" ");
    assert(" ".spec_bytes() =~= seq![32u8]);
    reveal_strlit(" HTTP/1.1\r\nHost: ");
    vstd::string::is_ascii_spec_bytes(" HTTP/1.1\r\nHost: ");
    assert(" HTTP/1.1\r\nHost: ".spec_bytes() =~= seq![32u8, 72u8, 84u8, 84u8, 80u8, 47u8, 49u8, 46u8, 49u8, 13u8, 10u8, 72u8, 111u8, 115u8, 116u8, 58u8, 32u8]);
    reveal_strlit("0.0.0.0:2006");
    vstd::string::is_ascii_spec_bytes("0.0.0.0:2006");
    assert("0.0.0.0:2006".spec_bytes() =~= seq![48u8, 46u8, 48u8, 46u8, 48u8, 46u8, 48u8, 58u8, 50u8, 48u8, 48u8, 54u8]);
    reveal_strlit("\r\n\r\n");
    vstd::string::is_ascii_spec_bytes("\r\n\r\n");
    assert("\r\n\r\n".spec_bytes() =~= seq![13u8, 10u8, 13u8, 10u8]);
    reveal_strlit("\n");
    vstd::string::is_ascii_spec_bytes("\n");
    assert("\n".spec_bytes() =~= seq![10u8]);
}

/// Where the signature line, request line and host line of a stamped request lie in
/// `raw`.
pub open spec fn head_layout(raw: Seq<u8>, secret: Seq<u8>, method: Seq<u8>, path: Seq<u8>) -> bool {
    &&& raw.len() > 52 + secret.len() as int + method.len() as int + path.len() as int
    &&& raw[51 + secret.len() as int + method.len() as int + path.len() as int] == 13u8
    &&& raw[52 + secret.len() as int + method.len() as int + path.len() as int] == 10u8
    &&& forall|k: int| 0 <= k < 19 ==> #[trigger] raw[k] == "X-Proxy-Signature: ".spec_bytes()[k]
    &&& forall|k: int| 19 <= k < 19 + secret.len() as int ==> #[trigger] raw[k] == secret[k - 19]
    &&& raw[19 + secret.len() as int] == 13u8
    &&& raw[19 + secret.len() as int + 1] == 10u8
    &&& forall|k: int|
            21 + secret.len() as int <= k < 21 + secret.len() as int + method.len() as int ==> #[trigger] raw[k]
                == method[k - (21 + secret.len() as int)]
    &&& raw[21 + secret.len() as int + method.len() as int] == 32u8
    &&& forall|k: int|
            22 + secret.len() as int + method.len() as int <= k < 22 + secret.len() as int + method.len() as int + path.len() as int
                ==> #[trigger] raw[k] == path[k - (22 + secret.len() as int + method.len() as int)]
    &&& forall|k: int|
            0 <= k < 17 ==> #[trigger] raw[22 + secret.len() as int + method.len() as int + path.len() as int + k]
                == " HTTP/1.1\r\nHost: ".spec_bytes()[k]
    &&& forall|k: int|
            0 <= k < 12 ==> #[trigger] raw[39 + secret.len() as int + method.len() as int + path.len() as int + k]
                == edge_host()[k]
}

/// Where each part of a stamped read lies in `raw`.
pub open spec fn stamped_layout(raw: Seq<u8>, secret: Seq<u8>, method: Seq<u8>, path: Seq<u8>, body: Seq<u8>) -> bool {
    &&& head_layout(raw, secret, method, path)
    &&& raw.len() == 19 + secret.len() as int + 2 + method.len() as int + 1 + path.len() as int + 17 + 12 + 4 + body.len()
    &&& raw.subrange(
        51 + secret.len() as int + method.len() as int + path.len() as int,
        55 + secret.len() as int + method.len() as int + path.len() as int,
    ) == blank_line()
    &&& raw.subrange(55 + secret.len() as int + method.len() as int + path.len() as int, raw.len() as int) == body
}

/// Where each part of a stamped read lies in the frame.
proof fn lemma_stamped_layout(raw: Seq<u8>, secret: Seq<u8>, method: Seq<u8>, path: Seq<u8>, body: Seq<u8>)
    requires
        raw == forwarded_get(secret, method, path, body),
    ensures
        stamped_layout(raw, secret, method, path, body),
{
    lemma_literal_bytes();
    let q = 51 + secret.len() as int + method.len() as int + path.len() as int;
    assert(raw.subrange(q, q + 4) =~= blank_line());
    assert(raw.subrange(q + 4, raw.len() as int) =~= body);
    assert(raw[q] == blank_line()[0]);
    assert(raw[q + 1] == blank_line()[1]);
}

/// The signature line of a stamped request declares its secret, and ends at the first line
/// feed.
proof fn lemma_stamped_signature(raw: Seq<u8>, secret: Seq<u8>, method: Seq<u8>, path: Seq<u8>)
    requires
        head_layout(raw, secret, method, path),
        no_line_break(secret),
    ensures
        has_signature_line(raw),
        line_end(raw, 0) == 20 + secret.len() as int,
        declared_signature(raw) == Some(secret),
{
    lemma_literal_bytes();
    let p = "X-Proxy-Signature: ".spec_bytes();
    let nl = seq![10u8];
    let e = 20 + secret.len() as int;
    assert(raw.subrange(0, 17) =~= signature_header());
    assert forall|k: int| 0 <= k < e implies !matches_at(raw, nl, k) by {
        lemma_mismatch_at(raw, nl, k, 0);
    }
    assert(raw.subrange(e, e + 1) =~= nl);
    lemma_find_first(raw, nl, 0, e);
    let l0 = p + secret;
    assert(raw.subrange(0, e).drop_last() =~= l0);
    assert(line(raw, 0) == Some(l0));
    let sep = header_separator();
    assert forall|k: int| 0 <= k < 17 implies !matches_at(l0, sep, k) by {
        lemma_mismatch_at(l0, sep, k, 0);
    }
    assert(l0.subrange(17, 19) =~= sep);
    lemma_find_first(l0, sep, 0, 17);
    assert(l0.subrange(19, l0.len() as int) =~= secret);
}

/// The request line of a stamped request: method, a space, path, a space, and the protocol.
proof fn lemma_stamped_request_line(raw: Seq<u8>, secret: Seq<u8>, method: Seq<u8>, path: Seq<u8>)
    requires
        head_layout(raw, secret, method, path),
        no_line_break(secret),
        is_word(method),
        is_word(path),
    ensures
        line_end(raw, 21 + secret.len() as int) == 32 + secret.len() as int + method.len() as int
            + path.len() as int,
        request_line(raw) == Some(raw.subrange(
            21 + secret.len() as int,
            31 + secret.len() as int + method.len() as int + path.len() as int,
        )),
{
    lemma_literal_bytes();
    lemma_stamped_signature(raw, secret, method, path);
    let nl = seq![10u8];
    let ms = 21 + secret.len() as int;
    let ts = ms + method.len() as int + 1 + path.len() as int;
    let e2 = ts + 10;
    assert(line_start_from(raw, ms, 0) == Some(ms));
    assert(line_start_from(raw, 0, 1) == Some(ms));
    assert forall|k: int| ms <= k < e2 implies !matches_at(raw, nl, k) by {
        if k < ms + method.len() as int {
            assert(!is_space(method[k - ms]));
        } else if ms + (method.len() as int) < k < ts {
            assert(!is_space(path[k - (ms + method.len() as int + 1)]));
        } else if ts <= k {
            assert(raw[ts + (k - ts)] == " HTTP/1.1\r\nHost: ".spec_bytes()[k - ts]);
        }
        lemma_mismatch_at(raw, nl, k, 0);
    }
    assert(raw[ts + 10] == " HTTP/1.1\r\nHost: ".spec_bytes()[10]);
    assert(raw[ts + 9] == " HTTP/1.1\r\nHost: ".spec_bytes()[9]);
    assert(raw.subrange(e2, e2 + 1) =~= nl);
    lemma_find_first(raw, nl, ms, e2);
    assert(raw.subrange(ms, e2).drop_last() =~= raw.subrange(ms, e2 - 1));
}

/// The header section of a stamped read ends at the blank line after the host.
proof fn lemma_stamped_blank_line(raw: Seq<u8>, secret: Seq<u8>, method: Seq<u8>, path: Seq<u8>, body: Seq<u8>)
    requires
        stamped_layout(raw, secret, method, path, body),
        no_line_break(secret),
        is_word(method),
        is_word(path),
    ensures
        body_of(raw) == Some(body),
{
    lemma_literal_bytes();
    let b = blank_line();
    let sl = secret.len() as int;
    let ms = 21 + sl;
    let ts = 22 + sl + method.len() as int + path.len() as int;
    let q = ts + 29;
    assert forall|k: int| 0 <= k < q implies !matches_at(raw, b, k) by {
        if k == 19 + sl {
            assert(raw[ms] == method[0]);
            assert(!is_space(method[0]));
            lemma_mismatch_at(raw, b, k, 2);
        } else if k == ts + 9 {
            assert(raw[ts + 11] == " HTTP/1.1\r\nHost: ".spec_bytes()[11]);
            lemma_mismatch_at(raw, b, k, 2);
        } else {
            if ms <= k < ms + method.len() as int {
                assert(!is_space(method[k - ms]));
            } else if ms + (method.len() as int) < k < ts {
                assert(!is_space(path[k - (ms + method.len() as int + 1)]));
            } else if ts <= k < ts + 17 {
                assert(raw[ts + (k - ts)] == " HTTP/1.1\r\nHost: ".spec_bytes()[k - ts]);
            } else if ts + 17 <= k {
                assert(raw[39 + sl + method.len() as int + path.len() as int + (k - ts - 17)]
                    == edge_host()[k - ts - 17]);
            }
            lemma_mismatch_at(raw, b, k, 0);
        }
    }
    lemma_find_first(raw, b, 0, q);
}

/// The first two words of `rl` when it spells a word, a space, a word, and a space.
proof fn lemma_two_words(rl: Seq<u8>, method: Seq<u8>, path: Seq<u8>)
    requires
        is_word(method),
        is_word(path),
        rl.len() > method.len() as int + 1 + path.len() as int,
        rl.subrange(0, method.len() as int) == method,
        rl[method.len() as int] == 32u8,
        rl.subrange(method.len() as int + 1, method.len() as int + 1 + path.len() as int) == path,
        rl[method.len() as int + 1 + path.len() as int] == 32u8,
    ensures
        word(rl, 0) == Some(method),
        word(rl, 1) == Some(path),
{
    let m = method.len() as int;
    let pl = path.len() as int;
    assert forall|k: int| 0 <= k < m implies !is_space(#[trigger] rl[k]) by {
        assert(rl.subrange(0, m)[k] == rl[k]);
    }
    assert forall|k: int| m + 1 <= k < m + 1 + pl implies !is_space(#[trigger] rl[k]) by {
        assert(rl.subrange(m + 1, m + 1 + pl)[k - (m + 1)] == rl[k]);
    }
    assert(rl[0] == method[0]);
    assert(rl[m + 1] == path[0]);
    lemma_skip_space(rl, 0, 0);
    lemma_word_end(rl, 0, m);
    lemma_skip_space(rl, m, m + 1);
    lemma_word_end(rl, m + 1, m + 1 + pl);
    assert(word_from(rl, m, 0) == Some(path));
}

/// A read request that the edge stamps with `secret` decodes, at the origin, with that
/// secret as its declared signature and with the client's method, path and body, as long
/// as the secret holds no line break and method and path are words (as the edge's own
/// decoding yields them).
pub proof fn lemma_stamped_read_decodes(secret: Seq<u8>, method: Seq<u8>, path: Seq<u8>, body: Seq<u8>)
    requires
        no_line_break(secret),
        is_word(method),
        is_word(path),
    ensures
        well_formed(forwarded_get(secret, method, path, body)),
        declared_signature(forwarded_get(secret, method, path, body)) == Some(secret),
        method_of(forwarded_get(secret, method, path, body)) == method,
        path_of(forwarded_get(secret, method, path, body)) == path,
        body_of(forwarded_get(secret, method, path, body)) == Some(body),
{
    let raw = forwarded_get(secret, method, path, body);
    lemma_stamped_layout(raw, secret, method, path, body);
    lemma_stamped_frame_decodes(raw, secret, method, path, body);
}

/// What a frame laid out as a stamped read decodes to.
proof fn lemma_stamped_frame_decodes(raw: Seq<u8>, secret: Seq<u8>, method: Seq<u8>, path: Seq<u8>, body: Seq<u8>)
    requires
        stamped_layout(raw, secret, method, path, body),
        no_line_break(secret),
        is_word(method),
        is_word(path),
    ensures
        well_formed(raw),
        declared_signature(raw) == Some(secret),
        method_of(raw) == method,
        path_of(raw) == path,
        body_of(raw) == Some(body),
{
    lemma_stamped_signature(raw, secret, method, path);
    lemma_stamped_request_line(raw, secret, method, path);
    lemma_stamped_blank_line(raw, secret, method, path, body);
    let sl = secret.len() as int;
    let m = method.len() as int;
    let pl = path.len() as int;
    let rl = raw.subrange(21 + sl, 31 + sl + m + pl);
    assert(rl.subrange(0, m) =~= method);
    assert(rl[m] == 32u8);
    assert(rl.subrange(m + 1, m + 1 + pl) =~= path);
    assert(rl[m + 1 + pl] == raw[22 + sl + m + pl + 0]);
    lemma_literal_bytes();
    lemma_two_words(rl, method, path);
}

/// The signature gate accepts exactly what the edge stamps: a client read that the edge
/// holding `secret` forwards is routed by an origin holding `origin_secret` if and only if
/// the two secrets are equal, for any secret without line breaks.
pub proof fn lemma_forwarded_read_routed_iff_same_secret(
    secret: Seq<u8>,
    origin_secret: Seq<u8>,
    client: Seq<u8>,
    forwarded: EdgeAction,
    r: OriginAction,
)
    requires
        no_line_break(secret),
        edge_decides(Some(secret), client, forwarded),
        forwarded is Forward,
        kind_of(method_of(client), path_of(client)) == Method::Get,
        origin_decides(origin_secret, forwarded->Forward_0@, r),
    ensures
        r is Routed <==> origin_secret == secret,
{
    let rl = request_line(client)->0;
    lemma_word_has_no_space(rl, 0, 0);
    lemma_word_has_no_space(rl, 0, 1);
    lemma_stamped_read_decodes(secret, method_of(client), path_of(client), body_of(client)->0);
}

/// A byte string without white space or NUL, which registration keeps verbatim.
pub open spec fn is_token(s: Seq<u8>) -> bool {
    forall|i: int| 0 <= i < s.len() ==> !is_space(#[trigger] s[i]) && s[i] != 0u8
}

proof fn lemma_registration_literal_bytes()
    ensures
        "POST /register-secret HTTP/1.1\r\nHost: 0.0.0.0:2006\r\nContent-Type: text/plain\r\nContent-Length: ".spec_bytes() == seq![80u8, 79u8, 83u8, 84u8, 32u8, 47u8, 114u8, 101u8, 103u8, 105u8, 115u8, 116u8, 101u8, 114u8, 45u8, 115u8, 101u8, 99u8, 114u8, 101u8, 116u8, 32u8, 72u8, 84u8, 84u8, 80u8, 47u8, 49u8, 46u8, 49u8, 13u8, 10u8, 72u8, 111u8, 115u8, 116u8, 58u8, 32u8, 48u8, 46u8, 48u8, 46u8, 48u8, 46u8, 48u8, 58u8, 50u8, 48u8, 48u8, 54u8, 13u8, 10u8, 67u8, 111u8, 110u8, 116u8, 101u8, 110u8, 116u8, 45u8, 84u8, 121u8, 112u8, 101u8, 58u8, 32u8, 116u8, 101u8, 120u8, 116u8, 47u8, 112u8, 108u8, 97u8, 105u8, 110u8, 13u8, 10u8, 67u8, 111u8, 110u8, 116u8, 101u8, 110u8, 116u8, 45u8, 76u8, 101u8, 110u8, 103u8, 116u8, 104u8, 58u8, 32u8],
        "POST".spec_bytes() == seq![80u8, 79u8, 83u8, 84u8],
        "/register-secret".spec_bytes() == seq![47u8, 114u8, 101u8, 103u8, 105u8, 115u8, 116u8, 101u8, 114u8, 45u8, 115u8, 101u8, 99u8, 114u8, 101u8, 116u8],
        "X-Proxy-Signature".spec_bytes() == seq![88u8, 45u8, 80u8, 114u8, 111u8, 120u8, 121u8, 45u8, 83u8, 105u8, 103u8, 110u8, 97u8, 116u8, 117u8, 114u8, 101u8],
        "\r\n\r\n".spec_bytes() == seq![13u8, 10u8, 13u8, 10u8],
{
    reveal_strlit("POST /register-secret HTTP/1.1\r\nHost: 0.0.0.0:2006\r\nContent-Type: text/plain\r\nContent-Length: ");
    vstd::string::is_ascii_spec_bytes("POST /register-secret HTTP/1.1\r\nHost: 0.0.0.0:2006\r\nContent-Type: text/plain\r\nContent-Length: ");
    assert("POST /register-secret HTTP/1.1\r\nHost: 0.0.0.0:2006\r\nContent-Type: text/plain\r\nContent-Length: ".spec_bytes() =~= seq![80u8, 79u8, 83u8, 84u8, 32u8, 47u8, 114u8, 101u8, 103u8, 105u8, 115u8, 116u8, 101u8, 114u8, 45u8, 115u8, 101u8, 99u8, 114u8, 101u8, 116u8, 32u8, 72u8, 84u8, 84u8, 80u8, 47u8, 49u8, 46u8, 49u8, 13u8, 10u8, 72u8, 111u8, 115u8, 116u8, 58u8, 32u8, 48u8, 46u8, 48u8, 46u8, 48u8, 46u8, 48u8, 58u8, 50u8, 48u8, 48u8, 54u8, 13u8, 10u8, 67u8, 111u8, 110u8, 116u8, 101u8, 110u8, 116u8, 45u8, 84u8, 121u8, 112u8, 101u8, 58u8, 32u8, 116u8, 101u8, 120u8, 116u8, 47u8, 112u8, 108u8, 97u8, 105u8, 110u8, 13u8, 10u8, 67u8, 111u8, 110u8, 116u8, 101u8, 110u8, 116u8, 45u8, 76u8, 101u8, 110u8, 103u8, 116u8, 104u8, 58u8, 32u8]);
    reveal_strlit("POST");
    vstd::string::is_ascii_spec_bytes("POST");
    assert("POST".spec_bytes() =~= seq![80u8, 79u8, 83u8, 84u8]);
    reveal_strlit("/register-secret");
    vstd::string::is_ascii_spec_bytes("/register-secret");
    assert("/register-secret".spec_bytes() =~= seq![47u8, 114u8, 101u8, 103u8, 105u8, 115u8, 116u8, 101u8, 114u8, 45u8, 115u8, 101u8, 99u8, 114u8, 101u8, 116u8]);
    reveal_strlit("X-Proxy-Signature");
    vstd::string::is_ascii_spec_bytes("X-Proxy-Signature");
    assert("X-Proxy-Signature".spec_bytes() =~= seq![88u8, 45u8, 80u8, 114u8, 111u8, 120u8, 121u8, 45u8, 83u8, 105u8, 103u8, 110u8, 97u8, 116u8, 117u8, 114u8, 101u8]);
    reveal_strlit("\r\n\r\n");
    vstd::string::is_ascii_spec_bytes("\r\n\r\n");
    assert("\r\n\r\n".spec_bytes() =~= seq![13u8, 10u8, 13u8, 10u8]);
}

proof fn lemma_decimal_digits(n: nat)
    ensures
        forall|i: int| 0 <= i < decimal(n).len() ==> 48 <= #[trigger] decimal(n)[i] <= 57,
    decreases n,
{
    if n >= 10 {
        lemma_decimal_digits(n / 10);
        let d = decimal(n);
        assert forall|i: int| 0 <= i < d.len() implies 48 <= #[trigger] d[i] <= 57 by {
            if i < d.len() - 1 {
                assert(d[i] == decimal(n / 10)[i]);
            }
        }
    }
}

/// The registration call for a token decodes at the edge as a registration whose body
/// is exactly the token, which the edge then installs verbatim.
pub proof fn lemma_registration_installs_secret(cell: Option<Seq<u8>>, secret: Seq<u8>)
    requires
        is_token(secret),
    ensures
        is_registration(registration_request(secret)),
        body_of(registration_request(secret)) == Some(secret),
        cell_after(cell, registration_request(secret)) == Some(secret),
{
    lemma_registration_literal_bytes();
    let raw = registration_request(secret);
    let l = "POST /register-secret HTTP/1.1\r\nHost: 0.0.0.0:2006\r\nContent-Type: text/plain\r\nContent-Length: ".spec_bytes();
    let d = decimal(secret.len());
    let b = blank_line();
    let q = 94 + d.len() as int;
    lemma_decimal_digits(secret.len());
    assert(raw.len() == q + 4 + secret.len());
    assert forall|k: int| 0 <= k < 94 implies #[trigger] raw[k] == l[k] by {}
    assert forall|k: int| 94 <= k < q implies #[trigger] raw[k] == d[k - 94] by {}
    assert(raw.subrange(q, q + 4) =~= b);
    assert(raw.subrange(q + 4, raw.len() as int) =~= secret);
    lemma_mismatch_at(raw, signature_header(), 0, 0);
    assert(!has_signature_line(raw));
    let nl = seq![10u8];
    assert forall|k: int| 0 <= k < 31 implies !matches_at(raw, nl, k) by {
        lemma_mismatch_at(raw, nl, k, 0);
    }
    assert(raw.subrange(31, 32) =~= nl);
    lemma_find_first(raw, nl, 0, 31);
    let rl = raw.subrange(0, 30);
    assert(raw.subrange(0, 31).drop_last() =~= rl);
    assert(request_line(raw) == Some(rl));
    let post = "POST".spec_bytes();
    let reg = "/register-secret".spec_bytes();
    assert(rl.subrange(0, 4) =~= post);
    assert(rl.subrange(5, 21) =~= reg);
    assert(rl[4] == 32u8);
    assert(rl[21] == 32u8);
    lemma_two_words(rl, post, reg);
    assert forall|k: int| 0 <= k < q implies !matches_at(raw, b, k) by {
        if k == 30 || k == 50 || k == 76 {
            lemma_mismatch_at(raw, b, k, 2);
        } else {
            lemma_mismatch_at(raw, b, k, 0);
        }
    }
    lemma_find_first(raw, b, 0, q);
    assert(body_of(raw) == Some(secret));
    assert(trim_start_space(secret) == secret);
    assert(trim_end_space(secret) == secret);
    assert(strip_trailing_nul(secret) == secret);
}

/// A generated secret, hex text, is a token without line breaks.
pub proof fn lemma_hex_is_token(b: Seq<u8>)
    ensures
        is_token(hex_of(b)),
        no_line_break(hex_of(b)),
{
    lemma_hex_of_digits(b);
}

/// Boot to first read: once the edge has handled the registration call for a generated
/// secret (hex text), a client read that it forwards is routed by the origin holding that
/// secret.
pub proof fn lemma_registered_read_is_routed(
    digest: Seq<u8>,
    before: Option<Seq<u8>>,
    client: Seq<u8>,
    forwarded: EdgeAction,
    r: OriginAction,
)
    requires
        edge_decides(cell_after(before, registration_request(hex_of(digest))), client, forwarded),
        forwarded is Forward,
        kind_of(method_of(client), path_of(client)) == Method::Get,
        origin_decides(hex_of(digest), forwarded->Forward_0@, r),
    ensures
        r is Routed,
{
    let secret = hex_of(digest);
    lemma_hex_is_token(digest);
    lemma_registration_installs_secret(before, secret);
    lemma_forwarded_read_routed_iff_same_secret(secret, secret, client, forwarded, r);
}

proof fn lemma_upload_literal_bytes()
    ensures
        "\r\nFile-Name: ".spec_bytes() == seq![13u8, 10u8, 70u8, 105u8, 108u8, 101u8, 45u8, 78u8, 97u8, 109u8, 101u8, 58u8, 32u8],
        "\r\nContent-Length: ".spec_bytes() == seq![13u8, 10u8, 67u8, 111u8, 110u8, 116u8, 101u8, 110u8, 116u8, 45u8, 76u8, 101u8, 110u8, 103u8, 116u8, 104u8, 58u8, 32u8],
        "POST".spec_bytes() == seq![80u8, 79u8, 83u8, 84u8],
        "/upload".spec_bytes() == seq![47u8, 117u8, 112u8, 108u8, 111u8, 97u8, 100u8],
        "GET".spec_bytes() == seq![71u8, 69u8, 84u8],
        "/register-secret".spec_bytes() == seq![47u8, 114u8, 101u8, 103u8, 105u8, 115u8, 116u8, 101u8, 114u8, 45u8, 115u8, 101u8, 99u8, 114u8, 101u8, 116u8],
        ": ".spec_bytes() == seq![58u8, 32u8],
        " HTTP/1.1\r\nHost: ".spec_bytes() == seq![32u8, 72u8, 84u8, 84u8, 80u8, 47u8, 49u8, 46u8, 49u8, 13u8, 10u8, 72u8, 111u8, 115u8, 116u8, 58u8, 32u8],
        "0.0.0.0:2006".spec_bytes() == seq![48u8, 46u8, 48u8, 46u8, 48u8, 46u8, 48u8, 58u8, 50u8, 48u8, 48u8, 54u8],
        "\r\n\r\n".spec_bytes() == seq![13u8, 10u8, 13u8, 10u8],
{
    reveal_strlit("\r\nFile-Name: ");
    vstd::string::is_ascii_spec_bytes("\r\nFile-Name: ");
    assert("\r\nFile-Name: ".spec_bytes() =~= seq![13u8, 10u8, 70u8, 105u8, 108u8, 101u8, 45u8, 78u8, 97u8, 109u8, 101u8, 58u8, 32u8]);
    reveal_strlit("\r\nContent-Length: ");
    vstd::string::is_ascii_spec_bytes("\r\nContent-Length: ");
    assert("\r\nContent-Length: ".spec_bytes() =~= seq![13u8, 10u8, 67u8, 111u8, 110u8, 116u8, 101u8, 110u8, 116u8, 45u8, 76u8, 101u8, 110u8, 103u8, 116u8, 104u8, 58u8, 32u8]);
    reveal_strlit("POST");
    vstd::string::is_ascii_spec_bytes("POST");
    assert("POST".spec_bytes() =~= seq![80u8, 79u8, 83u8, 84u8]);
    reveal_strlit("/upload");
    vstd::string::is_ascii_spec_bytes("/upload");
    assert("/upload".spec_bytes() =~= seq![47u8, 117u8, 112u8, 108u8, 111u8, 97u8, 100u8]);
    reveal_strlit("GET");
    vstd::string::is_ascii_spec_bytes("GET");
    assert("GET".spec_bytes() =~= seq![71u8, 69u8, 84u8]);
    reveal_strlit("/register-secret");
    vstd::string::is_ascii_spec_bytes("/register-secret");
    assert("/register-secret".spec_bytes() =~= seq![47u8, 114u8, 101u8, 103u8, 105u8, 115u8, 116u8, 101u8, 114u8, 45u8, 115u8, 101u8, 99u8, 114u8, 101u8, 116u8]);
    reveal_strlit(": ");
    vstd::string::is_ascii_spec_bytes(": ");
    assert(": ".spec_bytes() =~= seq![58u8, 32u8]);
    reveal_strlit(" HTTP/1.1\r\nHost: ");
    vstd::string::is_ascii_spec_bytes(" HTTP/1.1\r\nHost: ");
    assert(" HTTP/1.1\r\nHost: ".spec_bytes() =~= seq![32u8, 72u8, 84u8, 84u8, 80u8, 47u8, 49u8, 46u8, 49u8, 13u8, 10u8, 72u8, 111u8, 115u8, 116u8, 58u8, 32u8]);
    reveal_strlit("0.0.0.0:2006");
    vstd::string::is_ascii_spec_bytes("0.0.0.0:2006");
    assert("0.0.0.0:2006".spec_bytes() =~= seq![48u8, 46u8, 48u8, 46u8, 48u8, 46u8, 48u8, 58u8, 50u8, 48u8, 48u8, 54u8]);
    reveal_strlit("\r\n\r\n");
    vstd::string::is_ascii_spec_bytes("\r\n\r\n");
    assert("\r\n\r\n".spec_bytes() =~= seq![13u8, 10u8, 13u8, 10u8]);
}

/// Where each part of a stamped upload lies in `raw`.
pub open spec fn upload_layout(
    raw: Seq<u8>,
    secret: Seq<u8>,
    method: Seq<u8>,
    path: Seq<u8>,
    name: Seq<u8>,
    content: Seq<u8>,
) -> bool {
    let h0 = 51 + secret.len() as int + method.len() as int + path.len() as int;
    let n0 = h0 + 13;
    let u2 = n0 + name.len() as int;
    let d0 = u2 + 18;
    let q = d0 + decimal(content.len()).len() as int;
    &&& head_layout(raw, secret, method, path)
    &&& raw.len() == q + 4 + content.len()
    &&& forall|k: int| 0 <= k < 13 ==> #[trigger] raw[h0 + k] == "\r\nFile-Name: ".spec_bytes()[k]
    &&& forall|k: int| n0 <= k < u2 ==> #[trigger] raw[k] == name[k - n0]
    &&& forall|k: int| 0 <= k < 18 ==> #[trigger] raw[u2 + k] == "\r\nContent-Length: ".spec_bytes()[k]
    &&& forall|k: int| d0 <= k < q ==> #[trigger] raw[k] == decimal(content.len())[k - d0]
    &&& raw.subrange(q, q + 4) == blank_line()
    &&& raw.subrange(q + 4, raw.len() as int) == content
}

proof fn lemma_upload_layout(
    raw: Seq<u8>,
    secret: Seq<u8>,
    method: Seq<u8>,
    path: Seq<u8>,
    name: Seq<u8>,
    content: Seq<u8>,
)
    requires
        raw == forwarded_upload(secret, method, path, name, content),
    ensures
        upload_layout(raw, secret, method, path, name, content),
{
    lemma_literal_bytes();
    lemma_upload_literal_bytes();
    let h0 = 51 + secret.len() as int + method.len() as int + path.len() as int;
    let q = h0 + 31 + name.len() as int + decimal(content.len()).len() as int;
    assert(raw.subrange(q, q + 4) =~= blank_line());
    assert(raw.subrange(q + 4, raw.len() as int) =~= content);
    assert(raw[h0] == "\r\nFile-Name: ".spec_bytes()[0]);
    assert(raw[h0 + 1] == "\r\nFile-Name: ".spec_bytes()[1]);
}

/// The fourth line of a stamped upload names its file.
proof fn lemma_upload_name_line(
    raw: Seq<u8>,
    secret: Seq<u8>,
    method: Seq<u8>,
    path: Seq<u8>,
    name: Seq<u8>,
    content: Seq<u8>,
)
    requires
        upload_layout(raw, secret, method, path, name, content),
        no_line_break(secret),
        no_line_break(name),
        is_word(method),
        is_word(path),
    ensures
        line(raw, 3) matches Some(l) && after_first(l, header_separator()) == Some(name),
{
    lemma_upload_literal_bytes();
    lemma_stamped_signature(raw, secret, method, path);
    lemma_stamped_request_line(raw, secret, method, path);
    let nl = seq![10u8];
    let sl = secret.len() as int;
    let ts = 22 + sl + method.len() as int + path.len() as int;
    let h0 = ts + 29;
    let u2 = h0 + 13 + name.len() as int;
    // The host line.
    assert forall|k: int| ts + 11 <= k < h0 + 1 implies !matches_at(raw, nl, k) by {
        if k < ts + 17 {
            assert(raw[22 + sl + method.len() as int + path.len() as int + (k - ts)]
                == " HTTP/1.1\r\nHost: ".spec_bytes()[k - ts]);
        } else if k < h0 {
            assert(raw[39 + sl + method.len() as int + path.len() as int + (k - ts - 17)]
                == edge_host()[k - ts - 17]);
        }
        lemma_mismatch_at(raw, nl, k, 0);
    }
    assert(raw.subrange(h0 + 1, h0 + 2) =~= nl);
    lemma_find_first(raw, nl, ts + 11, h0 + 1);
    // The file name line.
    assert forall|k: int| h0 + 2 <= k < u2 + 1 implies !matches_at(raw, nl, k) by {
        if k < h0 + 13 {
            assert(raw[h0 + (k - h0)] == "\r\nFile-Name: ".spec_bytes()[k - h0]);
        } else if k == u2 {
            assert(raw[u2 + 0] == "\r\nContent-Length: ".spec_bytes()[0]);
        }
        lemma_mismatch_at(raw, nl, k, 0);
    }
    assert(raw[u2 + 1] == "\r\nContent-Length: ".spec_bytes()[1]);
    assert(raw.subrange(u2 + 1, u2 + 2) =~= nl);
    lemma_find_first(raw, nl, h0 + 2, u2 + 1);
    assert(line_start_from(raw, h0 + 2, 0) == Some(h0 + 2));
    assert(line_start_from(raw, ts + 11, 1) == Some(h0 + 2));
    assert(line_start_from(raw, 21 + sl, 2) == Some(h0 + 2));
    assert(line_start_from(raw, 0, 3) == Some(h0 + 2));
    let l = raw.subrange(h0 + 2, u2);
    assert(line_end(raw, h0 + 2) == u2 + 1);
    assert(raw[u2 + 0] == "\r\nContent-Length: ".spec_bytes()[0]);
    assert(raw.subrange(h0 + 2, u2 + 1).last() == 13u8);
    assert(raw.subrange(h0 + 2, u2 + 1).drop_last() =~= l);
    assert(line(raw, 3) == Some(l));
    let sep = header_separator();
    assert forall|k: int| 0 <= k < 9 implies !matches_at(l, sep, k) by {
        assert(l[k] == raw[h0 + (k + 2)]);
        lemma_mismatch_at(l, sep, k, 0);
    }
    assert(l[9] == raw[h0 + 11]);
    assert(l[10] == raw[h0 + 12]);
    assert(l.subrange(9, 11) =~= sep);
    lemma_find_first(l, sep, 0, 9);
    assert(l.subrange(11, l.len() as int) =~= name);
}

/// The header section of a stamped upload ends at the blank line after its length.
proof fn lemma_upload_blank_line(
    raw: Seq<u8>,
    secret: Seq<u8>,
    method: Seq<u8>,
    path: Seq<u8>,
    name: Seq<u8>,
    content: Seq<u8>,
)
    requires
        upload_layout(raw, secret, method, path, name, content),
        no_line_break(secret),
        no_line_break(name),
        is_word(method),
        is_word(path),
    ensures
        body_of(raw) == Some(content),
{
    lemma_literal_bytes();
    lemma_upload_literal_bytes();
    lemma_decimal_digits(content.len());
    let b = blank_line();
    let sl = secret.len() as int;
    let ms = 21 + sl;
    let ts = 22 + sl + method.len() as int + path.len() as int;
    let h0 = ts + 29;
    let u2 = h0 + 13 + name.len() as int;
    let d0 = u2 + 18;
    let q = d0 + decimal(content.len()).len() as int;
    assert forall|k: int| 0 <= k < q implies !matches_at(raw, b, k) by {
        if k == 19 + sl {
            assert(raw[ms] == method[0]);
            assert(!is_space(method[0]));
            lemma_mismatch_at(raw, b, k, 2);
        } else if k == ts + 9 {
            assert(raw[22 + sl + method.len() as int + path.len() as int + 11] == " HTTP/1.1\r\nHost: ".spec_bytes()[11]);
            lemma_mismatch_at(raw, b, k, 2);
        } else if k == h0 {
            assert(raw[h0 + 2] == "\r\nFile-Name: ".spec_bytes()[2]);
            lemma_mismatch_at(raw, b, k, 2);
        } else if k == u2 {
            assert(raw[u2 + 2] == "\r\nContent-Length: ".spec_bytes()[2]);
            lemma_mismatch_at(raw, b, k, 2);
        } else {
            if ms <= k < ms + method.len() as int {
                assert(!is_space(method[k - ms]));
            } else if ms + (method.len() as int) < k < ts {
                assert(!is_space(path[k - (ms + method.len() as int + 1)]));
            } else if ts <= k < ts + 17 {
                assert(raw[22 + sl + method.len() as int + path.len() as int + (k - ts)]
                    == " HTTP/1.1\r\nHost: ".spec_bytes()[k - ts]);
            } else if ts + 17 <= k < h0 {
                assert(raw[39 + sl + method.len() as int + path.len() as int + (k - ts - 17)]
                    == edge_host()[k - ts - 17]);
            } else if h0 <= k < h0 + 13 {
                assert(raw[h0 + (k - h0)] == "\r\nFile-Name: ".spec_bytes()[k - h0]);
            } else if u2 <= k < d0 {
                assert(raw[u2 + (k - u2)] == "\r\nContent-Length: ".spec_bytes()[k - u2]);
            }
            lemma_mismatch_at(raw, b, k, 0);
        }
    }
    lemma_find_first(raw, b, 0, q);
}

/// An upload that the edge stamps with `secret` decodes, at the origin, with that secret
/// as its declared signature, as an upload of the file it names, with its content as the
/// body, as long as neither the secret nor the name holds a line break.
pub proof fn lemma_stamped_upload_decodes(secret: Seq<u8>, name: Seq<u8>, content: Seq<u8>)
    requires
        no_line_break(secret),
        no_line_break(name),
    ensures
        well_formed(forwarded_upload(secret, "POST".spec_bytes(), upload_path(), name, content)),
        declared_signature(forwarded_upload(secret, "POST".spec_bytes(), upload_path(), name, content))
            == Some(secret),
        method_of(forwarded_upload(secret, "POST".spec_bytes(), upload_path(), name, content))
            == "POST".spec_bytes(),
        path_of(forwarded_upload(secret, "POST".spec_bytes(), upload_path(), name, content))
            == upload_path(),
        upload_filename_of(forwarded_upload(secret, "POST".spec_bytes(), upload_path(), name, content))
            == Some(name),
        body_of(forwarded_upload(secret, "POST".spec_bytes(), upload_path(), name, content))
            == Some(content),
{
    let method = "POST".spec_bytes();
    let path = upload_path();
    let raw = forwarded_upload(secret, method, path, name, content);
    lemma_upload_literal_bytes();
    lemma_upload_layout(raw, secret, method, path, name, content);
    lemma_upload_frame_decodes(raw, secret, method, path, name, content);
}

proof fn lemma_upload_frame_decodes(
    raw: Seq<u8>,
    secret: Seq<u8>,
    method: Seq<u8>,
    path: Seq<u8>,
    name: Seq<u8>,
    content: Seq<u8>,
)
    requires
        upload_layout(raw, secret, method, path, name, content),
        no_line_break(secret),
        no_line_break(name),
        method == "POST".spec_bytes(),
        path == upload_path(),
    ensures
        well_formed(raw),
        declared_signature(raw) == Some(secret),
        method_of(raw) == method,
        path_of(raw) == path,
        upload_filename_of(raw) == Some(name),
        body_of(raw) == Some(content),
{
    lemma_upload_literal_bytes();
    lemma_literal_bytes();
    assert(is_word(method));
    assert(is_word(path));
    lemma_stamped_signature(raw, secret, method, path);
    lemma_stamped_request_line(raw, secret, method, path);
    lemma_upload_blank_line(raw, secret, method, path, name, content);
    let sl = secret.len() as int;
    let m = method.len() as int;
    let pl = path.len() as int;
    let rl = raw.subrange(21 + sl, 31 + sl + m + pl);
    assert(rl.subrange(0, m) =~= method);
    assert(rl[m] == 32u8);
    assert(rl.subrange(m + 1, m + 1 + pl) =~= path);
    assert(rl[m + 1 + pl] == raw[22 + sl + m + pl + 0]);
    lemma_two_words(rl, method, path);
    assert(path != register_path());
    assert(method != "GET".spec_bytes());
    assert(kind_of(method, path) == Method::PostUpload);
    lemma_upload_name_line(raw, secret, method, path, name, content);
}

/// An upload that the edge holding `secret` forwards is stored by the origin holding the
/// same secret, under the file name that the upload body declares and with its content,
/// whenever that name holds no line break.
pub proof fn lemma_forwarded_upload_stored(
    secret: Seq<u8>,
    client: Seq<u8>,
    forwarded: EdgeAction,
    r: OriginAction,
)
    requires
        no_line_break(secret),
        edge_decides(Some(secret), client, forwarded),
        forwarded is Forward,
        kind_of(method_of(client), path_of(client)) == Method::PostUpload,
        upload_name(body_of(client)->0) matches Some(name) && no_line_break(name),
        origin_decides(secret, forwarded->Forward_0@, r),
    ensures
        r matches OriginAction::Routed(Route::Store(u)) && u.file_name@ == upload_name(
            body_of(client)->0,
        )->0 && u.content@ == strip_trailing_nul(upload_content(body_of(client)->0)->0),
{
    let body = body_of(client)->0;
    lemma_upload_literal_bytes();
    lemma_stamped_upload_decodes(secret, upload_name(body)->0, upload_content(body)->0);
}

} // verus!
