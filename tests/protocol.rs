use signed_proxy::edge::{handle_edge, EdgeAction};
use signed_proxy::frame::{parse_request, FrameError, Method};
use signed_proxy::handshake::{
    generate_secret, generate_secret_key_string, secret_from_digest, is_accepted, registration_request_bytes,
    secret_from_seed, Handshake, HandshakeStep, RETRY_BACKOFF_MS,
};
use signed_proxy::origin::{handle_origin, ContentType, Folder, OriginAction, Render, Route};
use signed_proxy::response::{forbidden, not_found, ok, redirect_to_listing, unavailable};
use signed_proxy::page::{escape_html, fill_template, render_listing};
use signed_proxy::secret_cell::SecretCell;
use signed_proxy::upload::{candidate_name, pick_upload_name};

fn installed(cell: &SecretCell) -> Option<Vec<u8>> {
    cell.read_snapshot()
}

fn register(cell: &mut SecretCell, secret: &[u8]) -> EdgeAction {
    handle_edge(cell, &registration_request_bytes(secret))
}

#[test]
fn parses_plain_client_request() {
    let q = parse_request(b"GET /index.html HTTP/1.1\r\nHost: x\r\n\r\nbody").unwrap();
    assert_eq!(q.kind, Method::Get);
    assert_eq!(q.method, b"GET".to_vec());
    assert_eq!(q.path, b"/index.html".to_vec());
    assert_eq!(q.signature, None);
    assert_eq!(q.body, b"body".to_vec());
    assert_eq!(q.upload_filename, None);
}

#[test]
fn parses_signed_request() {
    let raw = b"X-Proxy-Signature: s3cr3t\r\nPOST /upload HTTP/1.1\r\nHost: h\r\nFile-Name: a.txt\r\nContent-Length: 2\r\n\r\nhi";
    let q = parse_request(raw).unwrap();
    assert_eq!(q.kind, Method::PostUpload);
    assert_eq!(q.signature, Some(b"s3cr3t".to_vec()));
    assert_eq!(q.upload_filename, Some(b"a.txt".to_vec()));
    assert_eq!(q.body, b"hi".to_vec());
}

#[test]
fn signature_line_without_separator_declares_nothing() {
    let q = parse_request(b"X-Proxy-Signature\r\nGET / HTTP/1.1\r\n\r\n").unwrap();
    assert_eq!(q.signature, None);
    assert_eq!(q.path, b"/".to_vec());
}

#[test]
fn registration_kind_is_decided_at_parse() {
    let q = parse_request(b"POST /register-secret HTTP/1.1\r\n\r\nabc").unwrap();
    assert_eq!(q.kind, Method::Register);
    let q = parse_request(b"DELETE /x HTTP/1.1\r\n\r\n").unwrap();
    assert_eq!(q.kind, Method::Other);
}

#[test]
fn malformed_frames_are_refused() {
    assert!(matches!(parse_request(b"GET / HTTP/1.1\r\nHost: x\r\n"), Err(FrameError::MalformedRequest)));
    assert!(matches!(parse_request(b"GET\r\n\r\n"), Err(FrameError::MalformedRequest)));
    assert!(matches!(parse_request(b""), Err(FrameError::MalformedRequest)));
    assert!(matches!(parse_request(b"X-Proxy-Signature: k\r\n\r\n"), Err(FrameError::MalformedRequest)));
}

#[test]
fn registration_installs_trimmed_secret() {
    let mut cell = SecretCell::new();
    let r = handle_edge(&mut cell, b"POST /register-secret HTTP/1.1\r\n\r\n  abc\0\0\0");
    assert!(matches!(r, EdgeAction::Reply(ref b) if b == b"HTTP/1.1 200 OK\r\n\r\n"));
    assert_eq!(installed(&cell), Some(b"abc".to_vec()));
    // White space is trimmed before the NUL padding is removed.
    handle_edge(&mut cell, b"POST /register-secret HTTP/1.1\r\n\r\n\tabc \0\0");
    assert_eq!(installed(&cell), Some(b"abc ".to_vec()));
    handle_edge(&mut cell, b"POST /register-secret HTTP/1.1\r\n\r\nxyz\r\n");
    assert_eq!(installed(&cell), Some(b"xyz".to_vec()));
}

#[test]
fn latest_registration_wins() {
    let mut cell = SecretCell::new();
    register(&mut cell, b"first");
    register(&mut cell, b"second");
    assert_eq!(installed(&cell), Some(b"second".to_vec()));
    handle_edge(&mut cell, b"GET / HTTP/1.1\r\n\r\n");
    assert_eq!(installed(&cell), Some(b"second".to_vec()));
    register(&mut cell, b"third");
    assert_eq!(installed(&cell), Some(b"third".to_vec()));
}

#[test]
fn requests_before_registration_get_unavailable() {
    let mut cell = SecretCell::new();
    for raw in [
        &b"GET / HTTP/1.1\r\n\r\n"[..],
        &b"POST /upload HTTP/1.1\r\n\r\nx"[..],
        &b"PUT /x HTTP/1.1\r\n\r\n"[..],
    ] {
        assert!(matches!(handle_edge(&mut cell, raw), EdgeAction::Unavailable));
    }
    assert_eq!(installed(&cell), None);
}

#[test]
fn favicon_gets_no_content() {
    let mut cell = SecretCell::new();
    let r = handle_edge(&mut cell, b"GET /favicon.ico HTTP/1.1\r\n\r\n");
    assert!(matches!(r, EdgeAction::Reply(ref b) if b == b"HTTP/1.1 204 NO CONTENT\r\n\r\n"));
}

#[test]
fn edge_stamps_forwarded_read() {
    let mut cell = SecretCell::new();
    register(&mut cell, b"k1");
    let r = handle_edge(&mut cell, b"GET /a.png HTTP/1.1\r\nHost: client\r\n\r\nxy");
    match r {
        EdgeAction::Forward(f) => assert_eq!(
            f,
            b"X-Proxy-Signature: k1\r\nGET /a.png HTTP/1.1\r\nHost: 0.0.0.0:2006\r\n\r\nxy".to_vec()
        ),
        _ => panic!("expected a forward"),
    }
}

#[test]
fn edge_stamps_forwarded_upload() {
    let mut cell = SecretCell::new();
    register(&mut cell, b"k1");
    let raw = b"POST /upload HTTP/1.1\r\nHost: c\r\n\r\n------B\r\nContent-Disposition: form-data; name=\"file\"; filename=\"notes.txt\"\r\nContent-Type: text/plain\r\n\r\nhello world\r\n------B--\r\n";
    match handle_edge(&mut cell, raw) {
        EdgeAction::Forward(f) => assert_eq!(
            f,
            b"X-Proxy-Signature: k1\r\nPOST /upload HTTP/1.1\r\nHost: 0.0.0.0:2006\r\nFile-Name: notes.txt\r\nContent-Length: 11\r\n\r\nhello world".to_vec()
        ),
        _ => panic!("expected a forward"),
    }
}

#[test]
fn upload_without_disposition_is_aborted() {
    let mut cell = SecretCell::new();
    register(&mut cell, b"k1");
    assert!(matches!(handle_edge(&mut cell, b"POST /upload HTTP/1.1\r\n\r\nonly"), EdgeAction::Abort));
}

#[test]
fn strange_request_is_ignored_and_malformed_aborted() {
    let mut cell = SecretCell::new();
    register(&mut cell, b"k1");
    assert!(matches!(handle_edge(&mut cell, b"PUT /x HTTP/1.1\r\n\r\n"), EdgeAction::Ignore));
    assert!(matches!(handle_edge(&mut cell, b"POST /other HTTP/1.1\r\n\r\n"), EdgeAction::Ignore));
    assert!(matches!(handle_edge(&mut cell, b"garbage"), EdgeAction::Abort));
}

#[test]
fn direct_unsigned_post_is_forbidden() {
    let raw = b"POST /upload HTTP/1.1\r\nHost: 127.0.0.1:1445\r\nContent-Length: 2\r\n\r\nhi";
    assert!(matches!(handle_origin(b"k1", raw), OriginAction::Rejected));
    let raw = b"POST /anything HTTP/1.1\r\n\r\n";
    assert!(matches!(handle_origin(b"k1", raw), OriginAction::Rejected));
}

#[test]
fn wrong_or_padded_signature_is_forbidden() {
    let raw = b"X-Proxy-Signature: K1\r\nGET / HTTP/1.1\r\n\r\n";
    assert!(matches!(handle_origin(b"k1", raw), OriginAction::Rejected));
    let raw = b"X-Proxy-Signature: k1 \r\nGET / HTTP/1.1\r\n\r\n";
    assert!(matches!(handle_origin(b"k1", raw), OriginAction::Rejected));
    assert!(matches!(handle_origin(b"k1", b"X-Proxy-Signature: k1\r\n"), OriginAction::Abort));
}

fn serve_target(path: &str) -> (Folder, Vec<u8>, ContentType, Render) {
    let raw = format!("X-Proxy-Signature: k\r\nGET {} HTTP/1.1\r\n\r\n", path);
    match handle_origin(b"k", raw.as_bytes()) {
        OriginAction::Routed(Route::Serve(t)) => (t.folder, t.file, t.content_type, t.render),
        _ => panic!("expected a read"),
    }
}

#[test]
fn read_paths_resolve_to_files() {
    assert_eq!(serve_target("/"), (Folder::Pages, vec![], ContentType::Html, Render::Listing));
    assert_eq!(
        serve_target("/style.css"),
        (Folder::Pages, b"style.css".to_vec(), ContentType::Css, Render::Verbatim)
    );
    assert_eq!(
        serve_target("/?file=cat.jpg"),
        (Folder::Data, b"cat.jpg".to_vec(), ContentType::Jpeg, Render::Document)
    );
    assert_eq!(
        serve_target("/pic.png"),
        (Folder::Data, b"pic.png".to_vec(), ContentType::Png, Render::Document)
    );
    assert_eq!(
        serve_target("/notes.txt"),
        (Folder::Data, b"notes.txt".to_vec(), ContentType::Html, Render::Document)
    );
    assert_eq!(
        serve_target("/404.html"),
        (Folder::Pages, b"404.html".to_vec(), ContentType::Html, Render::Document)
    );
}

#[test]
fn query_without_value_is_dropped() {
    let raw = b"X-Proxy-Signature: k\r\nGET /?file HTTP/1.1\r\n\r\n";
    assert!(matches!(handle_origin(b"k", raw), OriginAction::Routed(Route::Drop)));
}

#[test]
fn signed_upload_is_stored() {
    let raw = b"X-Proxy-Signature: k\r\nPOST /upload HTTP/1.1\r\nHost: h\r\nFile-Name: a.txt\r\nContent-Length: 3\r\n\r\nabc\0\0";
    match handle_origin(b"k", raw) {
        OriginAction::Routed(Route::Store(u)) => {
            assert_eq!(u.file_name, b"a.txt".to_vec());
            assert_eq!(u.content, b"abc".to_vec());
        },
        _ => panic!("expected a store"),
    }
}

#[test]
fn upload_names_get_sequential_suffixes() {
    let mut taken: Vec<Vec<u8>> = Vec::new();
    let first = pick_upload_name(b"a.txt", &taken).unwrap();
    assert_eq!(first, b"a.txt".to_vec());
    taken.push(first);
    let second = pick_upload_name(b"a.txt", &taken).unwrap();
    assert_eq!(second, b"a_2.txt".to_vec());
    taken.push(second);
    let third = pick_upload_name(b"a.txt", &taken).unwrap();
    assert_eq!(third, b"a_3.txt".to_vec());
    taken.push(third);
    for n in &taken {
        assert_ne!(pick_upload_name(b"a.txt", &taken).unwrap(), *n);
    }
}

#[test]
fn upload_name_edge_cases() {
    assert_eq!(candidate_name(b"a.tar.gz", 12), b"a_12.tar.gz".to_vec());
    assert_eq!(candidate_name(b"README", 2), b"README_2".to_vec());
    let taken = vec![b"README".to_vec()];
    assert_eq!(pick_upload_name(b"README", &taken), Some(b"README_2".to_vec()));
    let taken = vec![b"b.txt".to_vec(), b"a_2.txt".to_vec()];
    assert_eq!(pick_upload_name(b"a.txt", &taken), Some(b"a.txt".to_vec()));
}

#[test]
fn registration_request_bytes_are_exact() {
    assert_eq!(
        registration_request_bytes(b"abcdef"),
        b"POST /register-secret HTTP/1.1\r\nHost: 0.0.0.0:2006\r\nContent-Type: text/plain\r\nContent-Length: 6\r\n\r\nabcdef".to_vec()
    );
    assert!(is_accepted(b"HTTP/1.1 200 OK\r\n\r\n"));
    assert!(!is_accepted(b"HTTP/1.1 503 SERVICE UNAVAIBLE\r\n\r\n"));
    assert!(!is_accepted(b""));
}

#[test]
fn secret_is_hex_of_sha256() {
    assert_eq!(
        secret_from_seed(b"abc"),
        b"ba7816bf8f01cfea414140de5dae2223b00361a396177a9cb410ff61f20015ad".to_vec()
    );
    let s = generate_secret(16, b"ABCxyz019!@#");
    assert_eq!(s.len(), 64);
    assert!(s.iter().all(|c| c.is_ascii_digit() || (b'a'..=b'f').contains(c)));
}

#[test]
fn digest_text_is_lower_hex() {
    assert_eq!(secret_from_digest(&[0x00, 0x0f, 0xa0, 0xff]), b"000fa0ff".to_vec());
    assert_eq!(secret_from_digest(&[]), Vec::<u8>::new());
}

#[test]
fn random_string_draws_from_charset() {
    let charset = b"xyz";
    let s = generate_secret_key_string(40, charset);
    assert_eq!(s.len(), 40);
    assert!(s.iter().all(|c| charset.contains(c)));
    assert!(generate_secret_key_string(0, charset).is_empty());
}

#[test]
fn handshake_retries_until_accepted() {
    let mut h = Handshake::new();
    assert!(!h.may_serve());
    assert_eq!(h.record_attempt(None), HandshakeStep::Retry { after_ms: RETRY_BACKOFF_MS });
    let refused: &[u8] = b"HTTP/1.1 503 SERVICE UNAVAIBLE\r\n\r\n";
    assert_eq!(h.record_attempt(Some(refused)), HandshakeStep::Retry { after_ms: 1000 });
    assert!(!h.may_serve());
    let ack: &[u8] = b"HTTP/1.1 200 OK\r\n\r\n";
    assert_eq!(h.record_attempt(Some(ack)), HandshakeStep::Serve);
    assert!(h.may_serve());
    assert_eq!(h.attempts, 3);
}

#[test]
fn boot_registration_then_client_read() {
    let secret = generate_secret(16, b"ABCDEFabcdef0123456789!@#");
    let mut edge = SecretCell::new();
    let mut h = Handshake::new();
    // The edge is not listening yet: the first attempt cannot connect.
    assert!(matches!(h.record_attempt(None), HandshakeStep::Retry { .. }));
    assert!(!h.may_serve());
    // The edge is up: the registration call reaches it.
    let reply = match register(&mut edge, &secret) {
        EdgeAction::Reply(b) => b,
        _ => panic!("registration must be acknowledged"),
    };
    assert_eq!(h.record_attempt(Some(&reply)), HandshakeStep::Serve);
    assert_eq!(installed(&edge), Some(secret.clone()));
    // A client read through the edge reaches the origin's listing.
    let forwarded = match handle_edge(&mut edge, b"GET / HTTP/1.1\r\nHost: c\r\n\r\n") {
        EdgeAction::Forward(f) => f,
        _ => panic!("expected a forward, not a 503"),
    };
    match handle_origin(&secret, &forwarded) {
        OriginAction::Routed(Route::Serve(t)) => {
            assert_eq!(t.render, Render::Listing);
            let page = b"<html>listing</html>";
            let resp = ok(&t.content_type.text(), page);
            assert!(resp.starts_with(b"HTTP/1.1 200 OK\r\n"));
        },
        _ => panic!("the stamped read must be routed"),
    }
}

#[test]
fn responses_carry_exact_length() {
    assert_eq!(
        ok(b"text/css", b"a{}"),
        b"HTTP/1.1 200 OK\r\nContent-Type: text/css\r\nContent-Length: 3\r\n\r\na{}".to_vec()
    );
    assert_eq!(
        not_found(b"missing"),
        b"HTTP/1.1 404 NOT FOUND\r\nContent-Length: 7\r\nContent-Type: text/html\r\n\r\nmissing".to_vec()
    );
    assert_eq!(
        forbidden(b""),
        b"HTTP/1.1 403 FORBIDDEN\r\nContent-Length: 0\r\nContent-Type: text/html\r\n\r\n".to_vec()
    );
    let page = vec![b'x'; 1234];
    let mut expected = b"HTTP/1.1 503 SERVICE UNAVAIBLE\r\nContent-Length: 1234\r\nContent-Type: text/html; charset=utf-8\r\n\r\n".to_vec();
    expected.extend_from_slice(&page);
    assert_eq!(unavailable(&page), expected);
    assert_eq!(
        redirect_to_listing(b"ok"),
        b"HTTP/1.1 302 MOVED PERMANENTLY\r\nLocation:/\r\nContent-Type: text/html\r\nContent-Length: 2\r\n\r\nok".to_vec()
    );
}

#[test]
fn html_is_escaped() {
    assert_eq!(escape_html(b"<a href=\"x\">&</a>"), b"&lt;a href=&quot;x&quot;&gt;&amp;&lt;/a&gt;".to_vec());
    assert_eq!(escape_html(b""), Vec::<u8>::new());
}

#[test]
fn template_placeholders_are_filled() {
    assert_eq!(fill_template(b"[{{X}}] and [{{X}}]", b"{{X}}", b"a<b"), b"[a&lt;b] and [a&lt;b]".to_vec());
    assert_eq!(fill_template(b"none here", b"{{X}}", b"v"), b"none here".to_vec());
    let page = render_listing(
        b"<ul>{{NOMES_DOS_ARQUIVOS}}</ul><h1>{{NOME_ARQUIVO_ABERTO}}</h1><pre>{{CONTEUDO_ARQUIVO_ABERTO}}</pre>",
        &vec![b"a.txt".to_vec(), b"b&c.txt".to_vec()],
        b"N/A",
        b"",
    );
    assert_eq!(page, b"<ul>a.txt\nb&amp;c.txt</ul><h1>N/A</h1><pre></pre>".to_vec());
}

#[test]
fn stamped_read_is_routed_only_with_the_same_secret() {
    let secret = secret_from_seed(b"seed");
    let mut edge = SecretCell::new();
    register(&mut edge, &secret);
    let forwarded = match handle_edge(&mut edge, b"GET /?file=x.png HTTP/1.1\r\n\r\n") {
        EdgeAction::Forward(f) => f,
        _ => panic!("expected a forward"),
    };
    assert!(matches!(handle_origin(&secret, &forwarded), OriginAction::Routed(Route::Serve(_))));
    let other = secret_from_seed(b"other seed");
    assert!(matches!(handle_origin(&other, &forwarded), OriginAction::Rejected));
}

#[test]
fn stamped_upload_is_stored_under_declared_name() {
    let mut edge = SecretCell::new();
    register(&mut edge, b"k9");
    let raw = b"POST /upload HTTP/1.1\r\nHost: c\r\n\r\n--X\r\nContent-Disposition: form-data; name=\"f\"; filename=\"r.txt\"\r\n\r\nline one\r\n--X--\r\n";
    let forwarded = match handle_edge(&mut edge, raw) {
        EdgeAction::Forward(f) => f,
        _ => panic!("expected a forward"),
    };
    match handle_origin(b"k9", &forwarded) {
        OriginAction::Routed(Route::Store(u)) => {
            assert_eq!(u.file_name, b"r.txt".to_vec());
            assert_eq!(u.content, b"line one".to_vec());
        },
        _ => panic!("expected a store"),
    }
}
