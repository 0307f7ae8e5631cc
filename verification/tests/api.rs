use claudexor_linux::api::{artifact_route, base_url, check_discovery, check_handshake, check_token, private_dir_ok, private_file_ok, private_leaf_ok, seg, url, ApiError, ConnectError};
use claudexor_linux::model::{Discovery, Handshake, Problem};

#[test]
fn segment_encoding() {
    assert_eq!(seg("th-1_a.b~"), "th-1_a.b~");
    assert_eq!(seg("a/b c"), "a%2Fb%20c");
}

#[test]
fn segment_encoding_of_non_ascii() {
    assert_eq!(seg("é"), "%C3%A9");
    assert_eq!(seg(""), "");
}

#[test]
fn error_lines() {
    assert_eq!(ApiError::Transport("refused".into()).message(), "engine unreachable: refused");
    assert_eq!(ApiError::Decode("eof".into()).message(), "unexpected response: eof");
    let p = Problem { code: Some("trust_full_access_required".into()), message: Some("needs trust".into()), ..Default::default() };
    let e = ApiError::Http { status: 403, problem: Some(p), body: "{}".into() };
    assert_eq!(e.message(), "needs trust (trust_full_access_required, HTTP 403)");
    let e = ApiError::Http { status: 500, problem: None, body: "x".repeat(300) };
    assert_eq!(e.message(), format!("HTTP 500: {}", "x".repeat(200)));
    assert!(ApiError::Transport(String::new()).is_transport());
    assert!(!e.is_transport());
    assert_eq!(ConnectError::Unreachable("down".into()).message(), "Engine unreachable: down");
}

#[test]
fn discovery_needs_loopback_and_a_token() {
    let d = Discovery { host: "127.0.0.1".into(), port: 7311, token_path: "/t".into() };
    assert!(check_discovery(&d).is_ok());
    assert_eq!(base_url(&d), "http://127.0.0.1:7311");
    let d6 = Discovery { host: "::1".into(), port: 80, token_path: String::new() };
    assert_eq!(base_url(&d6), "http://[::1]:80");
    let bad = Discovery { host: "10.0.0.2".into(), port: 1, token_path: String::new() };
    match check_discovery(&bad) {
        Err(ConnectError::Invalid(m)) => assert_eq!(m, "non-loopback host \"10.0.0.2\""),
        other => panic!("{other:?}"),
    }
    assert_eq!(check_token(b" tok \n".to_vec()).unwrap(), "tok");
    assert!(matches!(check_token(b"  ".to_vec()), Err(ConnectError::Invalid(m)) if m == "token file is empty"));
    assert!(matches!(check_token(vec![0xff]), Err(ConnectError::Invalid(m)) if m == "token is not UTF-8"));
    assert_eq!(url("http://h:1", "//threads/x"), "http://h:1/v2/threads/x");
}

#[test]
fn handshake_needs_the_same_major() {
    let ok = Handshake { protocol_major: 3, compatible: true, engine: None, serving_mode: None };
    assert!(check_handshake(&ok).is_ok());
    let old = Handshake { protocol_major: 2, compatible: true, engine: None, serving_mode: None };
    match check_handshake(&old) {
        Err(ConnectError::Incompatible(m)) => assert_eq!(m, "engine speaks protocol 2 (this app speaks 3)"),
        other => panic!("{other:?}"),
    }
    let flagless = Handshake { protocol_major: 3, compatible: false, engine: None, serving_mode: None };
    assert!(check_handshake(&flagless).is_ok(), "the major is the only compatibility signal");
    let neg = Handshake { protocol_major: -4, compatible: false, engine: None, serving_mode: None };
    match check_handshake(&neg) {
        Err(ConnectError::Incompatible(m)) => assert_eq!(m, "engine speaks protocol -4 (this app speaks 3)"),
        other => panic!("{other:?}"),
    }
}

#[test]
fn artifact_routes_encode_each_part() {
    assert_eq!(artifact_route("run-1", "final/answer.md"), "runs/run-1/artifacts/final/answer.md");
    assert_eq!(artifact_route("a b", "dir x/é.md"), "runs/a%20b/artifacts/dir%20x/%C3%A9.md");
    assert_eq!(artifact_route("r", "/lead//x"), "runs/r/artifacts//lead//x");
    assert_eq!(artifact_route("r", ""), "runs/r/artifacts/");
}

#[test]
fn private_reads_accept_owner_only_and_reject_loose_modes() {
    assert!(private_dir_ok(true, 1000, 1000, 0o40700));
    assert!(!private_dir_ok(true, 1000, 1000, 0o40755), "loose parent dir must be refused");
    assert!(!private_dir_ok(true, 0, 1000, 0o40700), "another owner");
    assert!(!private_dir_ok(false, 1000, 1000, 0o700), "not a directory");
    assert!(private_file_ok(true, 1000, 1000, 1, 0o100600));
    assert!(!private_file_ok(true, 1000, 1000, 1, 0o100644), "world-readable file must be refused");
    assert!(!private_file_ok(true, 1000, 1000, 2, 0o100600), "a second link");
    assert!(!private_file_ok(false, 1000, 1000, 1, 0o120600), "symlink leaf must be refused");
    assert!(private_leaf_ok("token"));
    assert!(!private_leaf_ok(""));
    assert!(!private_leaf_ok("."));
    assert!(!private_leaf_ok(".."));
    assert!(private_leaf_ok("..x"));
}

fn percent_decode(e: &str) -> Vec<u8> {
    let b = e.as_bytes();
    let mut out = Vec::new();
    let mut i = 0;
    while i < b.len() {
        if b[i] == b'%' && i + 2 < b.len() {
            out.push(u8::from_str_radix(&e[i + 1..i + 3], 16).unwrap());
            i += 3;
        } else {
            out.push(b[i]);
            i += 1;
        }
    }
    out
}

#[test]
fn segment_decodes_back_and_grows_two_bytes_per_escape() {
    for s in ["th-1_a.b~", "a/b c", "é", "", "?#%", "x%41"] {
        let e = seg(s);
        assert_eq!(percent_decode(&e), s.as_bytes(), "round trip of {s:?}");
        let escaped = s.bytes().filter(|b| !(b.is_ascii_alphanumeric() || b"-._~".contains(b))).count();
        assert_eq!(e.len(), s.len() + 2 * escaped);
        assert_eq!(e == s, escaped == 0);
    }
}

#[test]
fn every_percent_starts_an_upper_case_escape() {
    for s in ["a b", "é/ü", "%%", "?#~", "\u{7f}\u{1}"] {
        let e = seg(s).into_bytes();
        let mut i = 0;
        while i < e.len() {
            if e[i] == b'%' {
                assert!(i + 2 < e.len(), "{s:?}");
                for c in &e[i + 1..i + 3] {
                    assert!(c.is_ascii_digit() || (b'A'..=b'F').contains(c), "{s:?}");
                }
                i += 3;
            } else {
                assert!(e[i].is_ascii_alphanumeric() || b"-._~".contains(&e[i]), "{s:?}");
                i += 1;
            }
        }
    }
}
