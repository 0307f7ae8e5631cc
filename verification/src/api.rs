//! The daemon client's rules: typed errors and their lines, what discovery
//! and the handshake accept, and how request paths are encoded. The I/O
//! itself (files, sockets) is the app's.
use crate::model::{join, lemma_join_push, Discovery, Handshake, Problem};
use crate::text::{all_ascii, ascii_chars, chars_vec, decimal, find_from, lemma_find_char, lossy_string, push_decimal, same_text, split_on, trim, trim_spec};
use crate::transcript::opt_view;
use vstd::prelude::*;
use vstd::string::StrSliceExecFns;
use vstd::string::StringExecFns;
use vstd::string::StringSliceAdditionalSpecFns;
use vstd::utf8::{decode_utf8, encode_utf8, valid_utf8};

verus! {

/// The protocol major this client speaks.
pub const PROTOCOL_MAJOR: i64 = 3;

#[derive(Debug, Clone)]
pub enum ApiError {
    /// Socket-level failure: daemon down, connection refused/reset.
    Transport(String),
    /// Non-2xx with the typed `ControlProblem` body when the daemon sent one.
    Http { status: u16, problem: Option<Problem>, body: String },
    Decode(String),
}

/// The problem's message, else its error, else the raw body.
pub open spec fn problem_message(p: Problem, body: Seq<char>) -> Seq<char> {
    match p.message {
        Some(m) => m@,
        None => match p.error {
            Some(e) => e@,
            None => body,
        },
    }
}

/// The line an API error shows.
pub open spec fn api_error_text(e: ApiError) -> Seq<char> {
    match e {
        ApiError::Transport(m) => "engine unreachable: "@ + m@,
        ApiError::Decode(m) => "unexpected response: "@ + m@,
        ApiError::Http { status, problem, body } => match problem {
            Some(p) => match p.code {
                Some(c) => problem_message(p, body@) + " ("@ + c@ + ", HTTP "@ + decimal(status as nat) + ")"@,
                None => problem_message(p, body@) + " (HTTP "@ + decimal(status as nat) + ")"@,
            },
            None => "HTTP "@ + decimal(status as nat) + ": "@ + body@.take(if body@.len() < 200 { body@.len() as int } else { 200 }),
        },
    }
}

impl ApiError {
    pub fn is_transport(&self) -> (r: bool)
        ensures
            r == self is Transport,
    {
        match self {
            ApiError::Transport(_) => true,
            _ => false,
        }
    }

    /// The error as one line.
    pub fn message(&self) -> (r: String)
        ensures
            r@ == api_error_text(*self),
    {
        match self {
            ApiError::Transport(m) => {
                let mut s = String::from_str("engine unreachable: ");
                s.append(m.as_str());
                s
            },
            ApiError::Decode(m) => {
                let mut s = String::from_str("unexpected response: ");
                s.append(m.as_str());
                s
            },
            ApiError::Http { status, problem, body } => match problem {
                Some(p) => {
                    let mut s = match &p.message {
                        Some(m) => m.clone(),
                        None => match &p.error {
                            Some(e) => e.clone(),
                            None => body.clone(),
                        },
                    };
                    match &p.code {
                        Some(c) => {
                            s.append(" (");
                            s.append(c.as_str());
                            s.append(", HTTP ");
                            push_decimal(*status as u64, &mut s);
                            s.append(")");
                        },
                        None => {
                            s.append(" (HTTP ");
                            push_decimal(*status as u64, &mut s);
                            s.append(")");
                        },
                    }
                    s
                },
                None => {
                    let mut s = String::from_str("HTTP ");
                    push_decimal(*status as u64, &mut s);
                    s.append(": ");
                    let n = body.as_str().unicode_len();
                    let k = if n < 200 { n } else { 200 };
                    let head = body.as_str().substring_char(0, k);
                    proof {
                        assert(head@ =~= body@.take(k as int));
                    }
                    s.append(head);
                    s
                },
            },
        }
    }
}

#[derive(Debug, Clone)]
pub enum ConnectError {
    /// No discovery file: the daemon has never started or is stopped.
    NotRunning,
    /// Discovery/token file failed the owner-only checks; refuse to use it.
    Insecure(String),
    Invalid(String),
    Unreachable(String),
    /// Reached the daemon but it speaks another protocol major.
    Incompatible(String),
}

/// The line a connection error shows.
pub open spec fn connect_error_text(e: ConnectError) -> Seq<char> {
    match e {
        ConnectError::NotRunning => "The Claudexor engine is not running. Start it with `claudexor daemon start`."@,
        ConnectError::Insecure(m) => "Refusing insecure engine metadata: "@ + m@,
        ConnectError::Invalid(m) => "Engine discovery is invalid: "@ + m@,
        ConnectError::Unreachable(m) => "Engine unreachable: "@ + m@,
        ConnectError::Incompatible(m) => "Engine is incompatible with this app: "@ + m@,
    }
}

fn prefixed(prefix: &str, m: &String) -> (r: String)
    ensures
        r@ == prefix@ + m@,
{
    let mut s = String::from_str(prefix);
    s.append(m.as_str());
    s
}

impl ConnectError {
    /// The error as one line.
    pub fn message(&self) -> (r: String)
        ensures
            r@ == connect_error_text(*self),
    {
        match self {
            ConnectError::NotRunning => String::from_str(
                "The Claudexor engine is not running. Start it with `claudexor daemon start`.",
            ),
            ConnectError::Insecure(m) => prefixed("Refusing insecure engine metadata: ", m),
            ConnectError::Invalid(m) => prefixed("Engine discovery is invalid: ", m),
            ConnectError::Unreachable(m) => prefixed("Engine unreachable: ", m),
            ConnectError::Incompatible(m) => prefixed("Engine is incompatible with this app: ", m),
        }
    }
}

/// A path-segment byte that goes out as itself.
pub open spec fn unreserved(b: u8) -> bool {
    ||| 65 <= b <= 90
    ||| 97 <= b <= 122
    ||| 48 <= b <= 57
    ||| b == 45
    ||| b == 46
    ||| b == 95
    ||| b == 126
}

/// An upper-case hex digit.
pub open spec fn hex_digit(d: u8) -> u8 {
    if d < 10 {
        (48 + d) as u8
    } else {
        (55 + d) as u8
    }
}

pub open spec fn encode_byte(b: u8) -> Seq<u8> {
    if unreserved(b) {
        seq![b]
    } else {
        seq![37u8, hex_digit(b / 16), hex_digit(b % 16)]
    }
}

/// Percent-encoding of a path segment, byte by byte.
pub open spec fn seg_bytes(s: Seq<u8>) -> Seq<u8>
    decreases s.len(),
{
    if s.len() == 0 {
        Seq::empty()
    } else {
        seg_bytes(s.drop_last()) + encode_byte(s.last())
    }
}

/// Law: an encoded segment holds only unreserved bytes and `%` escapes, so
/// no `/`, `?` or `#` in an id can reach the route as structure.
pub proof fn law_segment_is_one_segment(s: Seq<u8>)
    ensures
        forall|i: int| 0 <= i < seg_bytes(s).len() ==> unreserved(#[trigger] seg_bytes(s)[i]) || seg_bytes(s)[i] == 37u8,
    decreases s.len(),
{
    if s.len() > 0 {
        law_segment_is_one_segment(s.drop_last());
        let head = seg_bytes(s.drop_last());
        let tail = encode_byte(s.last());
        assert forall|i: int| 0 <= i < seg_bytes(s).len() implies unreserved(#[trigger] seg_bytes(s)[i]) || seg_bytes(s)[i] == 37u8 by {
            if i < head.len() {
                assert(seg_bytes(s)[i] == head[i]);
            } else {
                assert(seg_bytes(s)[i] == tail[i - head.len()]);
                let b = s.last();
                assert(b / 16 < 16 && b % 16 < 16);
            }
        }
    }
}

/// The value of an upper-case hex digit.
pub open spec fn hex_value(c: u8) -> int {
    if 48 <= c <= 57 {
        c - 48
    } else {
        c - 55
    }
}

/// Percent-decoding: `%` and two hex digits is the byte they spell, any
/// other byte is itself.
pub open spec fn percent_decode(e: Seq<u8>) -> Seq<u8>
    decreases e.len(),
{
    if e.len() == 0 {
        Seq::empty()
    } else if e[0] == 37u8 && e.len() >= 3 {
        seq![(hex_value(e[1]) * 16 + hex_value(e[2])) as u8] + percent_decode(e.subrange(3, e.len() as int))
    } else {
        seq![e[0]] + percent_decode(e.drop_first())
    }
}

/// How many bytes of `s` are escaped.
pub open spec fn escaped_count(s: Seq<u8>) -> nat
    decreases s.len(),
{
    if s.len() == 0 {
        0
    } else {
        escaped_count(s.drop_last()) + if unreserved(s.last()) {
            0nat
        } else {
            1nat
        }
    }
}

proof fn lemma_decode_byte(b: u8, rest: Seq<u8>)
    ensures
        percent_decode(encode_byte(b) + rest) == seq![b] + percent_decode(rest),
{
    let e = encode_byte(b) + rest;
    if unreserved(b) {
        assert(e.drop_first() =~= rest);
    } else {
        assert(e.subrange(3, e.len() as int) =~= rest);
        assert(hex_value(hex_digit(b / 16)) == b / 16);
        assert(hex_value(hex_digit(b % 16)) == b % 16);
        assert((b / 16) * 16 + b % 16 == b) by (nonlinear_arith);
    }
}

proof fn lemma_seg_front(s: Seq<u8>)
    requires
        s.len() > 0,
    ensures
        seg_bytes(s) == encode_byte(s[0]) + seg_bytes(s.drop_first()),
    decreases s.len(),
{
    if s.len() == 1 {
        assert(s.drop_last() =~= Seq::<u8>::empty());
        assert(s.drop_first() =~= Seq::<u8>::empty());
        assert(seg_bytes(s) =~= encode_byte(s[0]) + seg_bytes(s.drop_first()));
    } else {
        lemma_seg_front(s.drop_last());
        assert(s.drop_last().drop_first() =~= s.drop_first().drop_last());
        assert(s.drop_first().last() == s.last());
        assert(s.drop_last()[0] == s[0]);
        assert(seg_bytes(s) =~= encode_byte(s[0]) + seg_bytes(s.drop_first()));
    }
}

proof fn lemma_seg_decodes(s: Seq<u8>)
    ensures
        percent_decode(seg_bytes(s)) == s,
    decreases s.len(),
{
    if s.len() > 0 {
        lemma_seg_front(s);
        lemma_seg_decodes(s.drop_first());
        lemma_decode_byte(s[0], seg_bytes(s.drop_first()));
        assert(seq![s[0]] + s.drop_first() =~= s);
    }
}

proof fn lemma_seg_length(s: Seq<u8>)
    ensures
        seg_bytes(s).len() == s.len() + 2 * escaped_count(s),
        escaped_count(s) == 0 <==> forall|i: int| 0 <= i < s.len() ==> unreserved(#[trigger] s[i]),
        escaped_count(s) == 0 ==> seg_bytes(s) == s,
    decreases s.len(),
{
    if s.len() > 0 {
        lemma_seg_length(s.drop_last());
        if escaped_count(s) == 0 {
            assert(seg_bytes(s) =~= s);
            assert forall|i: int| 0 <= i < s.len() implies unreserved(#[trigger] s[i]) by {
                if i < s.len() - 1 {
                    assert(s[i] == s.drop_last()[i]);
                }
            }
        }
        if forall|i: int| 0 <= i < s.len() ==> unreserved(#[trigger] s[i]) {
            assert(unreserved(s.last()));
            assert forall|i: int| 0 <= i < s.drop_last().len() implies unreserved(#[trigger] s.drop_last()[i]) by {
                assert(s.drop_last()[i] == s[i]);
            }
        }
    }
}

/// Law: an encoded segment decodes back to exactly the bytes it came from;
/// it is the input itself exactly when every byte is unreserved; and it is
/// two bytes longer for each byte that had to be escaped.
pub proof fn law_segment_encoding(s: Seq<u8>)
    ensures
        percent_decode(seg_bytes(s)) == s,
        seg_bytes(s).len() == s.len() + 2 * escaped_count(s),
        seg_bytes(s) == s <==> forall|i: int| 0 <= i < s.len() ==> unreserved(#[trigger] s[i]),
{
    lemma_seg_decodes(s);
    lemma_seg_length(s);
}

/// An upper-case hex digit byte: `0`-`9` or `A`-`F`.
pub open spec fn upper_hex(c: u8) -> bool {
    (48 <= c <= 57) || (65 <= c <= 70)
}

/// Bytes made only of unreserved bytes and `%` escapes, each `%` followed
/// by two upper-case hex digits.
pub open spec fn well_escaped(e: Seq<u8>) -> bool
    decreases e.len(),
{
    if e.len() == 0 {
        true
    } else if e[0] == 37u8 {
        e.len() >= 3 && upper_hex(e[1]) && upper_hex(e[2]) && well_escaped(e.subrange(3, e.len() as int))
    } else {
        unreserved(e[0]) && well_escaped(e.drop_first())
    }
}

/// Law: in an encoded segment every `%` starts an escape of two upper-case
/// hex digits, and every other byte is unreserved.
pub proof fn law_segment_escapes(s: Seq<u8>)
    ensures
        well_escaped(seg_bytes(s)),
    decreases s.len(),
{
    if s.len() > 0 {
        lemma_seg_front(s);
        law_segment_escapes(s.drop_first());
        let b = s[0];
        let rest = seg_bytes(s.drop_first());
        let e = encode_byte(b) + rest;
        if unreserved(b) {
            assert(e.drop_first() =~= rest);
        } else {
            assert(e.subrange(3, e.len() as int) =~= rest);
            assert(b / 16 < 16 && b % 16 < 16);
        }
    }
}

fn hex(d: u8) -> (r: u8)
    requires
        d < 16,
    ensures
        r == hex_digit(d),
        r < 128,
{
    if d < 10 {
        48 + d
    } else {
        55 + d
    }
}

/// Percent-encode one path segment (ids are server-minted, but never trust
/// that).
pub fn seg(s: &str) -> (r: String)
    ensures
        r@ == ascii_chars(seg_bytes(s.spec_bytes())),
{
    let b = s.as_bytes();
    let mut out: Vec<u8> = Vec::new();
    let mut i: usize = 0;
    while i < b.len()
        invariant
            i <= b@.len(),
            out@ == seg_bytes(b@.subrange(0, i as int)),
            all_ascii(out@),
        decreases b@.len() - i,
    {
        let x = b[i];
        let ghost before = out@;
        if (65 <= x && x <= 90) || (97 <= x && x <= 122) || (48 <= x && x <= 57) || x == 45 || x == 46 || x == 95 || x == 126 {
            out.push(x);
        } else {
            out.push(37);
            out.push(hex(x / 16));
            out.push(hex(x % 16));
        }
        proof {
            let p = b@.subrange(0, i + 1);
            assert(p.drop_last() =~= b@.subrange(0, i as int));
            assert(out@ =~= before + encode_byte(x));
            assert(out@ =~= seg_bytes(p));
        }
        i = i + 1;
    }
    proof {
        assert(b@.subrange(0, b@.len() as int) =~= b@);
    }
    lossy_string(out.as_slice())
}

/// Decode bytes as UTF-8 with std `String::from_utf8`: `None` exactly when
/// they are not valid UTF-8.
#[verifier::external_body]
fn utf8_string(bytes: Vec<u8>) -> (r: Option<String>)
    ensures
        r is Some <==> valid_utf8(bytes@),
        r matches Some(s) ==> s@ == decode_utf8(bytes@),
{
    String::from_utf8(bytes).ok()
}

/// `format!("{:?}", s)`: std's quoted and escaped form of a string.
pub uninterp spec fn debug_quoted(s: Seq<char>) -> Seq<char>;

/// `format!("{:?}", s)` through std's `Debug` for `str`: the result is
/// named, not spelled out.
#[verifier::external_body]
fn quoted(s: &str) -> (r: String)
    ensures
        r@ == debug_quoted(s@),
{
    format!("{:?}", s)
}

/// Loopback only: the token must never leave the machine.
pub open spec fn is_loopback(host: Seq<char>) -> bool {
    host == "127.0.0.1"@ || host == "::1"@ || host == "localhost"@
}

/// Discovery is usable only on a loopback host.
pub fn check_discovery(d: &Discovery) -> (r: Result<(), ConnectError>)
    ensures
        r is Ok <==> is_loopback(d.host@),
        r matches Err(e) ==> (e matches ConnectError::Invalid(m) && m@ == "non-loopback host "@ + debug_quoted(d.host@)),
{
    let h = d.host.as_str();
    if same_text(h, "127.0.0.1") || same_text(h, "::1") || same_text(h, "localhost") {
        return Ok(());
    }
    let mut m = String::from_str("non-loopback host ");
    let q = quoted(h);
    m.append(q.as_str());
    Err(ConnectError::Invalid(m))
}

/// The bearer token from the token file's bytes: UTF-8, trimmed, not empty.
pub fn check_token(raw: Vec<u8>) -> (r: Result<String, ConnectError>)
    ensures
        !valid_utf8(raw@) ==> (r matches Err(ConnectError::Invalid(m)) && m@ == "token is not UTF-8"@),
        valid_utf8(raw@) && trim_spec(decode_utf8(raw@)).len() == 0 ==> (r matches Err(ConnectError::Invalid(m))
            && m@ == "token file is empty"@),
        valid_utf8(raw@) && trim_spec(decode_utf8(raw@)).len() > 0 ==> (r matches Ok(t) && t@ == trim_spec(decode_utf8(raw@))),
{
    let token = match utf8_string(raw) {
        Some(t) => t,
        None => return Err(ConnectError::Invalid(String::from_str("token is not UTF-8"))),
    };
    let t = trim(token.as_str());
    if t.unicode_len() == 0 {
        return Err(ConnectError::Invalid(String::from_str("token file is empty")));
    }
    Ok(String::from_str(t))
}

/// The signed decimal spelling of `i`.
pub open spec fn signed_decimal(i: int) -> Seq<char> {
    if i < 0 {
        "-"@ + decimal((-i) as nat)
    } else {
        decimal(i as nat)
    }
}

fn push_signed(i: i64, s: &mut String)
    ensures
        final(s)@ == old(s)@ + signed_decimal(i as int),
{
    if i < 0 {
        s.append("-");
        let m: u64 = ((-(i + 1)) as u64) + 1;
        push_decimal(m, s);
        proof {
            assert(final(s)@ =~= old(s)@ + signed_decimal(i as int));
        }
    } else {
        push_decimal(i as u64, s);
    }
}

/// The handshake is usable: the same protocol major (the only
/// compatibility signal; the `compatible` flag is not consulted).
pub fn check_handshake(h: &Handshake) -> (r: Result<(), ConnectError>)
    ensures
        r is Ok <==> h.protocol_major == PROTOCOL_MAJOR,
        r matches Err(e) ==> (e matches ConnectError::Incompatible(m) && m@ == "engine speaks protocol "@
            + signed_decimal(h.protocol_major as int) + " (this app speaks 3)"@),
{
    if h.protocol_major != PROTOCOL_MAJOR {
        let mut m = String::from_str("engine speaks protocol ");
        push_signed(h.protocol_major, &mut m);
        m.append(" (this app speaks 3)");
        return Err(ConnectError::Incompatible(m));
    }
    Ok(())
}

/// How a failed handshake call reads as a connection error: a transport
/// failure is unreachable, HTTP 426 is incompatible.
pub fn handshake_failure(e: ApiError) -> (r: ConnectError)
    ensures
        match e {
            ApiError::Transport(m) => r matches ConnectError::Unreachable(x) && x@ == m@,
            ApiError::Http { status, .. } if status == 426 => r matches ConnectError::Incompatible(x) && x@ == api_error_text(e),
            _ => r matches ConnectError::Unreachable(x) && x@ == api_error_text(e),
        },
{
    let text = e.message();
    match e {
        ApiError::Transport(m) => ConnectError::Unreachable(m),
        ApiError::Http { status, .. } => if status == 426 {
            ConnectError::Incompatible(text)
        } else {
            ConnectError::Unreachable(text)
        },
        _ => ConnectError::Unreachable(text),
    }
}

/// How many `c` the text starts with.
pub open spec fn lead_count(s: Seq<char>, c: char) -> nat
    decreases s.len(),
{
    if s.len() > 0 && s[0] == c {
        1 + lead_count(s.drop_first(), c)
    } else {
        0
    }
}

/// `http://host:port`, with an IPv6 host in brackets.
pub open spec fn base_text(host: Seq<char>, port: u16) -> Seq<char> {
    "http://"@ + (if host.contains(':') { "["@ + host + "]"@ } else { host }) + ":"@ + decimal(port as nat)
}

/// The daemon's base URL from its discovery record.
pub fn base_url(d: &Discovery) -> (r: String)
    ensures
        r@ == base_text(d.host@, d.port),
{
    let v = chars_vec(d.host.as_str());
    let mut has_colon = false;
    let mut i: usize = 0;
    while i < v.len()
        invariant
            i <= v@.len(),
            has_colon == v@.subrange(0, i as int).contains(':'),
        decreases v@.len() - i,
    {
        proof {
            let p = v@.subrange(0, i + 1);
            assert(p =~= v@.subrange(0, i as int).push(v@[i as int]));
            if p.contains(':') {
                let k = choose|k: int| 0 <= k < p.len() && p[k] == ':';
                if k < i {
                    assert(v@.subrange(0, i as int)[k] == ':');
                }
            }
            if v@.subrange(0, i as int).contains(':') {
                let k = choose|k: int| 0 <= k < i && v@.subrange(0, i as int)[k] == ':';
                assert(p[k] == ':');
            }
            if v@[i as int] == ':' {
                assert(p[i as int] == ':');
            }
        }
        if v[i] == ':' {
            has_colon = true;
        }
        i = i + 1;
    }
    assert(v@.subrange(0, v@.len() as int) =~= v@);
    let mut s = String::from_str("http://");
    if has_colon {
        s.append("[");
        s.append(d.host.as_str());
        s.append("]");
    } else {
        s.append(d.host.as_str());
    }
    s.append(":");
    push_decimal(d.port as u64, &mut s);
    proof {
        assert(s@ =~= base_text(d.host@, d.port));
    }
    s
}

/// `{base}/v2/{path}`, the path without its leading slashes.
pub open spec fn url_text(base: Seq<char>, path: Seq<char>) -> Seq<char> {
    base + "/v2/"@ + path.subrange(lead_count(path, '/') as int, path.len() as int)
}

proof fn lemma_lead_count(s: Seq<char>, c: char, k: int)
    requires
        0 <= k <= s.len(),
        forall|i: int| 0 <= i < k ==> #[trigger] s[i] == c,
        k == s.len() || s[k] != c,
    ensures
        lead_count(s, c) == k,
    decreases k,
{
    if k > 0 {
        assert forall|i: int| 0 <= i < k - 1 implies #[trigger] s.drop_first()[i] == c by {
            assert(s.drop_first()[i] == s[i + 1]);
        }
        lemma_lead_count(s.drop_first(), c, k - 1);
    }
}

/// The URL of an API route.
pub fn url(base: &str, path: &str) -> (r: String)
    ensures
        r@ == url_text(base@, path@),
{
    let v = chars_vec(path);
    let mut k: usize = 0;
    while k < v.len() && v[k] == '/'
        invariant
            k <= v@.len(),
            v@ == path@,
            forall|i: int| 0 <= i < k ==> #[trigger] v@[i] == '/',
        decreases v@.len() - k,
    {
        k = k + 1;
    }
    proof {
        lemma_lead_count(v@, '/', k as int);
    }
    let mut s = String::from_str(base);
    s.append("/v2/");
    s.append(path.substring_char(k, v.len()));
    s
}

/// A text percent-encoded as one path segment (its UTF-8 bytes, encoded).
pub open spec fn seg_text(s: Seq<char>) -> Seq<char> {
    ascii_chars(seg_bytes(encode_utf8(s)))
}

/// The route of a run artifact: the run id as one segment, and each
/// `/`-separated part of the artifact path as its own segment.
pub open spec fn artifact_route_text(run_id: Seq<char>, path: Seq<char>) -> Seq<char> {
    "runs/"@ + seg_text(run_id) + "/artifacts/"@ + join(split_on(path, '/').map_values(|p: Seq<char>| seg_text(p)), "/"@)
}

/// The route of a run artifact (`runs/:id/artifacts/:path`), every part
/// encoded.
pub fn artifact_route(run_id: &str, path: &str) -> (r: String)
    ensures
        r@ == artifact_route_text(run_id@, path@),
{
    let v = chars_vec(path);
    let mut parts = String::new();
    let mut start: usize = 0;
    let mut first = true;
    let ghost mut done: Seq<Seq<char>> = Seq::empty();
    proof {
        reveal_strlit("/");
        assert(v@.subrange(0, v@.len() as int) =~= path@);
        assert(done + split_on(path@, '/') =~= split_on(path@, '/'));
    }
    loop
        invariant_except_break
            split_on(path@, '/') == done + split_on(v@.subrange(start as int, v@.len() as int), '/'),
        invariant
            start <= v@.len(),
            v@ == path@,
            parts@ == join(done.map_values(|p: Seq<char>| seg_text(p)), "/"@),
            "/"@ == seq!['/'],
            first == (done.len() == 0),
        ensures
            split_on(path@, '/') == done,
            parts@ == join(done.map_values(|p: Seq<char>| seg_text(p)), "/"@),
        decreases v@.len() - start,
    {
        let ghost rest = v@.subrange(start as int, v@.len() as int);
        let end = find_from(&v, start, '/');
        let piece = path.substring_char(start, end);
        let ghost more = v@.subrange(end + 1, v@.len() as int);
        proof {
            lemma_find_char(rest, '/');
            assert(piece@ =~= rest.subrange(0, end - start));
            if end < v@.len() {
                assert(rest.subrange(end - start + 1, rest.len() as int) =~= more);
                assert(split_on(rest, '/') =~= seq![piece@] + split_on(more, '/'));
            } else {
                assert(rest =~= piece@);
                assert(split_on(rest, '/') =~= seq![piece@]);
            }
        }
        let ghost before = done.map_values(|p: Seq<char>| seg_text(p));
        let encoded = seg(piece);
        if !first {
            parts.append("/");
        }
        first = false;
        parts.append(encoded.as_str());
        proof {
            lemma_join_push(before, "/"@, seg_text(piece@));
            assert(done.push(piece@).map_values(|p: Seq<char>| seg_text(p)) =~= before.push(seg_text(piece@)));
            done = done.push(piece@);
        }
        if end == v.len() {
            proof {
                assert(split_on(path@, '/') =~= done);
            }
            break;
        }
        proof {
            assert(split_on(path@, '/') =~= done + split_on(more, '/'));
        }
        start = end + 1;
    }
    let mut out = String::from_str("runs/");
    out.append(seg(run_id).as_str());
    out.append("/artifacts/");
    out.append(parts.as_str());
    out
}

/// A daemon-owned private directory may be trusted: a directory, owned by
/// us, with owner-only permissions (0700).
pub fn private_dir_ok(is_dir: bool, owner: u32, euid: u32, mode: u32) -> (r: bool)
    ensures
        r == (is_dir && owner == euid && mode & 0o777 == 0o700),
{
    is_dir && owner == euid && mode & 0o777 == 0o700
}

/// A daemon-owned private file may be trusted: a regular file, owned by
/// us, with one link and owner-only read/write permissions (0600).
pub fn private_file_ok(is_reg: bool, owner: u32, euid: u32, nlink: u64, mode: u32) -> (r: bool)
    ensures
        r == (is_reg && owner == euid && nlink == 1 && mode & 0o777 == 0o600),
{
    is_reg && owner == euid && nlink == 1 && mode & 0o777 == 0o600
}

/// A private file's name may be opened inside its directory: not empty,
/// and not `.` or `..`.
pub fn private_leaf_ok(name: &str) -> (r: bool)
    ensures
        r == (name@.len() > 0 && name@ != "."@ && name@ != ".."@),
{
    name.unicode_len() > 0 && !same_text(name, ".") && !same_text(name, "..")
}

} // verus!
