//! Time helpers behind the relative dates the views show: ISO-8601 to unix
//! seconds, and seconds to short words.
use crate::text::{decimal, push_decimal, same_text};
use vstd::string::StringExecFns;
use vstd::string::StringSliceAdditionalSpecFns;
use vstd::prelude::*;

verus! {

pub open spec fn is_digit(c: u8) -> bool {
    48 <= c <= 57
}

/// The value of a run of decimal digits (leading zeros allowed).
pub open spec fn digits_value(s: Seq<u8>) -> int
    decreases s.len(),
{
    if s.len() == 0 {
        0
    } else {
        digits_value(s.drop_last()) * 10 + (s.last() - 48)
    }
}

pub open spec fn all_digits(s: Seq<u8>) -> bool {
    forall|i: int| 0 <= i < s.len() ==> is_digit(#[trigger] s[i])
}

/// Rust's `i64::from_str` on a short string: an optional `+` or `-`, then
/// at least one digit and nothing else.
pub open spec fn parse_int(s: Seq<u8>) -> Option<int> {
    if s.len() > 0 && (s[0] == 43u8 || s[0] == 45u8) {
        let rest = s.drop_first();
        if rest.len() > 0 && all_digits(rest) {
            Some(if s[0] == 45u8 {
                -digits_value(rest)
            } else {
                digits_value(rest)
            })
        } else {
            None
        }
    } else if s.len() > 0 && all_digits(s) {
        Some(digits_value(s))
    } else {
        None
    }
}

/// A UTF-8 continuation byte: no character starts there.
pub open spec fn is_cont(b: u8) -> bool {
    128 <= b < 192
}

/// The bytes after the seconds field, without an optional `.fraction`.
pub open spec fn iso_tail(b: Seq<u8>) -> Seq<u8> {
    let rest = b.subrange(19, b.len() as int);
    if rest.len() > 0 && rest[0] == 46u8 {
        skip_digits(rest.drop_first())
    } else {
        rest
    }
}

/// `s` without its leading ASCII digits.
pub open spec fn skip_digits(s: Seq<u8>) -> Seq<u8>
    decreases s.len(),
{
    if s.len() > 0 && is_digit(s[0]) {
        skip_digits(s.drop_first())
    } else {
        s
    }
}

pub open spec fn has_offset(r: Seq<u8>) -> bool {
    r.len() >= 6 && (r[0] == 43u8 || r[0] == 45u8)
}

pub open spec fn field(b: Seq<u8>, from: int, to: int) -> Option<int> {
    parse_int(b.subrange(from, to))
}

pub open spec fn fields_ok(b: Seq<u8>) -> bool {
    &&& b.len() >= 19 && b[4] == 45u8 && b[7] == 45u8 && b[10] == 84u8
    &&& field(b, 0, 4) is Some && field(b, 5, 7) is Some && field(b, 8, 10) is Some
    &&& field(b, 11, 13) is Some && field(b, 14, 16) is Some && field(b, 17, 19) is Some
}

/// The timestamps whose zone offset, read as text at its byte positions,
/// would cut a character in two: they fit no pattern and parse to nothing.
pub open spec fn iso_panics(b: Seq<u8>) -> bool {
    fields_ok(b) && has_offset(iso_tail(b)) && {
        let r = iso_tail(b);
        ||| is_cont(r[3])
        ||| field(r, 1, 3) is Some && (is_cont(r[4]) || (r.len() > 6 && is_cont(r[6])))
    }
}

/// Days from 1970-01-01 to the civil date y-m-d (proleptic Gregorian;
/// fields out of range just extend the arithmetic).
pub open spec fn days_from_civil(y0: int, mo: int, d: int) -> int {
    let y = if mo <= 2 {
        y0 - 1
    } else {
        y0
    };
    let era = y / 400;
    let yoe = y - era * 400;
    let doy = (153 * (mo + if mo > 2 {
        -3int
    } else {
        9int
    }) + 2) / 5 + d - 1;
    let doe = yoe * 365 + yoe / 4 - yoe / 100 + doy;
    era * 146097 + doe - 719468
}

/// `YYYY-MM-DDTHH:MM:SS(.fff)?(Z|±HH:MM)?` as unix seconds: `None` for
/// text that does not fit the pattern, an offset that cuts a character in
/// two among it (see `iso_panics`).
pub open spec fn iso_seconds(b: Seq<u8>) -> Option<int> {
    if iso_panics(b) {
        None
    } else {
        iso_value(b)
    }
}

/// The fields' value as unix seconds; anything after the seconds that is
/// not a `±HH:MM` offset counts as UTC.
pub open spec fn iso_value(b: Seq<u8>) -> Option<int> {
    if !fields_ok(b) {
        None
    } else {
        let y = field(b, 0, 4).unwrap();
        let mo = field(b, 5, 7).unwrap();
        let d = field(b, 8, 10).unwrap();
        let h = field(b, 11, 13).unwrap();
        let mi = field(b, 14, 16).unwrap();
        let se = field(b, 17, 19).unwrap();
        let r = iso_tail(b);
        let offset = if has_offset(r) {
            match (field(r, 1, 3), field(r, 4, 6)) {
                (Some(oh), Some(om)) => Some((if r[0] == 45u8 {
                    -1int
                } else {
                    1int
                }) * (oh * 3600 + om * 60)),
                _ => None,
            }
        } else {
            Some(0int)
        };
        match offset {
            Some(off) => Some(days_from_civil(y, mo, d) * 86400 + h * 3600 + mi * 60 + se - off),
            None => None,
        }
    }
}

/// `skip_digits` drops exactly the leading run of digits.
proof fn lemma_skip_digits(s: Seq<u8>, k: int)
    requires
        0 <= k <= s.len(),
        forall|i: int| 0 <= i < k ==> is_digit(#[trigger] s[i]),
        k == s.len() || !is_digit(s[k]),
    ensures
        skip_digits(s) == s.subrange(k, s.len() as int),
    decreases k,
{
    if k == 0 {
        assert(s.subrange(0, s.len() as int) =~= s);
    } else {
        assert forall|i: int| 0 <= i < k - 1 implies is_digit(#[trigger] s.drop_first()[i]) by {
            assert(s.drop_first()[i] == s[i + 1]);
        }
        lemma_skip_digits(s.drop_first(), k - 1);
        assert(s.drop_first().subrange(k - 1, s.len() - 1) =~= s.subrange(k, s.len() as int));
    }
}

/// A run of `n` digits is worth less than 10^n.
proof fn lemma_digits_bound(s: Seq<u8>)
    requires
        all_digits(s),
        s.len() <= 4,
    ensures
        0 <= digits_value(s) < if s.len() == 0 { 1int } else if s.len() == 1 { 10int } else if s.len() == 2 { 100int } else if s.len() == 3 { 1000int } else { 10000int },
    decreases s.len(),
{
    if s.len() > 0 {
        assert(is_digit(s[s.len() - 1]));
        assert(all_digits(s.drop_last())) by {
            assert forall|i: int| 0 <= i < s.drop_last().len() implies is_digit(#[trigger] s.drop_last()[i]) by {
                assert(s.drop_last()[i] == s[i]);
            }
        }
        lemma_digits_bound(s.drop_last());
    }
}

/// Parse `b[from..to]` (at most four bytes) as `i64::from_str` would.
fn parse_small(b: &[u8], from: usize, to: usize) -> (r: Option<i64>)
    requires
        from <= to <= b@.len(),
        to - from <= 4,
    ensures
        match r {
            Some(v) => parse_int(b@.subrange(from as int, to as int)) == Some(v as int) && -999 <= v <= 9999
                && (to - from <= 2 ==> -9 <= v <= 99),
            None => parse_int(b@.subrange(from as int, to as int)) is None,
        },
{
    let ghost s = b@.subrange(from as int, to as int);
    if from == to {
        return None;
    }
    let mut i = from;
    let neg = b[from] == 45u8;
    if b[from] == 43u8 || b[from] == 45u8 {
        i = i + 1;
        if i == to {
            return None;
        }
    }
    let start = i;
    proof {
        if start == from + 1 {
            assert(s.drop_first() =~= b@.subrange(start as int, to as int));
        }
    }
    let mut v: i64 = 0;
    while i < to
        invariant
            from <= start <= i <= to <= b@.len(),
            start < to,
            to - start <= 4,
            s == b@.subrange(from as int, to as int),
            neg == (b@[from as int] == 45u8),
            start == from ==> b@[from as int] != 43u8 && b@[from as int] != 45u8,
            start != from ==> start == from + 1 && (b@[from as int] == 43u8 || b@[from as int] == 45u8),
            all_digits(b@.subrange(start as int, i as int)),
            v == digits_value(b@.subrange(start as int, i as int)),
            0 <= v < if i - start == 0 { 1int } else if i - start == 1 { 10int } else if i - start == 2 { 100int } else if i - start == 3 { 1000int } else { 10000int },
        decreases to - i,
    {
        let c = b[i];
        if c < 48u8 || c > 57u8 {
            proof {
                let t = b@.subrange(start as int, to as int);
                assert(t[i - start] == c);
                assert(!all_digits(t));
                if start == from + 1 {
                    assert(s.drop_first() =~= t);
                } else {
                    assert(s =~= t);
                }
            }
            return None;
        }
        proof {
            let t = b@.subrange(start as int, i as int + 1);
            assert(t.drop_last() =~= b@.subrange(start as int, i as int));
            assert forall|k: int| 0 <= k < t.len() implies is_digit(#[trigger] t[k]) by {
                if k < t.len() - 1 {
                    assert(t[k] == b@.subrange(start as int, i as int)[k]);
                }
            }
        }
        v = v * 10 + (c - 48u8) as i64;
        i = i + 1;
    }
    proof {
        lemma_digits_bound(b@.subrange(start as int, to as int));
        if start == from + 1 {
            assert(s.drop_first() =~= b@.subrange(start as int, to as int));
        } else {
            assert(s =~= b@.subrange(start as int, to as int));
        }
    }
    if neg {
        Some(-v)
    } else {
        Some(v)
    }
}

/// Parse `YYYY-MM-DDTHH:MM:SS(.fff)?(Z|±HH:MM)` to unix seconds; `None`
/// for any text that does not fit.
pub fn parse_iso(s: &str) -> (r: Option<i64>)
    ensures
        match r {
            Some(t) => iso_seconds(s.spec_bytes()) == Some(t as int),
            None => iso_seconds(s.spec_bytes()) is None,
        },
        r matches Some(t) ==> -400_000_000_000 <= t <= 400_000_000_000,
{
    let b = s.as_bytes();
    parse_iso_bytes(b)
}

/// `parse_iso` on the text's bytes.
pub fn parse_iso_bytes(b: &[u8]) -> (r: Option<i64>)
    ensures
        match r {
            Some(t) => iso_seconds(b@) == Some(t as int),
            None => iso_seconds(b@) is None,
        },
        r matches Some(t) ==> -400_000_000_000 <= t <= 400_000_000_000,
{
    if iso_panics_bytes(b) {
        return None;
    }
    parse_fields(b)
}

/// The fields of a timestamp whose offset cuts no character, as unix
/// seconds.
fn parse_fields(b: &[u8]) -> (r: Option<i64>)
    requires
        !iso_panics(b@),
    ensures
        match r {
            Some(t) => iso_value(b@) == Some(t as int),
            None => iso_value(b@) is None,
        },
        r matches Some(t) ==> -400_000_000_000 <= t <= 400_000_000_000,
{
    if b.len() < 19 || b[4] != 45u8 || b[7] != 45u8 || b[10] != 84u8 {
        return None;
    }
    let y0 = match parse_small(b, 0, 4) { Some(v) => v, None => return None };
    let mo = match parse_small(b, 5, 7) { Some(v) => v, None => return None };
    let d = match parse_small(b, 8, 10) { Some(v) => v, None => return None };
    let h = match parse_small(b, 11, 13) { Some(v) => v, None => return None };
    let mi = match parse_small(b, 14, 16) { Some(v) => v, None => return None };
    let se = match parse_small(b, 17, 19) { Some(v) => v, None => return None };
    // the zone part starts after the seconds and an optional fraction
    let mut ts: usize = 19;
    if ts < b.len() && b[ts] == 46u8 {
        ts = ts + 1;
        while ts < b.len() && b[ts] >= 48u8 && b[ts] <= 57u8
            invariant
                20 <= ts <= b@.len(),
                forall|i: int| 20 <= i < ts ==> is_digit(#[trigger] b@[i]),
            decreases b@.len() - ts,
        {
            ts = ts + 1;
        }
    }
    proof {
        let rest = b@.subrange(19, b@.len() as int);
        if rest.len() > 0 && rest[0] == 46u8 {
            let t = rest.drop_first();
            assert forall|i: int| 0 <= i < ts - 20 implies is_digit(#[trigger] t[i]) by {
                assert(t[i] == b@[i + 20]);
            }
            if ts < b@.len() {
                assert(t[ts - 20] == b@[ts as int]);
            }
            lemma_skip_digits(t, ts - 20);
            assert(t.subrange(ts - 20, t.len() as int) =~= b@.subrange(ts as int, b@.len() as int));
        } else {
            assert(ts == 19);
        }
        assert(iso_tail(b@) =~= b@.subrange(ts as int, b@.len() as int));
    }
    let ghost r = iso_tail(b@);
    let off = match zone_offset(b, ts) { Some(v) => v, None => return None };
    Some(civil_seconds(y0, mo, d, h, mi, se, off))
}

/// Where the zone part of a timestamp starts: after the seconds and an
/// optional `.fraction`.
fn tail_start(b: &[u8]) -> (ts: usize)
    requires
        b@.len() >= 19,
    ensures
        19 <= ts <= b@.len(),
        iso_tail(b@) == b@.subrange(ts as int, b@.len() as int),
{
    let mut ts: usize = 19;
    if ts < b.len() && b[ts] == 46u8 {
        ts = ts + 1;
        while ts < b.len() && b[ts] >= 48u8 && b[ts] <= 57u8
            invariant
                20 <= ts <= b@.len(),
                forall|i: int| 20 <= i < ts ==> is_digit(#[trigger] b@[i]),
            decreases b@.len() - ts,
        {
            ts = ts + 1;
        }
    }
    proof {
        let rest = b@.subrange(19, b@.len() as int);
        if rest.len() > 0 && rest[0] == 46u8 {
            let t = rest.drop_first();
            assert forall|i: int| 0 <= i < ts - 20 implies is_digit(#[trigger] t[i]) by {
                assert(t[i] == b@[i + 20]);
            }
            if ts < b@.len() {
                assert(t[ts - 20] == b@[ts as int]);
            }
            lemma_skip_digits(t, ts - 20);
            assert(t.subrange(ts - 20, t.len() as int) =~= b@.subrange(ts as int, b@.len() as int));
        } else {
            assert(ts == 19);
        }
        assert(iso_tail(b@) =~= b@.subrange(ts as int, b@.len() as int));
    }
    ts
}

/// Whether the zone offset of these bytes would be cut mid-character
/// (`iso_panics`).
fn iso_panics_bytes(b: &[u8]) -> (r: bool)
    ensures
        r == iso_panics(b@),
{
    if b.len() < 19 || b[4] != 45u8 || b[7] != 45u8 || b[10] != 84u8 {
        return false;
    }
    if parse_small(b, 0, 4).is_none() || parse_small(b, 5, 7).is_none() || parse_small(b, 8, 10).is_none()
        || parse_small(b, 11, 13).is_none() || parse_small(b, 14, 16).is_none() || parse_small(b, 17, 19).is_none() {
        return false;
    }
    let ts = tail_start(b);
    let n = b.len();
    let ghost z = b@.subrange(ts as int, n as int);
    if !(n - ts >= 6 && (b[ts] == 43u8 || b[ts] == 45u8)) {
        return false;
    }
    proof {
        assert(z[3] == b@[ts + 3]);
        assert(z[4] == b@[ts + 4]);
        assert(z.subrange(1, 3) =~= b@.subrange(ts + 1, ts + 3));
        if n - ts > 6 {
            assert(z[6] == b@[ts + 6]);
        }
    }
    if b[ts + 3] >= 128u8 && b[ts + 3] < 192u8 {
        return true;
    }
    parse_small(b, ts + 1, ts + 3).is_some() && ((b[ts + 4] >= 128u8 && b[ts + 4] < 192u8) || (n - ts > 6 && b[ts + 6] >= 128u8
        && b[ts + 6] < 192u8))
}

/// The `±HH:MM` offset that starts at `ts`, in seconds (0 when there is none).
fn zone_offset(b: &[u8], ts: usize) -> (r: Option<i64>)
    requires
        ts <= b@.len(),
    ensures
        ({
            let z = b@.subrange(ts as int, b@.len() as int);
            if has_offset(z) {
                match (field(z, 1, 3), field(z, 4, 6)) {
                    (Some(oh), Some(om)) => r matches Some(v) && v == (if z[0] == 45u8 { -1int } else { 1int }) * (oh * 3600 + om * 60),
                    _ => r is None,
                }
            } else {
                r == Some(0i64)
            }
        }),
        r matches Some(v) ==> -400_000 <= v <= 400_000,
{
    let ghost z = b@.subrange(ts as int, b@.len() as int);
    if b.len() - ts >= 6 && (b[ts] == 43u8 || b[ts] == 45u8) {
        proof {
            assert(z.subrange(1, 3) =~= b@.subrange(ts + 1, ts + 3));
            assert(z.subrange(4, 6) =~= b@.subrange(ts + 4, ts + 6));
        }
        let oh = match parse_small(b, ts + 1, ts + 3) { Some(v) => v, None => return None };
        let om = match parse_small(b, ts + 4, ts + 6) { Some(v) => v, None => return None };
        let sign: i64 = if b[ts] == 45u8 { -1 } else { 1 };
        Some(sign * (oh * 3600 + om * 60))
    } else {
        Some(0)
    }
}

/// Unix seconds of a civil date and time, less a zone offset
/// (days_from_civil after Howard Hinnant).
fn civil_seconds(y0: i64, mo: i64, d: i64, h: i64, mi: i64, se: i64, off: i64) -> (t: i64)
    requires
        -999 <= y0 <= 9999,
        -9 <= mo <= 99,
        -9 <= d <= 99,
        -9 <= h <= 99,
        -9 <= mi <= 99,
        -9 <= se <= 99,
        -400_000 <= off <= 400_000,
    ensures
        t == days_from_civil(y0 as int, mo as int, d as int) * 86400 + h * 3600 + mi * 60 + se - off,
        -400_000_000_000 <= t <= 400_000_000_000,
{
    let y = if mo <= 2 { y0 - 1 } else { y0 };
    let era = (y + 1200) / 400 - 3;
    assert(era == y / 400) by (nonlinear_arith)
        requires
            era == (y + 1200) / 400 - 3,
            y >= -1000,
    {
    }
    let yoe = y - era * 400;
    assert(0 <= yoe < 400);
    let adj: i64 = if mo > 2 { -3 } else { 9 };
    let num = 153 * (mo + adj) + 2;
    assert(num >= 0);
    let doy = num / 5 + d - 1;
    assert(doy == (153 * (mo + if mo > 2 { -3int } else { 9int }) + 2) / 5 + d - 1);
    let doe = yoe * 365 + yoe / 4 - yoe / 100 + doy;
    assert(doe == yoe * 365 + yoe / 4 - yoe / 100 + doy);
    let days = era * 146097 + doe - 719468;
    assert(days == days_from_civil(y0 as int, mo as int, d as int));
    days * 86400 + h * 3600 + mi * 60 + se - off
}

/// `span` of a magnitude in seconds: `Ns` under a minute, `Nm` under an
/// hour, `Nh Mm` under a day, `Nd` from a day on.
pub open spec fn span_text(s: nat) -> Seq<char> {
    if s < 60 {
        decimal(s) + seq!['s']
    } else if s < 3600 {
        decimal(s / 60) + seq!['m']
    } else if s < 86400 {
        decimal(s / 3600) + seq!['h', ' '] + decimal((s % 3600) / 60) + seq!['m']
    } else {
        decimal(s / 86400) + seq!['d']
    }
}

pub open spec fn abs(x: int) -> nat {
    if x < 0 {
        (-x) as nat
    } else {
        x as nat
    }
}

/// How long ago `iso` was at `now`: `now` within 45 s, else `<span> ago`;
/// empty when `iso` does not parse.
pub open spec fn ago_text(iso: Seq<u8>, now: int) -> Seq<char> {
    match iso_seconds(iso) {
        Some(t) => if now - t < 45 {
            seq!['n', 'o', 'w']
        } else {
            span_text(abs(now - t)) + seq![' ', 'a', 'g', 'o']
        },
        None => Seq::empty(),
    }
}

/// How long until `iso` at `now`: `in <span>` while it lies ahead, else
/// `now`; empty when `iso` does not parse.
pub open spec fn until_text(iso: Seq<u8>, now: int) -> Seq<char> {
    match iso_seconds(iso) {
        Some(t) => if t > now {
            seq!['i', 'n', ' '] + span_text(abs(t - now))
        } else {
            seq!['n', 'o', 'w']
        },
        None => Seq::empty(),
    }
}

/// A duration of `secs` seconds (either sign) in short words.
pub fn span(secs: i64) -> (r: String)
    requires
        secs != i64::MIN,
    ensures
        r@ == span_text(abs(secs as int)),
{
    let s: u64 = if secs < 0 { (-secs) as u64 } else { secs as u64 };
    let mut r = String::new();
    proof {
        reveal_strlit("s");
        reveal_strlit("m");
        reveal_strlit("h ");
        reveal_strlit("d");
    }
    if s < 60 {
        push_decimal(s, &mut r);
        r.append("s");
    } else if s < 3600 {
        push_decimal(s / 60, &mut r);
        r.append("m");
    } else if s < 86400 {
        push_decimal(s / 3600, &mut r);
        r.append("h ");
        push_decimal((s % 3600) / 60, &mut r);
        r.append("m");
    } else {
        push_decimal(s / 86400, &mut r);
        r.append("d");
    }
    r
}

/// `ago` at a given clock reading `now` (unix seconds).
pub fn ago_at(iso: &str, now: i64) -> (r: String)
    requires
        -CLOCK_LIMIT < now < CLOCK_LIMIT,
    ensures
        r@ == ago_text(iso.spec_bytes(), now as int),
{
    proof {
        reveal_strlit("now");
        reveal_strlit(" ago");
    }
    match parse_iso(iso) {
        Some(t) => {
            if now - t < 45 {
                String::from_str("now")
            } else {
                let mut r = span(now - t);
                r.append(" ago");
                r
            }
        },
        None => String::new(),
    }
}

/// `until` at a given clock reading `now` (unix seconds).
pub fn until_at(iso: &str, now: i64) -> (r: String)
    requires
        -CLOCK_LIMIT < now < CLOCK_LIMIT,
    ensures
        r@ == until_text(iso.spec_bytes(), now as int),
{
    proof {
        reveal_strlit("now");
        reveal_strlit("in ");
    }
    match parse_iso(iso) {
        Some(t) => {
            if t > now {
                let mut r = String::from_str("in ");
                let d = span(t - now);
                r.append(d.as_str());
                r
            } else {
                String::from_str("now")
            }
        },
        None => String::new(),
    }
}

#[verifier::external_type_specification]
#[verifier::external_body]
pub struct ExSystemTime(std::time::SystemTime);

#[verifier::external_type_specification]
#[verifier::external_body]
pub struct ExSystemTimeError(std::time::SystemTimeError);

/// std `SystemTime::now`: the wall clock. Nothing is claimed of the reading.
#[verifier::external_body]
fn system_now() -> (t: std::time::SystemTime) {
    std::time::SystemTime::now()
}

/// std `SystemTime::duration_since` from `UNIX_EPOCH`: the time since the
/// epoch, or an error for a clock set before it. Nothing is claimed of
/// which, or of the duration.
#[verifier::external_body]
fn since_epoch(t: &std::time::SystemTime) -> (r: Result<core::time::Duration, std::time::SystemTimeError>) {
    t.duration_since(std::time::UNIX_EPOCH)
}

/// std `Duration::as_secs`: the whole seconds of a duration. Nothing is
/// claimed of the value.
#[verifier::external_body]
fn whole_secs(d: &core::time::Duration) -> (r: u64) {
    d.as_secs()
}

/// The wall clock in whole seconds since the Unix epoch, 0 for a clock set
/// before the epoch (and `i64::MAX` for a reading past it, which a Linux
/// clock never gives).
pub fn now_unix() -> (r: i64)
    ensures
        0 <= r,
{
    match since_epoch(&system_now()) {
        Ok(d) => {
            let secs = whole_secs(&d);
            if secs <= 9_223_372_036_854_775_807u64 {
                secs as i64
            } else {
                i64::MAX
            }
        },
        Err(_) => 0,
    }
}

/// Clock readings at or beyond this are out of the range the relative
/// dates are computed for.
pub const CLOCK_LIMIT: i64 = 9_000_000_000_000_000_000;

/// How long ago `iso` was, by the wall clock: `now` within 45 s, else
/// `<span> ago`; empty when `iso` does not parse, or when the clock reads
/// `CLOCK_LIMIT` or later.
pub fn ago(iso: &str) -> (r: String)
    ensures
        exists|now: int| 0 <= now && #[trigger] ago_text(iso.spec_bytes(), now) == r@
            || now >= CLOCK_LIMIT && r@ == Seq::<char>::empty(),
{
    let now = now_unix();
    if now >= CLOCK_LIMIT {
        return String::new();
    }
    let r = ago_at(iso, now);
    assert(ago_text(iso.spec_bytes(), now as int) == r@);
    r
}

/// How long until `iso`, by the wall clock: `in <span>` while it lies
/// ahead, else `now`; empty when `iso` does not parse, or when the clock
/// reads `CLOCK_LIMIT` or later.
pub fn until(iso: &str) -> (r: String)
    ensures
        exists|now: int| 0 <= now && #[trigger] until_text(iso.spec_bytes(), now) == r@
            || now >= CLOCK_LIMIT && r@ == Seq::<char>::empty(),
{
    let now = now_unix();
    if now >= CLOCK_LIMIT {
        return String::new();
    }
    let r = until_at(iso, now);
    assert(until_text(iso.spec_bytes(), now as int) == r@);
    r
}

/// The word a run's lifecycle or terminal state shows as.
pub open spec fn status_text(state: Seq<char>) -> Seq<char> {
    if state == "running"@ {
        "Running"@
    } else if state == "queued"@ {
        "Queued"@
    } else if state == "succeeded"@ || state == "completed"@ {
        "Done"@
    } else if state == "blocked"@ {
        "Needs decision"@
    } else if state == "failed"@ {
        "Failed"@
    } else if state == "cancelled"@ {
        "Cancelled"@
    } else if state == "interrupted"@ {
        "Interrupted"@
    } else if state == "needs_you"@ {
        "Needs your answer"@
    } else if state == "refused"@ {
        "Refused"@
    } else {
        "Unknown"@
    }
}

/// The word for a run state (the status pill's label).
pub fn status_word(state: &str) -> (r: &'static str)
    ensures
        r@ == status_text(state@),
{
    if same_text(state, "running") {
        "Running"
    } else if same_text(state, "queued") {
        "Queued"
    } else if same_text(state, "succeeded") || same_text(state, "completed") {
        "Done"
    } else if same_text(state, "blocked") {
        "Needs decision"
    } else if same_text(state, "failed") {
        "Failed"
    } else if same_text(state, "cancelled") {
        "Cancelled"
    } else if same_text(state, "interrupted") {
        "Interrupted"
    } else if same_text(state, "needs_you") {
        "Needs your answer"
    } else if same_text(state, "refused") {
        "Refused"
    } else {
        "Unknown"
    }
}

} // verus!
