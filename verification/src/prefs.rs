//! The app's saved preferences: a `key=value` line file, read back at
//! launch.
use crate::text::{chars_vec, find_char, find_from, lemma_find_char, lemma_find_char_at, lemma_lead_ws, lemma_trail_ws, same_text, split_on, trim, trim_spec};
use crate::transcript::opt_view;
use vstd::prelude::*;
use vstd::string::StrSliceExecFns;
use vstd::string::StringExecFns;

verus! {

/// Light or dark: follow the system, or a fixed choice.
#[derive(Debug, Clone, Copy, PartialEq, Eq, Structural)]
pub enum ThemePref {
    System,
    Light,
    Dark,
}

#[derive(Debug, Clone, Copy, PartialEq, Eq, Structural)]
pub struct Prefs {
    pub theme: ThemePref,
    pub reduce_transparency: bool,
}

/// The value a line gives `key`: the line starts with the key and `=`, and
/// the rest, trimmed, is the value.
pub open spec fn line_value(line: Seq<char>, key: Seq<char>) -> Option<Seq<char>> {
    if line.len() > key.len() && line.subrange(0, key.len() as int) == key && line[key.len() as int] == '=' {
        Some(trim_spec(line.subrange(key.len() as int + 1, line.len() as int)))
    } else {
        None
    }
}

/// The first line that gives `key` a value.
pub open spec fn lookup(lines: Seq<Seq<char>>, key: Seq<char>) -> Option<Seq<char>>
    decreases lines.len(),
{
    if lines.len() == 0 {
        None
    } else {
        match line_value(lines[0], key) {
            Some(v) => Some(v),
            None => lookup(lines.drop_first(), key),
        }
    }
}

/// The value of `key` in a preferences file.
pub open spec fn pref(raw: Seq<char>, key: Seq<char>) -> Option<Seq<char>> {
    lookup(split_on(raw, '\n'), key)
}

pub open spec fn theme_of(v: Option<Seq<char>>) -> ThemePref {
    match v {
        Some(t) => if t == "light"@ {
            ThemePref::Light
        } else if t == "dark"@ {
            ThemePref::Dark
        } else {
            ThemePref::System
        },
        None => ThemePref::System,
    }
}

pub open spec fn theme_name(t: ThemePref) -> Seq<char> {
    match t {
        ThemePref::System => "system"@,
        ThemePref::Light => "light"@,
        ThemePref::Dark => "dark"@,
    }
}

/// The text `render` writes.
pub open spec fn prefs_text(p: Prefs) -> Seq<char> {
    "theme="@ + theme_name(p.theme) + "\nreduce_transparency="@ + (if p.reduce_transparency { "1"@ } else { "0"@ }) + "\n"@
}

/// `v[start..end]` is `key`, `=`, then more.
fn keyed_line(v: &Vec<char>, start: usize, end: usize, key: &Vec<char>) -> (r: bool)
    requires
        start <= end <= v@.len(),
    ensures
        r == (line_value(v@.subrange(start as int, end as int), key@) is Some),
{
    let ghost line = v@.subrange(start as int, end as int);
    let n = key.len();
    if end - start <= n {
        return false;
    }
    let mut i: usize = 0;
    while i < n
        invariant
            i <= n == key@.len(),
            start + n < end <= v@.len(),
            line == v@.subrange(start as int, end as int),
            forall|j: int| 0 <= j < i ==> #[trigger] line[j] == key@[j],
        decreases n - i,
    {
        if v[start + i] != key[i] {
            proof {
                assert(line.subrange(0, n as int)[i as int] != key@[i as int]);
            }
            return false;
        }
        i = i + 1;
    }
    proof {
        assert(line.subrange(0, n as int) =~= key@);
    }
    v[start + n] == '='
}

/// The value of `key` in a preferences file: the first `key=value` line,
/// its value trimmed.
pub fn pref_value(raw: &str, key: &str) -> (r: Option<String>)
    ensures
        opt_view(r) == pref(raw@, key@),
{
    let v = chars_vec(raw);
    let k = chars_vec(key);
    let mut start: usize = 0;
    proof {
        assert(v@.subrange(0, v@.len() as int) =~= v@);
    }
    loop
        invariant
            start <= v@.len(),
            v@ == raw@,
            k@ == key@,
            pref(raw@, key@) == lookup(split_on(v@.subrange(start as int, v@.len() as int), '\n'), key@),
        decreases v@.len() - start,
    {
        let ghost rest = v@.subrange(start as int, v@.len() as int);
        let end = find_from(&v, start, '\n');
        let ghost line = v@.subrange(start as int, end as int);
        let ghost lines = split_on(rest, '\n');
        proof {
            lemma_find_char(rest, '\n');
            if end < v@.len() {
                assert(rest.subrange(0, end - start) =~= line);
                assert(rest.subrange(end - start + 1, rest.len() as int) =~= v@.subrange(end + 1, v@.len() as int));
                assert(lines =~= seq![line] + split_on(v@.subrange(end + 1, v@.len() as int), '\n'));
            } else {
                assert(rest =~= line);
                assert(lines =~= seq![line]);
            }
            assert(lines[0] == line);
        }
        if keyed_line(&v, start, end, &k) {
            let from = start + k.len() + 1;
            let value = trim(raw.substring_char(from, end));
            proof {
                assert(line.subrange(k@.len() as int + 1, line.len() as int) =~= v@.subrange(from as int, end as int));
            }
            return Some(String::from_str(value));
        }
        if end == v.len() {
            proof {
                assert(lines.drop_first() =~= Seq::<Seq<char>>::empty());
                assert(lookup(lines.drop_first(), key@) is None);
            }
            return None;
        }
        proof {
            assert(lines.drop_first() =~= split_on(v@.subrange(end + 1, v@.len() as int), '\n'));
        }
        start = end + 1;
    }
}

impl Prefs {
    /// Preferences from the file's text; `env_reduce` is the environment's
    /// request for less transparency, which wins over the file.
    pub fn parse(raw: &str, env_reduce: bool) -> (p: Prefs)
        ensures
            p.theme == theme_of(pref(raw@, "theme"@)),
            p.reduce_transparency == (pref(raw@, "reduce_transparency"@) == Some("1"@) || env_reduce),
    {
        let theme = match pref_value(raw, "theme") {
            Some(t) => if same_text(t.as_str(), "light") {
                ThemePref::Light
            } else if same_text(t.as_str(), "dark") {
                ThemePref::Dark
            } else {
                ThemePref::System
            },
            None => ThemePref::System,
        };
        let reduce = match pref_value(raw, "reduce_transparency") {
            Some(v) => same_text(v.as_str(), "1"),
            None => false,
        };
        Prefs { theme, reduce_transparency: reduce || env_reduce }
    }

    /// The file text that saves these preferences.
    pub fn render(&self) -> (r: String)
        ensures
            r@ == prefs_text(*self),
    {
        let mut out = String::from_str("theme=");
        out.append(match self.theme {
            ThemePref::System => "system",
            ThemePref::Light => "light",
            ThemePref::Dark => "dark",
        });
        out.append("\nreduce_transparency=");
        out.append(if self.reduce_transparency { "1" } else { "0" });
        out.append("\n");
        out
    }
}

proof fn lemma_plain_trim(s: Seq<char>)
    requires
        s.len() > 0,
        forall|i: int| 0 <= i < s.len() ==> !is_ws_char(#[trigger] s[i]),
    ensures
        trim_spec(s) == s,
{
    assert(!crate::text::is_ws(s[0]));
    assert(!crate::text::is_ws(s[s.len() - 1]));
    lemma_lead_ws(s, 0);
    lemma_trail_ws(s, s.len() as int);
    assert(s.subrange(0, s.len() as int) =~= s);
}

pub open spec fn is_ws_char(c: char) -> bool {
    crate::text::is_ws(c)
}

/// Law: preferences read back from the text they were saved as are the
/// preferences that were saved (with no environment override).
pub proof fn law_prefs_round_trip(p: Prefs)
    ensures
        theme_of(pref(prefs_text(p), "theme"@)) == p.theme,
        (pref(prefs_text(p), "reduce_transparency"@) == Some("1"@)) == p.reduce_transparency,
{
    reveal_strlit("theme=");
    reveal_strlit("system");
    reveal_strlit("light");
    reveal_strlit("dark");
    reveal_strlit("\nreduce_transparency=");
    reveal_strlit("reduce_transparency");
    reveal_strlit("reduce_transparency=");
    reveal_strlit("theme");
    reveal_strlit("1");
    reveal_strlit("0");
    reveal_strlit("\n");
    let nm = theme_name(p.theme);
    let d: Seq<char> = if p.reduce_transparency { "1"@ } else { "0"@ };
    let line1 = "theme="@ + nm;
    let line2 = "reduce_transparency="@ + d;
    let text = prefs_text(p);
    assert(text =~= line1 + seq!['\n'] + line2 + seq!['\n']);
    // The first line.
    let k1 = line1.len() as int;
    assert forall|i: int| 0 <= i < k1 implies #[trigger] text[i] != '\n' by {
        assert(text[i] == line1[i]);
    }
    lemma_find_char_at(text, '\n', k1);
    let rest1 = text.subrange(k1 + 1, text.len() as int);
    assert(rest1 =~= line2 + seq!['\n']);
    assert(text.subrange(0, k1) =~= line1);
    // The second line.
    let k2 = line2.len() as int;
    assert forall|i: int| 0 <= i < k2 implies #[trigger] rest1[i] != '\n' by {
        assert(rest1[i] == line2[i]);
    }
    lemma_find_char_at(rest1, '\n', k2);
    let rest2 = rest1.subrange(k2 + 1, rest1.len() as int);
    assert(rest2 =~= Seq::<char>::empty());
    lemma_find_char_at(rest2, '\n', 0);
    assert(rest1.subrange(0, k2) =~= line2);
    let lines = split_on(text, '\n');
    assert(split_on(rest2, '\n') =~= seq![Seq::<char>::empty()]);
    assert(split_on(rest1, '\n') =~= seq![line2, Seq::<char>::empty()]);
    assert(lines =~= seq![line1, line2, Seq::<char>::empty()]);
    // Values.
    assert(line1.subrange(0, 5) =~= "theme"@);
    assert(line1.subrange(6, line1.len() as int) =~= nm);
    lemma_plain_trim(nm);
    assert(line_value(line1, "theme"@) == Some(nm));
    assert(line_value(line1, "reduce_transparency"@) is None) by {
        if line1.len() > 19 {
            assert(line1.subrange(0, 19)[0] != "reduce_transparency"@[0]);
        }
    }
    assert(line2.subrange(0, 19) =~= "reduce_transparency"@);
    assert(line2.subrange(20, line2.len() as int) =~= d);
    lemma_plain_trim(d);
    assert(line_value(line2, "reduce_transparency"@) == Some(d));
    assert(lines.drop_first() =~= seq![line2, Seq::<char>::empty()]);
    assert(lookup(lines, "theme"@) == Some(nm));
    assert(lookup(lines.drop_first(), "reduce_transparency"@) == Some(d));
    assert(lookup(lines, "reduce_transparency"@) == Some(d));
    assert("light"@[0] != "dark"@[0]);
    assert("system"@[0] != "light"@[0]);
    assert("system"@[0] != "dark"@[0]);
    assert("0"@[0] != "1"@[0]);
}

} // verus!
