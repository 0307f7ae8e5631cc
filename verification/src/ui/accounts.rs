//! Accounts: how a quota subject is named.
use crate::model::QuotaSubject;
use crate::text::chars_vec;
use vstd::prelude::*;
use vstd::string::StrSliceExecFns;
use vstd::string::StringExecFns;

verus! {

/// `s` with every `_` shown as a space.
pub open spec fn underscores_as_spaces(s: Seq<char>) -> Seq<char> {
    s.map_values(|c: char| if c == '_' { ' ' } else { c })
}

/// A subject's parts: its id, its plan, its route (underscores as spaces).
pub open spec fn subject_parts(s: QuotaSubject) -> Seq<Seq<char>> {
    let a: Seq<Seq<char>> = match s.subject_id {
        Some(id) => seq![id@],
        None => Seq::empty(),
    };
    let b: Seq<Seq<char>> = match s.plan_label {
        Some(p) => seq![p@],
        None => Seq::empty(),
    };
    let c: Seq<Seq<char>> = match s.credential_route {
        Some(r) => seq![underscores_as_spaces(r@)],
        None => Seq::empty(),
    };
    a + b + c
}

/// The label of a quota subject: its parts joined by " · ", or "default".
pub open spec fn subject_text(s: QuotaSubject) -> Seq<char> {
    let parts = subject_parts(s);
    if parts.len() == 0 {
        "default"@
    } else {
        crate::model::join(parts, " · "@)
    }
}

fn spaced(s: &str) -> (r: String)
    ensures
        r@ == underscores_as_spaces(s@),
{
    let v = chars_vec(s);
    let mut out = String::new();
    let mut i: usize = 0;
    proof {
        reveal_strlit(" ");
    }
    while i < v.len()
        invariant
            i <= v@.len(),
            v@ == s@,
            out@ == underscores_as_spaces(v@.subrange(0, i as int)),
        decreases v@.len() - i,
    {
        let ghost before = out@;
        let c = v[i];
        if c == '_' {
            proof {
                reveal_strlit(" ");
            }
            out.append(" ");
            assert(out@ =~= before + seq![' ']);
        } else {
            let one = s.substring_char(i, i + 1);
            assert(one@ =~= seq![c]);
            out.append(one);
            assert(out@ == before + seq![c]);
        }
        proof {
            let p = v@.subrange(0, i + 1);
            assert(p =~= v@.subrange(0, i as int).push(c));
            assert(underscores_as_spaces(p) =~= underscores_as_spaces(v@.subrange(0, i as int)).push(if c == '_' { ' ' } else { c }));
            assert(out@ =~= underscores_as_spaces(p));
        }
        i = i + 1;
    }
    assert(v@.subrange(0, v@.len() as int) =~= v@);
    out
}

pub fn subject_label(s: &QuotaSubject) -> (r: String)
    ensures
        r@ == subject_text(*s),
{
    let mut out = String::new();
    let mut n: usize = 0;
    let ghost mut parts: Seq<Seq<char>> = Seq::empty();
    match &s.subject_id {
        Some(id) => {
            out.append(id.as_str());
            n = 1;
            proof {
                parts = seq![id@];
            }
        },
        None => {},
    }
    proof {
        assert(n == parts.len());
        assert(n == 0 ==> out@ == Seq::<char>::empty());
        assert(n > 0 ==> out@ == crate::model::join(parts, " · "@));
    }
    match &s.plan_label {
        Some(p) => {
            if n > 0 {
                out.append(" · ");
            }
            out.append(p.as_str());
            proof {
                crate::model::lemma_join_push(parts, " · "@, p@);
                parts = parts.push(p@);
            }
            n = n + 1;
        },
        None => {},
    }
    proof {
        assert(n == parts.len());
        assert(n > 0 ==> out@ == crate::model::join(parts, " · "@));
    }
    match &s.credential_route {
        Some(r) => {
            if n > 0 {
                out.append(" · ");
            }
            let t = spaced(r.as_str());
            out.append(t.as_str());
            proof {
                crate::model::lemma_join_push(parts, " · "@, t@);
                parts = parts.push(t@);
            }
            n = n + 1;
        },
        None => {},
    }
    proof {
        assert(parts =~= subject_parts(*s));
    }
    if n == 0 {
        return String::from_str("default");
    }
    out
}

/// The sign-in buttons an account row shows.
#[derive(Debug, Clone, Copy, PartialEq, Eq, Structural)]
pub enum SignIn {
    /// A login is already in flight for it: Continue sign-in, and Cancel.
    ContinueOrCancel,
    /// Not ready, and the harness signs in inside the app: Log in.
    LogIn,
    /// No sign-in button.
    NoButton,
}

/// The sign-in buttons of an account row: with a login in flight (perhaps
/// started elsewhere) it can be continued or cancelled; else an account
/// that is not ready, of a harness that signs in inside the app, offers
/// Log in (switched-off accounts too).
pub fn sign_in_buttons(pending: bool, ready: bool, in_app: bool) -> (r: SignIn)
    ensures
        r == (if pending {
            SignIn::ContinueOrCancel
        } else if !ready && in_app {
            SignIn::LogIn
        } else {
            SignIn::NoButton
        }),
{
    if pending {
        SignIn::ContinueOrCancel
    } else if !ready && in_app {
        SignIn::LogIn
    } else {
        SignIn::NoButton
    }
}

} // verus!
