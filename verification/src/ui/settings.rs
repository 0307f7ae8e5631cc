//! Settings: its tabs, the client-only appearance preferences, and how a
//! harness's readiness reads.
use crate::text::same_text;
use vstd::prelude::*;

verus! {

#[derive(Debug, Clone, Copy, PartialEq, Eq, Structural, Default)]
pub enum Tab {
    #[default]
    Routing,
    Budget,
    Harnesses,
    Keys,
    Appearance,
    Engine,
}

/// Client-only preferences the shell owns (theme 0 system · 1 light · 2 dark).
#[derive(Debug, Clone, Copy, PartialEq, Eq, Structural, Default)]
pub struct Appearance {
    pub theme: u8,
    pub reduce_transparency: bool,
}

/// How a harness's readiness reads on the harnesses tab.
#[derive(Debug, Clone, Copy, PartialEq, Eq, Structural)]
pub enum Readiness {
    Ready,
    Degraded,
    Unavailable,
}

/// The readiness a probe status reports: `ok` and `degraded` as such,
/// anything else unavailable.
pub open spec fn readiness_of(status: Seq<char>) -> Readiness {
    if status == "ok"@ {
        Readiness::Ready
    } else if status == "degraded"@ {
        Readiness::Degraded
    } else {
        Readiness::Unavailable
    }
}

/// The word shown for a readiness.
pub open spec fn readiness_word(r: Readiness) -> Seq<char> {
    match r {
        Readiness::Ready => "Ok"@,
        Readiness::Degraded => "Degraded"@,
        Readiness::Unavailable => "Unavailable"@,
    }
}

/// The readiness of a harness whose probe reported `status`.
pub fn readiness(status: &str) -> (r: Readiness)
    ensures
        r == readiness_of(status@),
{
    if same_text(status, "ok") {
        Readiness::Ready
    } else if same_text(status, "degraded") {
        Readiness::Degraded
    } else {
        Readiness::Unavailable
    }
}

impl Readiness {
    /// The word shown for it.
    pub fn word(&self) -> (w: &'static str)
        ensures
            w@ == readiness_word(*self),
    {
        match self {
            Readiness::Ready => "Ok",
            Readiness::Degraded => "Degraded",
            Readiness::Unavailable => "Unavailable",
        }
    }
}

} // verus!
