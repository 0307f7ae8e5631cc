//! The control API's data model: what the daemon sends and what the app
//! asks of it, as plain values, and the rules that read them.
use crate::text::{blank, chars_vec, find_char, find_from, is_blank, lemma_find_char, same_text, split_on, trim, trim_spec};
use crate::transcript::opt_view;
use vstd::prelude::*;
use vstd::string::StrSliceExecFns;
use vstd::string::StringExecFns;

verus! {

#[derive(Debug, Clone, PartialEq, Default)]
pub struct Discovery {
    pub host: String,
    pub port: u16,
    pub token_path: String,
}

#[derive(Debug, Clone, PartialEq, Default)]
pub struct Handshake {
    pub protocol_major: i64,
    pub compatible: bool,
    pub engine: Option<Engine>,
    /// `normal` | `recovery_only`; absent on pre-#165 daemons (= normal).
    pub serving_mode: Option<String>,
}

#[derive(Debug, Clone, PartialEq, Default)]
pub struct Engine {
    pub version: Option<String>,
    pub sha: Option<String>,
}

/// `ControlProblem`: the typed error body of every route.
#[derive(Debug, Clone, PartialEq, Default)]
pub struct Problem {
    pub code: Option<String>,
    pub message: Option<String>,
    pub error: Option<String>,
    pub required_actions: Vec<String>,
}

#[derive(Debug, Clone, PartialEq, Default)]
pub struct Thread {
    pub id: String,
    pub title: Option<String>,
    pub repo_root: Option<String>,
    pub mode: Option<String>,
    pub workspace_mode: Option<String>,
    pub primary_harness: Option<String>,
    /// `active` | `closed`.
    pub state: Option<String>,
    pub trashed_at: Option<String>,
    pub head_run_id: Option<String>,
    pub needs_human: bool,
    pub created_at: String,
    pub updated_at: String,
}

#[derive(Debug, Clone, PartialEq, Default)]
pub struct ThreadList {
    pub threads: Vec<Thread>,
}

#[derive(Debug, Clone, PartialEq, Default)]
pub struct Continuity {
    /// native_resume | packet | …
    pub kind: String,
    pub packet_turns: u32,
    pub summarized: bool,
    pub lane_switched_from: Option<LaneFrom>,
}

#[derive(Debug, Clone, PartialEq, Default)]
pub struct LaneFrom {
    pub harness: Option<String>,
}

#[derive(Debug, Clone, PartialEq, Default)]
pub struct RunResult {
    /// patch | answer | plan | report | none
    pub kind: Option<String>,
    pub diff_stat: Option<DiffStat>,
    pub apply_state: Option<String>,
}

#[derive(Debug, Clone, PartialEq, Default)]
pub struct DiffStat {
    pub files: u64,
    pub additions: u64,
    pub deletions: u64,
}

#[derive(Debug, Clone, PartialEq, Default)]
pub struct EnqueueError {
    pub message: String,
    pub code: Option<String>,
    /// None (older daemons) reads as retryable.
    pub retryable: Option<bool>,
    pub required_actions: Vec<String>,
}

#[derive(Debug, Clone, PartialEq, Default)]
pub enum Scope {
    #[default]
    NoProject,
    Project { root: String, context: &'static str },
}

#[derive(Debug, Clone, PartialEq, Default)]
pub struct CreateThread {
    pub title: Option<String>,
    pub scope: Scope,
    pub mode: Option<String>,
    pub primary_harness: Option<String>,
    /// in_place (default) | isolated: a persistent thread worktree.
    pub workspace: Option<String>,
}

/// One explicit panel member: `harness[=model[:effort]]`.
#[derive(Debug, Clone, PartialEq, Default)]
pub struct ReviewerEntry {
    pub harness: String,
    pub model: Option<String>,
    pub effort: Option<String>,
}

/// Agent execution strategy (Single is the default).
#[derive(Debug, Clone, Copy, PartialEq, Eq, Structural)]
pub enum Strategy {
    Single,
    BestOf,
    UntilClean,
    Create,
}

/// Composer "Options": per-turn knobs, sticky across sends. `None` fields mean
/// "engine default" and stay off the wire.
#[derive(Debug, Clone)]
pub struct TurnOpts {
    /// readonly | workspace_write | full; None = the repo's trust default.
    pub access: Option<&'static str>,
    pub strategy: Strategy,
    /// Single-candidate repair cap (1..=8).
    pub attempts: u32,
    /// Explicit Best-of pool; empty = let the engine pick.
    pub pool: Vec<String>,
    /// Per-harness model for this turn (beats the scalar model).
    pub models: Vec<(String, String)>,
    pub council: bool,
    /// Council members (2..=4).
    pub members: u32,
    pub deep_scan: bool,
    pub delegate: bool,
    pub browser: bool,
    /// Max paid spend in USD, as typed; empty = the settings default.
    pub budget: String,
    /// off | auto | cached | live
    pub web: Option<&'static str>,
    /// auto | subscription | api_key
    pub auth: Option<&'static str>,
    pub review: bool,
    /// `harness[=model[:effort]]`, comma separated.
    pub panel: String,
}

#[derive(Debug, Clone, PartialEq, Default)]
pub struct ResourceRef {
    pub resource_id: String,
}

/// `ControlResource` (upload finalize result).
#[derive(Debug, Clone, PartialEq, Default)]
pub struct Resource {
    pub resource_id: String,
    pub name: String,
    pub size_bytes: u64,
}

#[derive(Debug, Clone, PartialEq, Default)]
pub struct UploadStatus {
    pub upload_id: String,
}

#[derive(Debug, Clone, PartialEq, Default)]
pub struct Profiles {
    pub profiles: Vec<ProfileRow>,
}

#[derive(Debug, Clone, PartialEq, Default)]
pub struct ProfileRow {
    pub profile: Profile,
    pub status: Option<ProfileStatus>,
    pub identity: Option<Identity>,
}

#[derive(Debug, Clone, PartialEq, Default)]
pub struct Profile {
    pub profile_id: String,
    pub harness_id: String,
    pub display_name: Option<String>,
    pub enabled: bool,
    pub credential_kind: Option<String>,
}

#[derive(Debug, Clone, PartialEq, Default)]
pub struct ProfileStatus {
    /// available | unavailable | unknown
    pub availability: String,
    /// passed | failed | not_run
    pub verification: String,
    pub detail: Option<String>,
}

#[derive(Debug, Clone, PartialEq, Default)]
pub struct Identity {
    pub email: Option<String>,
    pub plan: Option<String>,
}

/// `ControlThreadTurnResponse`: 200 = started (runId), 202 = queued (jobId + state).
#[derive(Debug, Clone, PartialEq, Default)]
pub struct TurnStarted {
    pub job_id: Option<String>,
    pub run_id: Option<String>,
    pub thread_id: Option<String>,
    pub turn_id: Option<String>,
    pub state: Option<String>,
}

#[derive(Debug, Clone, PartialEq, Default)]
pub struct ReviewFinding {
    pub severity: String,
    pub category: String,
    pub claim: String,
    pub status: String,
}

#[derive(Debug, Clone, PartialEq, Default)]
pub struct PlanProgress {
    pub items: Vec<PlanItem>,
}

#[derive(Debug, Clone, PartialEq, Default)]
pub struct PlanItem {
    pub title: String,
    /// pending | in_progress | completed
    pub status: String,
}

#[derive(Debug, Clone, PartialEq, Default)]
pub struct TimelineEvent {
    pub ts: String,
    pub kind: String,
    pub title: String,
    /// info | warn | error
    pub severity: String,
    pub harness_id: Option<String>,
    pub error_summary: Option<String>,
}

#[derive(Debug, Clone, PartialEq, Default)]
pub struct PlanQuestion {
    pub id: String,
    /// single | multi | text
    pub kind: String,
    pub prompt: String,
    pub options: Vec<PlanOption>,
}

#[derive(Debug, Clone, PartialEq, Default)]
pub struct PlanOption {
    pub id: String,
    pub label: String,
}

#[derive(Debug, Clone, PartialEq, Default)]
pub struct PlanReadiness {
    pub state: String,
    pub question_count: u32,
}

#[derive(Debug, Clone, PartialEq, Default)]
pub struct RunSummary {
    pub run_id: Option<String>,
    pub state: String,
    pub output_ready_state: Option<String>,
    pub waiting_on_user: Option<bool>,
    pub failure: Option<RunFailure>,
    /// Requested vs stream-observed model (verified only on observed evidence).
    pub route: Option<RunRoute>,
    pub requested_access: Option<String>,
    pub effective_access: Option<String>,
    pub auth_route: Option<AuthRoute>,
    pub web_evidence: Option<WebEvidence>,
    pub delegation: Option<RunDelegation>,
    /// race | attempts | until_clean | create | council | …; None = single.
    pub strategy: Option<String>,
    pub mode: Option<String>,
}

#[derive(Debug, Clone, PartialEq, Default)]
pub struct AuthRoute {
    pub requested: Option<String>,
    pub effective: Option<String>,
    pub reason: Option<String>,
    pub source: Option<String>,
    pub profile_id: Option<String>,
}

#[derive(Debug, Clone, PartialEq, Default)]
pub struct WebEvidence {
    pub status: Option<String>,
    pub mode: Option<String>,
    pub effective_mode: Option<String>,
    pub required: bool,
}

#[derive(Debug, Clone, PartialEq, Default)]
pub struct RunDelegation {
    pub requested: bool,
    pub effective: bool,
    pub used: bool,
    pub reason: Option<String>,
}

#[derive(Debug, Clone, PartialEq, Default)]
pub struct RunRoute {
    pub harness_id: Option<String>,
    pub requested_model: Option<String>,
    pub observed_model: Option<String>,
    pub verified: bool,
}

/// `summary.failure` (mirrors ClaudexorKit `RunFailureInfo`): surfaces show
/// `safeMessage` + the typed code, never parse the prose for remedies.
#[derive(Debug, Clone, PartialEq, Default)]
pub struct RunFailure {
    pub phase: Option<String>,
    pub category: Option<String>,
    pub code: Option<String>,
    pub safe_message: String,
    pub next_actions: Vec<String>,
    pub resets_at: Option<String>,
    /// The vendor's own typed failure: displayed as a fact, never mapped to a remedy.
    pub vendor_failure: Option<VendorFailure>,
}

#[derive(Debug, Clone, PartialEq, Default)]
pub struct VendorFailure {
    pub code: Option<String>,
    pub message: Option<String>,
}

#[derive(Debug, Clone, PartialEq, Default)]
pub struct PrimaryOutput {
    pub kind: String,
    pub path: String,
    pub text: Option<String>,
    pub truncated: bool,
}

#[derive(Debug, Clone, PartialEq, Default)]
pub struct Interaction {
    pub interaction_id: String,
    pub run_id: String,
    pub harness_id: Option<String>,
    pub questions: Vec<Question>,
}

#[derive(Debug, Clone, PartialEq, Default)]
pub struct Question {
    pub id: String,
    pub question: String,
    pub header: Option<String>,
    pub options: Vec<QuestionOption>,
    pub multi_select: bool,
}

#[derive(Debug, Clone, PartialEq, Default)]
pub struct QuestionOption {
    pub label: String,
    pub description: Option<String>,
}

#[derive(Debug, Clone, PartialEq, Default)]
pub struct Answer {
    pub question_id: String,
    pub selected_labels: Vec<String>,
    pub free_text: Option<String>,
}

#[derive(Debug, Clone, PartialEq, Default)]
pub struct HarnessList {
    pub harnesses: Vec<Harness>,
}

#[derive(Debug, Clone, PartialEq, Default)]
pub struct Harness {
    pub id: String,
    /// ok | degraded | unavailable
    pub status: String,
    pub manifest: Option<Manifest>,
    pub configured_model: Option<String>,
    pub reasons: Vec<String>,
    /// Engine-owned login transport (`in_app` = daemon job, `external_terminal` = attach a PTY).
    pub setup_login: Option<SetupLogin>,
    pub delegation: Option<Delegation>,
}

/// Engine-owned Delegate capability for one harness.
#[derive(Debug, Clone, PartialEq, Default)]
pub struct Delegation {
    pub available: bool,
    pub remediation: Option<String>,
    pub requires_full_access: bool,
}

/// One repo's trust file: the default access profile and the full-access grant.
#[derive(Debug, Clone, PartialEq, Default)]
pub struct TrustState {
    pub repo_root: Option<String>,
    pub allow_full_access: bool,
    /// readonly | workspace_write | full | inherit_native
    pub access_default: String,
}

#[derive(Debug, Clone, PartialEq, Default)]
pub struct TrustList {
    pub entries: Vec<TrustState>,
}

#[derive(Debug, Clone, PartialEq, Default)]
pub struct Manifest {
    pub display_name: Option<String>,
    pub capabilities: Option<Capabilities>,
}

#[derive(Debug, Clone, PartialEq, Default)]
pub struct Capabilities {
    pub effort_levels: Vec<String>,
    pub model_effort_levels: Vec<(String, ModelEffort)>,
    /// The harness can drive a real browser window (the Browser option).
    pub browser_tool: Option<bool>,
}

#[derive(Debug, Clone, PartialEq, Default)]
pub struct ModelEffort {
    pub levels: Vec<String>,
}

#[derive(Debug, Clone, PartialEq, Default)]
pub struct ModelList {
    pub harness_id: String,
    pub models: Vec<Model>,
    /// api | manifest | none
    pub source: Option<String>,
}

#[derive(Debug, Clone, PartialEq, Default)]
pub struct Model {
    pub id: String,
    pub label: Option<String>,
}

#[derive(Debug, Clone, PartialEq, Default)]
pub struct SetupLogin {
    pub mode: String,
}

#[derive(Debug, Clone, PartialEq, Default)]
pub struct SetupJob {
    pub job_id: String,
    pub harness: String,
    /// queued | running | waiting_for_input | succeeded | failed | cancelled | timed_out | interrupted_unknown | not_supported
    pub state: String,
    /// preparing | launching | awaiting_user | verifying | cancelling | completed
    pub phase: String,
    pub message: String,
    pub deadline_at: Option<String>,
    /// The vendor owns the window: Extend is refused (typed 409).
    pub deadline_fixed: bool,
    pub outcome: Option<SetupOutcome>,
}

#[derive(Debug, Clone, PartialEq, Default)]
pub struct SetupOutcome {
    pub reason: String,
}

/// `ControlSetupJobSnapshot`: the job plus the TRANSIENT sign-in disclosure
/// (never journaled; present only while the job awaits the user).
#[derive(Debug, Clone, PartialEq, Default)]
pub struct SetupSnapshot {
    pub job: SetupJob,
    pub device_code: Option<DeviceCode>,
}

#[derive(Debug, Clone, PartialEq, Default)]
pub struct DeviceCode {
    /// chatgptDeviceCode | chatgpt | oauth_url | oauth_url_input (the last wants a pasted code back)
    pub flow: String,
    pub verification_url: String,
    pub user_code: String,
}

#[derive(Debug, Clone, PartialEq, Default)]
pub struct QuotaSubject {
    pub harness: String,
    pub credential_route: Option<String>,
    pub plan_label: Option<String>,
    pub subject_id: Option<String>,
}

#[derive(Debug, Clone, PartialEq, Default)]
pub struct QuotaAvailability {
    /// available | exhausted | cooldown
    pub state: String,
    pub resets_at: Option<String>,
}

#[derive(Debug, Clone, PartialEq, Default)]
pub struct QuotaAbsence {
    pub subject: QuotaSubject,
    pub reason: String,
    pub detail: Option<String>,
}

#[derive(Debug, Clone, PartialEq, Default)]
pub struct AccountPools {
    pub account_pools: Vec<AccountPool>,
}

#[derive(Debug, Clone, PartialEq, Default)]
pub struct AccountPool {
    pub harness_id: String,
    pub next_up: NextUp,
}

/// `next_up` union: `profile` {profileId} | `api_key_route` | `none` {reason}.
#[derive(Debug, Clone, PartialEq, Default)]
pub struct NextUp {
    pub kind: String,
    pub profile_id: Option<String>,
    pub reason: Option<String>,
}

#[derive(Debug, Clone, PartialEq, Default)]
pub struct ProjectList {
    pub projects: Vec<Project>,
}

#[derive(Debug, Clone, PartialEq, Default)]
pub struct Project {
    pub id: String,
    pub root: String,
}

#[derive(Debug, Clone, PartialEq, Default)]
pub struct TurnRequest {
    pub prompt: String,
    /// ask | plan | agent — the daemon defaults to agent, so always send it.
    pub mode: String,
    pub primary_harness: Option<String>,
    pub model: Option<String>,
    pub effort: Option<String>,
    /// Pin this turn to one account; unknown/disabled ids refuse, never default.
    pub credential_profile_id: Option<String>,
    pub attachments: Vec<ResourceRef>,
    /// A Plan follow-up that answers this plan run's open questions.
    pub answers_plan_run_id: Option<String>,
    /// An Agent turn that implements this (frozen) plan run.
    pub plan_run_id: Option<String>,
    /// Explicit, recorded override: implement although questions remain.
    pub override_plan_readiness: Option<bool>,
    /// Requested write scope (Agent only): readonly | workspace_write | full.
    pub access: Option<String>,
    /// Explicit eligible pool (Best-of candidates, Council members).
    pub harnesses: Vec<String>,
    /// Race width (Best-of) or Council member count.
    pub n: Option<u32>,
    /// Plain-Agent repair cap; never together with `untilClean`.
    pub attempts: Option<u32>,
    pub until_clean: Option<bool>,
    pub create: Option<bool>,
    pub council: Option<bool>,
    pub deep_scan: Option<bool>,
    pub delegate: Option<bool>,
    /// The finite paid-spend cap in USD, as the number's text; absent = the
    /// settings default.
    pub paid_budget: Option<String>,
    /// Harness-scoped model map; beats the scalar `model`.
    pub models: Vec<(String, String)>,
    pub review: Option<bool>,
    pub reviewer_panel: Vec<ReviewerEntry>,
    /// off | auto | cached | live
    pub web: Option<String>,
    pub browser: Option<bool>,
    /// subscription | api_key | auto
    pub auth_preference: Option<String>,
}


/// The text of each string, in order.
pub open spec fn texts(v: Seq<String>) -> Seq<Seq<char>> {
    v.map_values(|s: String| s@)
}

/// A copy of each string, in order.
pub fn clone_strings(v: &Vec<String>) -> (r: Vec<String>)
    ensures
        texts(r@) == texts(v@),
{
    let mut r: Vec<String> = Vec::new();
    let mut i: usize = 0;
    while i < v.len()
        invariant
            i <= v@.len(),
            r@.len() == i,
            forall|k: int| 0 <= k < i ==> #[trigger] r@[k]@ == v@[k]@,
        decreases v@.len() - i,
    {
        let c = v[i].clone();
        r.push(c);
        i = i + 1;
    }
    proof {
        assert(texts(r@) =~= texts(v@));
    }
    r
}

fn clone_opt_str(o: &Option<String>) -> (r: Option<String>)
    ensures
        opt_view(r) == opt_view(*o),
{
    match o {
        Some(s) => Some(s.clone()),
        None => None,
    }
}

/// A title worth showing: present and not blank.
pub open spec fn title_text(title: Option<String>) -> Seq<char> {
    match title {
        Some(t) if !is_blank(t@) => t@,
        _ => "Untitled thread"@,
    }
}

impl Thread {
    pub fn display_title(&self) -> (r: &str)
        ensures
            r@ == title_text(self.title),
    {
        match &self.title {
            Some(t) => {
                if !blank(t.as_str()) {
                    return t.as_str();
                }
            },
            None => {},
        }
        "Untitled thread"
    }
}

/// The strategy that will be sent: Until clean cannot run read-only.
pub open spec fn strategy_sent(s: Strategy, access: Seq<char>) -> Strategy {
    if access == "readonly"@ && s == Strategy::UntilClean {
        Strategy::Single
    } else {
        s
    }
}

impl TurnOpts {
    /// Strategy as it will be sent: Until clean cannot run read-only.
    pub fn strategy_for(&self, access: &str) -> (r: Strategy)
        ensures
            r == strategy_sent(self.strategy, access@),
    {
        if same_text(access, "readonly") && self.strategy == Strategy::UntilClean {
            Strategy::Single
        } else {
            self.strategy
        }
    }
}

/// This exact source is available and its verification passed.
pub open spec fn row_ready(status: Option<ProfileStatus>) -> bool {
    match status {
        Some(s) => s.availability@ == "available"@ && s.verification@ == "passed"@,
        None => false,
    }
}

/// The account's email, else its display name, else its profile id.
pub open spec fn row_label(r: ProfileRow) -> Seq<char> {
    match r.identity {
        Some(i) if i.email is Some => i.email.unwrap()@,
        _ => match r.profile.display_name {
            Some(d) => d@,
            None => r.profile.profile_id@,
        },
    }
}

impl ProfileRow {
    /// Ready means THIS exact source is available and passed, never
    /// aggregate harness health.
    pub fn ready(&self) -> (r: bool)
        ensures
            r == row_ready(self.status),
    {
        match &self.status {
            Some(s) => same_text(s.availability.as_str(), "available") && same_text(s.verification.as_str(), "passed"),
            None => false,
        }
    }

    pub fn label(&self) -> (r: String)
        ensures
            r@ == row_label(*self),
    {
        match &self.identity {
            Some(i) => match &i.email {
                Some(e) => return e.clone(),
                None => {},
            },
            None => {},
        }
        match &self.profile.display_name {
            Some(d) => d.clone(),
            None => self.profile.profile_id.clone(),
        }
    }
}

impl TurnStarted {
    /// Id the run stream accepts: the run id, or the job id while still queued.
    pub fn stream_id(&self) -> (r: Option<&str>)
        ensures
            match r {
                Some(s) => if self.run_id is Some { s@ == self.run_id.unwrap()@ } else { self.job_id is Some && s@ == self.job_id.unwrap()@ },
                None => self.run_id is None && self.job_id is None,
            },
    {
        match &self.run_id {
            Some(r) => Some(r.as_str()),
            None => match &self.job_id {
                Some(j) => Some(j.as_str()),
                None => None,
            },
        }
    }
}

/// The effort ladder: the model's own list when it has a non-empty one,
/// else the harness-wide list; nothing without capabilities.
pub open spec fn efforts(h: Harness, model: Option<Seq<char>>) -> Seq<Seq<char>> {
    match h.manifest {
        Some(m) => match m.capabilities {
            Some(c) => match model {
                Some(name) => match find_effort(c.model_effort_levels@, name) {
                    Some(i) if c.model_effort_levels@[i].1.levels@.len() > 0 => texts(c.model_effort_levels@[i].1.levels@),
                    _ => texts(c.effort_levels@),
                },
                None => texts(c.effort_levels@),
            },
            None => Seq::empty(),
        },
        None => Seq::empty(),
    }
}

/// The first entry for `name`.
pub open spec fn find_effort(v: Seq<(String, ModelEffort)>, name: Seq<char>) -> Option<int>
    decreases v.len(),
{
    if v.len() == 0 {
        None
    } else if v[0].0@ == name {
        Some(0)
    } else {
        match find_effort(v.drop_first(), name) {
            Some(i) => Some(i + 1),
            None => None,
        }
    }
}

proof fn lemma_find_effort(v: Seq<(String, ModelEffort)>, name: Seq<char>, k: int)
    requires
        0 <= k <= v.len(),
        forall|i: int| 0 <= i < k ==> #[trigger] v[i].0@ != name,
    ensures
        k < v.len() && v[k].0@ == name ==> find_effort(v, name) == Some(k),
        k == v.len() ==> find_effort(v, name) is None,
    decreases k,
{
    if k > 0 {
        assert forall|i: int| 0 <= i < k - 1 implies #[trigger] v.drop_first()[i].0@ != name by {
            assert(v.drop_first()[i] == v[i + 1]);
        }
        lemma_find_effort(v.drop_first(), name, k - 1);
    }
}

impl Harness {
    pub fn label(&self) -> (r: &str)
        ensures
            r@ == match self.manifest {
                Some(m) if m.display_name is Some => m.display_name.unwrap()@,
                _ => self.id@,
            },
    {
        match &self.manifest {
            Some(m) => match &m.display_name {
                Some(d) => return d.as_str(),
                None => {},
            },
            None => {},
        }
        self.id.as_str()
    }

    /// The harness can drive a real browser window.
    pub fn browser_tool(&self) -> (r: bool)
        ensures
            r == match self.manifest {
                Some(m) => match m.capabilities {
                    Some(c) => c.browser_tool == Some(true),
                    None => false,
                },
                None => false,
            },
    {
        match &self.manifest {
            Some(m) => match &m.capabilities {
                Some(c) => match c.browser_tool {
                    Some(b) => b,
                    None => false,
                },
                None => false,
            },
            None => false,
        }
    }

    pub fn can_delegate(&self) -> (r: bool)
        ensures
            r == (self.delegation matches Some(d) && d.available),
    {
        match &self.delegation {
            Some(d) => d.available,
            None => false,
        }
    }

    /// Effort ladder for `model` (per-model list first, then harness-wide).
    #[verifier::loop_isolation(false)]
    pub fn effort_levels(&self, model: Option<&str>) -> (r: Vec<String>)
        ensures
            texts(r@) == efforts(*self, match model {
                Some(m) => Some(m@),
                None => None,
            }),
    {
        let caps = match &self.manifest {
            Some(m) => match &m.capabilities {
                Some(c) => c,
                None => return Vec::new(),
            },
            None => return Vec::new(),
        };
        proof {
            assert(texts(Seq::<String>::empty()) =~= Seq::<Seq<char>>::empty());
        }
        match model {
            Some(name) => {
                let key = String::from_str(name);
                let v = &caps.model_effort_levels;
                let mut i: usize = 0;
                while i < v.len()
                    invariant
                        i <= v@.len(),
                        forall|k: int| 0 <= k < i ==> #[trigger] v@[k].0@ != key@,
                    decreases v@.len() - i,
                {
                    let same = v[i].0 == key;
                    if same {
                        proof {
                            assert(v@[i as int].0@ == key@);
                            lemma_find_effort(v@, key@, i as int);
                            assert(find_effort(v@, key@) == Some(i as int));

                            assert(find_effort(caps.model_effort_levels@, name@) == Some(i as int));
                        }
                        if v[i].1.levels.len() > 0 {
                            return clone_strings(&v[i].1.levels);
                        }
                        return clone_strings(&caps.effort_levels);
                    }
                    i = i + 1;
                }
                proof {
                    lemma_find_effort(v@, key@, i as int);
                }
                clone_strings(&caps.effort_levels)
            },
            None => clone_strings(&caps.effort_levels),
        }
    }
}

/// The job will not change any more.
pub open spec fn job_terminal(state: Seq<char>) -> bool {
    ||| state == "succeeded"@
    ||| state == "failed"@
    ||| state == "cancelled"@
    ||| state == "timed_out"@
    ||| state == "interrupted_unknown"@
    ||| state == "not_supported"@
}

impl SetupJob {
    pub fn terminal(&self) -> (r: bool)
        ensures
            r == job_terminal(self.state@),
    {
        let s = self.state.as_str();
        same_text(s, "succeeded") || same_text(s, "failed") || same_text(s, "cancelled") || same_text(s, "timed_out")
            || same_text(s, "interrupted_unknown") || same_text(s, "not_supported")
    }
}

/// `(harness, route, id)` of the account a quota subject belongs to; a
/// default-store login (no subject id) is the `<harness>-default` account.
pub open spec fn account_of(s: QuotaSubject) -> (Seq<char>, Seq<char>, Seq<char>) {
    (
        s.harness@,
        match s.credential_route {
            Some(r) => r@,
            None => Seq::empty(),
        },
        match s.subject_id {
            Some(i) => i@,
            None => s.harness@ + "-default"@,
        },
    )
}

impl QuotaSubject {
    /// The account this subject belongs to. Under the unified account model a
    /// default-store login (no subject id) IS the `<harness>-default` row, so
    /// both quota subjects describe one account and must not count twice.
    pub fn account_key(&self) -> (r: (String, String, String))
        ensures
            (r.0@, r.1@, r.2@) == account_of(*self),
    {
        let id = match &self.subject_id {
            Some(i) => i.clone(),
            None => {
                let mut s = self.harness.clone();
                s.append("-default");
                s
            },
        };
        let route = match &self.credential_route {
            Some(r) => r.clone(),
            None => String::new(),
        };
        (self.harness.clone(), route, id)
    }
}

/// What the next account in a pool is, in words.
pub open spec fn next_up_text(n: NextUp) -> Seq<char> {
    if n.kind@ == "profile"@ {
        match n.profile_id {
            Some(p) => p@,
            None => "account"@,
        }
    } else if n.kind@ == "api_key_route"@ {
        "API key"@
    } else {
        "not signed in"@
    }
}

impl NextUp {
    pub fn describe(&self) -> (r: String)
        ensures
            r@ == next_up_text(*self),
    {
        if same_text(self.kind.as_str(), "profile") {
            match &self.profile_id {
                Some(p) => p.clone(),
                None => String::from_str("account"),
            }
        } else if same_text(self.kind.as_str(), "api_key_route") {
            String::from_str("API key")
        } else {
            // the server's reason is a sentence; callers show it as hover text
            String::from_str("not signed in")
        }
    }
}

/// The options a composer starts with: engine defaults everywhere, three
/// repair attempts, two council members.
pub open spec fn default_opts(o: TurnOpts) -> bool {
    &&& o.access is None
    &&& o.strategy == Strategy::Single
    &&& o.attempts == 3
    &&& o.pool@.len() == 0
    &&& o.models@.len() == 0
    &&& !o.council
    &&& o.members == 2
    &&& !o.deep_scan
    &&& !o.delegate
    &&& !o.browser
    &&& o.budget@.len() == 0
    &&& o.web is None
    &&& o.auth is None
    &&& !o.review
    &&& o.panel@.len() == 0
}

impl Default for TurnOpts {
    fn default() -> (r: Self)
        ensures
            default_opts(r),
    {
        TurnOpts {
            access: None,
            strategy: Strategy::Single,
            attempts: 3,
            pool: Vec::new(),
            models: Vec::new(),
            council: false,
            members: 2,
            deep_scan: false,
            delegate: false,
            browser: false,
            budget: String::new(),
            web: None,
            auth: None,
            review: false,
            panel: String::new(),
        }
    }
}

pub open spec fn b2n(b: bool) -> nat {
    if b { 1 } else { 0 }
}

/// Knobs every mode shares: web, auth, a budget, per-harness models.
pub open spec fn common_count(web: bool, auth: bool, budget_set: bool, models_set: bool) -> nat {
    b2n(web) + b2n(auth) + b2n(budget_set) + b2n(models_set)
}

/// Agent knobs: access, strategy, repair cap, delegate, browser, review, panel.
pub open spec fn agent_count(o: TurnOpts, panel_set: bool) -> nat {
    b2n(o.access is Some) + b2n(o.strategy != Strategy::Single) + b2n(o.strategy == Strategy::Single && o.attempts != 3)
        + b2n(o.delegate) + b2n(o.browser) + b2n(o.review) + b2n(panel_set)
}

/// The knobs of one mode: deep scan for Ask, council for Plan, the agent
/// knobs for Agent.
pub open spec fn mode_count(o: TurnOpts, mode: Seq<char>) -> nat {
    if mode == "ask"@ {
        b2n(o.deep_scan)
    } else if mode == "plan"@ {
        b2n(o.council)
    } else if mode == "agent"@ {
        agent_count(o, !is_blank(o.panel@))
    } else {
        0
    }
}

/// How many knobs differ from the defaults for `mode`.
pub open spec fn changed_count(o: TurnOpts, mode: Seq<char>) -> nat {
    common_count(o.web is Some, o.auth is Some, !is_blank(o.budget@), o.models@.len() > 0) + mode_count(o, mode)
}

fn n(b: bool) -> (r: usize)
    ensures
        r == b2n(b),
{
    if b { 1 } else { 0 }
}

impl TurnOpts {
    fn agent_changed(&self) -> (r: usize)
        ensures
            r == agent_count(*self, !is_blank(self.panel@)),
    {
        let panel_set = !blank(self.panel.as_str());
        n(self.access.is_some()) + n(self.strategy != Strategy::Single) + n(self.strategy == Strategy::Single && self.attempts != 3)
            + n(self.delegate) + n(self.browser) + n(self.review) + n(panel_set)
    }

    fn common_changed(&self) -> (r: usize)
        ensures
            r <= 4,
            r == common_count(self.web is Some, self.auth is Some, !is_blank(self.budget@), self.models@.len() > 0),
    {
        let budget_set = !blank(self.budget.as_str());
        n(self.web.is_some()) + n(self.auth.is_some()) + n(budget_set) + n(self.models.len() > 0)
    }

    fn mode_changed(&self, mode: &str) -> (r: usize)
        ensures
            r <= 7,
            r == mode_count(*self, mode@),
    {
        if same_text(mode, "ask") {
            n(self.deep_scan)
        } else if same_text(mode, "plan") {
            n(self.council)
        } else if same_text(mode, "agent") {
            self.agent_changed()
        } else {
            0
        }
    }

    /// How many knobs differ from the defaults, for the Options badge.
    pub fn changed(&self, mode: &str) -> (r: usize)
        ensures
            r == changed_count(*self, mode@),
    {
        let common = self.common_changed();
        let per = self.mode_changed(mode);
        assert(common <= 4);
        assert(per <= 7);
        common + per
    }
}

/// A request with only the prompt and the mode set.
pub open spec fn bare_request(r: TurnRequest, prompt: Seq<char>, mode: Seq<char>) -> bool {
    &&& r.prompt@ == prompt
    &&& r.mode@ == mode
    &&& r.primary_harness is None
    &&& r.model is None
    &&& r.effort is None
    &&& r.credential_profile_id is None
    &&& r.attachments@.len() == 0
    &&& no_options(r)
}

/// None of the options past the draft's own fields is set.
pub open spec fn no_options(r: TurnRequest) -> bool {
    &&& r.answers_plan_run_id is None
    &&& r.plan_run_id is None
    &&& r.override_plan_readiness is None
    &&& no_run_options(r)
}

/// None of the run options (access, strategy, review, budget, models, web)
/// is set.
pub open spec fn no_run_options(r: TurnRequest) -> bool {
    &&& r.access is None
    &&& r.harnesses@.len() == 0
    &&& r.n is None
    &&& r.attempts is None
    &&& r.until_clean is None
    &&& r.create is None
    &&& r.council is None
    &&& r.deep_scan is None
    &&& r.delegate is None
    &&& r.paid_budget is None
    &&& r.models@.len() == 0
    &&& r.review is None
    &&& r.reviewer_panel@.len() == 0
    &&& r.web is None
    &&& r.browser is None
    &&& r.auth_preference is None
}

impl TurnRequest {
    pub fn new(prompt: &str, mode: &str) -> (r: Self)
        ensures
            bare_request(r, prompt@, mode@),
    {
        TurnRequest {
            prompt: String::from_str(prompt),
            mode: String::from_str(mode),
            primary_harness: None,
            model: None,
            effort: None,
            credential_profile_id: None,
            attachments: Vec::new(),
            answers_plan_run_id: None,
            plan_run_id: None,
            override_plan_readiness: None,
            access: None,
            harnesses: Vec::new(),
            n: None,
            attempts: None,
            until_clean: None,
            create: None,
            council: None,
            deep_scan: None,
            delegate: None,
            paid_budget: None,
            models: Vec::new(),
            review: None,
            reviewer_panel: Vec::new(),
            web: None,
            browser: None,
            auth_preference: None,
        }
    }
}

/// A character a harness, model or effort name may hold.
pub open spec fn slug_char(c: char) -> bool {
    ||| 'a' <= c <= 'z'
    ||| 'A' <= c <= 'Z'
    ||| '0' <= c <= '9'
    ||| c == '-'
    ||| c == '_'
    ||| c == '.'
    ||| c == '['
    ||| c == ']'
}

pub open spec fn is_slug(s: Seq<char>) -> bool {
    s.len() > 0 && forall|i: int| 0 <= i < s.len() ==> slug_char(#[trigger] s[i])
}

pub open spec fn nonempty(s: Seq<char>) -> Option<Seq<char>> {
    if s.len() == 0 {
        None
    } else {
        Some(s)
    }
}

/// Harness, model and effort of one `harness[=model[:effort]]` entry.
pub open spec fn entry_parts(raw: Seq<char>) -> (Seq<char>, Option<Seq<char>>, Option<Seq<char>>) {
    let k = find_char(raw, '=');
    if k < 0 {
        (raw, None, None)
    } else {
        let h = trim_spec(raw.subrange(0, k));
        let r = trim_spec(raw.subrange(k + 1, raw.len() as int));
        let k2 = find_char(r, ':');
        if k2 < 0 {
            (h, nonempty(r), None)
        } else {
            (h, nonempty(trim_spec(r.subrange(0, k2))), nonempty(trim_spec(r.subrange(k2 + 1, r.len() as int))))
        }
    }
}

pub open spec fn entry_ok(p: (Seq<char>, Option<Seq<char>>, Option<Seq<char>>)) -> bool {
    &&& is_slug(p.0)
    &&& (p.1 matches Some(m) ==> is_slug(m))
    &&& (p.2 matches Some(e) ==> is_slug(e))
}

/// The error an entry that is not `harness=model:effort` gets.
pub open spec fn panel_error(raw: Seq<char>) -> Seq<char> {
    "“"@ + raw + "” is not harness=model:effort"@
}

/// The entries of the pieces, skipping blank ones; the first bad entry is
/// the error.
pub open spec fn panel_fold(pieces: Seq<Seq<char>>) -> Result<Seq<(Seq<char>, Option<Seq<char>>, Option<Seq<char>>)>, Seq<char>>
    decreases pieces.len(),
{
    if pieces.len() == 0 {
        Ok(Seq::empty())
    } else {
        let raw = trim_spec(pieces[0]);
        if raw.len() == 0 {
            panel_fold(pieces.drop_first())
        } else if !entry_ok(entry_parts(raw)) {
            Err(panel_error(raw))
        } else {
            match panel_fold(pieces.drop_first()) {
                Ok(es) => Ok(seq![entry_parts(raw)] + es),
                Err(m) => Err(m),
            }
        }
    }
}

/// The panel editor's text: comma-separated entries.
pub open spec fn panel_spec(text: Seq<char>) -> Result<Seq<(Seq<char>, Option<Seq<char>>, Option<Seq<char>>)>, Seq<char>> {
    panel_fold(split_on(text, ','))
}

pub open spec fn entry_view(e: ReviewerEntry) -> (Seq<char>, Option<Seq<char>>, Option<Seq<char>>) {
    (e.harness@, opt_view(e.model), opt_view(e.effort))
}

pub open spec fn entries_view(v: Seq<ReviewerEntry>) -> Seq<(Seq<char>, Option<Seq<char>>, Option<Seq<char>>)> {
    v.map_values(|e: ReviewerEntry| entry_view(e))
}

fn char_slug(c: char) -> (r: bool)
    ensures
        r == slug_char(c),
{
    ('a' <= c && c <= 'z') || ('A' <= c && c <= 'Z') || ('0' <= c && c <= '9') || c == '-' || c == '_' || c == '.' || c == '['
        || c == ']'
}

fn slug(s: &str) -> (r: bool)
    ensures
        r == is_slug(s@),
{
    let v = chars_vec(s);
    if v.len() == 0 {
        return false;
    }
    let mut i: usize = 0;
    while i < v.len()
        invariant
            i <= v@.len(),
            v@ == s@,
            forall|k: int| 0 <= k < i ==> slug_char(#[trigger] v@[k]),
        decreases v@.len() - i,
    {
        if !char_slug(v[i]) {
            return false;
        }
        i = i + 1;
    }
    true
}

fn nonempty_string(s: &str) -> (r: Option<String>)
    ensures
        opt_view(r) == nonempty(s@),
{
    if s.unicode_len() == 0 {
        None
    } else {
        Some(String::from_str(s))
    }
}

/// One entry, when it is well formed.
fn parse_entry(raw: &str) -> (r: Option<ReviewerEntry>)
    ensures
        entry_ok(entry_parts(raw@)) ==> r is Some && entry_view(r.unwrap()) == entry_parts(raw@),
        !entry_ok(entry_parts(raw@)) ==> r is None,
{
    let v = chars_vec(raw);
    let k = find_from(&v, 0, '=');
    proof {
        assert(v@.subrange(0, v@.len() as int) =~= raw@);
    }
    let (harness, model, effort): (&str, Option<String>, Option<String>) = if k == v.len() {
        (raw, None, None)
    } else {
        let h = trim(raw.substring_char(0, k));
        let r = trim(raw.substring_char(k + 1, v.len()));
        let w = chars_vec(r);
        let k2 = find_from(&w, 0, ':');
        proof {
            assert(w@.subrange(0, w@.len() as int) =~= r@);
        }
        if k2 == w.len() {
            (h, nonempty_string(r), None)
        } else {
            let m = trim(r.substring_char(0, k2));
            let e = trim(r.substring_char(k2 + 1, w.len()));
            (h, nonempty_string(m), nonempty_string(e))
        }
    };
    assert((harness@, opt_view(model), opt_view(effort)) == entry_parts(raw@));
    if !slug(harness) {
        return None;
    }
    match &model {
        Some(m) => if !slug(m.as_str()) {
            return None;
        },
        None => {},
    }
    match &effort {
        Some(e) => if !slug(e.as_str()) {
            return None;
        },
        None => {},
    }
    Some(ReviewerEntry { harness: String::from_str(harness), model, effort })
}

/// Join a parsed prefix with the rest's outcome.
pub open spec fn after(done: Seq<(Seq<char>, Option<Seq<char>>, Option<Seq<char>>)>, rest: Result<Seq<(Seq<char>, Option<Seq<char>>, Option<Seq<char>>)>, Seq<char>>) -> Result<Seq<(Seq<char>, Option<Seq<char>>, Option<Seq<char>>)>, Seq<char>> {
    match rest {
        Ok(es) => Ok(done + es),
        Err(m) => Err(m),
    }
}

/// Parse the panel editor: comma-separated `harness=model:effort`
/// entries (model and effort optional). The error names the first bad entry.
pub fn parse_reviewer_panel(text: &str) -> (r: Result<Vec<ReviewerEntry>, String>)
    ensures
        match (r, panel_spec(text@)) {
            (Ok(v), Ok(es)) => entries_view(v@) == es,
            (Err(m), Err(e)) => m@ == e,
            _ => false,
        },
{
    let v = chars_vec(text);
    let n = v.len();
    let mut out: Vec<ReviewerEntry> = Vec::new();
    let mut start: usize = 0;
    assert(v@.subrange(0, n as int) =~= v@);
    loop
        invariant
            start <= n == v@.len(),
            v@ == text@,
            panel_spec(text@) == after(entries_view(out@), panel_fold(split_on(v@.subrange(start as int, n as int), ','))),
        decreases n - start,
    {
        let k = find_from(&v, start, ',');
        let ghost sub = v@.subrange(start as int, n as int);
        let ghost pieces = split_on(sub, ',');
        let ghost rest_pieces = if k == n { Seq::<Seq<char>>::empty() } else { split_on(v@.subrange(k + 1, n as int), ',') };
        proof {
            if k < n {
                assert(sub.subrange(k - start + 1, sub.len() as int) =~= v@.subrange(k + 1, n as int));
                assert(sub.subrange(0, k - start) =~= v@.subrange(start as int, k as int));
                assert(pieces == seq![v@.subrange(start as int, k as int)] + rest_pieces);
            } else {
                assert(sub =~= v@.subrange(start as int, k as int));
                assert(pieces == seq![v@.subrange(start as int, k as int)] + rest_pieces);
            }
            assert((seq![v@.subrange(start as int, k as int)] + rest_pieces).drop_first() =~= rest_pieces);
            assert(panel_fold(Seq::<Seq<char>>::empty()) == Ok::<Seq<(Seq<char>, Option<Seq<char>>, Option<Seq<char>>)>, Seq<char>>(Seq::empty()));
        }
        let piece = text.substring_char(start, k);
        let raw = trim(piece);
        if raw.unicode_len() > 0 {
            match parse_entry(raw) {
                Some(e) => {
                    let ghost before = out@;
                    out.push(e);
                    proof {
                        assert(entries_view(out@) =~= entries_view(before) + seq![entry_parts(raw@)]);
                        let a = entries_view(before);
                        let b = seq![entry_parts(raw@)];
                        match panel_fold(rest_pieces) {
                            Ok(es) => {
                                assert(a + (b + es) =~= (a + b) + es);
                            },
                            Err(_) => {},
                        }
                    }
                },
                None => {
                    let mut m = String::from_str("“");
                    m.append(raw);
                    m.append("” is not harness=model:effort");
                    return Err(m);
                },
            }
        }
        if k == n {
            proof {
                assert(entries_view(out@) + Seq::empty() =~= entries_view(out@));
            }
            return Ok(out);
        }
        start = k + 1;
    }
}

/// A turn request as plain values.
pub struct TurnRequestV {
    pub prompt: Seq<char>,
    pub mode: Seq<char>,
    pub primary_harness: Option<Seq<char>>,
    pub model: Option<Seq<char>>,
    pub effort: Option<Seq<char>>,
    pub credential_profile_id: Option<Seq<char>>,
    pub attachments: Seq<Seq<char>>,
    pub answers_plan_run_id: Option<Seq<char>>,
    pub plan_run_id: Option<Seq<char>>,
    pub override_plan_readiness: Option<bool>,
    pub access: Option<Seq<char>>,
    pub harnesses: Seq<Seq<char>>,
    pub n: Option<u32>,
    pub attempts: Option<u32>,
    pub until_clean: Option<bool>,
    pub create: Option<bool>,
    pub council: Option<bool>,
    pub deep_scan: Option<bool>,
    pub delegate: Option<bool>,
    pub paid_budget: Option<Seq<char>>,
    pub models: Seq<(Seq<char>, Seq<char>)>,
    pub review: Option<bool>,
    pub reviewer_panel: Seq<(Seq<char>, Option<Seq<char>>, Option<Seq<char>>)>,
    pub web: Option<Seq<char>>,
    pub browser: Option<bool>,
    pub auth_preference: Option<Seq<char>>,
}

pub open spec fn pairs_view(v: Seq<(String, String)>) -> Seq<(Seq<char>, Seq<char>)> {
    v.map_values(|p: (String, String)| (p.0@, p.1@))
}

pub open spec fn str_view(o: Option<&'static str>) -> Option<Seq<char>> {
    match o {
        Some(s) => Some(s@),
        None => None,
    }
}

impl View for TurnRequest {
    type V = TurnRequestV;

    open spec fn view(&self) -> TurnRequestV {
        TurnRequestV {
            prompt: self.prompt@,
            mode: self.mode@,
            primary_harness: opt_view(self.primary_harness),
            model: opt_view(self.model),
            effort: opt_view(self.effort),
            credential_profile_id: opt_view(self.credential_profile_id),
            attachments: self.attachments@.map_values(|r: ResourceRef| r.resource_id@),
            answers_plan_run_id: opt_view(self.answers_plan_run_id),
            plan_run_id: opt_view(self.plan_run_id),
            override_plan_readiness: self.override_plan_readiness,
            access: opt_view(self.access),
            harnesses: texts(self.harnesses@),
            n: self.n,
            attempts: self.attempts,
            until_clean: self.until_clean,
            create: self.create,
            council: self.council,
            deep_scan: self.deep_scan,
            delegate: self.delegate,
            paid_budget: opt_view(self.paid_budget),
            models: pairs_view(self.models@),
            review: self.review,
            reviewer_panel: entries_view(self.reviewer_panel@),
            web: opt_view(self.web),
            browser: self.browser,
            auth_preference: opt_view(self.auth_preference),
        }
    }
}

/// The per-harness models that name a model, each trimmed.
pub open spec fn kept_models(m: Seq<(Seq<char>, Seq<char>)>) -> Seq<(Seq<char>, Seq<char>)>
    decreases m.len(),
{
    if m.len() == 0 {
        Seq::empty()
    } else {
        let rest = kept_models(m.drop_last());
        if is_blank(m.last().1) {
            rest
        } else {
            rest.push((m.last().0, trim_spec(m.last().1)))
        }
    }
}

/// The budget text without its leading `$` signs.
pub open spec fn strip_dollars(s: Seq<char>) -> Seq<char>
    decreases s.len(),
{
    if s.len() > 0 && s[0] == '$' {
        strip_dollars(s.drop_first())
    } else {
        s
    }
}

pub open spec fn budget_error(b: Seq<char>) -> Seq<char> {
    "Budget “"@ + b + "” is not a positive dollar amount"@
}

pub open spec fn some_true(b: bool) -> Option<bool> {
    if b {
        Some(true)
    } else {
        None
    }
}

pub open spec fn clamp(x: u32, lo: u32, hi: u32) -> u32 {
    if x < lo {
        lo
    } else if x > hi {
        hi
    } else {
        x
    }
}

/// Budget, web, auth and models: what every mode sends.
pub open spec fn opts_common(o: TurnOpts, v: TurnRequestV) -> TurnRequestV {
    let b = trim_spec(o.budget@);
    TurnRequestV {
        paid_budget: if b.len() > 0 { Some(strip_dollars(b)) } else { v.paid_budget },
        web: str_view(o.web),
        auth_preference: str_view(o.auth),
        models: kept_models(pairs_view(o.models@)),
        ..v
    }
}

/// The agent knobs over an accepted panel.
pub open spec fn opts_agent(o: TurnOpts, v: TurnRequestV, access: Seq<char>, panel: Seq<(Seq<char>, Option<Seq<char>>, Option<Seq<char>>)>) -> TurnRequestV {
    let writable = access != "readonly"@;
    let v1 = TurnRequestV { access: str_view(o.access), delegate: some_true(o.delegate), browser: some_true(o.browser), ..v };
    let (v2, promised) = match strategy_sent(o.strategy, access) {
        Strategy::Single => (TurnRequestV { attempts: if writable { Some(clamp(o.attempts, 1, 8)) } else { None }, ..v1 }, false),
        Strategy::BestOf => (
            TurnRequestV {
                harnesses: texts(o.pool@),
                n: Some(if o.pool@.len() == 1 { 1u32 } else if o.pool@.len() < 2 { 2u32 } else { o.pool@.len() as u32 }),
                ..v1
            },
            true,
        ),
        Strategy::UntilClean => (TurnRequestV { until_clean: Some(true), ..v1 }, true),
        Strategy::Create => (TurnRequestV { create: Some(true), ..v1 }, false),
    };
    TurnRequestV { review: Some(promised || o.review || panel.len() > 0), reviewer_panel: panel, ..v2 }
}

/// What writing the options onto a request gives: the request, and the
/// error that blocks Send, if any. `budget_positive` says whether the
/// budget (without `$`) reads as a finite positive number.
pub open spec fn opts_apply(o: TurnOpts, v: TurnRequestV, access: Seq<char>, budget_positive: bool) -> (TurnRequestV, Option<Seq<char>>) {
    let b = trim_spec(o.budget@);
    if b.len() > 0 && !budget_positive {
        (v, Some(budget_error(b)))
    } else {
        let c = opts_common(o, v);
        if c.mode == "ask"@ {
            (TurnRequestV { deep_scan: some_true(o.deep_scan), ..c }, None)
        } else if c.mode == "plan"@ {
            if o.council {
                (TurnRequestV { council: Some(true), n: Some(clamp(o.members, 2, 4)), ..c }, None)
            } else {
                (c, None)
            }
        } else if c.mode == "agent"@ {
            match panel_spec(o.panel@) {
                Ok(p) => (opts_agent(o, c, access, p), None),
                Err(m) => (c, Some(m)),
            }
        } else {
            (c, None)
        }
    }
}

/// Law: a plan turn with the council on, whose budget is empty or
/// positive, asks for a council of the chosen number of members: the
/// count itself from 2 to 4, 2 below that and 4 above; nothing blocks it.
pub proof fn law_council_size(o: TurnOpts, v: TurnRequestV, access: Seq<char>, budget_positive: bool)
    requires
        v.mode == "plan"@,
        o.council,
        trim_spec(o.budget@).len() == 0 || budget_positive,
    ensures
        ({
            let (r, err) = opts_apply(o, v, access, budget_positive);
            &&& err is None
            &&& r.council == Some(true)
            &&& r.n is Some
            &&& 2 <= o.members <= 4 ==> r.n == Some(o.members)
            &&& o.members < 2 ==> r.n == Some(2u32)
            &&& o.members > 4 ==> r.n == Some(4u32)
            &&& 2 <= r.n.unwrap() <= 4
        }),
{
    reveal_strlit("plan");
    reveal_strlit("ask");
    assert("plan"@[0] == 'p' && "ask"@[0] == 'a');
}

fn str_string(o: Option<&'static str>) -> (r: Option<String>)
    ensures
        opt_view(r) == str_view(o),
{
    match o {
        Some(s) => Some(String::from_str(s)),
        None => None,
    }
}

fn some_true_exec(b: bool) -> (r: Option<bool>)
    ensures
        r == some_true(b),
{
    if b {
        Some(true)
    } else {
        None
    }
}

fn clamp_exec(x: u32, lo: u32, hi: u32) -> (r: u32)
    ensures
        r == clamp(x, lo, hi),
{
    if x < lo {
        lo
    } else if x > hi {
        hi
    } else {
        x
    }
}

fn keep_models(m: &Vec<(String, String)>) -> (r: Vec<(String, String)>)
    ensures
        pairs_view(r@) == kept_models(pairs_view(m@)),
{
    let mut out: Vec<(String, String)> = Vec::new();
    let mut i: usize = 0;
    while i < m.len()
        invariant
            i <= m@.len(),
            pairs_view(out@) == kept_models(pairs_view(m@.subrange(0, i as int))),
        decreases m@.len() - i,
    {
        let ghost before = out@;
        let value = trim(m[i].1.as_str());
        proof {
            let pv = pairs_view(m@.subrange(0, i + 1));
            assert(pv.drop_last() =~= pairs_view(m@.subrange(0, i as int)));
            assert(pv.last() == (m@[i as int].0@, m@[i as int].1@));
        }
        if value.unicode_len() > 0 {
            out.push((m[i].0.clone(), String::from_str(value)));
            proof {
                assert(pairs_view(out@) =~= pairs_view(before).push((m@[i as int].0@, trim_spec(m@[i as int].1@))));
            }
        }
        i = i + 1;
    }
    proof {
        assert(m@.subrange(0, m@.len() as int) =~= m@);
    }
    out
}

/// The number's text of a budget: without its leading `$` signs.
fn budget_amount(b: &str) -> (r: String)
    ensures
        r@ == strip_dollars(b@),
{
    let v = chars_vec(b);
    let mut k: usize = 0;
    assert(v@.subrange(0, v@.len() as int) =~= v@);
    while k < v.len() && v[k] == '$'
        invariant
            k <= v@.len(),
            v@ == b@,
            strip_dollars(b@) == strip_dollars(v@.subrange(k as int, v@.len() as int)),
        decreases v@.len() - k,
    {
        proof {
            let t = v@.subrange(k as int, v@.len() as int);
            assert(t.drop_first() =~= v@.subrange(k + 1, v@.len() as int));
        }
        k = k + 1;
    }
    proof {
        assert(v@.subrange(0, v@.len() as int) =~= v@);
        let t = v@.subrange(k as int, v@.len() as int);
        assert(strip_dollars(t) == t);
    }
    String::from_str(b.substring_char(k, v.len()))
}

impl TurnOpts {
    fn apply_agent(&self, req: &mut TurnRequest, access: &str, panel: Vec<ReviewerEntry>)
        requires
            self.pool@.len() <= u32::MAX,
        ensures
            final(req)@ == opts_agent(*self, old(req)@, access@, entries_view(panel@)),
    {
        let writable = !same_text(access, "readonly");
        req.access = str_string(self.access);
        req.delegate = some_true_exec(self.delegate);
        req.browser = some_true_exec(self.browser);
        let promised = match self.strategy_for(access) {
            Strategy::Single => {
                req.attempts = if writable { Some(clamp_exec(self.attempts, 1, 8)) } else { None };
                false
            },
            Strategy::BestOf => {
                req.harnesses = clone_strings(&self.pool);
                let k = self.pool.len();
                req.n = Some(if k == 1 { 1 } else if k < 2 { 2 } else { k as u32 });
                true
            },
            Strategy::UntilClean => {
                req.until_clean = Some(true);
                true
            },
            Strategy::Create => {
                req.create = Some(true);
                false
            },
        };
        req.review = Some(promised || self.review || panel.len() > 0);
        req.reviewer_panel = panel;
    }

    /// Write these options onto `req` (whose `mode` is already set). `access`
    /// is the effective profile (explicit pick, else the repo default);
    /// `budget_positive` says whether the typed budget, without its `$`,
    /// reads as a finite positive number. Errors are user-facing and block
    /// Send.
    pub fn apply(&self, req: &mut TurnRequest, access: &str, budget_positive: bool) -> (r: Result<(), String>)
        requires
            self.pool@.len() <= u32::MAX,
        ensures
            final(req)@ == opts_apply(*self, old(req)@, access@, budget_positive).0,
            match (r, opts_apply(*self, old(req)@, access@, budget_positive).1) {
                (Ok(()), None) => true,
                (Err(m), Some(e)) => m@ == e,
                _ => false,
            },
    {
        let b = trim(self.budget.as_str());
        if b.unicode_len() > 0 {
            if !budget_positive {
                let mut m = String::from_str("Budget “");
                m.append(b);
                m.append("” is not a positive dollar amount");
                return Err(m);
            }
            req.paid_budget = Some(budget_amount(b));
        }
        req.web = str_string(self.web);
        req.auth_preference = str_string(self.auth);
        req.models = keep_models(&self.models);
        let ghost c = req@;
        assert(c == opts_common(*self, old(req)@));
        if same_text(req.mode.as_str(), "ask") {
            req.deep_scan = some_true_exec(self.deep_scan);
        } else if same_text(req.mode.as_str(), "plan") {
            if self.council {
                req.council = Some(true);
                req.n = Some(clamp_exec(self.members, 2, 4));
            }
        } else if same_text(req.mode.as_str(), "agent") {
            let panel = match parse_reviewer_panel(self.panel.as_str()) {
                Ok(p) => p,
                Err(m) => return Err(m),
            };
            self.apply_agent(req, access, panel);
        }
        Ok(())
    }
}

/// `parts` joined with `sep` between them.
pub open spec fn join(parts: Seq<Seq<char>>, sep: Seq<char>) -> Seq<char>
    decreases parts.len(),
{
    if parts.len() == 0 {
        Seq::empty()
    } else if parts.len() == 1 {
        parts[0]
    } else {
        join(parts.drop_last(), sep) + sep + parts.last()
    }
}

pub open spec fn has_id(ids: Seq<Seq<char>>, id: Seq<char>) -> bool {
    exists|i: int| 0 <= i < ids.len() && ids[i] == id
}

/// The labels of the picked options, in option order.
pub open spec fn picked_labels(opts: Seq<PlanOption>, ids: Seq<Seq<char>>) -> Seq<Seq<char>>
    decreases opts.len(),
{
    if opts.len() == 0 {
        Seq::empty()
    } else {
        let rest = picked_labels(opts.drop_last(), ids);
        if has_id(ids, opts.last().id@) {
            rest.push(opts.last().label@)
        } else {
            rest
        }
    }
}

/// The answer to one question: the user's own words, else the picked
/// labels, else "(no answer)".
pub open spec fn answer_of(q: PlanQuestion, ids: Seq<Seq<char>>, own: Seq<char>) -> Seq<char> {
    let own = trim_spec(own);
    let parts = if own.len() == 0 { picked_labels(q.options@, ids) } else { seq![own] };
    if parts.len() == 0 {
        "(no answer)"@
    } else {
        join(parts, ", "@)
    }
}

pub open spec fn answer_lines(qs: Seq<PlanQuestion>, picked: Seq<Seq<Seq<char>>>, text: Seq<Seq<char>>) -> Seq<Seq<char>>
    decreases qs.len(),
{
    if qs.len() == 0 {
        Seq::empty()
    } else {
        let k = qs.len() - 1;
        answer_lines(qs.drop_last(), picked.take(k), text.take(k)).push(
            "- "@ + qs.last().prompt@ + " → "@ + answer_of(qs.last(), picked[k], text[k]),
        )
    }
}

/// The follow-up prompt for plan answers.
pub open spec fn plan_answers_text(qs: Seq<PlanQuestion>, picked: Seq<Seq<Seq<char>>>, text: Seq<Seq<char>>) -> Seq<char> {
    join(seq!["Answers to your plan questions:"@] + answer_lines(qs, picked, text), "\n"@)
}

pub open spec fn picks_view(p: Seq<Vec<String>>) -> Seq<Seq<Seq<char>>> {
    p.map_values(|v: Vec<String>| texts(v@))
}

fn contains_text(v: &Vec<String>, t: &String) -> (r: bool)
    ensures
        r == has_id(texts(v@), t@),
{
    let mut i: usize = 0;
    while i < v.len()
        invariant
            i <= v@.len(),
            forall|k: int| 0 <= k < i ==> #[trigger] v@[k]@ != t@,
        decreases v@.len() - i,
    {
        if v[i] == *t {
            assert(texts(v@)[i as int] == t@);
            return true;
        }
        i = i + 1;
    }
    assert forall|k: int| 0 <= k < texts(v@).len() implies texts(v@)[k] != t@ by {
        assert(texts(v@)[k] == v@[k]@);
    }
    false
}

/// Append `part` to a join in progress.
fn push_part(out: &mut String, first: bool, sep: &str, part: &str)
    ensures
        final(out)@ == if first { old(out)@ + part@ } else { old(out)@ + sep@ + part@ },
{
    if !first {
        out.append(sep);
    }
    out.append(part);
}

pub proof fn lemma_join_push(parts: Seq<Seq<char>>, sep: Seq<char>, x: Seq<char>)
    ensures
        join(parts.push(x), sep) == if parts.len() == 0 { x } else { join(parts, sep) + sep + x },
{
    assert(parts.push(x).drop_last() =~= parts);
}

fn answer(q: &PlanQuestion, picked: &Vec<String>, own: &String) -> (r: String)
    ensures
        r@ == answer_of(*q, texts(picked@), own@),
{
    let t = trim(own.as_str());
    if t.unicode_len() > 0 {
        return String::from_str(t);
    }
    let mut out = String::new();
    let mut count: usize = 0;
    let mut i: usize = 0;
    let ghost ids = texts(picked@);
    while i < q.options.len()
        invariant
            i <= q.options@.len(),
            ids == texts(picked@),
            count == picked_labels(q.options@.subrange(0, i as int), ids).len(),
            out@ == join(picked_labels(q.options@.subrange(0, i as int), ids), ", "@),
            count <= i,
        decreases q.options@.len() - i,
    {
        let ghost before = picked_labels(q.options@.subrange(0, i as int), ids);
        proof {
            assert(q.options@.subrange(0, i + 1).drop_last() =~= q.options@.subrange(0, i as int));
        }
        if contains_text(picked, &q.options[i].id) {
            push_part(&mut out, count == 0, ", ", q.options[i].label.as_str());
            proof {
                lemma_join_push(before, ", "@, q.options@[i as int].label@);
            }
            count = count + 1;
        }
        i = i + 1;
    }
    proof {
        assert(q.options@.subrange(0, q.options@.len() as int) =~= q.options@);
    }
    if count == 0 {
        return String::from_str("(no answer)");
    }
    out
}

/// Follow-up prompt for plan answers: one line per question, option
/// labels, or the user's own words instead of the picks. `picked[i]` and
/// `text[i]` are what the user chose and typed for question `i`.
pub fn encode_plan_answers(questions: &[PlanQuestion], picked: &[Vec<String>], text: &[String]) -> (r: String)
    requires
        picked@.len() == questions@.len(),
        text@.len() == questions@.len(),
    ensures
        r@ == plan_answers_text(questions@, picks_view(picked@), texts(text@)),
{
    proof {
        reveal_strlit("\n");
    }
    let mut out = String::from_str("Answers to your plan questions:");
    let mut i: usize = 0;
    let ghost head = seq!["Answers to your plan questions:"@];
    assert(head.len() == 1);
    assert(out@ == join(head, "\n"@));
    while i < questions.len()
        invariant
            i <= questions@.len() == picked@.len() == text@.len(),
            head == seq!["Answers to your plan questions:"@],
            out@ == join(head + answer_lines(questions@.subrange(0, i as int), picks_view(picked@).take(i as int), texts(text@).take(i as int)), "\n"@),
        decreases questions@.len() - i,
    {
        let q = &questions[i];
        let a = answer(q, &picked[i], &text[i]);
        let ghost lines = answer_lines(questions@.subrange(0, i as int), picks_view(picked@).take(i as int), texts(text@).take(i as int));
        out.append("\n");
        out.append("- ");
        out.append(q.prompt.as_str());
        out.append(" → ");
        out.append(a.as_str());
        proof {
            let qs = questions@.subrange(0, i + 1);
            assert(qs.drop_last() =~= questions@.subrange(0, i as int));
            assert(picks_view(picked@).take(i + 1).take(i as int) =~= picks_view(picked@).take(i as int));
            assert(texts(text@).take(i + 1).take(i as int) =~= texts(text@).take(i as int));
            assert(picks_view(picked@).take(i + 1)[i as int] == texts(picked@[i as int]@));
            assert(texts(text@).take(i + 1)[i as int] == text@[i as int]@);
            let line = "- "@ + q.prompt@ + " → "@ + a@;
            assert(answer_lines(qs, picks_view(picked@).take(i + 1), texts(text@).take(i + 1)) == lines.push(line));
            assert(head + lines.push(line) =~= (head + lines).push(line));
            lemma_join_push(head + lines, "\n"@, line);
            assert(out@ =~= join(head + lines, "\n"@) + "\n"@ + line);
        }
        i = i + 1;
    }
    proof {
        assert(questions@.subrange(0, questions@.len() as int) =~= questions@);
        assert(picks_view(picked@).take(questions@.len() as int) =~= picks_view(picked@));
        assert(texts(text@).take(questions@.len() as int) =~= texts(text@));
    }
    out
}

/// Every question answered: text questions need words; single and multi
/// questions need a pick or own words; and there is at least one question.
pub open spec fn answers_complete(qs: Seq<PlanQuestion>, picked: Seq<Seq<Seq<char>>>, text: Seq<Seq<char>>) -> bool {
    &&& qs.len() > 0
    &&& forall|i: int| 0 <= i < qs.len() ==> {
        let typed = !is_blank(#[trigger] text[i]);
        if qs[i].kind@ == "text"@ {
            typed
        } else {
            typed || picked[i].len() > 0
        }
    }
}

/// Law: answering every question in one's own words (words that are not
/// blank) completes the answers, whatever is picked; so does picking an
/// option for every single or multi question while every text question
/// has words. A question with blank words, and no pick (or a text
/// question), leaves them incomplete; and with no question nothing is
/// complete.
pub proof fn law_plan_answers(qs: Seq<PlanQuestion>, picked: Seq<Seq<Seq<char>>>, text: Seq<Seq<char>>)
    requires
        picked.len() == qs.len(),
        text.len() == qs.len(),
    ensures
        qs.len() > 0 && (forall|i: int| 0 <= i < qs.len() ==> !is_blank(#[trigger] text[i])) ==> answers_complete(qs, picked, text),
        qs.len() > 0 && (forall|i: int| 0 <= i < qs.len() ==> if (#[trigger] qs[i]).kind@ == "text"@ {
            !is_blank(text[i])
        } else {
            picked[i].len() > 0
        }) ==> answers_complete(qs, picked, text),
        forall|i: int| 0 <= i < qs.len() && is_blank(#[trigger] text[i]) && (qs[i].kind@ == "text"@ || picked[i].len() == 0)
            ==> !answers_complete(qs, picked, text),
        qs.len() == 0 ==> !answers_complete(qs, picked, text),
{
    if qs.len() > 0 && (forall|i: int| 0 <= i < qs.len() ==> if (#[trigger] qs[i]).kind@ == "text"@ {
        !is_blank(text[i])
    } else {
        picked[i].len() > 0
    }) {
        assert forall|i: int| 0 <= i < qs.len() implies ({
            let typed = !is_blank(#[trigger] text[i]);
            if qs[i].kind@ == "text"@ {
                typed
            } else {
                typed || picked[i].len() > 0
            }
        }) by {
            assert(qs[i].kind@ == "text"@ ==> !is_blank(text[i]));
        }
    }
}

pub fn plan_answers_complete(questions: &[PlanQuestion], picked: &[Vec<String>], text: &[String]) -> (r: bool)
    requires
        picked@.len() == questions@.len(),
        text@.len() == questions@.len(),
    ensures
        r == answers_complete(questions@, picks_view(picked@), texts(text@)),
{
    if questions.len() == 0 {
        return false;
    }
    let mut i: usize = 0;
    while i < questions.len()
        invariant
            i <= questions@.len() == picked@.len() == text@.len(),
            forall|k: int| 0 <= k < i ==> {
                let typed = !is_blank(#[trigger] texts(text@)[k]);
                if questions@[k].kind@ == "text"@ {
                    typed
                } else {
                    typed || picks_view(picked@)[k].len() > 0
                }
            },
        decreases questions@.len() - i,
    {
        let typed = !blank(text[i].as_str());
        let ok = if same_text(questions[i].kind.as_str(), "text") {
            typed
        } else {
            typed || picked[i].len() > 0
        };
        assert(texts(text@)[i as int] == text@[i as int]@);
        assert(picks_view(picked@)[i as int].len() == picked@[i as int]@.len());
        if !ok {
            return false;
        }
        i = i + 1;
    }
    true
}

/// Rows of a quota list, one per account: the first row of each account,
/// replaced by a later one that names its account when it did not.
pub open spec fn account_pick(subjects: Seq<QuotaSubject>) -> Seq<int>
    decreases subjects.len(),
{
    if subjects.len() == 0 {
        Seq::empty()
    } else {
        let out = account_pick(subjects.drop_last());
        let i = subjects.len() - 1;
        let s = subjects.last();
        match key_position(subjects, out, account_of(s)) {
            Some(j) => if subjects[out[j]].subject_id is None && s.subject_id is Some {
                out.update(j, i)
            } else {
                out
            },
            None => out.push(i),
        }
    }
}

/// The first kept row with this account.
pub open spec fn key_position(subjects: Seq<QuotaSubject>, out: Seq<int>, key: (Seq<char>, Seq<char>, Seq<char>)) -> Option<int>
    decreases out.len(),
{
    if out.len() == 0 {
        None
    } else if account_of(subjects[out[0]]) == key {
        Some(0)
    } else {
        match key_position(subjects, out.drop_first(), key) {
            Some(j) => Some(j + 1),
            None => None,
        }
    }
}

proof fn lemma_key_position(subjects: Seq<QuotaSubject>, out: Seq<int>, key: (Seq<char>, Seq<char>, Seq<char>))
    ensures
        key_position(subjects, out, key) matches Some(j) ==> (0 <= j < out.len() && account_of(subjects[out[j]]) == key),
        key_position(subjects, out, key) is None ==> forall|k: int| 0 <= k < out.len() ==> account_of(subjects[#[trigger] out[k]]) != key,
        forall|k: int| 0 <= k < out.len() && account_of(subjects[#[trigger] out[k]]) == key ==> (key_position(subjects, out, key) matches Some(j) && j <= k),
    decreases out.len(),
{
    if out.len() > 0 {
        let t = out.drop_first();
        lemma_key_position(subjects, t, key);
        if account_of(subjects[out[0]]) != key {
            assert forall|k: int| 0 <= k < out.len() && account_of(subjects[#[trigger] out[k]]) == key implies (key_position(subjects, out, key) matches Some(j) && j <= k) by {
                assert(k > 0);
                assert(out[k] == t[k - 1]);
            }
            if key_position(subjects, out, key) is None {
                assert forall|k: int| 0 <= k < out.len() implies account_of(subjects[#[trigger] out[k]]) != key by {
                    if k > 0 {
                        assert(out[k] == t[k - 1]);
                    }
                }
            }
            if let Some(j) = key_position(subjects, out, key) {
                assert(out[j] == t[j - 1]);
            }
        }
    }
}

pub open spec fn distinct_accounts(subjects: Seq<QuotaSubject>, out: Seq<int>) -> bool {
    forall|a: int, b: int| 0 <= a < b < out.len() ==> account_of(subjects[#[trigger] out[a]]) != account_of(subjects[#[trigger] out[b]])
}

pub open spec fn rows_in_range(subjects: Seq<QuotaSubject>, out: Seq<int>) -> bool {
    forall|k: int| 0 <= k < out.len() ==> 0 <= #[trigger] out[k] < subjects.len()
}

/// A quota list keeps one row per account: no two kept rows share one.
pub proof fn law_one_row_per_account(subjects: Seq<QuotaSubject>)
    ensures
        rows_in_range(subjects, account_pick(subjects)),
        distinct_accounts(subjects, account_pick(subjects)),
    decreases subjects.len(),
{
    if subjects.len() > 0 {
        let p = subjects.drop_last();
        law_one_row_per_account(p);
        let out = account_pick(p);
        let i = subjects.len() - 1;
        let s = subjects.last();
        assert forall|k: int| 0 <= k < out.len() implies subjects[out[k]] == p[#[trigger] out[k]] by {}
        lemma_key_position(subjects, out, account_of(s));
        let r = account_pick(subjects);
        match key_position(subjects, out, account_of(s)) {
            Some(j) => {
                assert forall|a: int, b: int| 0 <= a < b < r.len() implies account_of(subjects[#[trigger] r[a]]) != account_of(subjects[#[trigger] r[b]]) by {
                    assert(account_of(subjects[r[a]]) == account_of(subjects[out[a]]));
                    assert(account_of(subjects[r[b]]) == account_of(subjects[out[b]]));
                }
            },
            None => {
                assert forall|a: int, b: int| 0 <= a < b < r.len() implies account_of(subjects[#[trigger] r[a]]) != account_of(subjects[#[trigger] r[b]]) by {
                    if b == out.len() {
                        assert(r[b] == i);
                        assert(r[a] == out[a]);
                    } else {
                        assert(r[a] == out[a] && r[b] == out[b]);
                    }
                }
            },
        }
    }
}

fn same_key(a: &(String, String, String), b: &(String, String, String)) -> (r: bool)
    ensures
        r == ((a.0@, a.1@, a.2@) == (b.0@, b.1@, b.2@)),
{
    a.0 == b.0 && a.1 == b.1 && a.2 == b.2
}

pub open spec fn usizes(v: Seq<usize>) -> Seq<int> {
    v.map_values(|x: usize| x as int)
}

/// One row per account (prefers the row that names its account): the
/// positions of the kept rows in `subjects`.
pub fn account_rows(subjects: &[QuotaSubject]) -> (r: Vec<usize>)
    ensures
        usizes(r@) == account_pick(subjects@),
{
    let mut out: Vec<usize> = Vec::new();
    let mut keys: Vec<(String, String, String)> = Vec::new();
    let mut i: usize = 0;
    while i < subjects.len()
        invariant
            i <= subjects@.len(),
            usizes(out@) == account_pick(subjects@.take(i as int)),
            keys@.len() == out@.len(),
            forall|k: int| 0 <= k < out@.len() ==> #[trigger] out@[k] < i,
            forall|k: int| 0 <= k < keys@.len() ==> (#[trigger] keys@[k].0@, keys@[k].1@, keys@[k].2@) == account_of(subjects@[out@[k] as int]),
        decreases subjects@.len() - i,
    {
        let key = subjects[i].account_key();
        let ghost pre = subjects@.take(i as int);
        let ghost all = subjects@.take(i + 1);
        proof {
            assert(all.drop_last() =~= pre);
            assert(all.last() == subjects@[i as int]);
            assert forall|k: int| 0 <= k < out@.len() implies #[trigger] all[usizes(out@)[k]] == subjects@[out@[k] as int] by {}
        }
        let mut j: usize = 0;
        while j < out.len() && !same_key(&keys[j], &key)
            invariant
                j <= out@.len() == keys@.len(),
                forall|k: int| 0 <= k < j ==> (#[trigger] keys@[k].0@, keys@[k].1@, keys@[k].2@) != (key.0@, key.1@, key.2@),
            decreases out@.len() - j,
        {
            j = j + 1;
        }
        proof {
            lemma_key_position(all, usizes(out@), account_of(subjects@[i as int]));
            if j < out@.len() {
                assert(account_of(all[usizes(out@)[j as int]]) == account_of(subjects@[i as int]));
            }
            assert forall|k: int| 0 <= k < j implies account_of(all[#[trigger] usizes(out@)[k]]) != account_of(subjects@[i as int]) by {
                assert(keys@[k].0@ == account_of(subjects@[out@[k] as int]).0);
            }
        }
        let ghost before = out@;
        if j < out.len() {
            let k = out[j];
            if subjects[k].subject_id.is_none() && subjects[i].subject_id.is_some() {
                out.set(j, i);
                keys.set(j, key);
                proof {
                    assert(usizes(out@) =~= usizes(before).update(j as int, i as int));
                }
            }
        } else {
            out.push(i);
            keys.push(key);
            proof {
                assert(usizes(out@) =~= usizes(before).push(i as int));
            }
        }
        i = i + 1;
    }
    proof {
        assert(subjects@.take(subjects@.len() as int) =~= subjects@);
    }
    out
}

} // verus!
