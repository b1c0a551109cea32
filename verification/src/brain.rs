//! The decision brain's rules: which failures slow the asking down, which
//! switch the paid brain off for the rest of a run, how the decision cadence
//! backs off, and the small estimates the spend controls rely on.
use crate::audiogen::{doubling, join, join_chars, lemma_doubling_grows, strings_view};
use crate::text::{chars_eq, chars_of, owned, string_of, trim, trim_chars};
use std::collections::BTreeMap;
use vstd::prelude::*;

verus! {

/// Each retryable failure doubles the decision interval, up to this many times.
pub const MAX_BACKOFF_LEVEL: u32 = 4;
/// Consecutive unreadable answers before the brain is switched off for the run.
pub const MAX_CONSECUTIVE_MALFORMED: u32 = 3;
/// Characters per token assumed when estimating.
pub const CHARS_PER_TOKEN: u64 = 2;

/// Why a brain call did not produce a plan.
#[derive(Debug)]
pub enum Error {
    Transport(String),
    Api { status: u16, message: String },
    MissingApiKey(String),
    InvalidArgument(String),
    Malformed(String),
    Io(std::io::Error),
}

impl From<std::io::Error> for Error {
    fn from(err: std::io::Error) -> (r: Self) {
        Error::Io(err)
    }
}

impl vstd::std_specs::convert::FromSpecImpl<std::io::Error> for Error {
    open spec fn obeys_from_spec() -> bool {
        true
    }

    open spec fn from_spec(v: std::io::Error) -> Self {
        Error::Io(v)
    }
}

/// Transport trouble, timeouts, rate limits and server errors: worth slowing
/// down for, not worth giving up on.
pub open spec fn retryable(e: Error) -> bool {
    match e {
        Error::Transport(_) => true,
        Error::Api { status, .. } => status == 408 || status == 429 || (500 <= status <= 599),
        _ => false,
    }
}

/// A bad key, a wrong model id, a rejected request shape: asking again will
/// not help.
pub open spec fn fatal(e: Error) -> bool {
    match e {
        Error::Api { status, .. } => status == 400 || status == 401 || status == 403 || status
            == 404 || status == 422,
        Error::MissingApiKey(_) => true,
        Error::InvalidArgument(_) => true,
        _ => false,
    }
}

/// An answer that came back but could not be read.
pub open spec fn unreadable(e: Error) -> bool {
    e is Malformed || e is Io
}

/// Whether a failure is worth slowing down for.
pub fn is_retryable(err: &Error) -> (b: bool)
    ensures
        b == retryable(*err),
{
    match err {
        Error::Transport(_) => true,
        Error::Api { status, .. } => *status == 408 || *status == 429 || (500 <= *status && *status
            <= 599),
        _ => false,
    }
}

/// Whether a failure will not get better by asking again.
pub fn is_fatal(err: &Error) -> (b: bool)
    ensures
        b == fatal(*err),
{
    match err {
        Error::Api { status, .. } => *status == 400 || *status == 401 || *status == 403 || *status
            == 404 || *status == 422,
        Error::MissingApiKey(_) => true,
        Error::InvalidArgument(_) => true,
        _ => false,
    }
}

/// The decision interval, in nanoseconds, after `level` consecutive
/// retryable failures: the base doubled per level, at most four times.
pub fn backoff_interval(base_nanos: u64, level: u32) -> (nanos: u64)
    requires
        base_nanos * doubling(if level < MAX_BACKOFF_LEVEL { level as nat } else { 4 }) <= u64::MAX,
    ensures
        nanos == base_nanos * doubling(if level < MAX_BACKOFF_LEVEL { level as nat } else { 4 }),
{
    let capped = if level < MAX_BACKOFF_LEVEL { level } else { MAX_BACKOFF_LEVEL };
    let mut factor: u64 = 1;
    let mut k: u32 = 0;
    while k < capped
        invariant
            k <= capped <= 4,
            capped == (if level < MAX_BACKOFF_LEVEL { level as nat } else { 4 }),
            factor == doubling(k as nat),
            factor <= 16,
        decreases capped - k,
    {
        proof {
            lemma_doubling_grows((k + 1) as nat, 4);
            lemma_doubling_four();
        }
        factor = factor * 2;
        k += 1;
    }
    base_nanos * factor
}

/// Whether a paid decision is worth asking for: only for a living fighter in
/// an active round.
pub fn brain_worth_asking(hp: i32, round_state: &str) -> (b: bool)
    ensures
        b == (hp > 0 && round_state@ == "active"@),
{
    let s = chars_of(round_state);
    let active = chars_of("active");
    hp > 0 && chars_eq(&s, &active)
}

/// What one decision tick does.
#[derive(Debug, Clone, Copy, PartialEq, Eq)]
pub enum DecisionStep {
    /// A decision is still on its way back: nothing is sent.
    Wait,
    /// Plan by local rules because the paid brain is off for the run.
    LocalBudget,
    /// Plan by local rules: the provider is local, or nothing is worth a
    /// paid call right now.
    Local,
    /// Send one paid decision.
    Ask,
}

/// The decision tick's rule: wait while a decision is in flight; ask the
/// paid brain only while it is on and the fighter is alive in an active
/// round; otherwise plan locally, marked as the budget's doing when a paid
/// provider has been switched off.
pub open spec fn decision_rule(in_flight: bool, provider_paid: bool, paid_enabled: bool, hp: i32, round_state: Seq<char>) -> DecisionStep {
    if in_flight {
        DecisionStep::Wait
    } else if !paid_enabled || !(hp > 0 && round_state == "active"@) {
        if provider_paid && !paid_enabled {
            DecisionStep::LocalBudget
        } else {
            DecisionStep::Local
        }
    } else {
        DecisionStep::Ask
    }
}

/// One decision tick; see `decision_rule`.
pub fn decision_step(in_flight: bool, provider_paid: bool, paid_enabled: bool, hp: i32, round_state: &str) -> (step: DecisionStep)
    ensures
        step == decision_rule(in_flight, provider_paid, paid_enabled, hp, round_state@),
{
    if in_flight {
        DecisionStep::Wait
    } else if !paid_enabled || !brain_worth_asking(hp, round_state) {
        if provider_paid && !paid_enabled {
            DecisionStep::LocalBudget
        } else {
            DecisionStep::Local
        }
    } else {
        DecisionStep::Ask
    }
}

/// At most one decision is in flight, and none is sent while the paid brain
/// is off or to a dead fighter or outside an active round.
pub proof fn lemma_one_decision_at_a_time(provider_paid: bool, paid_enabled: bool, hp: i32, round_state: Seq<char>)
    ensures
        decision_rule(true, provider_paid, paid_enabled, hp, round_state) == DecisionStep::Wait,
        decision_rule(false, provider_paid, paid_enabled, hp, round_state) == DecisionStep::Ask
            <==> (paid_enabled && hp > 0 && round_state == "active"@),
{
}

/// Whether no usable key was given: none at all, or only whitespace.
pub open spec fn key_blank(api_key: Option<&str>) -> bool {
    match api_key {
        Some(k) => trim(k@).len() == 0,
        None => true,
    }
}

/// The text of the refusal: the settings that could hold a key, joined by
/// ", ".
pub open spec fn missing_key_text(key_names: Seq<String>) -> Seq<char> {
    join(strings_view(key_names), ", "@)
}

/// A paid brain cannot start without a key: refuse with `MissingApiKey`,
/// naming the settings that could hold one, exactly when the provider is
/// paid and the key is missing or blank.
pub fn check_api_key(paid: bool, api_key: Option<&str>, key_names: &Vec<String>) -> (r: Result<(), Error>)
    ensures
        r is Ok <==> !(paid && key_blank(api_key)),
        match r {
            Ok(_) => true,
            Err(Error::MissingApiKey(m)) => m@ == missing_key_text(key_names@),
            Err(_) => false,
        },
{
    let blank = match api_key {
        Some(k) => {
            let v = chars_of(k);
            trim_chars(&v).len() == 0
        },
        None => true,
    };
    if !(paid && blank) {
        return Ok(());
    }
    let ghost names = strings_view(key_names@);
    let mut parts: Vec<Vec<char>> = Vec::new();
    let mut i: usize = 0;
    while i < key_names.len()
        invariant
            i <= key_names.len(),
            names == strings_view(key_names@),
            parts@.map_values(|p: Vec<char>| p@) == names.take(i as int),
        decreases key_names.len() - i,
    {
        let v = chars_of(key_names[i].as_str());
        let ghost before = parts@;
        parts.push(v);
        proof {
            assert(names[i as int] == key_names@[i as int]@);
            assert(v@ == key_names@[i as int]@);
            let m = parts@.map_values(|p: Vec<char>| p@);
            let mb = before.map_values(|p: Vec<char>| p@);
            assert(parts@ == before.push(v));
            assert(mb == names.take(i as int));
            assert(mb.len() == before.len());
            assert forall|k: int| 0 <= k < i + 1 implies m[k] == names.take(i + 1)[k] by {
                if k < i {
                    assert(parts@[k] == before[k]);
                    assert(mb[k] == names.take(i as int)[k]);
                }
            }
            assert(m =~= names.take(i + 1));
        }
        i += 1;
    }
    assert(names.take(i as int) =~= names);
    let joined = join_chars(&parts, ", ");
    Err(Error::MissingApiKey(string_of(&joined)))
}

/// Planning estimate of the tokens in `text`: its byte length over two,
/// rounded up, so caps err on the side of refusing.
pub fn estimate_tokens(text: &str) -> (tokens: u64)
    ensures
        tokens as int == (text.len() as int + 1) / 2,
{
    let len = text.len() as u64;
    len / 2 + len % 2
}

/// Seconds since the Unix epoch by the system clock, `None` when the clock is
/// before the epoch (`SystemTime::now().duration_since(UNIX_EPOCH)`). Nothing
/// is claimed of the value: it is the time.
#[verifier::external_body]
fn system_unix_seconds() -> (s: Option<u64>) {
    std::time::SystemTime::now().duration_since(std::time::UNIX_EPOCH).ok().map(|d| d.as_secs())
}

/// The seconds read from the clock, or 0 when it is before the epoch.
pub fn unix_or_zero(secs: Option<u64>) -> (s: u64)
    ensures
        s == match secs {
            Some(v) => v,
            None => 0u64,
        },
{
    match secs {
        Some(v) => v,
        None => 0,
    }
}

/// Seconds since the Unix epoch, or 0 when the clock is before it.
pub fn now_unix() -> u64 {
    unix_or_zero(system_unix_seconds())
}

/// Name of the stance question.
pub const Q_STANCE: &'static str = "stance";
/// Name of the weapon question.
pub const Q_WEAPON: &'static str = "weapon";
/// Name of the danger question.
pub const Q_DANGER: &'static str = "danger";

/// Descriptions for the two sides of a yes-or-no question.
#[derive(Debug, Clone, PartialEq, Eq)]
pub struct NoulCriteria {
    pub yes: String,
    pub no: String,
}

/// One typed question for the brain.
#[derive(Debug, Clone, PartialEq, Eq)]
pub enum Question {
    Noul { instructions: String, criteria: Option<NoulCriteria> },
    Choice { instructions: String, criteria: BTreeMap<String, String> },
    Score { instructions: String, criteria: Vec<String> },
}

/// Danger levels, safest first; a score answer indexes into this list.
pub open spec fn danger_levels() -> Seq<Seq<char>> {
    seq!["safe"@, "watchful"@, "pressured"@, "critical"@, "dying"@]
}

/// What the stance question asks.
pub open spec fn stance_instructions() -> Seq<char> {
    "Pick the stance for the next second of an arena deathmatch. Distances are in world units. Health pads restore HP. A fighter respawns after death with full HP, so trading is fine when ahead."@
}

/// What the weapon question asks.
pub open spec fn weapon_instructions() -> Seq<char> {
    "Pick the weapon to hold for the next second. Swapping is instant."@
}

/// What the danger question asks.
pub open spec fn danger_instructions() -> Seq<char> {
    "Rate how close this fighter is to dying in the next few seconds."@
}

/// The weapons the brain may pick, each with what it is good for.
pub open spec fn weapon_criteria() -> Seq<(Seq<char>, Seq<char>)> {
    seq![
        ("scatter"@, "Shotgun, 15 damage per pellet, reaches 14 units: best inside 10 units"@),
        ("flechette"@, "Needle gun, 25 damage, reaches 42 units: best from 10 to 40 units"@),
        ("rail"@, "Railgun, 75 damage, slow, reaches 100 units: best beyond 30 units with a clear line"@),
    ]
}

/// The characters of each (name, description) pair.
pub open spec fn pairs_view(v: Seq<(String, String)>) -> Seq<(Seq<char>, Seq<char>)> {
    v.map_values(|p: (String, String)| (p.0@, p.1@))
}

/// No name occurs twice.
pub open spec fn distinct_names(ps: Seq<(Seq<char>, Seq<char>)>) -> bool {
    forall|i: int, j: int| 0 <= i < j < ps.len() ==> ps[i].0 != ps[j].0
}

/// Every key of `m` is one of `keys`.
pub open spec fn keys_within<V>(m: Map<String, V>, keys: Set<Seq<char>>) -> bool {
    forall|k: String| #[trigger] m.contains_key(k) ==> keys.contains(k@)
}

/// `m` maps a key reading `key` to a text reading `value`.
pub open spec fn text_entry(m: Map<String, String>, key: Seq<char>, value: Seq<char>) -> bool {
    exists|k: String| #[trigger] m.contains_key(k) && k@ == key && m[k]@ == value
}

/// `m` holds exactly the (name, description) pairs `ps`.
pub open spec fn lists_criteria(m: Map<String, String>, ps: Seq<(Seq<char>, Seq<char>)>) -> bool {
    &&& keys_within(m, ps.map_values(|p: (Seq<char>, Seq<char>)| p.0).to_set())
    &&& forall|i: int| 0 <= i < ps.len() ==> #[trigger] text_entry(m, ps[i].0, ps[i].1)
}

/// `q` is a choice question asking `instructions` among the pairs `ps`.
pub open spec fn choice_question(q: Question, instructions: Seq<char>, ps: Seq<(Seq<char>, Seq<char>)>) -> bool {
    match q {
        Question::Choice { instructions: t, criteria } => t@ == instructions && lists_criteria(criteria@, ps),
        _ => false,
    }
}

/// `q` is a score question asking `instructions` on the scale `levels`.
pub open spec fn score_question(q: Question, instructions: Seq<char>, levels: Seq<Seq<char>>) -> bool {
    match q {
        Question::Score { instructions: t, criteria } => t@ == instructions && strings_view(criteria@) == levels,
        _ => false,
    }
}

/// `m` maps a key reading `key` to a question meeting `p`.
pub open spec fn question_entry(m: Map<String, Question>, key: Seq<char>, p: spec_fn(Question) -> bool) -> bool {
    exists|k: String| #[trigger] m.contains_key(k) && k@ == key && p(m[k])
}

/// Whether `String`'s ordering obeys the laws of a total order, under which
/// vstd describes what `BTreeMap::insert` does.
pub open spec fn strings_ordered() -> bool {
    vstd::laws_cmp::obeys_cmp::<String>()
}

/// A map from each name of `pairs` to its description.
fn criteria_map(pairs: &Vec<(String, String)>) -> (m: BTreeMap<String, String>)
    requires
        distinct_names(pairs_view(pairs@)),
    ensures
        strings_ordered() ==> lists_criteria(m@, pairs_view(pairs@)),
{
    let ghost ps = pairs_view(pairs@);
    let mut m: BTreeMap<String, String> = BTreeMap::new();
    let mut i: usize = 0;
    while i < pairs.len()
        invariant
            i <= pairs.len(),
            ps == pairs_view(pairs@),
            distinct_names(ps),
            strings_ordered() ==> lists_criteria(m@, ps.take(i as int)),
        decreases pairs.len() - i,
    {
        let k = pairs[i].0.clone();
        let v = pairs[i].1.clone();
        let ghost before = m@;
        m.insert(k, v);
        proof {
            if strings_ordered() {
                let pre = ps.take(i as int);
                let cur = ps.take(i + 1);
                assert(ps[i as int] == (k@, v@));
                assert(m@.contains_key(k) && k@ == cur[i as int].0 && m@[k]@ == cur[i as int].1);
                assert(text_entry(m@, cur[i as int].0, cur[i as int].1));
                assert forall|j: int| 0 <= j < cur.len() implies #[trigger] text_entry(m@, cur[j].0, cur[j].1) by {
                    if j < i {
                        assert(cur[j] == pre[j]);
                        assert(text_entry(before, pre[j].0, pre[j].1));
                        let w = choose|w: String| #[trigger] before.contains_key(w) && w@ == pre[j].0
                            && before[w]@ == pre[j].1;
                        assert(ps[j] == pre[j]);
                        assert(w@ != k@);
                        assert(m@.contains_key(w) && m@[w] == before[w]);
                    }
                }
                assert forall|w: String| #[trigger] m@.contains_key(w) implies cur.map_values(
                    |p: (Seq<char>, Seq<char>)| p.0,
                ).to_set().contains(w@) by {
                    if w == k {
                        assert(cur.map_values(|p: (Seq<char>, Seq<char>)| p.0)[i as int] == k@);
                    } else {
                        assert(before.contains_key(w));
                        assert(pre.map_values(|p: (Seq<char>, Seq<char>)| p.0).to_set().contains(w@));
                        let names = pre.map_values(|p: (Seq<char>, Seq<char>)| p.0);
                        let j = choose|j: int| 0 <= j < names.len() && #[trigger] names[j] == w@;
                        assert(cur.map_values(|p: (Seq<char>, Seq<char>)| p.0)[j] == w@);
                    }
                }
            }
        }
        i += 1;
    }
    assert(ps.take(i as int) =~= ps);
    m
}

/// The fixed question set for arena play, stable across calls so the
/// provider can cache it and estimates stay honest: the stance to take, a
/// choice among `stances` (each a name and what it is for); the weapon to
/// hold, a choice among the scatter gun, the flechette and the rail; and how
/// close the fighter is to dying, scored on the danger levels.
pub fn tactical_questions(stances: &Vec<(String, String)>) -> (q: BTreeMap<String, Question>)
    requires
        distinct_names(pairs_view(stances@)),
    ensures
        strings_ordered() ==> {
            &&& keys_within(q@, set![Q_STANCE@, Q_WEAPON@, Q_DANGER@])
            &&& question_entry(
                q@,
                Q_STANCE@,
                |x: Question| choice_question(x, stance_instructions(), pairs_view(stances@)),
            )
            &&& question_entry(
                q@,
                Q_WEAPON@,
                |x: Question| choice_question(x, weapon_instructions(), weapon_criteria()),
            )
            &&& question_entry(
                q@,
                Q_DANGER@,
                |x: Question| score_question(x, danger_instructions(), danger_levels()),
            )
        },
{
    let stance = Question::Choice {
        instructions: owned(
            "Pick the stance for the next second of an arena deathmatch. Distances are in world units. Health pads restore HP. A fighter respawns after death with full HP, so trading is fine when ahead.",
        ),
        criteria: criteria_map(stances),
    };
    let mut weapons: Vec<(String, String)> = Vec::new();
    weapons.push(
        (owned("scatter"), owned("Shotgun, 15 damage per pellet, reaches 14 units: best inside 10 units")),
    );
    weapons.push(
        (owned("flechette"), owned("Needle gun, 25 damage, reaches 42 units: best from 10 to 40 units")),
    );
    weapons.push(
        (
            owned("rail"),
            owned("Railgun, 75 damage, slow, reaches 100 units: best beyond 30 units with a clear line"),
        ),
    );
    proof {
        reveal_strlit("scatter");
        reveal_strlit("flechette");
        reveal_strlit("rail");
        assert(pairs_view(weapons@) =~= weapon_criteria());
        let wc = weapon_criteria();
        assert(wc[0].0.len() == 7 && wc[1].0.len() == 9 && wc[2].0.len() == 4);
        assert(distinct_names(wc));
    }
    let weapon = Question::Choice {
        instructions: owned("Pick the weapon to hold for the next second. Swapping is instant."),
        criteria: criteria_map(&weapons),
    };
    let mut levels: Vec<String> = Vec::new();
    levels.push(owned("safe"));
    levels.push(owned("watchful"));
    levels.push(owned("pressured"));
    levels.push(owned("critical"));
    levels.push(owned("dying"));
    assert(strings_view(levels@) =~= danger_levels());
    let danger = Question::Score {
        instructions: owned("Rate how close this fighter is to dying in the next few seconds."),
        criteria: levels,
    };
    let ks = owned(Q_STANCE);
    let kw = owned(Q_WEAPON);
    let kd = owned(Q_DANGER);
    proof {
        reveal_strlit("stance");
        reveal_strlit("weapon");
        reveal_strlit("danger");
    }
    let ghost (gs, gw, gd) = (stance, weapon, danger);
    let ghost (ks0, kw0, kd0) = (ks, kw, kd);
    let mut q: BTreeMap<String, Question> = BTreeMap::new();
    q.insert(ks, stance);
    q.insert(kw, weapon);
    q.insert(kd, danger);
    proof {
        if strings_ordered() {
            assert(Q_STANCE@ == "stance"@ && Q_WEAPON@ == "weapon"@ && Q_DANGER@ == "danger"@);
            assert(ks0@[0] == 's' && kw0@[0] == 'w' && kd0@[0] == 'd');
            assert(ks0@ != kw0@ && ks0@ != kd0@ && kw0@ != kd0@);
            assert(q@.contains_key(ks0) && q@[ks0] == gs);
            assert(q@.contains_key(kw0) && q@[kw0] == gw);
            assert(q@.contains_key(kd0) && q@[kd0] == gd);
            assert(choice_question(gs, stance_instructions(), pairs_view(stances@)));
            assert(choice_question(gw, weapon_instructions(), weapon_criteria()));
            assert(score_question(gd, danger_instructions(), danger_levels()));
            assert forall|k: String| #[trigger] q@.contains_key(k) implies set![Q_STANCE@, Q_WEAPON@, Q_DANGER@].contains(
                k@,
            ) by {
                assert(k == ks0 || k == kw0 || k == kd0);
            }
        }
    }
    q
}

/// How the paid brain is doing over a run: whether it may still be asked,
/// how far the cadence has backed off, and how many answers in a row were
/// unreadable.
#[derive(Debug, Clone, Copy, PartialEq, Eq)]
pub struct BrainHealth {
    pub paid_enabled: bool,
    pub backoff_level: u32,
    pub consecutive_malformed: u32,
}

/// What a failed call does to the cadence.
#[derive(Debug, Clone, Copy, PartialEq, Eq)]
pub enum FailureResponse {
    /// The brain is switched off for the rest of the run.
    SwitchOff,
    /// The interval doubles; the new level is given.
    BackOff { level: u32 },
    /// Local rules this cycle, cadence unchanged.
    KeepCadence,
}

/// The health after a failed call: an unreadable answer extends the run of
/// unreadable ones, any other failure ends it; a fatal error or the third
/// unreadable answer in a row switches the brain off; otherwise a retryable
/// failure backs off one level while levels remain.
pub open spec fn after_failure(h: BrainHealth, e: Error) -> (BrainHealth, FailureResponse) {
    let malformed = if unreadable(e) {
        (h.consecutive_malformed + 1) as u32
    } else {
        0u32
    };
    if fatal(e) || malformed >= MAX_CONSECUTIVE_MALFORMED {
        (
            BrainHealth { paid_enabled: false, consecutive_malformed: malformed, ..h },
            FailureResponse::SwitchOff,
        )
    } else if retryable(e) && h.backoff_level < MAX_BACKOFF_LEVEL {
        let level = (h.backoff_level + 1) as u32;
        (
            BrainHealth { backoff_level: level, consecutive_malformed: malformed, ..h },
            FailureResponse::BackOff { level },
        )
    } else {
        (BrainHealth { consecutive_malformed: malformed, ..h }, FailureResponse::KeepCadence)
    }
}

impl BrainHealth {
    /// The levels stay within their bounds.
    pub open spec fn wf(self) -> bool {
        self.backoff_level <= MAX_BACKOFF_LEVEL
    }

    /// A fresh run: asked only when the provider is paid.
    pub fn new(paid: bool) -> (h: BrainHealth)
        ensures
            h.wf(),
            h == (BrainHealth { paid_enabled: paid, backoff_level: 0, consecutive_malformed: 0 }),
    {
        BrainHealth { paid_enabled: paid, backoff_level: 0, consecutive_malformed: 0 }
    }

    /// A plan came back. The run of unreadable answers ends, and a backed-off
    /// cadence returns to the base interval; the result says whether it did.
    pub fn on_decided(&mut self) -> (reset: bool)
        ensures
            reset == (old(self).backoff_level > 0),
            *final(self) == (BrainHealth {
                consecutive_malformed: 0,
                backoff_level: 0,
                ..*old(self)
            }),
    {
        self.consecutive_malformed = 0;
        if self.backoff_level > 0 {
            self.backoff_level = 0;
            true
        } else {
            false
        }
    }

    /// The budget refused the call: the brain is off for the rest of the
    /// run. The result says whether this refusal is what switched it off.
    pub fn on_refused(&mut self) -> (switched_off: bool)
        ensures
            switched_off == old(self).paid_enabled,
            *final(self) == (BrainHealth { paid_enabled: false, ..*old(self) }),
    {
        let was = self.paid_enabled;
        self.paid_enabled = false;
        was
    }

    /// A call failed with `err`; see `after_failure`.
    pub fn on_failed(&mut self, err: &Error) -> (r: FailureResponse)
        requires
            old(self).consecutive_malformed < u32::MAX,
        ensures
            (*final(self), r) == after_failure(*old(self), *err),
    {
        let unreadable = match err {
            Error::Malformed(_) | Error::Io(_) => true,
            _ => false,
        };
        self.consecutive_malformed = if unreadable {
            self.consecutive_malformed + 1
        } else {
            0
        };
        if is_fatal(err) || self.consecutive_malformed >= MAX_CONSECUTIVE_MALFORMED {
            self.paid_enabled = false;
            FailureResponse::SwitchOff
        } else if is_retryable(err) && self.backoff_level < MAX_BACKOFF_LEVEL {
            self.backoff_level = self.backoff_level + 1;
            FailureResponse::BackOff { level: self.backoff_level }
        } else {
            FailureResponse::KeepCadence
        }
    }
}

/// Every step keeps the backoff level within `MAX_BACKOFF_LEVEL`.
pub proof fn lemma_failure_keeps_level_bound(h: BrainHealth, e: Error)
    requires
        h.wf(),
    ensures
        after_failure(h, e).0.wf(),
{
}

/// Once the paid brain is off, no failure turns it back on.
pub proof fn lemma_switched_off_stays_off(h: BrainHealth, e: Error)
    requires
        !h.paid_enabled,
    ensures
        !after_failure(h, e).0.paid_enabled,
{
}

/// A fatal error switches the brain off at once, whatever came before.
pub proof fn lemma_fatal_switches_off(h: BrainHealth, e: Error)
    requires
        fatal(e),
    ensures
        !after_failure(h, e).0.paid_enabled,
        after_failure(h, e).1 == FailureResponse::SwitchOff,
{
}

/// A rejected request (bad request 400, bad key 401, forbidden 403, wrong
/// model id 404, rejected shape 422), a missing key or a bad argument is
/// fatal: the brain is switched off at once, from any state. Timeouts (408),
/// rate limits (429) and server errors (5xx) are not fatal.
pub proof fn lemma_rejections_switch_off(h: BrainHealth, status: u16, message: String)
    ensures
        (status == 400 || status == 401 || status == 403 || status == 404 || status == 422) ==> ({
            let (next, r) = after_failure(h, Error::Api { status, message });
            &&& r == FailureResponse::SwitchOff
            &&& !next.paid_enabled
        }),
        (status == 408 || status == 429 || (500 <= status <= 599)) ==> !fatal(
            Error::Api { status, message },
        ),
        ({
            let (next, r) = after_failure(h, Error::MissingApiKey(message));
            r == FailureResponse::SwitchOff && !next.paid_enabled
        }),
        ({
            let (next, r) = after_failure(h, Error::InvalidArgument(message));
            r == FailureResponse::SwitchOff && !next.paid_enabled
        }),
{
}

/// A timeout (408), a rate limit (429) or a server error (5xx) slows the
/// asking down: the backoff level goes up by one until the cap, the paid
/// brain stays as it was and the unreadable run ends.
pub proof fn lemma_transient_failures_back_off(h: BrainHealth, status: u16, message: String)
    requires
        status == 408 || status == 429 || (500 <= status <= 599),
    ensures
        ({
            let (next, r) = after_failure(h, Error::Api { status, message });
            &&& next.paid_enabled == h.paid_enabled
            &&& next.consecutive_malformed == 0
            &&& h.backoff_level < MAX_BACKOFF_LEVEL ==> r == (FailureResponse::BackOff {
                level: (h.backoff_level + 1) as u32,
            }) && next.backoff_level == h.backoff_level + 1
            &&& h.backoff_level >= MAX_BACKOFF_LEVEL ==> r == FailureResponse::KeepCadence
                && next.backoff_level == h.backoff_level
        }),
{
}

/// Three unreadable answers in a row switch the brain off, from any state.
pub proof fn lemma_three_unreadable_switch_off(h: BrainHealth, e1: Error, e2: Error, e3: Error)
    requires
        unreadable(e1),
        unreadable(e2),
        unreadable(e3),
        h.consecutive_malformed < u32::MAX - 3,
    ensures
        ({
            let h1 = after_failure(h, e1).0;
            let h2 = after_failure(h1, e2).0;
            let (h3, r3) = after_failure(h2, e3);
            !h3.paid_enabled && r3 == FailureResponse::SwitchOff
        }),
{
}

/// `2^4 = 16`.
pub proof fn lemma_doubling_four()
    ensures
        doubling(4) == 16,
{
    assert(doubling(0) == 1);
    assert(doubling(1) == 2);
    assert(doubling(2) == 4);
    assert(doubling(3) == 8);
}

/// A backed-off cadence never goes past four doublings of the base interval.
pub proof fn lemma_backoff_interval_capped(base_nanos: nat, level: nat)
    ensures
        base_nanos * doubling(if level < 4 { level } else { 4 }) <= base_nanos * 16,
{
    let e: nat = if level < 4 { level } else { 4 };
    lemma_doubling_grows(e, 4);
    lemma_doubling_four();
    assert(base_nanos * doubling(e) <= base_nanos * 16) by (nonlinear_arith)
        requires
            doubling(e) <= 16,
    ;
}

} // verus!
