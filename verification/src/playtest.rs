//! The agent playtest harness's bookkeeping that needs no geometry: reading
//! weapon names off the wire and the frag timeline a report is built from.
use crate::audiogen::strings_view;
use crate::protocol::WeaponType;
use crate::text::{chars_of, extend_str, lower_code, lower_code_of, string_of};
use vstd::prelude::*;

verus! {

/// A death this soon after a spawn counts as a spawn death.
pub const SPAWN_DEATH_WINDOW_TICKS: u64 = 40;

#[derive(Debug)]
pub enum Error {
    Server(String),
    Transport(String),
    Timeout(&'static str),
    Io(std::io::Error),
}

/// The text of an error of every kind but `Io`, whose text comes from std.
pub open spec fn error_text(e: Error) -> Seq<char> {
    match e {
        Error::Server(m) => "server error: "@ + m@,
        Error::Transport(m) => "transport error: "@ + m@,
        Error::Timeout(what) => "timed out waiting for "@ + what@,
        Error::Io(_) => "io error: "@,
    }
}

impl Error {
    /// The one-line description of this error.
    pub fn message(&self) -> (s: String)
        ensures
            !(self is Io) ==> s@ == error_text(*self),
            self is Io ==> error_text(*self).is_prefix_of(s@),
    {
        let mut out: Vec<char> = Vec::new();
        match self {
            Error::Server(m) => {
                extend_str(&mut out, "server error: ");
                extend_str(&mut out, m.as_str());
            },
            Error::Transport(m) => {
                extend_str(&mut out, "transport error: ");
                extend_str(&mut out, m.as_str());
            },
            Error::Timeout(what) => {
                extend_str(&mut out, "timed out waiting for ");
                extend_str(&mut out, what);
            },
            Error::Io(err) => {
                extend_str(&mut out, "io error: ");
                let t = err.to_string();
                extend_str(&mut out, t.as_str());
            },
        }
        string_of(&out)
    }
}

impl From<std::io::Error> for Error {
    fn from(err: std::io::Error) -> (r: Self) {
        Error::Io(err)
    }
}

impl vstd::std_specs::convert::FromSpecImpl<std::io::Error> for Error {
    open spec fn obeys_from_spec() -> bool {
        true
    }

    open spec fn from_spec(v: std::io::Error) -> Self {
        Error::Io(v)
    }
}

/// Whether `s` reads `word` once lowered to ASCII lowercase; `word` is
/// lowercase itself.
pub open spec fn lowers_to(s: Seq<char>, word: Seq<char>) -> bool {
    &&& s.len() == word.len()
    &&& forall|i: int| 0 <= i < s.len() ==> lower_code(#[trigger] s[i]) == word[i] as u32
}

fn lowers_to_exec(s: &Vec<char>, word: &str) -> (b: bool)
    ensures
        b == lowers_to(s@, word@),
{
    let w = chars_of(word);
    if s.len() != w.len() {
        return false;
    }
    let mut i: usize = 0;
    while i < s.len()
        invariant
            i <= s.len() == w.len(),
            w@ == word@,
            forall|j: int| 0 <= j < i ==> lower_code(#[trigger] s@[j]) == w@[j] as u32,
        decreases s.len() - i,
    {
        if lower_code_of(s[i]) != w[i] as u32 {
            return false;
        }
        i += 1;
    }
    true
}

/// Parse a wire weapon name, ignoring ASCII case; unknown names give none.
pub fn weapon_from_wire(name: &str) -> (w: Option<WeaponType>)
    ensures
        w == (if lowers_to(name@, "flechette"@) {
            Some(WeaponType::Flechette)
        } else if lowers_to(name@, "rail"@) {
            Some(WeaponType::Rail)
        } else if lowers_to(name@, "scatter"@) {
            Some(WeaponType::Scatter)
        } else {
            None
        }),
{
    let v = chars_of(name);
    if lowers_to_exec(&v, "flechette") {
        Some(WeaponType::Flechette)
    } else if lowers_to_exec(&v, "rail") {
        Some(WeaponType::Rail)
    } else if lowers_to_exec(&v, "scatter") {
        Some(WeaponType::Scatter)
    } else {
        None
    }
}

/// `a.saturating_sub(b)`.
pub open spec fn sat_sub(a: u64, b: u64) -> nat {
    if a >= b {
        (a - b) as nat
    } else {
        0
    }
}

/// The longest stretch without a frag: between the first observed tick and
/// the first frag, between consecutive frags, and from the last frag to the
/// last observed tick. `frags` are the frag ticks in the order seen.
pub open spec fn longest_gap(first: u64, frags: Seq<u64>, last: u64) -> nat
    decreases frags.len(),
{
    if frags.len() == 0 {
        sat_sub(last, first)
    } else {
        let here = sat_sub(frags[0], first);
        let rest = longest_gap(frags[0], frags.drop_first(), last);
        if here >= rest {
            here
        } else {
            rest
        }
    }
}

/// The larger of two numbers.
pub open spec fn max_nat(a: nat, b: nat) -> nat {
    if a >= b {
        a
    } else {
        b
    }
}

/// The longest stretch without a frag, in ticks; see `longest_gap`.
pub fn longest_frag_gap(first: u64, frag_ticks: &Vec<u64>, last_tick: u64) -> (g: u64)
    ensures
        g == longest_gap(first, frag_ticks@, last_tick),
{
    let mut longest: u64 = 0;
    let mut previous: u64 = first;
    let mut i: usize = 0;
    assert(frag_ticks@.skip(0) =~= frag_ticks@);
    while i < frag_ticks.len()
        invariant
            i <= frag_ticks@.len(),
            max_nat(longest as nat, longest_gap(previous, frag_ticks@.skip(i as int), last_tick))
                == longest_gap(first, frag_ticks@, last_tick),
        decreases frag_ticks@.len() - i,
    {
        let t = frag_ticks[i];
        proof {
            let s = frag_ticks@.skip(i as int);
            assert(s[0] == t);
            assert(s.drop_first() =~= frag_ticks@.skip(i + 1));
        }
        let here = t.saturating_sub(previous);
        if here > longest {
            longest = here;
        }
        previous = t;
        i += 1;
    }
    assert(frag_ticks@.skip(i as int) =~= Seq::<u64>::empty());
    let tail = last_tick.saturating_sub(previous);
    if tail > longest {
        longest = tail;
    }
    longest
}

/// Ticks from the first observed tick to the first frag, when there is one.
pub fn first_frag_delay(first: u64, frag_ticks: &Vec<u64>) -> (d: Option<u64>)
    ensures
        d == (if frag_ticks@.len() == 0 {
            None
        } else {
            Some(sat_sub(frag_ticks@[0], first) as u64)
        }),
{
    if frag_ticks.len() == 0 {
        None
    } else {
        Some(frag_ticks[0].saturating_sub(first))
    }
}

/// Whether a death at `death_tick` comes within the spawn-death window of the
/// victim's spawn at `spawn_tick`.
pub fn is_spawn_death(death_tick: u64, spawn_tick: u64) -> (b: bool)
    ensures
        b == (sat_sub(death_tick, spawn_tick) <= SPAWN_DEATH_WINDOW_TICKS),
{
    death_tick.saturating_sub(spawn_tick) <= SPAWN_DEATH_WINDOW_TICKS
}

/// The length of an observed run in ticks: from the first to the last tick
/// seen, at least one.
pub fn observed_ticks(first_tick: Option<u64>, last_tick: u64) -> (t: u64)
    ensures
        t == ({
            let first = match first_tick {
                Some(f) => f,
                None => 0u64,
            };
            let d = sat_sub(last_tick, first);
            if d >= 1 { d } else { 1 }
        }),
{
    let first = match first_tick {
        Some(f) => f,
        None => 0,
    };
    let d = last_tick.saturating_sub(first);
    if d >= 1 {
        d
    } else {
        1
    }
}


/// What the report reads of one event.
#[derive(Debug, Clone, PartialEq, Eq)]
pub enum ReportEvent {
    /// A round began with these fighters spawned; the host speaks.
    RoundStart { players: Vec<String> },
    Respawn { player: String },
    Frag { killer: String, victim: String },
    /// A round ended; the host speaks.
    RoundEnd,
    /// Another host beat: a killstreak, a compliance ping, a boss showing up
    /// or going down.
    HostBeat,
    Pickup,
    /// Hits, joins, leaves, speech and episode markers: not counted.
    Quiet,
}

/// An event with the observer's clock when it arrived.
#[derive(Debug, Clone, PartialEq, Eq)]
pub struct TimedReportEvent {
    pub tick: u64,
    pub event: ReportEvent,
}

/// Whether `e` (re)spawns the fighter called `name`.
pub open spec fn spawns(e: ReportEvent, name: Seq<char>) -> bool {
    match e {
        ReportEvent::RoundStart { players } => strings_view(players@).contains(name),
        ReportEvent::Respawn { player } => player@ == name,
        _ => false,
    }
}

/// The tick of the latest (re)spawn of `name` among `evs`.
pub open spec fn last_spawn(evs: Seq<TimedReportEvent>, name: Seq<char>) -> Option<u64>
    decreases evs.len(),
{
    if evs.len() == 0 {
        None
    } else if spawns(evs.last().event, name) {
        Some(evs.last().tick)
    } else {
        last_spawn(evs.drop_last(), name)
    }
}

/// Whether `e`, arriving after `before`, is a frag whose victim had spawned
/// no more than the spawn-death window earlier.
pub open spec fn spawn_death(before: Seq<TimedReportEvent>, e: TimedReportEvent) -> bool {
    match e.event {
        ReportEvent::Frag { victim, .. } => match last_spawn(before, victim@) {
            Some(s) => sat_sub(e.tick, s) <= SPAWN_DEATH_WINDOW_TICKS,
            None => false,
        },
        _ => false,
    }
}

/// The things the report counts.
pub enum Tally {
    FragsBy(Seq<char>),
    DeathsOf(Seq<char>),
    SpawnDeathsOf(Seq<char>),
    SpawnDeaths,
    HostBeats,
    Pickups,
    RoundEnds,
}

/// Whether `e`, arriving after `before`, counts toward `t`.
pub open spec fn tallied(before: Seq<TimedReportEvent>, e: TimedReportEvent, t: Tally) -> bool {
    match t {
        Tally::FragsBy(n) => match e.event {
            ReportEvent::Frag { killer, .. } => killer@ == n,
            _ => false,
        },
        Tally::DeathsOf(n) => match e.event {
            ReportEvent::Frag { victim, .. } => victim@ == n,
            _ => false,
        },
        Tally::SpawnDeathsOf(n) => match e.event {
            ReportEvent::Frag { victim, .. } => victim@ == n && spawn_death(before, e),
            _ => false,
        },
        Tally::SpawnDeaths => spawn_death(before, e),
        Tally::HostBeats => e.event is RoundStart || e.event is RoundEnd || e.event is HostBeat,
        Tally::Pickups => e.event is Pickup,
        Tally::RoundEnds => e.event is RoundEnd,
    }
}

/// How many events of `evs` count toward `t`.
pub open spec fn tally(evs: Seq<TimedReportEvent>, t: Tally) -> nat
    decreases evs.len(),
{
    if evs.len() == 0 {
        0
    } else {
        tally(evs.drop_last(), t) + if tallied(evs.drop_last(), evs.last(), t) {
            1nat
        } else {
            0nat
        }
    }
}

/// The ticks of the frags among `evs`, in order.
pub open spec fn frag_ticks_of(evs: Seq<TimedReportEvent>) -> Seq<u64>
    decreases evs.len(),
{
    if evs.len() == 0 {
        Seq::<u64>::empty()
    } else if evs.last().event is Frag {
        frag_ticks_of(evs.drop_last()).push(evs.last().tick)
    } else {
        frag_ticks_of(evs.drop_last())
    }
}

/// One fighter's frags, deaths and spawn deaths.
#[derive(Debug, Clone, PartialEq, Eq)]
pub struct AgentTally {
    pub name: String,
    pub frags: u64,
    pub deaths: u64,
    pub spawn_deaths: u64,
}

/// What the events of a run add up to.
#[derive(Debug, Clone, PartialEq, Eq)]
pub struct EventTally {
    pub frag_ticks: Vec<u64>,
    pub host_beats: u64,
    pub pickups: u64,
    pub spawn_deaths: u64,
    pub rounds_completed: u64,
    /// Every fighter that fragged or died, once each, in order of first
    /// appearance.
    pub agents: Vec<AgentTally>,
}

/// `names` with `n` added at the end unless it is there already.
pub open spec fn appear(names: Seq<Seq<char>>, n: Seq<char>) -> Seq<Seq<char>> {
    if names.contains(n) {
        names
    } else {
        names.push(n)
    }
}

/// The fighters that fragged or died in `evs`, in order of first
/// appearance; within a frag the killer comes before the victim.
pub open spec fn first_seen(evs: Seq<TimedReportEvent>) -> Seq<Seq<char>>
    decreases evs.len(),
{
    if evs.len() == 0 {
        Seq::<Seq<char>>::empty()
    } else {
        let prev = first_seen(evs.drop_last());
        match evs.last().event {
            ReportEvent::Frag { killer, victim } => appear(appear(prev, killer@), victim@),
            _ => prev,
        }
    }
}

/// The names of the entries, in order.
pub open spec fn agent_names(agents: Seq<AgentTally>) -> Seq<Seq<char>> {
    agents.map_values(|a: AgentTally| a.name@)
}

/// The latest entry of `agents` named `n`.
pub open spec fn find_agent(agents: Seq<AgentTally>, n: Seq<char>) -> Option<AgentTally>
    decreases agents.len(),
{
    if agents.len() == 0 {
        None
    } else if agents.last().name@ == n {
        Some(agents.last())
    } else {
        find_agent(agents.drop_last(), n)
    }
}

/// No two entries share a name.
pub open spec fn names_unique(agents: Seq<AgentTally>) -> bool {
    forall|k: int, l: int| 0 <= k < l < agents.len() ==> agents[k].name@ != agents[l].name@
}

/// The counts recorded for `n`: zeros when there is no entry.
pub open spec fn agent_counts(agents: Seq<AgentTally>, n: Seq<char>) -> (nat, nat, nat) {
    match find_agent(agents, n) {
        Some(a) => (a.frags as nat, a.deaths as nat, a.spawn_deaths as nat),
        None => (0, 0, 0),
    }
}

/// The counts `evs` give for `n`.
pub open spec fn event_counts(evs: Seq<TimedReportEvent>, n: Seq<char>) -> (nat, nat, nat) {
    (tally(evs, Tally::FragsBy(n)), tally(evs, Tally::DeathsOf(n)), tally(evs, Tally::SpawnDeathsOf(n)))
}

/// `agents` holds exactly the fighters that fragged or died in `evs`, once
/// each, with their counts.
pub open spec fn agents_match(agents: Seq<AgentTally>, evs: Seq<TimedReportEvent>) -> bool {
    &&& names_unique(agents)
    &&& forall|n: Seq<char>| #[trigger] agent_counts(agents, n) == event_counts(evs, n)
    &&& forall|n: Seq<char>|
        (#[trigger] find_agent(agents, n)) is Some <==> (tally(evs, Tally::FragsBy(n)) > 0 || tally(
            evs,
            Tally::DeathsOf(n),
        ) > 0)
}

/// The frags, deaths and spawn deaths of all entries added up.
pub open spec fn agent_totals(agents: Seq<AgentTally>) -> (nat, nat, nat)
    decreases agents.len(),
{
    if agents.len() == 0 {
        (0, 0, 0)
    } else {
        let t = agent_totals(agents.drop_last());
        let a = agents.last();
        (t.0 + a.frags as nat, t.1 + a.deaths as nat, t.2 + a.spawn_deaths as nat)
    }
}

proof fn lemma_totals_update(agents: Seq<AgentTally>, k: int, a: AgentTally)
    requires
        0 <= k < agents.len(),
    ensures
        agent_totals(agents.update(k, a)).0 == agent_totals(agents).0 - agents[k].frags + a.frags,
        agent_totals(agents.update(k, a)).1 == agent_totals(agents).1 - agents[k].deaths + a.deaths,
        agent_totals(agents.update(k, a)).2 == agent_totals(agents).2 - agents[k].spawn_deaths
            + a.spawn_deaths,
    decreases agents.len(),
{
    let u = agents.update(k, a);
    if k == agents.len() - 1 {
        assert(u.drop_last() =~= agents.drop_last());
    } else {
        assert(u.drop_last() =~= agents.drop_last().update(k, a));
        assert(u.last() == agents.last());
        lemma_totals_update(agents.drop_last(), k, a);
    }
}

/// No tally exceeds the number of events.
pub proof fn lemma_tally_bounded(evs: Seq<TimedReportEvent>, t: Tally)
    ensures
        tally(evs, t) <= evs.len(),
    decreases evs.len(),
{
    if evs.len() > 0 {
        lemma_tally_bounded(evs.drop_last(), t);
    }
}

proof fn lemma_find_agent_named(agents: Seq<AgentTally>, n: Seq<char>)
    ensures
        find_agent(agents, n) matches Some(a) ==> a.name@ == n,
        find_agent(agents, n) is None ==> forall|k: int| 0 <= k < agents.len() ==> agents[k].name@ != n,
    decreases agents.len(),
{
    if agents.len() > 0 {
        lemma_find_agent_named(agents.drop_last(), n);
        if find_agent(agents, n) is None {
            assert forall|k: int| 0 <= k < agents.len() implies agents[k].name@ != n by {
                if k < agents.len() - 1 {
                    assert(agents.drop_last()[k] == agents[k]);
                }
            }
        }
    }
}

proof fn lemma_find_agent_at(agents: Seq<AgentTally>, k: int)
    requires
        names_unique(agents),
        0 <= k < agents.len(),
    ensures
        find_agent(agents, agents[k].name@) == Some(agents[k]),
    decreases agents.len(),
{
    if k < agents.len() - 1 {
        assert(agents.drop_last()[k] == agents[k]);
        lemma_find_agent_at(agents.drop_last(), k);
    }
}

proof fn lemma_find_after_update(agents: Seq<AgentTally>, k: int, a: AgentTally, n: Seq<char>)
    requires
        names_unique(agents),
        0 <= k < agents.len(),
        a.name@ == agents[k].name@,
    ensures
        find_agent(agents.update(k, a), n) == if n == a.name@ {
            Some(a)
        } else {
            find_agent(agents, n)
        },
    decreases agents.len(),
{
    let u = agents.update(k, a);
    if k == agents.len() - 1 {
        assert(u.drop_last() =~= agents.drop_last());
    } else {
        assert(u.drop_last() =~= agents.drop_last().update(k, a));
        assert(u.last() == agents.last());
        assert(agents[k].name@ != agents.last().name@);
        lemma_find_after_update(agents.drop_last(), k, a, n);
    }
}

/// The position of the entry named `name`.
fn agent_slot(agents: &Vec<AgentTally>, name: &String) -> (r: Option<usize>)
    requires
        names_unique(agents@),
    ensures
        match r {
            Some(k) => k < agents@.len() && agents@[k as int].name@ == name@
                && find_agent(agents@, name@) == Some(agents@[k as int]),
            None => find_agent(agents@, name@) is None,
        },
{
    let mut j: usize = agents.len();
    assert(agents@.take(j as int) =~= agents@);
    while j > 0
        invariant
            j <= agents@.len(),
            find_agent(agents@, name@) == find_agent(agents@.take(j as int), name@),
        decreases j,
    {
        let ghost t = agents@.take(j as int);
        assert(t.drop_last() =~= agents@.take(j - 1));
        assert(t.last() == agents@[j - 1]);
        if agents[j - 1].name == *name {
            return Some(j - 1);
        }
        j -= 1;
    }
    None
}

/// Add to the counts of the fighter called `name`, adding an entry for a
/// fighter not seen yet.
fn credit(agents: &mut Vec<AgentTally>, name: &String, frag: bool, death: bool, spawn: bool)
    requires
        names_unique(old(agents)@),
        agent_counts(old(agents)@, name@).0 + (if frag { 1nat } else { 0nat }) <= u64::MAX,
        agent_counts(old(agents)@, name@).1 + (if death { 1nat } else { 0nat }) <= u64::MAX,
        agent_counts(old(agents)@, name@).2 + (if spawn { 1nat } else { 0nat }) <= u64::MAX,
    ensures
        names_unique(final(agents)@),
        find_agent(final(agents)@, name@) is Some,
        agent_counts(final(agents)@, name@) == ({
            let c = agent_counts(old(agents)@, name@);
            (
                c.0 + if frag { 1nat } else { 0nat },
                c.1 + if death { 1nat } else { 0nat },
                c.2 + if spawn { 1nat } else { 0nat },
            )
        }),
        forall|n: Seq<char>| n != name@ ==> #[trigger] find_agent(final(agents)@, n) == find_agent(old(agents)@, n),
        agent_names(final(agents)@) == appear(agent_names(old(agents)@), name@),
        agent_totals(final(agents)@) == ({
            let t = agent_totals(old(agents)@);
            (
                t.0 + if frag { 1nat } else { 0nat },
                t.1 + if death { 1nat } else { 0nat },
                t.2 + if spawn { 1nat } else { 0nat },
            )
        }),
{
    let df: u64 = if frag { 1 } else { 0 };
    let dd: u64 = if death { 1 } else { 0 };
    let ds: u64 = if spawn { 1 } else { 0 };
    match agent_slot(agents, name) {
        Some(k) => {
            let a = AgentTally {
                name: agents[k].name.clone(),
                frags: agents[k].frags + df,
                deaths: agents[k].deaths + dd,
                spawn_deaths: agents[k].spawn_deaths + ds,
            };
            let ghost before = agents@;
            agents.set(k, a);
            proof {
                lemma_totals_update(before, k as int, a);
                assert forall|n: Seq<char>| #[trigger] find_agent(agents@, n) == if n == a.name@ {
                    Some(a)
                } else {
                    find_agent(before, n)
                } by {
                    lemma_find_after_update(before, k as int, a, n);
                }
                assert(names_unique(agents@)) by {
                    assert forall|x: int, y: int| 0 <= x < y < agents@.len() implies agents@[x].name@
                        != agents@[y].name@ by {
                        assert(agents@[x].name@ == before[x].name@);
                        assert(agents@[y].name@ == before[y].name@);
                    }
                }
                assert(agent_names(agents@) =~= agent_names(before));
                assert(agent_names(before)[k as int] == name@);
                assert(agent_names(before).contains(name@));
            }
        },
        None => {
            let a = AgentTally { name: name.clone(), frags: df, deaths: dd, spawn_deaths: ds };
            let ghost before = agents@;
            proof {
                lemma_find_agent_named(before, name@);
            }
            agents.push(a);
            assert(agents@.drop_last() =~= before);
            assert(agents@.last() == a);
            assert(agent_names(agents@) =~= agent_names(before).push(name@));
            assert(!agent_names(before).contains(name@)) by {
                if agent_names(before).contains(name@) {
                    let x = choose|x: int| 0 <= x < agent_names(before).len() && agent_names(before)[x] == name@;
                    assert(before[x].name@ == name@);
                }
            }
            proof {
                assert(names_unique(agents@)) by {
                    assert forall|x: int, y: int| 0 <= x < y < agents@.len() implies agents@[x].name@
                        != agents@[y].name@ by {
                        if y == agents@.len() - 1 {
                            assert(agents@[x] == before[x]);
                        } else {
                            assert(agents@[x] == before[x]);
                            assert(agents@[y] == before[y]);
                        }
                    }
                }
            }
        },
    }
}

/// The latest tick recorded for `name` among `(name, tick)` records.
pub open spec fn last_record(records: Seq<(String, u64)>, name: Seq<char>) -> Option<u64>
    decreases records.len(),
{
    if records.len() == 0 {
        None
    } else if records.last().0@ == name {
        Some(records.last().1)
    } else {
        last_record(records.drop_last(), name)
    }
}

fn latest_record(records: &Vec<(String, u64)>, name: &String) -> (r: Option<u64>)
    ensures
        r == last_record(records@, name@),
{
    let mut j: usize = records.len();
    assert(records@.take(j as int) =~= records@);
    while j > 0
        invariant
            j <= records@.len(),
            last_record(records@, name@) == last_record(records@.take(j as int), name@),
        decreases j,
    {
        let ghost t = records@.take(j as int);
        assert(t.drop_last() =~= records@.take(j - 1));
        assert(t.last() == records@[j - 1]);
        if records[j - 1].0 == *name {
            return Some(records[j - 1].1);
        }
        j -= 1;
    }
    None
}

proof fn lemma_contains_next(s: Seq<Seq<char>>, j: int, n: Seq<char>)
    requires
        0 <= j < s.len(),
    ensures
        s.take(j + 1).contains(n) == (s.take(j).contains(n) || s[j] == n),
{
    let a = s.take(j);
    let b = s.take(j + 1);
    if a.contains(n) {
        let k = choose|k: int| 0 <= k < a.len() && a[k] == n;
        assert(b[k] == n);
    }
    if s[j] == n {
        assert(b[j] == n);
    }
    if b.contains(n) {
        let k = choose|k: int| 0 <= k < b.len() && b[k] == n;
        if k < j {
            assert(a[k] == n);
        }
    }
}

/// Record a (re)spawn of every fighter in `players` at `tick`.
fn record_round_start(records: &mut Vec<(String, u64)>, players: &Vec<String>, tick: u64)
    ensures
        forall|n: Seq<char>| #[trigger] last_record(final(records)@, n) == if strings_view(players@).contains(n) {
            Some(tick)
        } else {
            last_record(old(records)@, n)
        },
{
    let ghost pv = strings_view(players@);
    let mut j: usize = 0;
    while j < players.len()
        invariant
            j <= players@.len(),
            pv == strings_view(players@),
            forall|n: Seq<char>| #[trigger] last_record(records@, n) == if pv.take(j as int).contains(n) {
                Some(tick)
            } else {
                last_record(old(records)@, n)
            },
        decreases players@.len() - j,
    {
        let ghost before = records@;
        records.push((players[j].clone(), tick));
        proof {
            assert(records@.drop_last() =~= before);
            assert forall|n: Seq<char>| #[trigger] last_record(records@, n) == if pv.take(j + 1).contains(n) {
                Some(tick)
            } else {
                last_record(old(records)@, n)
            } by {
                lemma_contains_next(pv, j as int, n);
                assert(pv[j as int] == players@[j as int]@);
                assert(records@.last().0@ == players@[j as int]@);
                assert(records@.last().1 == tick);
                assert(last_record(before, n) == if pv.take(j as int).contains(n) {
                    Some(tick)
                } else {
                    last_record(old(records)@, n)
                });
            }
        }
        j += 1;
    }
    assert(pv.take(j as int) =~= pv);
}

/// Count what the report needs from a run's events: the frag ticks, the
/// host beats, pickups, spawn deaths and completed rounds, and every
/// fighter's frags, deaths and spawn deaths.
pub fn tally_events(events: &Vec<TimedReportEvent>) -> (r: EventTally)
    ensures
        r.frag_ticks@ == frag_ticks_of(events@),
        r.host_beats == tally(events@, Tally::HostBeats),
        r.pickups == tally(events@, Tally::Pickups),
        r.spawn_deaths == tally(events@, Tally::SpawnDeaths),
        r.rounds_completed == tally(events@, Tally::RoundEnds),
        agents_match(r.agents@, events@),
        agent_names(r.agents@) == first_seen(events@),
        agent_totals(r.agents@) == (r.frag_ticks@.len(), r.frag_ticks@.len(), r.spawn_deaths as nat),
{
    let mut frag_ticks: Vec<u64> = Vec::new();
    let mut host_beats: u64 = 0;
    let mut pickups: u64 = 0;
    let mut spawn_deaths: u64 = 0;
    let mut rounds: u64 = 0;
    let mut records: Vec<(String, u64)> = Vec::new();
    let mut agents: Vec<AgentTally> = Vec::new();
    let mut i: usize = 0;
    assert(events@.take(0) =~= Seq::<TimedReportEvent>::empty());
    while i < events.len()
        invariant
            i <= events@.len(),
            frag_ticks@ == frag_ticks_of(events@.take(i as int)),
            host_beats == tally(events@.take(i as int), Tally::HostBeats),
            pickups == tally(events@.take(i as int), Tally::Pickups),
            spawn_deaths == tally(events@.take(i as int), Tally::SpawnDeaths),
            rounds == tally(events@.take(i as int), Tally::RoundEnds),
            forall|n: Seq<char>| #[trigger] last_record(records@, n) == last_spawn(events@.take(i as int), n),
            agents_match(agents@, events@.take(i as int)),
            agent_names(agents@) == first_seen(events@.take(i as int)),
            agent_totals(agents@) == (frag_ticks@.len(), frag_ticks@.len(), spawn_deaths as nat),
        decreases events@.len() - i,
    {
        let ghost before = events@.take(i as int);
        let ghost after = events@.take(i + 1);
        let e = &events[i];
        let ghost rec0 = records@;
        proof {
            assert(after.drop_last() =~= before);
            assert(after.last() == events@[i as int]);
            lemma_tally_bounded(before, Tally::HostBeats);
            lemma_tally_bounded(before, Tally::Pickups);
            lemma_tally_bounded(before, Tally::SpawnDeaths);
            lemma_tally_bounded(before, Tally::RoundEnds);
        }
        match &e.event {
            ReportEvent::RoundStart { players } => {
                host_beats = host_beats + 1;
                record_round_start(&mut records, players, e.tick);
            },
            ReportEvent::Respawn { player } => {
                let ghost old_records = records@;
                records.push((player.clone(), e.tick));
                assert(records@.drop_last() =~= old_records);
            },
            ReportEvent::Frag { killer, victim } => {
                frag_ticks.push(e.tick);
                let spawned = latest_record(&records, victim);
                let sd = match spawned {
                    Some(s) => is_spawn_death(e.tick, s),
                    None => false,
                };
                if sd {
                    spawn_deaths = spawn_deaths + 1;
                }
                proof {
                    lemma_tally_bounded(before, Tally::FragsBy(killer@));
                    lemma_tally_bounded(before, Tally::DeathsOf(victim@));
                    lemma_tally_bounded(before, Tally::SpawnDeathsOf(victim@));
                    lemma_tally_bounded(before, Tally::FragsBy(victim@));
                    lemma_tally_bounded(before, Tally::DeathsOf(killer@));
                    lemma_tally_bounded(before, Tally::SpawnDeathsOf(killer@));
                    assert(agent_counts(agents@, killer@) == event_counts(before, killer@));
                    assert(agent_counts(agents@, victim@) == event_counts(before, victim@));
                }
                let ghost a0 = agents@;
                credit(&mut agents, killer, true, false, false);
                let ghost a1 = agents@;
                proof {
                    assert(i < events@.len());
                    assert(tally(before, Tally::FragsBy(killer@)) <= i);
                    assert(tally(before, Tally::DeathsOf(victim@)) <= i);
                    assert(tally(before, Tally::SpawnDeathsOf(victim@)) <= i);
                    if victim@ != killer@ {
                        assert(find_agent(a1, victim@) == find_agent(a0, victim@));
                    }
                }
                credit(&mut agents, victim, false, true, sd);
                proof {
                    assert forall|n: Seq<char>| #[trigger] agent_counts(agents@, n) == event_counts(after, n) by {
                        if n != killer@ && n != victim@ {
                            assert(find_agent(agents@, n) == find_agent(a1, n));
                            assert(find_agent(a1, n) == find_agent(a0, n));
                            assert(agent_counts(a0, n) == event_counts(before, n));
                        } else if n == victim@ {
                            if victim@ != killer@ {
                                assert(find_agent(a1, victim@) == find_agent(a0, victim@));
                            }
                        } else {
                            assert(find_agent(agents@, n) == find_agent(a1, n));
                        }
                    }
                    assert forall|n: Seq<char>|
                        (#[trigger] find_agent(agents@, n)) is Some <==> (tally(after, Tally::FragsBy(n)) > 0
                            || tally(after, Tally::DeathsOf(n)) > 0) by {
                        if n != killer@ && n != victim@ {
                            assert(find_agent(agents@, n) == find_agent(a1, n));
                            assert(find_agent(a1, n) == find_agent(a0, n));
                        } else if n == killer@ && n != victim@ {
                            assert(find_agent(agents@, n) == find_agent(a1, n));
                        }
                    }
                }
            },
            ReportEvent::RoundEnd => {
                host_beats = host_beats + 1;
                rounds = rounds + 1;
            },
            ReportEvent::HostBeat => {
                host_beats = host_beats + 1;
            },
            ReportEvent::Pickup => {
                pickups = pickups + 1;
            },
            ReportEvent::Quiet => {},
        }
        proof {
            assert forall|n: Seq<char>| #[trigger] last_record(records@, n) == last_spawn(after, n) by {
                assert(last_record(rec0, n) == last_spawn(before, n));
                assert(last_spawn(after, n) == if spawns(e.event, n) {
                    Some(e.tick)
                } else {
                    last_spawn(before, n)
                });
                match &e.event {
                    ReportEvent::RoundStart { players } => {},
                    ReportEvent::Respawn { player } => {
                        assert(records@.drop_last() =~= rec0);
                        assert(records@.last().0@ == player@);
                    },
                    _ => {
                        assert(records@ == rec0);
                    },
                }
            }
            if !(e.event is Frag) {
                assert forall|n: Seq<char>| #[trigger] agent_counts(agents@, n) == event_counts(after, n) by {
                    assert(agent_counts(agents@, n) == event_counts(before, n));
                }
                assert forall|n: Seq<char>|
                    (#[trigger] find_agent(agents@, n)) is Some <==> (tally(after, Tally::FragsBy(n)) > 0
                        || tally(after, Tally::DeathsOf(n)) > 0) by {
                    assert(agent_counts(agents@, n) == event_counts(before, n));
                }
            }
        }
        i += 1;
    }
    assert(events@.take(i as int) =~= events@);
    EventTally {
        frag_ticks,
        host_beats,
        pickups,
        spawn_deaths,
        rounds_completed: rounds,
        agents,
    }
}

/// Every spawn death is a death: no fighter has more spawn deaths than
/// deaths.
pub proof fn lemma_spawn_deaths_are_deaths(evs: Seq<TimedReportEvent>, n: Seq<char>)
    ensures
        tally(evs, Tally::SpawnDeathsOf(n)) <= tally(evs, Tally::DeathsOf(n)),
        tally(evs, Tally::SpawnDeathsOf(n)) <= tally(evs, Tally::SpawnDeaths),
    decreases evs.len(),
{
    if evs.len() > 0 {
        lemma_spawn_deaths_are_deaths(evs.drop_last(), n);
    }
}

/// One frag tick per frag, and each frag is some fighter's frag.
pub proof fn lemma_frag_ticks_count_frags(evs: Seq<TimedReportEvent>)
    ensures
        frag_ticks_of(evs).len() >= tally(evs, Tally::SpawnDeaths),
        forall|n: Seq<char>| #[trigger] tally(evs, Tally::FragsBy(n)) <= frag_ticks_of(evs).len(),
        forall|n: Seq<char>| #[trigger] tally(evs, Tally::DeathsOf(n)) <= frag_ticks_of(evs).len(),
    decreases evs.len(),
{
    if evs.len() > 0 {
        lemma_frag_ticks_count_frags(evs.drop_last());
        assert forall|n: Seq<char>| #[trigger] tally(evs, Tally::FragsBy(n)) <= frag_ticks_of(evs).len() by {
            assert(tally(evs.drop_last(), Tally::FragsBy(n)) <= frag_ticks_of(evs.drop_last()).len());
        }
        assert forall|n: Seq<char>| #[trigger] tally(evs, Tally::DeathsOf(n)) <= frag_ticks_of(evs).len() by {
            assert(tally(evs.drop_last(), Tally::DeathsOf(n)) <= frag_ticks_of(evs.drop_last()).len());
        }
    }
}

/// The part a fighter plays in a frag that a per-fighter count credits.
enum Role {
    Killer,
    Victim,
    SpawnVictim,
}

spec fn role_tally(r: Role, n: Seq<char>) -> Tally {
    match r {
        Role::Killer => Tally::FragsBy(n),
        Role::Victim => Tally::DeathsOf(n),
        Role::SpawnVictim => Tally::SpawnDeathsOf(n),
    }
}

/// Whether `e`, arriving after `before`, credits some fighter in role `r`.
spec fn role_hit(before: Seq<TimedReportEvent>, e: TimedReportEvent, r: Role) -> bool {
    e.event is Frag && (r is SpawnVictim ==> spawn_death(before, e))
}

/// The fighter that a frag credits in role `r`.
spec fn who(e: TimedReportEvent, r: Role) -> Seq<char> {
    match e.event {
        ReportEvent::Frag { killer, victim } => if r is Killer {
            killer@
        } else {
            victim@
        },
        _ => Seq::<char>::empty(),
    }
}

/// How many events of `evs` credit some fighter in role `r`.
spec fn role_count(evs: Seq<TimedReportEvent>, r: Role) -> nat
    decreases evs.len(),
{
    if evs.len() == 0 {
        0
    } else {
        role_count(evs.drop_last(), r) + if role_hit(evs.drop_last(), evs.last(), r) {
            1nat
        } else {
            0nat
        }
    }
}

/// The role-`r` counts `evs` give the fighters named in `agents`, added up.
spec fn role_sum(agents: Seq<AgentTally>, evs: Seq<TimedReportEvent>, r: Role) -> nat
    decreases agents.len(),
{
    if agents.len() == 0 {
        0
    } else {
        role_sum(agents.drop_last(), evs, r) + tally(evs, role_tally(r, agents.last().name@))
    }
}

/// How many of the fighters named in `agents` the event `e` credits in role `r`.
spec fn role_hits(agents: Seq<AgentTally>, before: Seq<TimedReportEvent>, e: TimedReportEvent, r: Role) -> nat
    decreases agents.len(),
{
    if agents.len() == 0 {
        0
    } else {
        role_hits(agents.drop_last(), before, e, r) + if tallied(
            before,
            e,
            role_tally(r, agents.last().name@),
        ) {
            1nat
        } else {
            0nat
        }
    }
}

proof fn lemma_find_agent_index(agents: Seq<AgentTally>, n: Seq<char>)
    requires
        find_agent(agents, n) is Some,
    ensures
        exists|k: int| 0 <= k < agents.len() && #[trigger] agents[k].name@ == n,
    decreases agents.len(),
{
    let last = agents.len() - 1;
    if agents[last].name@ == n {
    } else {
        let d = agents.drop_last();
        lemma_find_agent_index(d, n);
        let k = choose|k: int| 0 <= k < d.len() && #[trigger] d[k].name@ == n;
        assert(agents[k] == d[k]);
    }
}

proof fn lemma_role_hits_once(agents: Seq<AgentTally>, before: Seq<TimedReportEvent>, e: TimedReportEvent, r: Role)
    requires
        names_unique(agents),
    ensures
        role_hits(agents, before, e, r) == if role_hit(before, e, r) && find_agent(agents, who(e, r)) is Some {
            1nat
        } else {
            0nat
        },
    decreases agents.len(),
{
    if agents.len() > 0 {
        let d = agents.drop_last();
        assert(names_unique(d)) by {
            assert forall|k: int, l: int| 0 <= k < l < d.len() implies d[k].name@ != d[l].name@ by {
                assert(d[k] == agents[k] && d[l] == agents[l]);
            }
        }
        lemma_role_hits_once(d, before, e, r);
        if agents.last().name@ == who(e, r) && find_agent(d, who(e, r)) is Some {
            lemma_find_agent_index(d, who(e, r));
            let k = choose|k: int| 0 <= k < d.len() && #[trigger] d[k].name@ == who(e, r);
            assert(agents[k] == d[k]);
            assert(agents[k].name@ == agents[agents.len() - 1].name@);
        }
    }
}

proof fn lemma_role_sum_step(agents: Seq<AgentTally>, evs: Seq<TimedReportEvent>, r: Role)
    requires
        evs.len() > 0,
    ensures
        role_sum(agents, evs, r) == role_sum(agents, evs.drop_last(), r) + role_hits(
            agents,
            evs.drop_last(),
            evs.last(),
            r,
        ),
    decreases agents.len(),
{
    if agents.len() > 0 {
        lemma_role_sum_step(agents.drop_last(), evs, r);
    }
}

proof fn lemma_role_sum_empty(agents: Seq<AgentTally>, evs: Seq<TimedReportEvent>, r: Role)
    requires
        evs.len() == 0,
    ensures
        role_sum(agents, evs, r) == 0,
    decreases agents.len(),
{
    if agents.len() > 0 {
        lemma_role_sum_empty(agents.drop_last(), evs, r);
    }
}

/// Over distinct fighters that include everyone credited in role `r`, the
/// per-fighter counts add up to the events that credit someone in role `r`.
proof fn lemma_role_sum(agents: Seq<AgentTally>, evs: Seq<TimedReportEvent>, r: Role)
    requires
        names_unique(agents),
        forall|n: Seq<char>| #[trigger] tally(evs, role_tally(r, n)) > 0 ==> find_agent(agents, n) is Some,
    ensures
        role_sum(agents, evs, r) == role_count(evs, r),
    decreases evs.len(),
{
    if evs.len() == 0 {
        lemma_role_sum_empty(agents, evs, r);
    } else {
        let d = evs.drop_last();
        let e = evs.last();
        assert forall|n: Seq<char>| #[trigger] tally(d, role_tally(r, n)) > 0 implies find_agent(
            agents,
            n,
        ) is Some by {
            assert(tally(evs, role_tally(r, n)) >= tally(d, role_tally(r, n)));
        }
        lemma_role_sum(agents, d, r);
        lemma_role_sum_step(agents, evs, r);
        lemma_role_hits_once(agents, d, e, r);
        if role_hit(d, e, r) {
            assert(tallied(d, e, role_tally(r, who(e, r))));
            assert(tally(evs, role_tally(r, who(e, r))) > 0);
        }
    }
}

proof fn lemma_role_sum_is_totals(agents: Seq<AgentTally>, evs: Seq<TimedReportEvent>)
    requires
        forall|k: int|
            0 <= k < agents.len() ==> {
                &&& #[trigger] agents[k].frags == tally(evs, Tally::FragsBy(agents[k].name@))
                &&& agents[k].deaths == tally(evs, Tally::DeathsOf(agents[k].name@))
                &&& agents[k].spawn_deaths == tally(evs, Tally::SpawnDeathsOf(agents[k].name@))
            },
    ensures
        agent_totals(agents) == (
            role_sum(agents, evs, Role::Killer),
            role_sum(agents, evs, Role::Victim),
            role_sum(agents, evs, Role::SpawnVictim),
        ),
    decreases agents.len(),
{
    if agents.len() > 0 {
        let d = agents.drop_last();
        assert forall|k: int| 0 <= k < d.len() implies {
            &&& #[trigger] d[k].frags == tally(evs, Tally::FragsBy(d[k].name@))
            &&& d[k].deaths == tally(evs, Tally::DeathsOf(d[k].name@))
            &&& d[k].spawn_deaths == tally(evs, Tally::SpawnDeathsOf(d[k].name@))
        } by {
            assert(d[k] == agents[k]);
        }
        lemma_role_sum_is_totals(d, evs);
        assert(agents[agents.len() - 1] == agents.last());
    }
}

proof fn lemma_role_counts(evs: Seq<TimedReportEvent>)
    ensures
        role_count(evs, Role::Killer) == frag_ticks_of(evs).len(),
        role_count(evs, Role::Victim) == frag_ticks_of(evs).len(),
        role_count(evs, Role::SpawnVictim) == tally(evs, Tally::SpawnDeaths),
    decreases evs.len(),
{
    if evs.len() > 0 {
        lemma_role_counts(evs.drop_last());
    }
}

/// The per-fighter counts add up to the run's totals: the fighters' frags
/// and their deaths each add up to the number of frags, and their spawn
/// deaths to the number of spawn deaths. This holds of any list of fighters
/// that matches the events, such as the one `tally_events` returns.
pub proof fn lemma_fighter_totals(agents: Seq<AgentTally>, evs: Seq<TimedReportEvent>)
    requires
        agents_match(agents, evs),
    ensures
        agent_totals(agents) == (
            frag_ticks_of(evs).len(),
            frag_ticks_of(evs).len(),
            tally(evs, Tally::SpawnDeaths),
        ),
{
    assert forall|k: int| 0 <= k < agents.len() implies {
        &&& #[trigger] agents[k].frags == tally(evs, Tally::FragsBy(agents[k].name@))
        &&& agents[k].deaths == tally(evs, Tally::DeathsOf(agents[k].name@))
        &&& agents[k].spawn_deaths == tally(evs, Tally::SpawnDeathsOf(agents[k].name@))
    } by {
        lemma_find_agent_at(agents, k);
        assert(agent_counts(agents, agents[k].name@) == event_counts(evs, agents[k].name@));
    }
    lemma_role_sum_is_totals(agents, evs);
    assert forall|n: Seq<char>| #[trigger] tally(evs, role_tally(Role::Killer, n)) > 0 implies find_agent(
        agents,
        n,
    ) is Some by {}
    assert forall|n: Seq<char>| #[trigger] tally(evs, role_tally(Role::Victim, n)) > 0 implies find_agent(
        agents,
        n,
    ) is Some by {}
    assert forall|n: Seq<char>| #[trigger] tally(evs, role_tally(Role::SpawnVictim, n)) > 0 implies find_agent(
        agents,
        n,
    ) is Some by {
        lemma_spawn_deaths_are_deaths(evs, n);
    }
    lemma_role_sum(agents, evs, Role::Killer);
    lemma_role_sum(agents, evs, Role::Victim);
    lemma_role_sum(agents, evs, Role::SpawnVictim);
    lemma_role_counts(evs);
}

/// One fighter's presence counters, kept per snapshot in which it appears.
#[derive(Debug, Clone, Copy, Default, PartialEq, Eq)]
pub struct TrackCounts {
    /// Snapshots the fighter appeared in.
    pub ticks_present: u64,
    /// Sightings in an active round without movement.
    pub idle_ticks: u64,
    /// Longest run of active-round sightings with no movement and no fire.
    pub stuck_max_ticks: u64,
    /// The current such run.
    pub stuck_run: u64,
    /// Sightings with a shot fired.
    pub fire_ticks: u64,
}

/// The counters never exceed the sightings, and the current stuck run never
/// exceeds the longest.
pub open spec fn track_wf(c: TrackCounts) -> bool {
    &&& c.idle_ticks <= c.ticks_present
    &&& c.stuck_run <= c.stuck_max_ticks <= c.ticks_present
    &&& c.fire_ticks <= c.ticks_present
}

/// The counters after one more sighting. `had_position` says whether the
/// fighter was seen before, `moved` whether it moved at least the idle
/// threshold since, `active` whether a round is on, `fired` whether it shot.
/// Moving, fighting or being between rounds ends a stuck run; only a fighter
/// seen before can be idle or stuck.
pub open spec fn sighted(c: TrackCounts, had_position: bool, active: bool, moved: bool, fired: bool) -> TrackCounts {
    let run: u64 = if !had_position {
        c.stuck_run
    } else if !active || moved || fired {
        0
    } else {
        (c.stuck_run + 1) as u64
    };
    TrackCounts {
        ticks_present: (c.ticks_present + 1) as u64,
        idle_ticks: if had_position && active && !moved {
            (c.idle_ticks + 1) as u64
        } else {
            c.idle_ticks
        },
        stuck_max_ticks: if had_position && active && !moved && !fired && run > c.stuck_max_ticks {
            run
        } else {
            c.stuck_max_ticks
        },
        stuck_run: run,
        fire_ticks: if fired {
            (c.fire_ticks + 1) as u64
        } else {
            c.fire_ticks
        },
    }
}

impl TrackCounts {
    /// Count one sighting; see `sighted`.
    pub fn sight(&mut self, had_position: bool, active: bool, moved: bool, fired: bool)
        requires
            old(self).ticks_present < u64::MAX,
            had_position && active && !moved ==> old(self).idle_ticks < u64::MAX,
            had_position && active && !moved && !fired ==> old(self).stuck_run < u64::MAX,
            fired ==> old(self).fire_ticks < u64::MAX,
        ensures
            *final(self) == sighted(*old(self), had_position, active, moved, fired),
    {
        if had_position {
            if !active || moved || fired {
                self.stuck_run = 0;
            } else {
                self.stuck_run = self.stuck_run + 1;
                if self.stuck_run > self.stuck_max_ticks {
                    self.stuck_max_ticks = self.stuck_run;
                }
            }
            if active && !moved {
                self.idle_ticks = self.idle_ticks + 1;
            }
        }
        self.ticks_present = self.ticks_present + 1;
        if fired {
            self.fire_ticks = self.fire_ticks + 1;
        }
    }
}

/// Every sighting keeps the counters consistent: they never pass the number
/// of sightings, and the longest stuck run is at least the current one.
pub proof fn lemma_sighting_keeps_counts(c: TrackCounts, had_position: bool, active: bool, moved: bool, fired: bool)
    requires
        track_wf(c),
        c.ticks_present < u64::MAX,
    ensures
        track_wf(sighted(c, had_position, active, moved, fired)),
        sighted(c, had_position, active, moved, fired).ticks_present == c.ticks_present + 1,
{
}

/// The engagement records after a hit on `target` at `tick`: a new record
/// only when no engagement of `target` is running.
pub open spec fn after_hit(records: Seq<(String, u64)>, target: String, tick: u64) -> Seq<(String, u64)> {
    if last_record(records, target@) is None {
        records.push((target, tick))
    } else {
        records
    }
}

/// `records` without any record of `name`, the others in order.
pub open spec fn without(records: Seq<(String, u64)>, name: Seq<char>) -> Seq<(String, u64)>
    decreases records.len(),
{
    if records.len() == 0 {
        records
    } else if records.last().0@ == name {
        without(records.drop_last(), name)
    } else {
        without(records.drop_last(), name).push(records.last())
    }
}

/// Dropping the records of `name` forgets `name` and keeps every other
/// fighter's latest record.
pub proof fn lemma_without_lookup(records: Seq<(String, u64)>, name: Seq<char>, other: Seq<char>)
    ensures
        last_record(without(records, name), other) == if other == name {
            None
        } else {
            last_record(records, other)
        },
    decreases records.len(),
{
    if records.len() > 0 {
        lemma_without_lookup(records.drop_last(), name, other);
        let w = without(records.drop_last(), name);
        if records.last().0@ != name {
            assert(w.push(records.last()).drop_last() =~= w);
        }
    }
}

/// Note a hit on `target` at `tick`: its engagement starts now unless one
/// is already running, so a death is timed from the first damage that led
/// to it.
pub fn engagement_hit(records: &mut Vec<(String, u64)>, target: &String, tick: u64)
    ensures
        final(records)@ == after_hit(old(records)@, *target, tick),
{
    if latest_record(records, target).is_none() {
        records.push((target.clone(), tick));
    }
}

/// Forget any engagement of `name`: it respawned, or it died.
pub fn engagement_clear(records: &mut Vec<(String, u64)>, name: &String)
    ensures
        final(records)@ == without(old(records)@, name@),
{
    let mut kept: Vec<(String, u64)> = Vec::new();
    let mut i: usize = 0;
    assert(records@.take(0) =~= Seq::<(String, u64)>::empty());
    while i < records.len()
        invariant
            i <= records@.len(),
            kept@ == without(records@.take(i as int), name@),
        decreases records@.len() - i,
    {
        let ghost t = records@.take(i + 1);
        assert(t.drop_last() =~= records@.take(i as int));
        assert(t.last() == records@[i as int]);
        if records[i].0 != *name {
            let entry = (records[i].0.clone(), records[i].1);
            kept.push(entry);
        }
        i += 1;
    }
    assert(records@.take(i as int) =~= records@);
    *records = kept;
}

/// A frag of `victim` at `tick`: the ticks since its engagement started,
/// when one was running (a death with no opening hit is left untimed); the
/// engagement is over either way.
pub fn engagement_end(records: &mut Vec<(String, u64)>, victim: &String, tick: u64) -> (ticks: Option<u64>)
    ensures
        ticks == match last_record(old(records)@, victim@) {
            Some(start) => Some(sat_sub(tick, start) as u64),
            None => None,
        },
        final(records)@ == without(old(records)@, victim@),
{
    let ticks = match latest_record(records, victim) {
        Some(start) => Some(tick.saturating_sub(start)),
        None => None,
    };
    engagement_clear(records, victim);
    ticks
}

/// The clock on a death starts at the first damage that led to it: a later
/// hit does not restart a running engagement, a death ends it, and the next
/// hit after that starts a new one.
pub proof fn lemma_first_hit_starts_the_clock(
    records: Seq<(String, u64)>,
    target: String,
    first: u64,
    later: u64,
    death: u64,
    next: u64,
)
    requires
        last_record(records, target@) is None,
    ensures
        last_record(after_hit(after_hit(records, target, first), target, later), target@) == Some(first),
        last_record(
            without(after_hit(after_hit(records, target, first), target, later), target@),
            target@,
        ) is None,
        last_record(
            after_hit(without(after_hit(after_hit(records, target, first), target, later), target@), target, next),
            target@,
        ) == Some(next),
{
    let once = after_hit(records, target, first);
    assert(once.drop_last() =~= records);
    let twice = after_hit(once, target, later);
    lemma_without_lookup(twice, target@, target@);
    let cleared = without(twice, target@);
    assert(after_hit(cleared, target, next).drop_last() =~= cleared);
}

} // verus!
