//! The arena server's match rules that do not depend on where anyone stands:
//! the round clock (warmup, active round, end delay) and the rule-bot roster.
use crate::protocol::{cooldown_of, Role, WeaponType};
use crate::text::{decimal, decimal_chars, extend_chars, extend_str, owned, string_of};
use vstd::prelude::*;

verus! {

/// Server ticks per second.
pub const TICKS_PER_SECOND: u32 = 20;

#[derive(Debug, Clone, Copy, PartialEq, Eq, Structural)]
pub enum RoundState {
    Warmup,
    Active,
    Ended,
}

/// Match rules: how a round ends and how long the pauses around it last.
#[derive(Debug, Clone, Copy, PartialEq, Eq)]
pub struct MatchConfig {
    pub frag_limit: Option<u32>,
    pub time_limit_ticks: Option<u32>,
    pub warmup_ticks: u32,
    pub end_delay_ticks: u32,
}

impl Default for MatchConfig {
    /// Ten frags or three minutes, a three second warmup and a five second
    /// pause between rounds.
    fn default() -> (c: Self)
        ensures
            c == (MatchConfig {
                frag_limit: Some(10),
                time_limit_ticks: Some(3600),
                warmup_ticks: 60,
                end_delay_ticks: 100,
            }),
    {
        MatchConfig {
            frag_limit: Some(10),
            time_limit_ticks: Some(20 * 60 * 3),
            warmup_ticks: 20 * 3,
            end_delay_ticks: 20 * 5,
        }
    }
}

/// Where the match is: the phase, the ticks spent in it, and how many rounds
/// have started.
#[derive(Debug, Clone, Copy, PartialEq, Eq)]
pub struct RoundClock {
    pub state: RoundState,
    pub ticks: u32,
    pub number: u32,
}

/// What one tick of the clock did.
#[derive(Debug, Clone, Copy, PartialEq, Eq)]
pub enum RoundStep {
    /// Still in the warmup or the pause after a round; nothing is simulated.
    Wait,
    /// A new round started this tick; nothing else is simulated.
    Started,
    /// The round ran out of time.
    EndedByTime,
    /// Someone reached the frag limit.
    EndedByFrags,
    /// The round goes on: movement and combat are simulated this tick.
    Play,
}

/// The clock when a round starts: active, from zero, one more round.
pub open spec fn started(c: RoundClock) -> RoundClock {
    RoundClock { state: RoundState::Active, ticks: 0, number: (c.number + 1) as u32 }
}

/// The clock when a round ends: the pause starts from zero.
pub open spec fn ended(c: RoundClock) -> RoundClock {
    RoundClock { state: RoundState::Ended, ticks: 0, ..c }
}

/// One tick: the phase's tick count goes up; the warmup and the pause end
/// when they have lasted their ticks; an active round ends when its time
/// limit is reached, else when the best score (`max_score`, none without
/// players) reaches the frag limit.
pub open spec fn advance_spec(c: RoundClock, config: MatchConfig, max_score: Option<u32>) -> (RoundClock, RoundStep) {
    let t = (c.ticks + 1) as u32;
    match c.state {
        RoundState::Warmup => if t >= config.warmup_ticks {
            (started(c), RoundStep::Started)
        } else {
            (RoundClock { ticks: t, ..c }, RoundStep::Wait)
        },
        RoundState::Active => if config.time_limit_ticks is Some && t >= config.time_limit_ticks->0 {
            (ended(c), RoundStep::EndedByTime)
        } else if config.frag_limit is Some && max_score is Some && max_score->0
            >= config.frag_limit->0 {
            (ended(c), RoundStep::EndedByFrags)
        } else {
            (RoundClock { ticks: t, ..c }, RoundStep::Play)
        },
        RoundState::Ended => if t >= config.end_delay_ticks {
            (started(c), RoundStep::Started)
        } else {
            (RoundClock { ticks: t, ..c }, RoundStep::Wait)
        },
    }
}

impl RoundClock {
    /// A new match waits in warmup before its first round.
    pub fn new() -> (c: RoundClock)
        ensures
            c == (RoundClock { state: RoundState::Warmup, ticks: 0, number: 0 }),
    {
        RoundClock { state: RoundState::Warmup, ticks: 0, number: 0 }
    }

    /// Start the next round now.
    pub fn start_round(&mut self)
        requires
            old(self).number < u32::MAX,
        ensures
            *final(self) == started(*old(self)),
    {
        self.number = self.number + 1;
        self.state = RoundState::Active;
        self.ticks = 0;
    }

    /// End the round now; the pause before the next one starts.
    pub fn end_round(&mut self)
        ensures
            *final(self) == ended(*old(self)),
    {
        self.state = RoundState::Ended;
        self.ticks = 0;
    }

    /// Advance one tick; see `advance_spec`.
    pub fn advance(&mut self, config: &MatchConfig, max_score: Option<u32>) -> (step: RoundStep)
        requires
            old(self).ticks < u32::MAX,
            advance_spec(*old(self), *config, max_score).1 is Started ==> old(self).number < u32::MAX,
        ensures
            (*final(self), step) == advance_spec(*old(self), *config, max_score),
    {
        let t = self.ticks + 1;
        match self.state {
            RoundState::Warmup => {
                if t >= config.warmup_ticks {
                    self.start_round();
                    RoundStep::Started
                } else {
                    self.ticks = t;
                    RoundStep::Wait
                }
            },
            RoundState::Active => {
                if let Some(limit) = config.time_limit_ticks {
                    if t >= limit {
                        self.end_round();
                        return RoundStep::EndedByTime;
                    }
                }
                if let Some(frag_limit) = config.frag_limit {
                    if let Some(best) = max_score {
                        if best >= frag_limit {
                            self.end_round();
                            return RoundStep::EndedByFrags;
                        }
                    }
                }
                self.ticks = t;
                RoundStep::Play
            },
            RoundState::Ended => {
                if t >= config.end_delay_ticks {
                    self.start_round();
                    RoundStep::Started
                } else {
                    self.ticks = t;
                    RoundStep::Wait
                }
            },
        }
    }
}

/// Whole seconds left in an active round with a time limit.
pub fn round_time_left(clock: &RoundClock, config: &MatchConfig) -> (r: Option<u32>)
    ensures
        r == (if clock.state == RoundState::Active && config.time_limit_ticks is Some {
            let limit = config.time_limit_ticks->0;
            Some((if limit >= clock.ticks { limit - clock.ticks } else { 0 }) as u32 / 20)
        } else {
            None
        }),
{
    if clock.state == RoundState::Active {
        match config.time_limit_ticks {
            Some(limit) => Some(limit.saturating_sub(clock.ticks) / TICKS_PER_SECOND),
            None => None,
        }
    } else {
        None
    }
}

/// The clock after `n` ticks in which nobody reaches the frag limit.
pub open spec fn run_ticks(c: RoundClock, config: MatchConfig, n: nat) -> RoundClock
    decreases n,
{
    if n == 0 {
        c
    } else {
        advance_spec(run_ticks(c, config, (n - 1) as nat), config, None).0
    }
}

/// How long the current phase lasts before the clock moves on.
pub open spec fn phase_length(c: RoundClock, config: MatchConfig) -> Option<u32> {
    match c.state {
        RoundState::Warmup => Some(config.warmup_ticks),
        RoundState::Ended => Some(config.end_delay_ticks),
        RoundState::Active => config.time_limit_ticks,
    }
}

/// Within a phase, each tick only counts up.
pub proof fn lemma_phase_counts_up(c: RoundClock, config: MatchConfig, k: nat)
    requires
        phase_length(c, config) is Some ==> c.ticks + k < phase_length(c, config)->0,
        c.ticks + k <= u32::MAX,
    ensures
        run_ticks(c, config, k) == (RoundClock { ticks: (c.ticks + k) as u32, ..c }),
    decreases k,
{
    if k > 0 {
        lemma_phase_counts_up(c, config, (k - 1) as nat);
    }
}

/// A phase that starts at zero and lasts `d >= 1` ticks (the warmup, the
/// pause after a round, or a round with a time limit nobody interrupts)
/// moves on exactly on its `d`-th tick: a warmup or pause starts the next
/// round, a round ends.
pub proof fn lemma_phase_lasts_its_length(c: RoundClock, config: MatchConfig)
    requires
        c.ticks == 0,
        c.number < u32::MAX,
        phase_length(c, config) is Some,
        phase_length(c, config)->0 >= 1,
    ensures
        ({
            let d = phase_length(c, config)->0;
            &&& forall|k: nat| k < d ==> #[trigger] run_ticks(c, config, k) == (RoundClock {
                ticks: k as u32,
                ..c
            })
            &&& run_ticks(c, config, d as nat) == (if c.state == RoundState::Active {
                ended(c)
            } else {
                started(c)
            })
        }),
{
    let d = phase_length(c, config)->0;
    assert forall|k: nat| k < d implies #[trigger] run_ticks(c, config, k) == (RoundClock {
        ticks: k as u32,
        ..c
    }) by {
        lemma_phase_counts_up(c, config, k);
    }
    lemma_phase_counts_up(c, config, (d - 1) as nat);
}

/// How an active round ends: a tick that reaches the time limit ends it by
/// time; otherwise, whatever the time limit, a best score at or above the
/// frag limit ends it by frags; either way the pause starts from zero with
/// the round number kept. Otherwise the round plays on, one tick further.
pub proof fn lemma_round_ends_on_its_limits(c: RoundClock, config: MatchConfig, max_score: Option<u32>)
    requires
        c.state == RoundState::Active,
        c.ticks < u32::MAX,
    ensures
        ({
            let (next, step) = advance_spec(c, config, max_score);
            let out_of_time = match config.time_limit_ticks {
                Some(limit) => c.ticks + 1 >= limit,
                None => false,
            };
            let frag_reached = match (config.frag_limit, max_score) {
                (Some(f), Some(best)) => best >= f,
                _ => false,
            };
            &&& out_of_time ==> step == RoundStep::EndedByTime
            &&& (!out_of_time && frag_reached) ==> step == RoundStep::EndedByFrags
            &&& (out_of_time || frag_reached) ==> next == (RoundClock {
                state: RoundState::Ended,
                ticks: 0,
                number: c.number,
            })
            &&& (!out_of_time && !frag_reached) ==> step == RoundStep::Play && next == (RoundClock {
                state: RoundState::Active,
                ticks: (c.ticks + 1) as u32,
                number: c.number,
            })
        }),
{
}

/// A new match starts its first round after exactly the warmup's ticks.
pub proof fn lemma_first_round_after_warmup(config: MatchConfig)
    requires
        config.warmup_ticks >= 1,
    ensures
        run_ticks(
            RoundClock { state: RoundState::Warmup, ticks: 0, number: 0 },
            config,
            config.warmup_ticks as nat,
        ) == (RoundClock { state: RoundState::Active, ticks: 0, number: 1 }),
{
    lemma_phase_lasts_its_length(RoundClock { state: RoundState::Warmup, ticks: 0, number: 0 }, config);
}

#[derive(Debug, Clone, Copy, PartialEq, Eq)]
pub enum BotBehavior {
    Aggressive,
    Defensive,
    Flanker,
    Balanced,
}

/// The eight rule-bot names, in spawn order.
pub open spec fn bot_names() -> Seq<Seq<char>> {
    seq![
        "Rusher"@,
        "Sniper"@,
        "Flanker"@,
        "Tank"@,
        "Scout"@,
        "Guard"@,
        "Hunter"@,
        "Striker"@,
    ]
}

/// The behavior of each of the eight rule bots, in spawn order.
pub open spec fn bot_behaviors() -> Seq<BotBehavior> {
    seq![
        BotBehavior::Aggressive,
        BotBehavior::Defensive,
        BotBehavior::Flanker,
        BotBehavior::Balanced,
        BotBehavior::Flanker,
        BotBehavior::Defensive,
        BotBehavior::Aggressive,
        BotBehavior::Balanced,
    ]
}

/// The display name of the bot spawned at `index`: the roster name, with
/// the lap number (`-2`, `-3`, ...) once the roster has been used up.
pub open spec fn bot_display_name(index: nat) -> Seq<char> {
    let base = bot_names()[(index % 8) as int];
    if index < 8 {
        base
    } else {
        base + "-"@ + decimal(index / 8 + 1)
    }
}

/// Name and behavior of the rule bot spawned at position `index`.
pub fn bot_identity(index: usize) -> (r: (String, BotBehavior))
    ensures
        r.0@ == bot_display_name(index as nat),
        r.1 == bot_behaviors()[(index % 8) as int],
{
    let names: [&str; 8] = ["Rusher", "Sniper", "Flanker", "Tank", "Scout", "Guard", "Hunter", "Striker"];
    let behaviors: [BotBehavior; 8] = [
        BotBehavior::Aggressive,
        BotBehavior::Defensive,
        BotBehavior::Flanker,
        BotBehavior::Balanced,
        BotBehavior::Flanker,
        BotBehavior::Defensive,
        BotBehavior::Aggressive,
        BotBehavior::Balanced,
    ];
    assert(names@.map_values(|s: &str| s@) =~= bot_names());
    assert(behaviors@ =~= bot_behaviors());
    let slot = index % 8;
    let base = names[slot];
    assert(base@ == bot_names()[slot as int]);
    let mut out: Vec<char> = Vec::new();
    extend_str(&mut out, base);
    if index >= 8 {
        extend_str(&mut out, "-");
        let lap = decimal_chars((index / 8 + 1) as u64);
        extend_chars(&mut out, &lap);
    }
    (string_of(&out), behaviors[slot])
}

/// How many rule bots to spawn so that at least `min_bots` are present; none
/// when the floor is zero or already met.
pub fn bots_to_spawn(min_bots: usize, have: usize) -> (n: usize)
    ensures
        n == (if min_bots == 0 || have >= min_bots { 0 } else { min_bots - have }),
        min_bots > 0 ==> have + n >= min_bots,
{
    if min_bots == 0 || have >= min_bots {
        0
    } else {
        min_bots - have
    }
}

/// The position of the best score, the last one among equal best scores:
/// the entry `max_by_key` picks, which names a round's winner and decides
/// whether the frag limit is reached.
pub fn best_score(scores: &Vec<u32>) -> (r: Option<usize>)
    ensures
        r is None <==> scores@.len() == 0,
        r matches Some(i) ==> i < scores@.len() && (forall|j: int|
            0 <= j < scores@.len() ==> scores@[j] <= scores@[i as int]) && (forall|j: int|
            i < j < scores@.len() ==> scores@[j] < scores@[i as int]),
{
    if scores.len() == 0 {
        return None;
    }
    let mut best: usize = 0;
    let mut j: usize = 1;
    while j < scores.len()
        invariant
            1 <= j <= scores@.len(),
            best < j,
            forall|k: int| 0 <= k < j ==> scores@[k] <= scores@[best as int],
            forall|k: int| best < k < j ==> scores@[k] < scores@[best as int],
        decreases scores@.len() - j,
    {
        if scores[j] >= scores[best] {
            best = j;
        }
        j += 1;
    }
    Some(best)
}

/// Ticks a fragged fighter waits before respawning.
pub const RESPAWN_DELAY_TICKS: u32 = 60;
/// Health of a fresh fighter.
pub const PLAYER_MAX_HP: i32 = 100;

/// A fighter's combat bookkeeping: health, the ticks until the weapon may
/// fire again, the ticks until a dead fighter respawns, whether it fired
/// this tick, and the weapon in hand.
#[derive(Debug, Clone, Copy, PartialEq, Eq)]
pub struct Fighter {
    pub hp: i32,
    pub fire_cooldown: u32,
    /// `Some` while dead.
    pub respawn_timer: Option<u32>,
    pub just_fired: bool,
    pub weapon: WeaponType,
}

/// A fighter as it (re)enters the arena with `weapon`.
pub open spec fn fresh(weapon: WeaponType) -> Fighter {
    Fighter { hp: PLAYER_MAX_HP, fire_cooldown: 0, respawn_timer: None, just_fired: false, weapon }
}

/// The start of a tick: the fired flag clears and the cooldown counts down;
/// a dead fighter's timer counts down too, and reaching zero means it is due
/// to respawn.
pub open spec fn begun(f: Fighter) -> (Fighter, bool) {
    let cooldown: u32 = if f.fire_cooldown > 0 {
        (f.fire_cooldown - 1) as u32
    } else {
        0
    };
    match f.respawn_timer {
        Some(t) => {
            let left: u32 = if t > 0 {
                (t - 1) as u32
            } else {
                0
            };
            (Fighter { fire_cooldown: cooldown, respawn_timer: Some(left), just_fired: false, ..f }, left == 0)
        },
        None => (Fighter { fire_cooldown: cooldown, just_fired: false, ..f }, false),
    }
}

/// Whether a fighter holding the trigger shoots this tick: alive and cooled
/// down.
pub open spec fn may_fire(f: Fighter, trigger: bool) -> bool {
    trigger && f.respawn_timer is None && f.fire_cooldown == 0
}

/// After a hit for `damage`: health drops, and at zero or below the fighter
/// is dead for the respawn delay.
pub open spec fn hit(f: Fighter, damage: i32) -> Fighter {
    let hp = (f.hp - damage) as i32;
    if hp <= 0 {
        Fighter { hp, respawn_timer: Some(RESPAWN_DELAY_TICKS), ..f }
    } else {
        Fighter { hp, ..f }
    }
}

impl Fighter {
    /// A fresh fighter with the default weapon.
    pub fn spawned() -> (f: Fighter)
        ensures
            f == fresh(WeaponType::Flechette),
    {
        Fighter {
            hp: PLAYER_MAX_HP,
            fire_cooldown: 0,
            respawn_timer: None,
            just_fired: false,
            weapon: WeaponType::Flechette,
        }
    }

    /// Whether the fighter is dead and waiting to respawn.
    pub fn is_dead(&self) -> (b: bool)
        ensures
            b == (self.respawn_timer is Some),
    {
        self.respawn_timer.is_some()
    }

    /// Start a tick; see `begun`. The result says whether the fighter is due
    /// to respawn now.
    pub fn begin_tick(&mut self) -> (due: bool)
        ensures
            (*final(self), due) == begun(*old(self)),
    {
        self.just_fired = false;
        if self.fire_cooldown > 0 {
            self.fire_cooldown = self.fire_cooldown - 1;
        }
        match self.respawn_timer {
            Some(t) => {
                let left = t.saturating_sub(1);
                self.respawn_timer = Some(left);
                left == 0
            },
            None => false,
        }
    }

    /// Take the weapon the action asks for, if any.
    pub fn swap_weapon(&mut self, wanted: Option<WeaponType>)
        ensures
            *final(self) == (match wanted {
                Some(w) => Fighter { weapon: w, ..*old(self) },
                None => *old(self),
            }),
    {
        if let Some(w) = wanted {
            self.weapon = w;
        }
    }

    /// Whether the fighter shoots this tick; see `may_fire`.
    pub fn ready_to_fire(&self, trigger: bool) -> (b: bool)
        ensures
            b == may_fire(*self, trigger),
    {
        trigger && self.respawn_timer.is_none() && self.fire_cooldown == 0
    }

    /// The fighter shoots: the weapon's cooldown starts.
    pub fn fire(&mut self)
        ensures
            *final(self) == (Fighter {
                fire_cooldown: cooldown_of(old(self).weapon),
                just_fired: true,
                ..*old(self)
            }),
    {
        self.fire_cooldown = self.weapon.cooldown_ticks();
        self.just_fired = true;
    }

    /// Take a hit; see `hit`. The result says whether it was lethal.
    pub fn take_hit(&mut self, damage: i32) -> (killed: bool)
        requires
            old(self).hp - damage >= i32::MIN,
            old(self).hp - damage <= i32::MAX,
        ensures
            *final(self) == hit(*old(self), damage),
            killed == (final(self).hp <= 0),
    {
        self.hp = self.hp - damage;
        if self.hp <= 0 {
            self.respawn_timer = Some(RESPAWN_DELAY_TICKS);
            true
        } else {
            false
        }
    }

    /// Back in the arena: full health, alive, weapon ready.
    pub fn respawn(&mut self)
        ensures
            *final(self) == (Fighter {
                hp: PLAYER_MAX_HP,
                respawn_timer: None,
                fire_cooldown: 0,
                ..*old(self)
            }),
    {
        self.hp = PLAYER_MAX_HP;
        self.respawn_timer = None;
        self.fire_cooldown = 0;
    }
}

/// The fighter after `k` tick starts.
pub open spec fn after_ticks(f: Fighter, k: nat) -> Fighter
    decreases k,
{
    if k == 0 {
        f
    } else {
        begun(after_ticks(f, (k - 1) as nat)).0
    }
}

/// A dead fighter whose timer reads `t` is due to respawn at exactly the
/// `t`-th tick start: its timer counts down by one each tick and reaches
/// zero then, not before.
pub proof fn lemma_dead_for_exactly_the_timer(f: Fighter, t: u32, k: nat)
    requires
        f.respawn_timer == Some(t),
        1 <= k <= t,
    ensures
        after_ticks(f, (k - 1) as nat).respawn_timer == Some((t - (k - 1)) as u32),
        begun(after_ticks(f, (k - 1) as nat)).1 == (k == t),
    decreases k,
{
    if k > 1 {
        lemma_dead_for_exactly_the_timer(f, t, (k - 1) as nat);
    }
}

/// A fighter that just fired with a cooldown of `c` ticks cannot fire again
/// before `c` tick starts have passed, and can (trigger held, alive) once
/// they have.
pub proof fn lemma_cooldown_gates_fire(f: Fighter, k: nat)
    requires
        f.respawn_timer is None,
    ensures
        after_ticks(f, k).respawn_timer is None,
        after_ticks(f, k).fire_cooldown == (if k >= f.fire_cooldown { 0 } else { f.fire_cooldown - k }),
        may_fire(after_ticks(f, k), true) == (k >= f.fire_cooldown),
    decreases k,
{
    if k > 0 {
        lemma_cooldown_gates_fire(f, (k - 1) as nat);
    }
}

/// How a role is named in join events: its name in lower case.
pub open spec fn role_text(role: Role) -> Seq<char> {
    match role {
        Role::Spectator => "spectator"@,
        Role::Human => "human"@,
        Role::Agent => "agent"@,
    }
}

/// The lower-case name of `role`.
pub fn role_label(role: Role) -> (s: String)
    ensures
        s@ == role_text(role),
{
    match role {
        Role::Spectator => owned("spectator"),
        Role::Human => owned("human"),
        Role::Agent => owned("agent"),
    }
}

/// Who is in the match: the players in the order they joined, each with its
/// id, and the score kept for each id.
#[derive(Debug, Clone, PartialEq, Eq)]
pub struct Roster {
    pub players: Vec<(u128, String)>,
    pub scores: Vec<(u128, u32)>,
}

/// The name of the first player with this id.
pub open spec fn first_player(players: Seq<(u128, String)>, id: u128) -> Option<Seq<char>>
    decreases players.len(),
{
    if players.len() == 0 {
        None
    } else {
        match first_player(players.drop_last(), id) {
            Some(n) => Some(n),
            None => if players.last().0 == id {
                Some(players.last().1@)
            } else {
                None
            },
        }
    }
}

/// The first score kept for this id.
pub open spec fn score_of(scores: Seq<(u128, u32)>, id: u128) -> Option<u32>
    decreases scores.len(),
{
    if scores.len() == 0 {
        None
    } else {
        match score_of(scores.drop_last(), id) {
            Some(v) => Some(v),
            None => if scores.last().0 == id {
                Some(scores.last().1)
            } else {
                None
            },
        }
    }
}

/// Keeps the players without this id.
pub open spec fn not_player(id: u128) -> spec_fn((u128, String)) -> bool {
    |p: (u128, String)| p.0 != id
}

/// Keeps the scores of other ids.
pub open spec fn not_score(id: u128) -> spec_fn((u128, u32)) -> bool {
    |p: (u128, u32)| p.0 != id
}

/// What a leave event reports: who left, with what score, and how many
/// players remain.
#[derive(Debug, Clone, PartialEq, Eq)]
pub struct Departure {
    pub player: String,
    pub score: u32,
    pub player_count: usize,
}

fn find_player(players: &Vec<(u128, String)>, id: u128) -> (r: Option<usize>)
    ensures
        match r {
            Some(k) => k < players.len() && players@[k as int].0 == id && first_player(players@, id)
                == Some(players@[k as int].1@),
            None => first_player(players@, id) is None,
        },
{
    let mut i: usize = 0;
    while i < players.len()
        invariant
            i <= players.len(),
            first_player(players@.take(i as int), id) is None,
        decreases players.len() - i,
    {
        let ghost t = players@.take(i + 1);
        assert(t.drop_last() =~= players@.take(i as int));
        if players[i].0 == id {
            proof {
                lemma_first_player_prefix(players@, id, i + 1);
            }
            return Some(i);
        }
        i += 1;
    }
    assert(players@.take(i as int) =~= players@);
    None
}

proof fn lemma_first_player_prefix(players: Seq<(u128, String)>, id: u128, j: int)
    requires
        0 <= j <= players.len(),
        first_player(players.take(j), id) is Some,
    ensures
        first_player(players, id) == first_player(players.take(j), id),
    decreases players.len() - j,
{
    if j < players.len() {
        assert(players.take(j + 1).drop_last() =~= players.take(j));
        lemma_first_player_prefix(players, id, j + 1);
    } else {
        assert(players.take(j) =~= players);
    }
}

proof fn lemma_score_of_prefix(scores: Seq<(u128, u32)>, id: u128, j: int)
    requires
        0 <= j <= scores.len(),
        score_of(scores.take(j), id) is Some,
    ensures
        score_of(scores, id) == score_of(scores.take(j), id),
    decreases scores.len() - j,
{
    if j < scores.len() {
        assert(scores.take(j + 1).drop_last() =~= scores.take(j));
        lemma_score_of_prefix(scores, id, j + 1);
    } else {
        assert(scores.take(j) =~= scores);
    }
}

fn find_score(scores: &Vec<(u128, u32)>, id: u128) -> (r: Option<u32>)
    ensures
        r == score_of(scores@, id),
{
    let mut i: usize = 0;
    while i < scores.len()
        invariant
            i <= scores.len(),
            score_of(scores@.take(i as int), id) is None,
        decreases scores.len() - i,
    {
        let ghost t = scores@.take(i + 1);
        assert(t.drop_last() =~= scores@.take(i as int));
        if scores[i].0 == id {
            proof {
                lemma_score_of_prefix(scores@, id, i + 1);
            }
            return Some(scores[i].1);
        }
        i += 1;
    }
    assert(scores@.take(i as int) =~= scores@);
    None
}

impl Roster {
    /// An empty match.
    pub fn new() -> (r: Roster)
        ensures
            r.players@.len() == 0,
            r.scores@.len() == 0,
    {
        Roster { players: Vec::new(), scores: Vec::new() }
    }

    /// A player joins: it is added last, and its id gets a score of 0 unless
    /// one is kept for it already. Returns the number of players now in the
    /// match, which the join event reports.
    pub fn join(&mut self, id: u128, name: &String) -> (player_count: usize)
        requires
            old(self).players@.len() < usize::MAX,
        ensures
            final(self).players@ == old(self).players@.push((id, *name)),
            final(self).scores@ == if score_of(old(self).scores@, id) is None {
                old(self).scores@.push((id, 0u32))
            } else {
                old(self).scores@
            },
            player_count == final(self).players@.len(),
    {
        self.players.push((id, name.clone()));
        if find_score(&self.scores, id).is_none() {
            self.scores.push((id, 0));
        }
        self.players.len()
    }

    /// A player leaves: every player and score with its id is dropped. The
    /// leave event names the first player with the id and the score kept
    /// for it (0 when none is kept), or "Unknown" with 0 when no player has
    /// the id, and counts one player fewer than before, never below zero.
    pub fn leave(&mut self, id: u128) -> (d: Departure)
        ensures
            final(self).players@ == old(self).players@.filter(not_player(id)),
            final(self).scores@ == old(self).scores@.filter(not_score(id)),
            match first_player(old(self).players@, id) {
                Some(n) => d.player@ == n && d.score == match score_of(old(self).scores@, id) {
                    Some(v) => v,
                    None => 0u32,
                },
                None => d.player@ == "Unknown"@ && d.score == 0,
            },
            d.player_count == if old(self).players@.len() > 0 {
                old(self).players@.len() - 1
            } else {
                0
            },
    {
        let (player, score) = match find_player(&self.players, id) {
            Some(k) => {
                let s = match find_score(&self.scores, id) {
                    Some(v) => v,
                    None => 0,
                };
                (self.players[k].1.clone(), s)
            },
            None => (owned("Unknown"), 0),
        };
        let before = self.players.len();
        let mut kept: Vec<(u128, String)> = Vec::new();
        let mut i: usize = 0;
        while i < self.players.len()
            invariant
                i <= self.players.len(),
                kept@ == self.players@.take(i as int).filter(not_player(id)),
            decreases self.players.len() - i,
        {
            let ghost t = self.players@.take(i + 1);
            assert(t.drop_last() =~= self.players@.take(i as int));
            assert(t.last() == self.players@[i as int]);
            if self.players[i].0 != id {
                let p = (self.players[i].0, self.players[i].1.clone());
                assert(p == self.players@[i as int]);
                kept.push(p);
            }
            proof {
                let f = not_player(id);
                reveal(Seq::filter);
                assert(t.filter(f) == if f(t.last()) {
                    t.drop_last().filter(f).push(t.last())
                } else {
                    t.drop_last().filter(f)
                });
            }
            i += 1;
        }
        assert(self.players@.take(i as int) =~= self.players@);
        let mut kept_scores: Vec<(u128, u32)> = Vec::new();
        let mut j: usize = 0;
        while j < self.scores.len()
            invariant
                j <= self.scores.len(),
                kept_scores@ == self.scores@.take(j as int).filter(not_score(id)),
            decreases self.scores.len() - j,
        {
            let ghost t = self.scores@.take(j + 1);
            assert(t.drop_last() =~= self.scores@.take(j as int));
            assert(t.last() == self.scores@[j as int]);
            if self.scores[j].0 != id {
                kept_scores.push(self.scores[j]);
            }
            proof {
                let f = not_score(id);
                reveal(Seq::filter);
                assert(t.filter(f) == if f(t.last()) {
                    t.drop_last().filter(f).push(t.last())
                } else {
                    t.drop_last().filter(f)
                });
            }
            j += 1;
        }
        assert(self.scores@.take(j as int) =~= self.scores@);
        self.players = kept;
        self.scores = kept_scores;
        Departure { player, score, player_count: if before > 0 { before - 1 } else { 0 } }
    }
}

proof fn lemma_filter_keeps_others(players: Seq<(u128, String)>, id: u128)
    requires
        first_player(players, id) is None,
    ensures
        players.filter(not_player(id)) == players,
    decreases players.len(),
{
    reveal(Seq::filter);
    if players.len() > 0 {
        lemma_filter_keeps_others(players.drop_last(), id);
        assert(players.drop_last().push(players.last()) =~= players);
    }
}

proof fn lemma_filter_keeps_other_scores(scores: Seq<(u128, u32)>, id: u128)
    requires
        score_of(scores, id) is None,
    ensures
        scores.filter(not_score(id)) == scores,
    decreases scores.len(),
{
    reveal(Seq::filter);
    if scores.len() > 0 {
        lemma_filter_keeps_other_scores(scores.drop_last(), id);
        assert(scores.drop_last().push(scores.last()) =~= scores);
    }
}

/// A leave undoes a join: when a player with a new id joins and then leaves,
/// the players and the scores are as they were before it joined.
pub proof fn lemma_leave_undoes_join(before: Roster, joined: Roster, after: Roster, id: u128, name: String)
    requires
        first_player(before.players@, id) is None,
        score_of(before.scores@, id) is None,
        joined.players@ == before.players@.push((id, name)),
        joined.scores@ == before.scores@.push((id, 0u32)),
        after.players@ == joined.players@.filter(not_player(id)),
        after.scores@ == joined.scores@.filter(not_score(id)),
    ensures
        after.players@ == before.players@,
        after.scores@ == before.scores@,
{
    reveal(Seq::filter);
    assert(joined.players@.drop_last() =~= before.players@);
    assert(joined.scores@.drop_last() =~= before.scores@);
    lemma_filter_keeps_others(before.players@, id);
    lemma_filter_keeps_other_scores(before.scores@, id);
}

} // verus!
