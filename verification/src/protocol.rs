//! The wire vocabulary shared by the server, the adapter and the agents:
//! weapons, roles, actions and the defaults the wire fills in.
use crate::text::owned;
use vstd::prelude::*;

verus! {

/// The game mode's name on the wire.
pub const MODE_NAME: &'static str = "Contested Frequency";
/// The playlist's name on the wire.
pub const PLAYLIST_NAME: &'static str = "Arena Duel";
/// Map id of the duel arena.
pub const MAP_ID_ARENA_DUEL: u32 = 1;
/// Map name of the duel arena.
pub const MAP_NAME_ARENA_DUEL: &'static str = "Arena Duel";

/// The mode name the wire fills in when a message omits it.
pub fn default_mode_name() -> (s: String)
    ensures
        s@ == MODE_NAME@,
{
    owned(MODE_NAME)
}

/// The playlist the wire fills in when a message omits it.
pub fn default_playlist() -> (s: String)
    ensures
        s@ == PLAYLIST_NAME@,
{
    owned(PLAYLIST_NAME)
}

/// The pickup kind the wire fills in when a message omits it.
pub fn default_pickup_kind() -> (s: String)
    ensures
        s@ == "weapon"@,
{
    owned("weapon")
}

/// The host line the wire fills in when a message omits it.
pub fn default_host_line() -> (s: String)
    ensures
        s@ == "HOST: CONTESTED FREQUENCY. LEAGUE DENIES EXISTENCE. ARENA DUEL IS LIVE."@,
{
    owned("HOST: CONTESTED FREQUENCY. LEAGUE DENIES EXISTENCE. ARENA DUEL IS LIVE.")
}

/// The map id the wire fills in when a message omits it.
pub fn default_map_id() -> (id: u32)
    ensures
        id == MAP_ID_ARENA_DUEL,
{
    MAP_ID_ARENA_DUEL
}

/// The map name the wire fills in when a message omits it.
pub fn default_map_name() -> (s: String)
    ensures
        s@ == MAP_NAME_ARENA_DUEL@,
{
    owned(MAP_NAME_ARENA_DUEL)
}

/// The three weapons. A new fighter holds the needle gun.
#[derive(Debug, Clone, Copy, PartialEq, Eq, Default)]
pub enum WeaponType {
    #[default]
    Flechette,
    Rail,
    Scatter,
}

/// Damage of one hit with `w`.
pub open spec fn damage_of(w: WeaponType) -> i32 {
    match w {
        WeaponType::Flechette => 25,
        WeaponType::Rail => 75,
        WeaponType::Scatter => 15,
    }
}

/// Ticks between two shots with `w`.
pub open spec fn cooldown_of(w: WeaponType) -> u32 {
    match w {
        WeaponType::Flechette => 10,
        WeaponType::Rail => 40,
        WeaponType::Scatter => 5,
    }
}

impl WeaponType {
    /// Damage of one hit.
    pub fn damage(&self) -> (d: i32)
        ensures
            d == damage_of(*self),
    {
        match self {
            WeaponType::Flechette => 25,
            WeaponType::Rail => 75,
            WeaponType::Scatter => 15,
        }
    }

    /// Ticks between two shots.
    pub fn cooldown_ticks(&self) -> (t: u32)
        ensures
            t == cooldown_of(*self),
    {
        match self {
            WeaponType::Flechette => 10,
            WeaponType::Rail => 40,
            WeaponType::Scatter => 5,
        }
    }

    /// Half-angle of the aim cone, in thousandths of a radian.
    pub fn spread_milliradians(&self) -> (m: u32)
        ensures
            m == match self {
                WeaponType::Flechette => 100u32,
                WeaponType::Rail => 50u32,
                WeaponType::Scatter => 300u32,
            },
    {
        match self {
            WeaponType::Flechette => 100,
            WeaponType::Rail => 50,
            WeaponType::Scatter => 300,
        }
    }

    /// The weapon's display name.
    pub fn name(&self) -> (s: &'static str)
        ensures
            s@ == match self {
                WeaponType::Flechette => "Flechette"@,
                WeaponType::Rail => "Rail"@,
                WeaponType::Scatter => "Scatter"@,
            },
    {
        match self {
            WeaponType::Flechette => "Flechette",
            WeaponType::Rail => "Rail",
            WeaponType::Scatter => "Scatter",
        }
    }
}

#[derive(Debug, Clone, Copy, PartialEq, Eq)]
pub enum Role {
    Spectator,
    Human,
    Agent,
}

/// Off-tick callout or taunt (control plane, not a sticky action).
#[derive(Debug, Clone, PartialEq, Eq)]
pub struct Speak {
    pub text: String,
}

/// Observe-only stance label for agent clients (control plane).
#[derive(Debug, Clone, PartialEq, Eq)]
pub struct SetDisplayBehavior {
    pub behavior: String,
}

/// One fighter's name and score in a round summary.
#[derive(Debug, Clone, PartialEq, Eq)]
pub struct PlayerScore {
    pub name: String,
    pub score: u32,
}

/// The held movement and fire keys of one input, and a weapon to swap to.
#[derive(Debug, Clone, Default, PartialEq, Eq)]
pub struct Action {
    pub forward: bool,
    pub back: bool,
    pub left: bool,
    pub right: bool,
    pub turn_left: bool,
    pub turn_right: bool,
    pub fire: bool,
    pub weapon_swap: Option<WeaponType>,
}

/// The action with nothing held and no swap.
pub open spec fn idle_action() -> Action {
    Action {
        forward: false,
        back: false,
        left: false,
        right: false,
        turn_left: false,
        turn_right: false,
        fire: false,
        weapon_swap: None,
    }
}

impl Action {
    /// Nothing held, no swap.
    pub fn idle() -> (a: Action)
        ensures
            a == idle_action(),
    {
        Action {
            forward: false,
            back: false,
            left: false,
            right: false,
            turn_left: false,
            turn_right: false,
            fire: false,
            weapon_swap: None,
        }
    }
}

} // verus!
