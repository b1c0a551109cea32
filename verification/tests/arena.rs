use fragr::arena::{best_score, Fighter, PLAYER_MAX_HP, RESPAWN_DELAY_TICKS};
use fragr::protocol::{Role, WeaponType};
use fragr::arena::{role_label, Departure, Roster};
use fragr::arena::{
    bot_identity, bots_to_spawn, round_time_left, BotBehavior, MatchConfig, RoundClock,
    RoundState, RoundStep,
};

#[test]
fn test_sim_match_config_custom() {
    let config = MatchConfig {
        frag_limit: Some(5),
        time_limit_ticks: Some(100),
        warmup_ticks: 10,
        end_delay_ticks: 20,
    };

    assert_eq!(config.frag_limit, Some(5));
    assert_eq!(config.time_limit_ticks, Some(100));
}

#[test]
fn default_match_config() {
    let config = MatchConfig::default();
    assert_eq!(config.frag_limit, Some(10));
    assert_eq!(config.time_limit_ticks, Some(3600));
    assert_eq!(config.warmup_ticks, 60);
    assert_eq!(config.end_delay_ticks, 100);
}

#[test]
fn warmup_leads_to_the_first_round() {
    let config = MatchConfig::default();
    let mut clock = RoundClock::new();
    assert_eq!(clock.state, RoundState::Warmup);
    for _ in 0..config.warmup_ticks - 1 {
        assert_eq!(clock.advance(&config, None), RoundStep::Wait);
    }
    assert_eq!(clock.advance(&config, None), RoundStep::Started);
    assert_eq!(clock.state, RoundState::Active);
    assert_eq!(clock.number, 1);
    assert_eq!(clock.ticks, 0);
    clock.end_round();
    assert_eq!(clock.state, RoundState::Ended);
}

#[test]
fn ended_round_waits_for_its_delay() {
    let config = MatchConfig {
        end_delay_ticks: 10,
        ..MatchConfig::default()
    };
    let mut clock = RoundClock::new();
    clock.start_round();
    clock.end_round();
    assert_eq!(clock.state, RoundState::Ended);
    assert_eq!(clock.ticks, 0);
    for _ in 0..9 {
        clock.advance(&config, None);
        assert_eq!(clock.state, RoundState::Ended);
    }
    assert_eq!(clock.advance(&config, None), RoundStep::Started);
    assert_eq!(clock.state, RoundState::Active);
    assert_eq!(clock.number, 2);
}

#[test]
fn rounds_end_on_time_or_frags() {
    let config = MatchConfig {
        frag_limit: None,
        time_limit_ticks: Some(100),
        ..MatchConfig::default()
    };
    let mut clock = RoundClock::new();
    clock.start_round();
    for _ in 0..99 {
        assert_eq!(clock.advance(&config, Some(100)), RoundStep::Play);
    }
    assert_eq!(clock.advance(&config, None), RoundStep::EndedByTime);
    assert_eq!(clock.state, RoundState::Ended);

    let config = MatchConfig {
        frag_limit: Some(10),
        time_limit_ticks: None,
        ..MatchConfig::default()
    };
    let mut clock = RoundClock::new();
    clock.start_round();
    for _ in 0..1000 {
        assert_eq!(clock.advance(&config, Some(9)), RoundStep::Play);
    }
    assert_eq!(clock.state, RoundState::Active);
    assert_eq!(clock.advance(&config, Some(10)), RoundStep::EndedByFrags);
    assert_eq!(clock.state, RoundState::Ended);
}

#[test]
fn time_left_counts_whole_seconds() {
    let config = MatchConfig::default();
    let mut clock = RoundClock::new();
    assert_eq!(round_time_left(&clock, &config), None);
    clock.start_round();
    assert_eq!(round_time_left(&clock, &config), Some(180));
    clock.advance(&config, None);
    assert_eq!(round_time_left(&clock, &config), Some(179));
    let untimed = MatchConfig {
        time_limit_ticks: None,
        ..config
    };
    assert_eq!(round_time_left(&clock, &untimed), None);
}

#[test]
fn bot_roster_names_and_laps() {
    assert_eq!(bot_identity(0), ("Rusher".to_string(), BotBehavior::Aggressive));
    assert_eq!(bot_identity(1), ("Sniper".to_string(), BotBehavior::Defensive));
    assert_eq!(bot_identity(7), ("Striker".to_string(), BotBehavior::Balanced));
    assert_eq!(bot_identity(8), ("Rusher-2".to_string(), BotBehavior::Aggressive));
    assert_eq!(bot_identity(17), ("Sniper-3".to_string(), BotBehavior::Defensive));
}

#[test]
fn min_bots_refill_only_what_is_missing() {
    assert_eq!(bots_to_spawn(4, 0), 4);
    assert_eq!(bots_to_spawn(4, 1), 3);
    assert_eq!(bots_to_spawn(2, 2), 0);
    assert_eq!(bots_to_spawn(2, 5), 0);
    assert_eq!(bots_to_spawn(0, 0), 0);
}

#[test]
fn fire_cooldown_and_respawn_timers_count_down() {
    let mut f = Fighter::spawned();
    assert_eq!(f.hp, PLAYER_MAX_HP);
    assert!(f.ready_to_fire(true));
    assert!(!f.ready_to_fire(false));
    f.fire_cooldown = 10;
    assert!(!f.begin_tick());
    assert_eq!(f.fire_cooldown, 9);
    f.respawn_timer = Some(10);
    assert!(!f.begin_tick());
    assert_eq!(f.respawn_timer, Some(9));
    assert!(f.is_dead());
    assert!(!f.ready_to_fire(true));
    f.respawn_timer = Some(1);
    assert!(f.begin_tick());
    f.respawn();
    assert_eq!((f.hp, f.respawn_timer, f.fire_cooldown), (PLAYER_MAX_HP, None, 0));
    assert_eq!(RESPAWN_DELAY_TICKS, 60);
}

#[test]
fn a_shot_starts_the_weapon_cooldown() {
    let mut f = Fighter::spawned();
    f.swap_weapon(Some(WeaponType::Rail));
    f.fire();
    assert!(f.just_fired);
    assert_eq!(f.fire_cooldown, 40);
    let mut ticks = 0;
    while !f.ready_to_fire(true) {
        f.begin_tick();
        ticks += 1;
    }
    assert_eq!(ticks, 40);
    assert!(!f.just_fired);
    f.swap_weapon(None);
    assert_eq!(f.weapon, WeaponType::Rail);
}

#[test]
fn lethal_hits_start_the_respawn_delay() {
    let mut f = Fighter::spawned();
    assert!(!f.take_hit(WeaponType::Rail.damage()));
    assert_eq!(f.hp, 25);
    assert!(f.take_hit(WeaponType::Flechette.damage()));
    assert_eq!(f.hp, 0);
    assert_eq!(f.respawn_timer, Some(RESPAWN_DELAY_TICKS));
    let mut ticks = 1;
    while !f.begin_tick() {
        ticks += 1;
    }
    assert_eq!(ticks, RESPAWN_DELAY_TICKS);
}

#[test]
fn best_score_picks_the_last_of_the_leaders() {
    assert_eq!(best_score(&vec![]), None);
    assert_eq!(best_score(&vec![3]), Some(0));
    assert_eq!(best_score(&vec![1, 5, 2, 5, 4]), Some(3));
    assert_eq!(best_score(&vec![9, 1, 2]), Some(0));
}

#[test]
fn join_and_leave_keep_the_roster() {
    let mut roster = Roster::new();
    assert_eq!(roster.join(7, &"ArenaFox".to_string()), 1);
    assert_eq!(roster.join(9, &"Bot1".to_string()), 2);
    assert_eq!(roster.scores, vec![(7, 0), (9, 0)]);
    roster.scores[0].1 = 4;
    let left = roster.leave(7);
    assert_eq!(left, Departure { player: "ArenaFox".to_string(), score: 4, player_count: 1 });
    assert_eq!(roster.players, vec![(9, "Bot1".to_string())]);
    assert_eq!(roster.scores, vec![(9, 0)]);
    let unknown = roster.leave(42);
    assert_eq!(unknown, Departure { player: "Unknown".to_string(), score: 0, player_count: 0 });
    assert_eq!(roster.players.len(), 1);
    let last = roster.leave(9);
    assert_eq!(last.player_count, 0);
    let empty = roster.leave(9);
    assert_eq!((empty.player.as_str(), empty.score, empty.player_count), ("Unknown", 0, 0));
}

#[test]
fn a_returning_id_keeps_its_score() {
    let mut roster = Roster::new();
    roster.join(3, &"a".to_string());
    roster.scores[0].1 = 2;
    assert_eq!(roster.join(3, &"a again".to_string()), 2);
    assert_eq!(roster.scores, vec![(3, 2)]);
    let left = roster.leave(3);
    assert_eq!((left.player.as_str(), left.score, left.player_count), ("a", 2, 1));
    assert!(roster.players.is_empty());
}

#[test]
fn roles_are_named_in_lower_case() {
    assert_eq!(role_label(Role::Agent), "agent");
    assert_eq!(role_label(Role::Human), "human");
    assert_eq!(role_label(Role::Spectator), "spectator");
}
