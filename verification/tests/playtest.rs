use fragr::playtest::{
    first_frag_delay, is_spawn_death, longest_frag_gap, observed_ticks, tally_events,
    weapon_from_wire, Error, ReportEvent, TimedReportEvent, TrackCounts, SPAWN_DEATH_WINDOW_TICKS,
};
use fragr::playtest::{engagement_clear, engagement_end, engagement_hit};
use fragr::protocol::WeaponType;

#[test]
fn wire_weapon_names_ignore_case() {
    assert_eq!(weapon_from_wire("rail"), Some(WeaponType::Rail));
    assert_eq!(weapon_from_wire("Flechette"), Some(WeaponType::Flechette));
    assert_eq!(weapon_from_wire("SCATTER"), Some(WeaponType::Scatter));
    assert_eq!(weapon_from_wire("blaster"), None);
    assert_eq!(weapon_from_wire(""), None);
}

#[test]
fn frag_timeline_gaps() {
    // First tick 100, frags at 120 and 160, last tick 1100: the longest
    // stretch is the tail of 940 ticks; the first frag came after 20.
    let frags = vec![120, 160];
    assert_eq!(longest_frag_gap(100, &frags, 1100), 940);
    assert_eq!(first_frag_delay(100, &frags), Some(20));
    assert_eq!(longest_frag_gap(100, &vec![900, 950], 1000), 800);
    assert_eq!(longest_frag_gap(0, &vec![], 50), 50);
    assert_eq!(first_frag_delay(0, &vec![]), None);
    assert_eq!(longest_frag_gap(10, &vec![5], 3), 0);
}

#[test]
fn spawn_deaths_fall_inside_the_window() {
    assert!(is_spawn_death(140, 100));
    assert!(is_spawn_death(100 + SPAWN_DEATH_WINDOW_TICKS, 100));
    assert!(!is_spawn_death(141, 100));
    assert!(is_spawn_death(50, 100));
}

#[test]
fn observed_run_lasts_at_least_one_tick() {
    assert_eq!(observed_ticks(Some(100), 1300), 1200);
    assert_eq!(observed_ticks(Some(100), 100), 1);
    assert_eq!(observed_ticks(None, 0), 1);
    assert_eq!(observed_ticks(None, 40), 40);
}

#[test]
fn playtest_error_messages() {
    assert_eq!(Error::Server("down".into()).message(), "server error: down");
    assert_eq!(Error::Transport("t".into()).message(), "transport error: t");
    assert_eq!(
        Error::Timeout("welcome").message(),
        "timed out waiting for welcome"
    );
    let io: Error = std::io::Error::other("disk").into();
    assert_eq!(io.message(), "io error: disk");
}

fn at(tick: u64, event: ReportEvent) -> TimedReportEvent {
    TimedReportEvent { tick, event }
}

fn frag(killer: &str, victim: &str) -> ReportEvent {
    ReportEvent::Frag {
        killer: killer.to_string(),
        victim: victim.to_string(),
    }
}

#[test]
fn event_tally_counts_frags_spawn_deaths_and_gaps() {
    let events = vec![
        at(0, ReportEvent::RoundStart { players: vec!["a".to_string(), "b".to_string()] }),
        at(20, frag("a", "b")),
        at(80, ReportEvent::Respawn { player: "b".to_string() }),
        at(200, frag("b", "a")),
        at(200, ReportEvent::Pickup),
        at(1200, ReportEvent::RoundEnd),
        at(1200, ReportEvent::Quiet),
    ];
    let tally = tally_events(&events);
    assert_eq!(tally.rounds_completed, 1);
    assert_eq!(tally.frag_ticks, vec![20, 200]);
    assert_eq!(tally.spawn_deaths, 1);
    assert_eq!(tally.pickups, 1);
    assert_eq!(tally.host_beats, 2);
    assert_eq!(tally.agents.len(), 2);
    let a = tally.agents.iter().find(|t| t.name == "a").unwrap();
    let b = tally.agents.iter().find(|t| t.name == "b").unwrap();
    assert_eq!((a.frags, a.deaths, a.spawn_deaths), (1, 1, 0));
    assert_eq!((b.frags, b.deaths, b.spawn_deaths), (1, 1, 1));
    assert_eq!(first_frag_delay(0, &tally.frag_ticks), Some(20));
    assert_eq!(longest_frag_gap(0, &tally.frag_ticks, 1200), 1000);
    assert_eq!(observed_ticks(Some(0), 1200), 1200);

    let empty = tally_events(&Vec::new());
    assert!(empty.frag_ticks.is_empty());
    assert!(empty.agents.is_empty());
    assert_eq!(first_frag_delay(0, &empty.frag_ticks), None);
}

#[test]
fn a_respawn_restarts_the_spawn_death_window() {
    let events = vec![
        at(0, ReportEvent::RoundStart { players: vec!["a".to_string()] }),
        at(100, ReportEvent::Respawn { player: "a".to_string() }),
        at(130, frag("a", "a")),
        at(500, frag("x", "a")),
        at(510, frag("x", "ghost")),
        at(520, ReportEvent::HostBeat),
    ];
    let tally = tally_events(&events);
    assert_eq!(tally.spawn_deaths, 1);
    assert_eq!(tally.host_beats, 2);
    assert_eq!(tally.rounds_completed, 0);
    let names: Vec<&str> = tally.agents.iter().map(|t| t.name.as_str()).collect();
    assert_eq!(names, vec!["a", "x", "ghost"]);
    assert_eq!(
        (tally.agents[0].frags, tally.agents[0].deaths, tally.agents[0].spawn_deaths),
        (1, 2, 1)
    );
    assert_eq!((tally.agents[1].frags, tally.agents[1].deaths), (2, 0));
    assert_eq!((tally.agents[2].deaths, tally.agents[2].spawn_deaths), (1, 0));
}

#[test]
fn track_counts_follow_idle_stuck_and_fire() {
    // Sightings of one fighter: (seen before, round active, moved, fired).
    let mut t = TrackCounts::default();
    t.sight(false, true, false, true);
    t.sight(true, true, false, false);
    t.sight(true, true, false, true);
    t.sight(true, true, true, false);
    t.sight(true, true, false, false);
    assert_eq!(t.ticks_present, 5);
    assert_eq!(t.idle_ticks, 3);
    assert_eq!(t.stuck_max_ticks, 1, "firing or moving resets the run");
    assert_eq!(t.fire_ticks, 2);
    // Standing still between rounds is not stuck and not idle.
    for _ in 15..30 {
        t.sight(true, false, false, false);
    }
    assert_eq!(t.stuck_max_ticks, 1);
    assert_eq!(t.idle_ticks, 3);
    assert_eq!(t.ticks_present, 20);
    assert_eq!(t.stuck_run, 0);
}

#[test]
fn long_stillness_sets_the_stuck_record() {
    let mut t = TrackCounts::default();
    t.sight(false, true, false, false);
    for _ in 0..7 {
        t.sight(true, true, false, false);
    }
    assert_eq!((t.stuck_run, t.stuck_max_ticks), (7, 7));
    t.sight(true, true, true, false);
    t.sight(true, true, false, false);
    assert_eq!((t.stuck_run, t.stuck_max_ticks), (1, 7));
}

#[test]
fn deaths_are_timed_from_the_first_hit() {
    let b = "B".to_string();
    let mut records: Vec<(String, u64)> = Vec::new();
    engagement_hit(&mut records, &b, 100);
    engagement_hit(&mut records, &b, 110);
    assert_eq!(
        engagement_end(&mut records, &b, 120),
        Some(20),
        "the second hit did not restart the clock"
    );
    assert!(records.is_empty());
    engagement_hit(&mut records, &b, 150);
    engagement_clear(&mut records, &b);
    assert_eq!(
        engagement_end(&mut records, &b, 200),
        None,
        "a death with no opening hit is left untimed"
    );
}

#[test]
fn engagements_are_kept_per_victim() {
    let a = "A".to_string();
    let c = "C".to_string();
    let mut records: Vec<(String, u64)> = Vec::new();
    engagement_hit(&mut records, &a, 5);
    engagement_hit(&mut records, &c, 7);
    engagement_hit(&mut records, &a, 9);
    assert_eq!(records.len(), 2);
    assert_eq!(engagement_end(&mut records, &c, 10), Some(3));
    assert_eq!(records, vec![("A".to_string(), 5)]);
    assert_eq!(engagement_end(&mut records, &a, 3), Some(0));
}

#[test]
fn fighter_totals_add_up_to_event_totals() {
    let events = vec![
        at(0, ReportEvent::RoundStart { players: vec!["a".to_string(), "b".to_string(), "c".to_string()] }),
        at(10, frag("a", "b")),
        at(40, frag("c", "a")),
        at(300, frag("a", "a")),
        at(310, ReportEvent::Respawn { player: "b".to_string() }),
        at(320, frag("c", "b")),
        at(900, frag("b", "c")),
    ];
    let tally = tally_events(&events);
    let frags: u64 = tally.agents.iter().map(|t| t.frags).sum();
    let deaths: u64 = tally.agents.iter().map(|t| t.deaths).sum();
    let spawn_deaths: u64 = tally.agents.iter().map(|t| t.spawn_deaths).sum();
    assert_eq!(tally.frag_ticks.len(), 5);
    assert_eq!(frags, 5);
    assert_eq!(deaths, 5);
    assert_eq!(tally.spawn_deaths, 3);
    assert_eq!(spawn_deaths, 3);
}
