use std::time::Duration;
use fragr::brain::{check_api_key, decision_step, tactical_questions, unix_or_zero, DecisionStep};
use fragr::brain::{Question, Q_DANGER, Q_STANCE, Q_WEAPON};
use fragr::brain::{
    backoff_interval, brain_worth_asking, estimate_tokens, is_fatal, is_retryable, now_unix,
    BrainHealth, Error, FailureResponse, MAX_BACKOFF_LEVEL, MAX_CONSECUTIVE_MALFORMED,
};

fn api(status: u16) -> Error {
    Error::Api {
        status,
        message: String::new(),
    }
}

#[test]
fn backoff_doubles_and_caps() {
    let base = Duration::from_millis(200);
    let after = |level: u32| Duration::from_nanos(backoff_interval(base.as_nanos() as u64, level));
    assert_eq!(after(0), base);
    assert_eq!(after(1), Duration::from_millis(400));
    assert_eq!(after(4), Duration::from_millis(3200));
    assert_eq!(after(9), Duration::from_millis(3200));
    let third = Duration::from_secs_f64(1.0 / 3.0);
    assert_eq!(
        Duration::from_nanos(backoff_interval(third.as_nanos() as u64, 2)),
        third * 4
    );
    assert!(is_retryable(&Error::Transport("timeout".into())));
    assert!(is_retryable(&api(429)));
    assert!(is_retryable(&api(529)));
    assert!(!is_retryable(&api(401)));
    assert!(!is_retryable(&Error::Malformed(String::new())));
}

#[test]
fn brain_is_only_asked_while_alive_and_active() {
    assert!(brain_worth_asking(50, "active"));
    assert!(!brain_worth_asking(0, "active"));
    assert!(!brain_worth_asking(50, "Warmup"));
    assert!(!brain_worth_asking(50, "Ended"));
    assert!(is_fatal(&api(401)));
    assert!(is_fatal(&api(400)));
    assert!(!is_fatal(&api(503)));
    assert!(is_fatal(&Error::MissingApiKey("TYPESAFE_API_KEY".into())));
    assert!(!is_fatal(&Error::Malformed(String::new())));
}

#[test]
fn now_unix_is_after_2026() {
    assert!(now_unix() > 1_767_225_600);
}

#[test]
fn token_estimates_round_up() {
    assert_eq!(estimate_tokens(""), 0);
    assert_eq!(estimate_tokens("a"), 1);
    assert_eq!(estimate_tokens("ab"), 1);
    assert_eq!(estimate_tokens("abcd"), 2);
    assert_eq!(estimate_tokens("abcde"), 3);
}

#[test]
fn three_unreadable_answers_switch_the_brain_off() {
    let mut h = BrainHealth::new(true);
    for _ in 0..(MAX_CONSECUTIVE_MALFORMED - 1) {
        assert_eq!(
            h.on_failed(&Error::Malformed("x".into())),
            FailureResponse::KeepCadence
        );
        assert!(h.paid_enabled);
    }
    assert_eq!(
        h.on_failed(&Error::Malformed("x".into())),
        FailureResponse::SwitchOff
    );
    assert!(!h.paid_enabled);
    assert_eq!(h.consecutive_malformed, MAX_CONSECUTIVE_MALFORMED);
}

#[test]
fn a_readable_failure_ends_the_unreadable_run() {
    let mut h = BrainHealth::new(true);
    h.on_failed(&Error::Malformed("x".into()));
    h.on_failed(&Error::Malformed("x".into()));
    assert_eq!(h.on_failed(&api(429)), FailureResponse::BackOff { level: 1 });
    assert_eq!(h.consecutive_malformed, 0);
    assert_eq!(
        h.on_failed(&Error::Malformed("x".into())),
        FailureResponse::KeepCadence
    );
    assert!(h.paid_enabled);
}

#[test]
fn retryable_failures_back_off_to_the_cap_and_a_plan_resets() {
    let mut h = BrainHealth::new(true);
    for level in 1..=MAX_BACKOFF_LEVEL {
        assert_eq!(
            h.on_failed(&Error::Transport("down".into())),
            FailureResponse::BackOff { level }
        );
    }
    assert_eq!(
        h.on_failed(&Error::Transport("down".into())),
        FailureResponse::KeepCadence
    );
    assert_eq!(h.backoff_level, MAX_BACKOFF_LEVEL);
    assert!(h.on_decided());
    assert_eq!(h.backoff_level, 0);
    assert!(!h.on_decided());
}

#[test]
fn fatal_failures_and_refusals_switch_off() {
    let mut h = BrainHealth::new(true);
    assert_eq!(h.on_failed(&api(403)), FailureResponse::SwitchOff);
    assert!(!h.paid_enabled);
    let mut r = BrainHealth::new(true);
    assert!(r.on_refused());
    assert!(!r.on_refused());
    assert!(!r.paid_enabled);
    let local = BrainHealth::new(false);
    assert!(!local.paid_enabled);
}

#[test]
fn io_failures_count_as_unreadable_answers() {
    let err: Error = std::io::Error::other("disk").into();
    assert!(matches!(err, Error::Io(_)));
    assert!(!is_retryable(&err));
    assert!(!is_fatal(&err));
    let mut h = BrainHealth::new(true);
    assert_eq!(h.on_failed(&err), FailureResponse::KeepCadence);
    assert_eq!(h.consecutive_malformed, 1);
}

#[test]
fn one_decision_at_a_time_and_only_when_worth_it() {
    assert_eq!(decision_step(true, true, true, 50, "active"), DecisionStep::Wait);
    assert_eq!(decision_step(false, true, true, 50, "active"), DecisionStep::Ask);
    assert_eq!(decision_step(false, true, true, 0, "active"), DecisionStep::Local);
    assert_eq!(decision_step(false, true, true, 50, "Warmup"), DecisionStep::Local);
    assert_eq!(decision_step(false, true, false, 50, "active"), DecisionStep::LocalBudget);
    assert_eq!(decision_step(false, false, false, 50, "active"), DecisionStep::Local);
}

#[test]
fn clock_before_the_epoch_reads_zero() {
    assert_eq!(unix_or_zero(Some(1_800_000_000)), 1_800_000_000);
    assert_eq!(unix_or_zero(None), 0);
}

fn key_names() -> Vec<String> {
    vec!["TYPESAFE_API_KEY".to_string(), "FRAGR_API_KEY".to_string()]
}

#[test]
fn a_paid_brain_without_a_key_is_refused() {
    let names = key_names();
    for key in [None, Some(""), Some("   \t\n")] {
        match check_api_key(true, key, &names) {
            Err(Error::MissingApiKey(m)) => assert_eq!(m, "TYPESAFE_API_KEY, FRAGR_API_KEY"),
            other => panic!("expected a missing key, got {:?}", other),
        }
    }
    assert!(check_api_key(true, Some(" sk_test "), &names).is_ok());
    assert!(check_api_key(false, None, &names).is_ok());
    assert!(check_api_key(false, Some(""), &names).is_ok());
    match check_api_key(true, None, &Vec::new()) {
        Err(Error::MissingApiKey(m)) => assert_eq!(m, ""),
        other => panic!("expected a missing key, got {:?}", other),
    }
}

#[test]
fn questions_serialize_to_the_wire_shape() {
    let stances = vec![
        ("hold_angle".to_string(), "Stay put and watch the approach you expect the enemy from".to_string()),
        ("push_enemy".to_string(), "Close the distance and force the fight while ahead".to_string()),
    ];
    let questions = tactical_questions(&stances);
    assert_eq!(questions.len(), 3);
    match &questions[Q_STANCE] {
        Question::Choice { instructions, criteria } => {
            assert!(instructions.starts_with("Pick the stance for the next second"));
            assert_eq!(criteria.len(), 2);
            assert!(criteria["push_enemy"].len() > 10);
        }
        other => panic!("stance is a choice, got {:?}", other),
    }
    match &questions[Q_WEAPON] {
        Question::Choice { instructions, criteria } => {
            assert_eq!(instructions, "Pick the weapon to hold for the next second. Swapping is instant.");
            let names: Vec<&str> = criteria.keys().map(|k| k.as_str()).collect();
            assert_eq!(names, vec!["flechette", "rail", "scatter"]);
            assert!(criteria["rail"].starts_with("Railgun, 75 damage"));
        }
        other => panic!("weapon is a choice, got {:?}", other),
    }
    match &questions[Q_DANGER] {
        Question::Score { instructions, criteria } => {
            assert_eq!(instructions, "Rate how close this fighter is to dying in the next few seconds.");
            assert_eq!(criteria, &vec!["safe", "watchful", "pressured", "critical", "dying"]);
        }
        other => panic!("danger is a score, got {:?}", other),
    }
}
