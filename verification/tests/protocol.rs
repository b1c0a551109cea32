use fragr::protocol::{
    default_host_line, default_map_id, default_map_name, default_mode_name, default_pickup_kind,
    default_playlist, Action, WeaponType,
};

fn spread_radians(weapon: WeaponType) -> f32 {
    weapon.spread_milliradians() as f32 / 1000.0
}

#[test]
fn test_weapon_type_stats() {
    assert_eq!(WeaponType::Flechette.damage(), 25);
    assert_eq!(WeaponType::Flechette.cooldown_ticks(), 10);
    assert_eq!(spread_radians(WeaponType::Flechette), 0.1);

    assert_eq!(WeaponType::Rail.damage(), 75);
    assert_eq!(WeaponType::Rail.cooldown_ticks(), 40);
    assert_eq!(spread_radians(WeaponType::Rail), 0.05);

    assert_eq!(WeaponType::Scatter.damage(), 15);
    assert_eq!(WeaponType::Scatter.cooldown_ticks(), 5);
    assert_eq!(spread_radians(WeaponType::Scatter), 0.3);
}

#[test]
fn test_protocol_all_weapon_types_coverage() {
    assert_eq!(WeaponType::Flechette.damage(), 25);
    assert_eq!(WeaponType::Flechette.cooldown_ticks(), 10);
    assert_eq!(spread_radians(WeaponType::Flechette), 0.1);
    assert_eq!(WeaponType::Flechette.name(), "Flechette");

    assert_eq!(WeaponType::Rail.damage(), 75);
    assert_eq!(WeaponType::Rail.cooldown_ticks(), 40);
    assert_eq!(spread_radians(WeaponType::Rail), 0.05);
    assert_eq!(WeaponType::Rail.name(), "Rail");

    assert_eq!(WeaponType::Scatter.damage(), 15);
    assert_eq!(WeaponType::Scatter.cooldown_ticks(), 5);
    assert_eq!(spread_radians(WeaponType::Scatter), 0.3);
    assert_eq!(WeaponType::Scatter.name(), "Scatter");
}

#[test]
fn test_weapon_default_is_flechette() {
    assert_eq!(WeaponType::default(), WeaponType::Flechette);
}

#[test]
fn test_protocol_action_defaults() {
    let action = Action::default();
    assert!(!action.forward);
    assert!(!action.back);
    assert!(!action.fire);
    assert!(action.weapon_swap.is_none());
    assert_eq!(Action::idle(), action);
}

#[test]
fn wire_defaults() {
    assert_eq!(default_mode_name(), "Contested Frequency");
    assert_eq!(default_playlist(), "Arena Duel");
    assert_eq!(default_pickup_kind(), "weapon");
    assert_eq!(default_map_id(), 1);
    assert_eq!(default_map_name(), "Arena Duel");
    assert!(default_host_line().starts_with("HOST:"));
}
