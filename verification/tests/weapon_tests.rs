use zombs_engine::engine::components::{PlayerStats, Weapon, WeaponType, MaterialId};

#[test]
fn taurus_starts_full() {
    let w = Weapon::taurus_g2c();
    assert_eq!(w.weapon_type, WeaponType::TaurusG2C);
    assert_eq!(w.clip_size, 12);
    assert_eq!(w.current_clip, 12);
    assert_eq!(w.total_ammo, 48);
    assert!(!w.is_reloading);
}

#[test]
fn fire_spends_one_round_only_when_ready() {
    let mut w = Weapon::taurus_g2c();
    assert!(!w.fire(false));
    assert_eq!(w.current_clip, 12);
    assert!(w.fire(true));
    assert_eq!(w.current_clip, 11);
    assert_eq!(w.total_ammo, 48);
}

#[test]
fn cannot_fire_empty_or_reloading() {
    let mut w = Weapon::taurus_g2c();
    w.current_clip = 0;
    assert!(!w.can_fire(true));
    assert!(!w.fire(true));
    let mut r = Weapon::taurus_g2c();
    r.current_clip = 5;
    assert!(r.start_reload());
    assert!(!r.can_fire(true));
    assert!(!r.fire(true));
    assert_eq!(r.current_clip, 5);
}

#[test]
fn reload_refused_when_full_or_no_reserve_or_already_reloading() {
    let mut full = Weapon::taurus_g2c();
    assert!(!full.start_reload());
    assert!(!full.is_reloading);
    let mut dry = Weapon::taurus_g2c();
    dry.current_clip = 3;
    dry.total_ammo = 0;
    assert!(!dry.start_reload());
    let mut busy = Weapon::taurus_g2c();
    busy.current_clip = 3;
    assert!(busy.start_reload());
    assert!(!busy.start_reload());
}

#[test]
fn reload_fills_clip_from_reserve() {
    let mut w = Weapon::taurus_g2c();
    w.current_clip = 2;
    assert!(w.start_reload());
    assert!(!w.update(false));
    assert!(w.is_reloading);
    assert!(w.update(true));
    assert_eq!(w.current_clip, 12);
    assert_eq!(w.total_ammo, 38);
    assert!(!w.is_reloading);
}

#[test]
fn reload_limited_by_reserve() {
    let mut w = Weapon::taurus_g2c();
    w.current_clip = 1;
    w.total_ammo = 4;
    assert!(w.start_reload());
    assert!(w.update(true));
    assert_eq!(w.current_clip, 5);
    assert_eq!(w.total_ammo, 0);
}

#[test]
fn update_without_reload_changes_nothing() {
    let mut w = Weapon::taurus_g2c();
    w.current_clip = 4;
    assert!(!w.update(true));
    assert_eq!(w.current_clip, 4);
    assert_eq!(w.total_ammo, 48);
}

#[test]
fn update_leaves_overfull_idle_magazine_alone() {
    let mut w = Weapon::taurus_g2c();
    w.current_clip = 20;
    assert!(!w.update(true));
    assert_eq!(w.current_clip, 20);
    assert_eq!(w.total_ammo, 48);
    assert!(!w.is_reloading);
}

#[test]
fn player_stats_count_kills() {
    let mut s = PlayerStats::new();
    assert_eq!(s.kills, 0);
    s.record_kill();
    s.record_kill();
    assert_eq!(s.kills, 2);
}

#[test]
fn material_shader_ids() {
    assert_eq!(MaterialId::Default.shader_id(), 0);
    assert_eq!(MaterialId::Ground.shader_id(), 1);
    assert_eq!(MaterialId::Shadow.shader_id(), 2);
}
