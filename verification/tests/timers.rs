use bevy::time::TimerMode;
use newton_survivor::bullet::Bullet;
use newton_survivor::saw::{Sawable, TractorSaw, SAW_DEFAULT_DAMAGE, SAW_DEFAULT_RATE_OF_FIRE_MILLIS};
use newton_survivor::turret::{turret, TurretDamage};
use newton_survivor::upgrades::{AutoUpgrade, UpgradeBulletEvent};
use std::time::Duration;

const MILLI: u64 = 1_000_000;

#[test]
fn new_turret_holds_its_fire() {
    let (t, damage) = turret();
    assert!(!t.firing);
    assert_eq!(damage.0, 1);
    assert_eq!(TurretDamage::default().0, 1);
    assert_eq!(t.rate_of_fire.duration(), Duration::from_millis(1000));
    assert_eq!(t.rate_of_fire.elapsed(), Duration::ZERO);
    assert_eq!(t.rate_of_fire.mode(), TimerMode::Once);
    assert!(!t.rate_of_fire.finished());
    assert!(!t.rate_of_fire.paused());
}

#[test]
fn turret_fires_when_the_cooldown_has_run_out() {
    let (mut t, mut damage) = turret();
    damage.upgrade();
    damage.upgrade();
    t.firing = true;
    assert_eq!(t.tick_and_fire(400 * MILLI, &damage), None);
    assert_eq!(t.rate_of_fire.elapsed(), Duration::from_millis(400));
    assert_eq!(t.tick_and_fire(599 * MILLI, &damage), None);
    assert_eq!(t.rate_of_fire.elapsed(), Duration::from_millis(999));
    assert_eq!(
        t.tick_and_fire(MILLI, &damage),
        Some(Bullet { damage: 3, split_probability: 1000 })
    );
    // The cooldown started over.
    assert_eq!(t.rate_of_fire.elapsed(), Duration::ZERO);
    assert!(!t.rate_of_fire.finished());
    assert!(t.firing);
    assert_eq!(t.tick_and_fire(999 * MILLI, &damage), None);
    assert!(t.tick_and_fire(5000 * MILLI, &damage).is_some());
}

#[test]
fn turret_that_holds_its_fire_stays_ready() {
    let (mut t, damage) = turret();
    assert_eq!(t.tick_and_fire(1500 * MILLI, &damage), None);
    assert!(t.rate_of_fire.finished());
    // A timer that runs once is held at its duration.
    assert_eq!(t.rate_of_fire.elapsed(), Duration::from_millis(1000));
    assert_eq!(t.tick_and_fire(0, &damage), None);
    assert!(!t.firing);
    t.firing = true;
    assert_eq!(
        t.tick_and_fire(0, &damage),
        Some(Bullet { damage: 1, split_probability: 1000 })
    );
    assert!(!t.rate_of_fire.finished());
}

#[test]
fn saw_defaults() {
    let saw = TractorSaw::default();
    assert_eq!(saw.rate_of_fire, 500);
    assert_eq!(saw.damage, 1);
    assert_eq!(SAW_DEFAULT_RATE_OF_FIRE_MILLIS, 500);
    assert_eq!(SAW_DEFAULT_DAMAGE, 1);
}

#[test]
fn saw_cuts_at_its_own_rate() {
    let mut saw = TractorSaw::default();
    saw.upgrade();
    assert_eq!(saw.damage, 2);
    let mut tree = Sawable::default();
    // Nothing can be cut before any time has passed.
    assert_eq!(tree.saw(true, &saw), None);
    tree.tick(1);
    assert_eq!(tree.saw(false, &saw), None);
    assert_eq!(tree.saw(true, &saw), Some(2));
    // The cooldown now runs for the saw's 500 ms.
    assert_eq!(tree.saw(true, &saw), None);
    tree.tick(499 * MILLI);
    assert_eq!(tree.saw(true, &saw), None);
    tree.tick(MILLI);
    assert_eq!(tree.saw(true, &saw), Some(2));
    tree.tick(10_000 * MILLI);
    tree.tick(0);
    assert_eq!(tree.saw(true, &saw), Some(2));
}

#[test]
fn saw_takes_over_a_changed_rate() {
    let mut tree = Sawable::default();
    tree.tick(1);
    let slow = TractorSaw { rate_of_fire: 2000, damage: 9 };
    assert_eq!(tree.saw(true, &slow), Some(9));
    tree.tick(1999 * MILLI);
    assert_eq!(tree.saw(true, &slow), None);
    tree.tick(MILLI);
    let fast = TractorSaw { rate_of_fire: 10, damage: 1 };
    assert_eq!(tree.saw(true, &fast), Some(1));
    tree.tick(10 * MILLI);
    assert_eq!(tree.saw(true, &fast), Some(1));
}

#[test]
fn auto_upgrade_comes_round_every_two_seconds() {
    let mut auto = AutoUpgrade::new();
    assert_eq!(auto.tick(1999 * MILLI), None);
    assert_eq!(auto.tick(MILLI), Some(UpgradeBulletEvent::Damage));
    // A repeating timer is finished only on the tick that came round.
    assert_eq!(auto.tick(0), None);
    assert_eq!(auto.tick(1500 * MILLI), None);
    // 1500 ms + 700 ms wrap round to 200 ms.
    assert_eq!(auto.tick(700 * MILLI), Some(UpgradeBulletEvent::Damage));
    assert_eq!(auto.tick(1799 * MILLI), None);
    assert_eq!(auto.tick(MILLI), Some(UpgradeBulletEvent::Damage));
    assert_eq!(auto.tick(9000 * MILLI), Some(UpgradeBulletEvent::Damage));
    // 9000 ms wrapped round to 1000 ms.
    assert_eq!(auto.tick(999 * MILLI), None);
    assert_eq!(auto.tick(MILLI), Some(UpgradeBulletEvent::Damage));
}

#[test]
fn paused_cooldown_does_not_run() {
    let (mut t, damage) = turret();
    t.firing = true;
    t.rate_of_fire.pause();
    assert_eq!(t.tick_and_fire(5000 * MILLI, &damage), None);
    assert_eq!(t.rate_of_fire.elapsed(), Duration::ZERO);
    assert!(!t.rate_of_fire.finished());
    t.rate_of_fire.unpause();
    assert!(t.tick_and_fire(1000 * MILLI, &damage).is_some());
    // A cooldown that is paused when it has run out stays run out.
    t.firing = false;
    assert_eq!(t.tick_and_fire(1000 * MILLI, &damage), None);
    t.rate_of_fire.pause();
    t.firing = true;
    assert!(t.tick_and_fire(0, &damage).is_some());
    assert!(t.rate_of_fire.paused());
    assert!(!t.rate_of_fire.finished());
}

#[test]
fn longest_steps_do_not_overflow() {
    let (mut t, damage) = turret();
    t.firing = true;
    assert!(t.tick_and_fire(u64::MAX, &damage).is_some());
    let mut auto = AutoUpgrade::new();
    assert_eq!(auto.tick(u64::MAX), Some(UpgradeBulletEvent::Damage));
    // 2^64 - 1 ns leave 1 709 551 615 ns on a timer of two seconds.
    assert_eq!(auto.tick(290_448_384), None);
    assert_eq!(auto.tick(1), Some(UpgradeBulletEvent::Damage));
}
