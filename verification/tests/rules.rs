use newton_survivor::bullet::{Bullet, CERTAIN};
use newton_survivor::health::{AppleStrength, Health};
use newton_survivor::score::{Currency, ScoreCounter, KILLS_PER_COIN, UPGRADE_PRICE};
use newton_survivor::turret_aiming::{sight, Sight};

#[test]
fn currency_starts_empty() {
    let c = Currency::default();
    assert_eq!(c.get(), 0);
}

#[test]
fn currency_add_and_reset() {
    let mut c = Currency::default();
    c.add(3);
    c.add(4);
    assert_eq!(c.get(), 7);
    c.add(u32::MAX - 7);
    assert_eq!(c.get(), u32::MAX);
    c.reset();
    assert_eq!(c.get(), 0);
}

#[test]
fn currency_spend_only_what_is_there() {
    let mut c = Currency::default();
    assert!(!c.spend(1));
    assert_eq!(c.get(), 0);
    assert!(c.spend(0));
    c.add(5);
    assert!(c.spend(2));
    assert_eq!(c.get(), 3);
    assert!(!c.spend(4));
    assert_eq!(c.get(), 3);
    assert!(c.spend(3));
    assert_eq!(c.get(), 0);
}

#[test]
fn every_tenth_kill_earns_a_coin() {
    assert_eq!(KILLS_PER_COIN, 10);
    assert_eq!(UPGRADE_PRICE, 1);
    let mut score = ScoreCounter::default();
    let mut currency = Currency::default();
    for kill in 1..=35usize {
        score.apple_killed(&mut currency);
        assert_eq!(score.points, kill);
        assert_eq!(currency.get() as usize, kill / 10);
    }
    assert_eq!(currency.get(), 3);
    score.reset();
    assert_eq!(score.points, 0);
    assert_eq!(currency.get(), 3);
}

#[test]
fn high_score_must_be_beaten() {
    let score = ScoreCounter { points: 12 };
    assert!(score.is_high_score(11));
    assert!(!score.is_high_score(12));
    assert!(!score.is_high_score(13));
}

#[test]
fn health_new_is_full() {
    assert_eq!(Health::new(5), Health { current: 5, max: 5 });
}

#[test]
fn health_limit_grows_with_health() {
    let mut h = Health { current: 2, max: 5 };
    h.increase_max(3);
    assert_eq!(h, Health { current: 5, max: 8 });
    h.set_max_to(10);
    assert_eq!(h, Health { current: 7, max: 10 });
    h.set_max_to(10);
    assert_eq!(h, Health { current: 7, max: 10 });
}

#[test]
fn damage_is_taken_off_or_kills() {
    let mut h = Health::new(5);
    assert!(!h.damage(2));
    assert_eq!(h, Health { current: 3, max: 5 });
    assert!(!h.damage(0));
    assert_eq!(h.current, 3);
    // A hit as hard as the health that is left kills, and leaves the health.
    assert!(h.damage(3));
    assert_eq!(h, Health { current: 3, max: 5 });
    assert!(h.damage(100));
    assert_eq!(h.current, 3);
    let mut gone = Health { current: 0, max: 1 };
    assert!(gone.damage(0));
}

#[test]
fn apples_are_as_strong_as_their_tree() {
    assert_eq!(
        AppleStrength::from_tree_level(4),
        AppleStrength { health: 4, damage: 4, speed: 4 }
    );
}

#[test]
fn bullet_split_halves_the_damage() {
    assert_eq!(CERTAIN, 1000);
    let b = Bullet::new(7, 250);
    assert_eq!(b, Bullet { damage: 7, split_probability: 250 });
    assert_eq!(b.split(), Bullet { damage: 3, split_probability: 1000 });
    assert_eq!(b.split().split(), Bullet { damage: 1, split_probability: 1000 });
    assert!(b.split().split().is_live());
    assert!(!b.split().split().split().is_live());
}

#[test]
fn sight_starts_far_out() {
    assert_eq!(sight(), Sight { x: 1_000_000, y: 0, z: 0 });
}
