use ccg::card::{Buff, BuffExpiration, BuffKind, Creature, Weapon};
use ccg::creature::{ActiveCreature, BuffEvent, surviving_buffs};
use ccg::engine::{self, Icon};

fn creature(health: u32, max_health: Option<u32>, attack: u32) -> Creature {
    Creature {
        icon: Icon::new(engine::BEHOLDER),
        health,
        max_health,
        attack,
        coins: 0,
        rewards: Vec::new(),
        weapon: None,
        buffs: Vec::new(),
    }
}

fn buff(kind: BuffKind, expiration: BuffExpiration) -> Buff {
    Buff { icon: Icon::new(engine::SWORD), kind, expiration }
}

fn weapon(damage: u32, durability: u32) -> Weapon {
    Weapon { icon: Icon::new(engine::RED_SWORD), damage, durability, price: 0 }
}

#[test]
fn heal_is_clamped_to_max_health() {
    let mut c = creature(3, Some(10), 1);
    for amount in [4, 0, 9, 1, u32::MAX] {
        c.heal(amount);
        assert!(c.health <= 10);
    }
    assert_eq!(c.health, 10);
}

#[test]
fn heal_adds_without_a_cap() {
    let mut c = creature(3, None, 1);
    c.heal(4);
    assert_eq!(c.health, 7);
    c.heal(u32::MAX);
    assert_eq!(c.health, u32::MAX);
}

#[test]
fn heal_below_cap_adds_exactly() {
    let mut c = creature(2, Some(10), 1);
    c.heal(5);
    assert_eq!(c.health, 7);
}

#[test]
fn attack_power_sums_base_buffs_and_weapon() {
    let mut c = creature(5, None, 4);
    c.buffs.push(buff(BuffKind::AttackBonus { damage: 2 }, BuffExpiration::Permanent));
    c.buffs.push(buff(BuffKind::NextAttackBonus { damage: 3 }, BuffExpiration::Permanent));
    c.buffs.push(buff(BuffKind::AttackBonus { damage: 2 }, BuffExpiration::Permanent));
    c.weapon = Some(weapon(5, 2));
    let a = ActiveCreature::from(c);
    assert_eq!(a.attack_power(), 16);
}

#[test]
fn attack_power_saturates() {
    let mut c = creature(5, None, u32::MAX - 1);
    c.weapon = Some(weapon(5, 2));
    let a = ActiveCreature::from(c);
    assert_eq!(a.attack_power(), u32::MAX);
}

#[test]
fn weapon_with_durability_one_breaks_after_one_attack() {
    let mut c = creature(5, None, 1);
    c.weapon = Some(weapon(3, 1));
    let mut a = ActiveCreature::from(c);
    a.spend_attack();
    assert!(a.creature.weapon.is_none());
}

#[test]
fn weapon_with_more_durability_wears_by_one() {
    let mut c = creature(5, None, 1);
    c.weapon = Some(weapon(3, 4));
    let mut a = ActiveCreature::from(c);
    a.spend_attack();
    assert_eq!(a.creature.weapon, Some(weapon(3, 3)));
    a.spend_attack();
    a.spend_attack();
    assert_eq!(a.creature.weapon, Some(weapon(3, 1)));
    a.spend_attack();
    assert!(a.creature.weapon.is_none());
}

#[test]
fn next_attack_bonus_counts_once() {
    let mut c = creature(5, None, 4);
    c.buffs.push(buff(BuffKind::NextAttackBonus { damage: 3 }, BuffExpiration::Permanent));
    let mut a = ActiveCreature::from(c);
    assert_eq!(a.attack_power(), 7);
    a.spend_attack();
    assert!(a.creature.buffs.is_empty());
    assert_eq!(a.attack_power(), 4);
}

#[test]
fn after_attack_buffs_expire_and_permanent_stay() {
    let mut c = creature(5, None, 1);
    let keep = buff(BuffKind::AttackBonus { damage: 1 }, BuffExpiration::Permanent);
    let hit = buff(BuffKind::AttackBonus { damage: 2 }, BuffExpiration::AfterBeingHit);
    c.buffs.push(keep);
    c.buffs.push(buff(BuffKind::AttackBonus { damage: 5 }, BuffExpiration::AfterAttack));
    c.buffs.push(hit);
    let mut a = ActiveCreature::from(c);
    a.spend_attack();
    assert_eq!(a.creature.buffs, vec![keep, hit]);
    a.take_hit(1);
    assert_eq!(a.creature.buffs, vec![keep]);
}

#[test]
fn surviving_buffs_keeps_order() {
    let a = buff(BuffKind::AttackBonus { damage: 1 }, BuffExpiration::Permanent);
    let b = buff(BuffKind::NextAttackBonus { damage: 1 }, BuffExpiration::Permanent);
    let c = buff(BuffKind::AttackBonus { damage: 3 }, BuffExpiration::AfterBeingHit);
    let all = vec![a, b, c, a];
    assert_eq!(surviving_buffs(&all, BuffEvent::Attacked), vec![a, c, a]);
    assert_eq!(surviving_buffs(&all, BuffEvent::Hit), vec![a, b, a]);
}

#[test]
fn lethal_damage_leaves_zero_health() {
    let mut a = ActiveCreature::from(creature(5, None, 1));
    a.take_hit(5);
    assert_eq!(a.creature.health, 0);
    let mut b = ActiveCreature::from(creature(5, None, 1));
    b.take_hit(u32::MAX);
    assert_eq!(b.creature.health, 0);
    let mut c = ActiveCreature::from(creature(5, None, 1));
    c.take_hit(2);
    assert_eq!(c.creature.health, 3);
}

#[test]
fn clone_keeps_stats() {
    let mut c = creature(5, Some(9), 2);
    c.weapon = Some(weapon(1, 1));
    c.buffs.push(buff(BuffKind::AttackBonus { damage: 1 }, BuffExpiration::Permanent));
    let d = c.clone();
    assert_eq!(d.health, 5);
    assert_eq!(d.max_health, Some(9));
    assert_eq!(d.weapon, c.weapon);
    assert_eq!(d.buffs, c.buffs);
}
