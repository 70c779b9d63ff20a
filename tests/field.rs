use ccg::card::{Buff, BuffExpiration, BuffKind, Card, CardEffect, Creature, Weapon};
use ccg::creature::ActiveCreature;
use ccg::engine::{self, Icon, Texture};
use ccg::field::{ActionState, Field, Player};

fn monster(health: u32, attack: u32, coins: u32) -> Creature {
    Creature {
        icon: Icon::new(engine::BEHOLDER),
        health,
        max_health: None,
        attack,
        coins,
        rewards: Vec::new(),
        weapon: None,
        buffs: Vec::new(),
    }
}

fn card(effect: CardEffect) -> Card {
    Card { id: "test".to_string(), texture: Texture::new(0), effect }
}

fn sword(price: u32) -> Weapon {
    Weapon { icon: Icon::new(engine::RED_SWORD), damage: 2, durability: 3, price }
}

fn player(field: &Field) -> &Creature {
    &field.player.as_ref().unwrap().creature.creature
}

fn player_mut(field: &mut Field) -> &mut Creature {
    &mut field.player.as_mut().unwrap().creature.creature
}

fn tick_until(field: &mut Field, dt: u32, limit: usize, done: impl Fn(&Field) -> bool) -> usize {
    for n in 0..limit {
        if done(field) {
            return n;
        }
        field.update_action(dt);
    }
    panic!("state not reached");
}

#[test]
fn new_field_layout() {
    let field = Field::new();
    assert_eq!(field.cells.len(), 8);
    assert_eq!(field.action, ActionState::Start);
    let p = field.player.as_ref().unwrap();
    assert_eq!(p.cell, 0);
    assert_eq!(p.creature.creature.health, 10);
    assert_eq!(p.creature.creature.max_health, Some(10));
    assert_eq!(p.creature.creature.attack, 4);
    assert_eq!(p.creature.creature.coins, 0);
    let fixed: Vec<bool> = field.cells.iter().map(|c| c.fixed).collect();
    assert_eq!(fixed, vec![true, false, true, false, true, false, true, true]);
    assert_eq!(field.cells[0].position, (170, 250));
    assert_eq!(field.cells[7].position, (170 + 180 * 7, 250));
    // floor 0, cell 1: (0 + 1 + 6 * 1) * 65 % 150 = 5
    assert_eq!(field.cells[1].position, (350, 105));
    // floor 0, cell 2: (0 + 2 + 7 * 2) * 65 % 150 = 140
    assert_eq!(field.cells[2].position, (530, 240));
}

#[test]
fn pending_field_layout_depends_on_index() {
    let a = Field::new_pending(1);
    assert!(a.player.is_none());
    // floor 1, cell 1: (1 + 1 + 6) * 65 % 150 = 70
    assert_eq!(a.cells[1].position.1, 170);
    let b = Field::new_pending(151);
    assert_eq!(b.cells[1].position.1, 170);
    let c = Field::new_pending(usize::MAX);
    assert_eq!(c.cells.len(), 8);
}

#[test]
fn path_terminates_at_last_cell() {
    let mut field = Field::new();
    field.action = ActionState::PlayerMove(0);
    for _ in 0..100 {
        field.update_action(100);
        assert!(field.player.as_ref().unwrap().cell <= 7);
    }
    assert!(matches!(field.action, ActionState::Finished(_)));
    assert_eq!(field.player.as_ref().unwrap().cell, 7);
}

#[test]
fn start_moves_then_arrives() {
    let mut field = Field::new();
    field.update_action(0);
    assert_eq!(field.action, ActionState::PlayerMove(0));
    field.update_action(1199);
    assert_eq!(field.action, ActionState::PlayerMove(1199));
    field.update_action(1);
    assert_eq!(field.player.as_ref().unwrap().cell, 1);
    assert_eq!(field.action, ActionState::PlayerMove(0));
}

#[test]
fn combat_exchange_two_player_attacks() {
    let mut field = Field::new();
    field.cells[1].enemy = Some(ActiveCreature::from(monster(10, 3, 0)));
    let mut cycles = 0;
    let mut previous = field.action;
    for _ in 0..1000 {
        field.update_action(100);
        if matches!(previous, ActionState::PlayerAttack(..))
            && !matches!(field.action, ActionState::PlayerAttack(..))
        {
            cycles += 1;
            if cycles == 2 {
                break;
            }
        }
        previous = field.action;
    }
    assert_eq!(cycles, 2);
    assert_eq!(field.cells[1].enemy.as_ref().unwrap().creature.health, 2);
    assert_eq!(player(&field).health, 7);
}

#[test]
fn kill_pays_coins_on_the_same_tick() {
    let mut field = Field::new();
    player_mut(&mut field).coins = 2;
    field.cells[1].enemy = Some(ActiveCreature::from(monster(4, 3, 5)));
    tick_until(&mut field, 100, 100, |f| matches!(f.action, ActionState::PlayerAttack(false, 400)));
    assert_eq!(player(&field).coins, 2);
    field.update_action(100);
    assert!(field.cells[1].enemy.is_none());
    assert_eq!(player(&field).coins, 7);
    tick_until(&mut field, 100, 100, |f| !matches!(f.action, ActionState::PlayerAttack(..)));
    assert_eq!(field.action, ActionState::PlayerMove(0));
}

#[test]
fn player_defeat_finishes_the_floor() {
    let mut field = Field::new();
    field.cells[1].enemy = Some(ActiveCreature::from(monster(100, 20, 0)));
    tick_until(&mut field, 100, 1000, |f| matches!(f.action, ActionState::Finished(_)));
    assert!(field.player.is_none());
    assert_eq!(field.cells[1].enemy.as_ref().unwrap().creature.health, 96);
}

#[test]
fn card_bonus_is_shown_then_walk_goes_on() {
    let mut field = Field::new();
    field.cells[1].card = Some(card(CardEffect::Coins { amount: 3 }));
    tick_until(&mut field, 100, 100, |f| matches!(f.action, ActionState::AcceptBonus(..)));
    assert_eq!(field.action, ActionState::AcceptBonus(0, Icon::new(engine::COIN)));
    assert_eq!(player(&field).coins, 3);
    field.update_action(599);
    assert!(matches!(field.action, ActionState::AcceptBonus(599, _)));
    field.update_action(1);
    assert_eq!(field.action, ActionState::PlayerMove(0));
}

#[test]
fn weapon_purchase_is_gated_by_coins() {
    let mut field = Field::new();
    player_mut(&mut field).coins = 4;
    let r = field.apply_effect(&CardEffect::Weapon(sword(5)));
    assert_eq!(r, Some(Icon::new(engine::CROSS)));
    assert_eq!(player(&field).coins, 4);
    assert!(player(&field).weapon.is_none());
    let r = field.apply_effect(&CardEffect::Weapon(sword(3)));
    assert_eq!(r, Some(Icon::new(engine::RED_SWORD)));
    assert_eq!(player(&field).coins, 1);
    assert_eq!(player(&field).weapon, Some(sword(3)));
}

#[test]
fn weapon_replaces_the_old_one() {
    let mut field = Field::new();
    player_mut(&mut field).weapon = Some(sword(0));
    let new = Weapon { icon: Icon::new(engine::BOW), damage: 7, durability: 1, price: 0 };
    field.apply_effect(&CardEffect::Weapon(new));
    assert_eq!(player(&field).weapon, Some(new));
}

#[test]
fn empty_effect_does_nothing() {
    let mut field = Field::new();
    assert_eq!(field.apply_effect(&CardEffect::Empty), None);
    assert_eq!(player(&field).health, 10);
}

#[test]
fn heal_effect_is_capped() {
    let mut field = Field::new();
    player_mut(&mut field).health = 4;
    assert_eq!(field.apply_effect(&CardEffect::Heal { health: 3 }), Some(Icon::new(engine::HEART)));
    assert_eq!(player(&field).health, 7);
    field.apply_effect(&CardEffect::Heal { health: 30 });
    assert_eq!(player(&field).health, 10);
}

#[test]
fn armor_raises_health_past_the_cap() {
    let mut field = Field::new();
    assert_eq!(field.apply_effect(&CardEffect::Armor { amount: 3 }), Some(Icon::new(engine::SHIELD)));
    assert_eq!(player(&field).health, 13);
}

#[test]
fn buffs_stack() {
    let mut field = Field::new();
    let b = Buff {
        icon: Icon::new(engine::BANG),
        kind: BuffKind::AttackBonus { damage: 2 },
        expiration: BuffExpiration::Permanent,
    };
    assert_eq!(field.apply_effect(&CardEffect::Buff(b)), Some(b.icon));
    field.apply_effect(&CardEffect::Buff(b));
    assert_eq!(player(&field).buffs, vec![b, b]);
    assert_eq!(field.player.as_ref().unwrap().creature.attack_power(), 8);
}

#[test]
fn heal_enemy_finds_the_first_monster_ahead() {
    let mut field = Field::new();
    field.player.as_mut().unwrap().cell = 2;
    field.cells[1].enemy = Some(ActiveCreature::from(monster(1, 1, 0)));
    field.cells[4].enemy = Some(ActiveCreature::from(monster(3, 1, 0)));
    field.cells[6].enemy = Some(ActiveCreature::from(monster(3, 1, 0)));
    let r = field.apply_effect(&CardEffect::HealEnemy { health: 2 });
    assert_eq!(r, Some(Icon::new(engine::GREEN_HEART)));
    assert_eq!(field.cells[1].enemy.as_ref().unwrap().creature.health, 1);
    assert_eq!(field.cells[4].enemy.as_ref().unwrap().creature.health, 5);
    assert_eq!(field.cells[6].enemy.as_ref().unwrap().creature.health, 3);
}

#[test]
fn heal_enemy_without_monsters_shows_nothing() {
    let mut field = Field::new();
    assert_eq!(field.apply_effect(&CardEffect::HealEnemy { health: 2 }), None);
}

#[test]
fn attack_card_hits_and_kills() {
    let mut field = Field::new();
    field.cells[3].enemy = Some(ActiveCreature::from(monster(9, 1, 4)));
    let r = field.apply_effect(&CardEffect::Attack { use_base: true, bonus: 1 });
    assert_eq!(r, Some(Icon::new(engine::BANG)));
    assert_eq!(field.cells[3].enemy.as_ref().unwrap().creature.health, 4);
    field.apply_effect(&CardEffect::Attack { use_base: false, bonus: 6 });
    assert!(field.cells[3].enemy.is_none());
    assert_eq!(player(&field).coins, 4);
}

#[test]
fn boss_buff_goes_to_the_last_cell() {
    let mut field = Field::new();
    let b = Buff {
        icon: Icon::new(engine::BANG),
        kind: BuffKind::AttackBonus { damage: 2 },
        expiration: BuffExpiration::Permanent,
    };
    assert_eq!(field.apply_effect(&CardEffect::BossBuff(b)), None);
    field.cells[7].enemy = Some(ActiveCreature::from(monster(9, 1, 4)));
    assert_eq!(field.apply_effect(&CardEffect::BossBuff(b)), Some(b.icon));
    assert_eq!(field.cells[7].enemy.as_ref().unwrap().creature.buffs, vec![b]);
}

#[test]
fn disarm_removes_the_weapon() {
    let mut field = Field::new();
    assert_eq!(field.apply_effect(&CardEffect::Disarm), None);
    player_mut(&mut field).weapon = Some(sword(0));
    assert_eq!(field.apply_effect(&CardEffect::Disarm), Some(Icon::new(engine::DISARM)));
    assert!(player(&field).weapon.is_none());
}

#[test]
fn buy_pays_then_applies() {
    let mut field = Field::new();
    player_mut(&mut field).coins = 5;
    let buy = CardEffect::Buy { price: 3, effect: Box::new(CardEffect::Coins { amount: 1 }) };
    assert_eq!(field.apply_effect(&buy), Some(Icon::new(engine::COIN)));
    assert_eq!(player(&field).coins, 3);
    let dear = CardEffect::Buy { price: 4, effect: Box::new(CardEffect::Heal { health: 1 }) };
    player_mut(&mut field).health = 5;
    assert_eq!(field.apply_effect(&dear), Some(Icon::new(engine::CROSS)));
    assert_eq!(player(&field).coins, 3);
    assert_eq!(player(&field).health, 5);
}

#[test]
fn defeated_monster_card_is_passed_over() {
    let mut field = Field::new();
    field.cells[1].card = Some(card(CardEffect::Enemy(monster(1, 1, 0))));
    field.player = Some(Player { creature: ActiveCreature::from(monster(10, 5, 0)), cell: 0 });
    field.update_action(0);
    field.update_action(1200);
    assert_eq!(field.action, ActionState::PlayerMove(0));
    assert_eq!(field.player.as_ref().unwrap().cell, 1);
}

#[test]
fn walk_takes_one_move_per_cell() {
    let mut field = Field::new();
    field.action = ActionState::PlayerMove(0);
    for _ in 0..83 {
        field.update_action(100);
    }
    assert!(matches!(field.action, ActionState::PlayerMove(_)));
    assert_eq!(field.player.as_ref().unwrap().cell, 6);
    field.update_action(100);
    assert_eq!(field.action, ActionState::Finished(0));
    assert_eq!(field.player.as_ref().unwrap().cell, 7);
}
