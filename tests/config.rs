use ccg::card;
use ccg::config::{Buff, BuffExpiration, CardEffect, Decks, Icon, convert_buff, convert_effect, icon_index, names_unique};
use ccg::loader::{build_decks, find_card};
use ccg::engine::{self, TextureSet, flip_rows, make_transparent};
use ccg::views::{ButtonSpec, ButtonState};

#[test]
fn named_icons_map_to_atlas_cells() {
    assert_eq!(engine::Icon::from(Icon::Circle).index, 1);
    assert_eq!(engine::Icon::from(Icon::Sword).index, engine::SWORD);
    assert_eq!(engine::Icon::from(Icon::Chicken).index, 26);
}

#[test]
fn icon_names_map_to_atlas_cells() {
    assert_eq!(icon_index("sword"), 4);
    assert_eq!(icon_index("blue-beholder"), 16);
    assert_eq!(icon_index("red-sword"), 23);
}

#[test]
fn buff_definition_converts() {
    let b = convert_buff(Icon::Bang, &Buff::NextAttackBonus { bonus: 3 }, BuffExpiration::AfterAttack);
    assert_eq!(b.icon.index, engine::BANG);
    assert_eq!(b.kind, card::BuffKind::NextAttackBonus { damage: 3 });
    assert_eq!(b.expiration, card::BuffExpiration::AfterAttack);
}

#[test]
fn enemy_definition_converts_with_rewards() {
    let def = CardEffect::Enemy {
        icon: Icon::Beholder,
        attack: 2,
        health: 7,
        max_health: Some(9),
        coins: 4,
        rewards: vec![CardEffect::Heal { health: 2 }, CardEffect::Disarm],
    };
    match convert_effect(&def) {
        card::CardEffect::Enemy(c) => {
            assert_eq!(c.icon.index, engine::BEHOLDER);
            assert_eq!((c.attack, c.health, c.max_health, c.coins), (2, 7, Some(9), 4));
            assert!(c.weapon.is_none());
            assert!(c.buffs.is_empty());
            assert_eq!(c.rewards.len(), 2);
            assert!(matches!(c.rewards[0], card::CardEffect::Heal { health: 2 }));
            assert!(matches!(c.rewards[1], card::CardEffect::Disarm));
        }
        other => panic!("not an enemy: {:?}", other),
    }
}

#[test]
fn weapon_and_buy_definitions_convert() {
    let def = CardEffect::Buy {
        price: 5,
        effect: Box::new(CardEffect::Weapon { icon: Icon::Bow, damage: 3, durability: 2, price: 1 }),
    };
    match convert_effect(&def) {
        card::CardEffect::Buy { price, effect } => {
            assert_eq!(price, 5);
            match *effect {
                card::CardEffect::Weapon(w) => {
                    assert_eq!((w.icon.index, w.damage, w.durability, w.price), (engine::BOW, 3, 2, 1));
                }
                other => panic!("not a weapon: {:?}", other),
            }
        }
        other => panic!("not a purchase: {:?}", other),
    }
}

#[test]
fn key_colours_become_transparent() {
    let mut pixels = vec![163, 73, 164, 255, 1, 2, 3, 4, 200, 191, 231, 255, 163, 73, 164];
    make_transparent(&mut pixels);
    assert_eq!(pixels, vec![0, 0, 0, 0, 1, 2, 3, 4, 0, 0, 0, 0, 163, 73, 164]);
}

#[test]
fn texture_set_hands_out_indices() {
    let mut set: TextureSet<&str> = TextureSet::new();
    assert_eq!(set.add("a").index, 0);
    assert_eq!(set.add("b").index, 1);
    assert_eq!(set.textures, vec!["a", "b"]);
}

#[test]
fn button_specs_match_by_label_and_indent() {
    let a = ButtonSpec { text: "Play", state: ButtonState::Normal, on_click: 1, indent_level: 0 };
    let b = ButtonSpec { text: "Play", state: ButtonState::Selected, on_click: 2, indent_level: 0 };
    let c = ButtonSpec { text: "Play", state: ButtonState::Normal, on_click: 1, indent_level: 1 };
    let d = ButtonSpec { text: "Back", state: ButtonState::Normal, on_click: 1, indent_level: 0 };
    assert!(a.matches(&b));
    assert!(!a.matches(&c));
    assert!(!a.matches(&d));
}

#[test]
fn rows_are_flipped() {
    let mut data: Vec<u8> = (0..12).collect();
    flip_rows(&mut data, 4, 3);
    assert_eq!(data, vec![8, 9, 10, 11, 4, 5, 6, 7, 0, 1, 2, 3]);
    let mut even: Vec<u8> = vec![1, 2, 3, 4];
    flip_rows(&mut even, 1, 4);
    assert_eq!(even, vec![4, 3, 2, 1]);
}

fn defined_card(id: &str) -> card::Card {
    card::Card { id: id.to_string(), texture: engine::Texture::new(7), effect: card::CardEffect::Coins { amount: 1 } }
}

#[test]
fn decks_expand_counts_in_order() {
    let cards = vec![defined_card("a"), defined_card("b"), defined_card("boss")];
    let def = Decks {
        draw: vec![("b".to_string(), 2), ("a".to_string(), 1)],
        trap: vec![("a".to_string(), 0)],
        treasure: vec![("a".to_string(), 3)],
        boss: "boss".to_string(),
    };
    assert!(def.is_well_formed());
    let decks = build_decks(&cards, &def);
    let ids = |v: &Vec<card::Card>| v.iter().map(|c| c.id.clone()).collect::<Vec<_>>();
    assert_eq!(ids(&decks.draw), vec!["b", "b", "a"]);
    assert!(decks.trap.is_empty());
    assert_eq!(ids(&decks.treasure), vec!["a", "a", "a"]);
    assert_eq!(decks.boss.id, "boss");
    assert_eq!(decks.draw[0].texture, engine::Texture::new(7));
    assert_eq!(find_card(&cards, &"b".to_string()), Some(1));
    assert_eq!(find_card(&cards, &"z".to_string()), None);
}

#[test]
fn repeated_deck_names_are_detected() {
    assert!(names_unique(&vec![("a".to_string(), 1), ("b".to_string(), 1)]));
    assert!(!names_unique(&vec![("a".to_string(), 1), ("b".to_string(), 1), ("a".to_string(), 2)]));
    let def = Decks {
        draw: Vec::new(),
        trap: vec![("x".to_string(), 1), ("x".to_string(), 1)],
        treasure: Vec::new(),
        boss: "x".to_string(),
    };
    assert!(!def.is_well_formed());
}
