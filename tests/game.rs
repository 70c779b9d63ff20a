use ccg::card::{Card, CardEffect, Creature, Decks};
use ccg::engine::{self, Icon, Texture};
use ccg::field::ActionState;
use ccg::game::{GameState, make_deck, select_treasure};

fn named(id: &str, effect: CardEffect) -> Card {
    Card { id: id.to_string(), texture: Texture::new(1), effect }
}

fn monster(health: u32) -> Creature {
    Creature {
        icon: Icon::new(engine::BEHOLDER),
        health,
        max_health: None,
        attack: 1,
        coins: 0,
        rewards: Vec::new(),
        weapon: None,
        buffs: Vec::new(),
    }
}

fn coins(id: &str) -> Card {
    named(id, CardEffect::Coins { amount: 1 })
}

fn ids(cards: &[Card]) -> Vec<String> {
    cards.iter().map(|c| c.id.clone()).collect()
}

fn numbered(prefix: &str, n: usize) -> Vec<Card> {
    (0..n).map(|i| coins(&format!("{}{}", prefix, i))).collect()
}

#[test]
fn hand_is_drawn_from_the_end_of_the_deck() {
    let state = GameState::from_decks(numbered("d", 8), numbered("t", 2), named("boss", CardEffect::Enemy(monster(30))));
    assert_eq!(ids(&state.hand), vec!["d2", "d3", "d4", "d5", "d6", "d7"]);
    assert_eq!(ids(&state.deck), vec!["d0", "d1"]);
    assert!(state.preparing);
    assert!(state.drag.is_none());
}

#[test]
fn short_deck_draws_what_it_has() {
    let state = GameState::from_decks(numbered("d", 2), Vec::new(), named("boss", CardEffect::Empty));
    assert_eq!(ids(&state.hand), vec!["d0", "d1"]);
    assert!(state.deck.is_empty());
    assert!(state.field.cells.iter().all(|c| c.card.is_none()));
}

#[test]
fn draw_hand_stops_at_six() {
    let mut state = GameState::from_decks(numbered("d", 10), Vec::new(), named("boss", CardEffect::Empty));
    state.draw_hand();
    assert_eq!(state.hand.len(), 6);
    state.take_from_hand(0);
    state.drag = None;
    state.draw_hand();
    assert_eq!(ids(&state.hand), vec!["d3", "d5", "d6", "d7", "d8", "d9"]);
    assert_eq!(ids(&state.deck), vec!["d0", "d1", "d2"]);
}

#[test]
fn traps_fill_fixed_cells_from_the_end() {
    let mut traps = numbered("t", 5);
    traps.push(named("wolf", CardEffect::Enemy(monster(6))));
    let state = GameState::from_decks(Vec::new(), traps, named("boss", CardEffect::Empty));
    let cells = &state.field.cells;
    assert!(cells[0].card.is_none());
    assert_eq!(cells[2].card.as_ref().unwrap().id, "wolf");
    assert_eq!(cells[2].enemy.as_ref().unwrap().creature.health, 6);
    assert_eq!(cells[4].card.as_ref().unwrap().id, "t4");
    assert!(cells[4].enemy.is_none());
    assert_eq!(cells[6].card.as_ref().unwrap().id, "t3");
    assert_eq!(cells[7].card.as_ref().unwrap().id, "t2");
    for i in [1, 3, 5] {
        assert!(cells[i].card.is_none());
    }
    assert_eq!(ids(&state.trap_deck), vec!["t0", "t1"]);
}

#[test]
fn boss_waits_on_the_last_floor() {
    let state = GameState::from_decks(Vec::new(), Vec::new(), named("boss", CardEffect::Enemy(monster(30))));
    assert_eq!(state.pending_fields.len(), 3);
    let last = &state.pending_fields[2].cells[7];
    assert_eq!(last.card.as_ref().unwrap().id, "boss");
    assert_eq!(last.enemy.as_ref().unwrap().creature.health, 30);
    assert!(state.pending_fields[0].cells[7].card.is_none());
}

#[test]
fn cards_move_between_hand_and_cells() {
    let mut state = GameState::from_decks(numbered("d", 3), Vec::new(), named("boss", CardEffect::Empty));
    state.hand.push(named("imp", CardEffect::Enemy(monster(2))));
    state.take_from_hand(3);
    assert_eq!(state.drag.as_ref().unwrap().id, "imp");
    assert!(!state.drop_on_cell(2));
    assert!(!state.drop_on_cell(99));
    assert!(state.drop_on_cell(3));
    assert!(state.drag.is_none());
    assert_eq!(state.field.cells[3].card.as_ref().unwrap().id, "imp");
    assert_eq!(state.field.cells[3].enemy.as_ref().unwrap().creature.health, 2);
    assert!(!state.take_from_cell(2));
    assert!(state.take_from_cell(3));
    assert!(state.field.cells[3].card.is_none());
    assert!(state.field.cells[3].enemy.is_none());
    state.return_to_hand(0);
    assert_eq!(ids(&state.hand), vec!["imp", "d0", "d1", "d2"]);
}

#[test]
fn cells_are_locked_after_preparation() {
    let mut state = GameState::from_decks(numbered("d", 3), Vec::new(), named("boss", CardEffect::Empty));
    state.finish_preparing();
    state.take_from_hand(0);
    assert!(!state.drop_on_cell(1));
    assert!(state.drag.is_some());
}

#[test]
fn preparing_run_does_not_advance() {
    let mut state = GameState::from_decks(Vec::new(), Vec::new(), named("boss", CardEffect::Empty));
    state.advance(5000);
    assert_eq!(state.field.action, ActionState::Start);
}

#[test]
fn finished_floor_leads_to_the_next() {
    let mut state = GameState::from_decks(numbered("d", 9), numbered("t", 9), named("boss", CardEffect::Empty));
    state.take_from_hand(0);
    state.drag = None;
    state.finish_preparing();
    state.field.player.as_mut().unwrap().creature.creature.coins = 3;
    let mut n = 0;
    while state.pending_fields.len() == 3 {
        state.advance(100);
        n += 1;
        assert!(n < 10000);
    }
    assert!(state.preparing);
    assert_eq!(state.field.action, ActionState::Start);
    let p = state.field.player.as_ref().unwrap();
    assert_eq!(p.cell, 0);
    assert_eq!(p.creature.creature.coins >= 3, true);
    assert_eq!(state.hand.len(), 6);
    assert_eq!(state.pending_fields.len(), 2);
    assert!(state.field.cells[2].card.is_some());
}

#[test]
fn new_run_from_decks() {
    let decks = Decks {
        draw: numbered("d", 9),
        trap: numbered("t", 2),
        treasure: Vec::new(),
        boss: named("boss", CardEffect::Enemy(monster(30))),
    };
    let state = GameState::new(&decks);
    assert_eq!(state.hand.len(), 6);
    assert_eq!(state.deck.len(), 3);
    assert!(state.trap_deck.is_empty());
    assert_eq!(state.pending_fields[2].cells[7].card.as_ref().unwrap().id, "boss");
}

#[test]
fn deck_is_a_shuffled_copy() {
    let cards = numbered("c", 20);
    let deck = make_deck(&cards);
    let mut got = ids(&deck);
    got.sort();
    let mut want = ids(&cards);
    want.sort();
    assert_eq!(got, want);
}

#[test]
fn treasure_offers_three_distinct_cards() {
    let cards = vec![coins("a"), coins("b"), coins("a"), coins("c"), coins("d")];
    for _ in 0..20 {
        let picks = ids(&select_treasure(&cards));
        assert_eq!(picks.len(), 3);
        let mut unique = picks.clone();
        unique.sort();
        unique.dedup();
        assert_eq!(unique.len(), 3);
        assert!(picks.iter().all(|id| ["a", "b", "c", "d"].contains(&id.as_str())));
    }
}

#[test]
fn treasure_offers_fewer_when_ids_run_out() {
    let cards = vec![coins("a"), coins("a"), coins("b")];
    let mut picks = ids(&select_treasure(&cards));
    picks.sort();
    assert_eq!(picks, vec!["a", "b"]);
    assert!(select_treasure(&Vec::new()).is_empty());
}

#[test]
fn shuffling_changes_the_order() {
    let cards = numbered("c", 20);
    let moved = (0..5).any(|_| ids(&make_deck(&cards)) != ids(&cards));
    assert!(moved);
}

#[test]
fn card_copies_keep_id_and_effect() {
    let c = named("wolf", CardEffect::Buy { price: 2, effect: Box::new(CardEffect::Enemy(monster(4))) });
    let d = c.clone();
    assert_eq!(d.id, "wolf");
    assert_eq!(d.texture, c.texture);
    match d.effect {
        CardEffect::Buy { price, effect } => {
            assert_eq!(price, 2);
            match *effect {
                CardEffect::Enemy(m) => assert_eq!(m.health, 4),
                other => panic!("not an enemy: {:?}", other),
            }
        }
        other => panic!("not a purchase: {:?}", other),
    }
}
