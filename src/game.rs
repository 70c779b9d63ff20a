use vstd::prelude::*;
use rand::seq::SliceRandom;
use crate::card::{Card, CardEffect, Decks};
use crate::creature::ActiveCreature;
use crate::field::{ActionState, Cell, Field, Player, FIELD_CELLS, starting_creature};

verus! {

/// Cards in a full hand.
pub const HAND_SIZE: usize = 6;
/// A finished floor is held this long (milliseconds) before the next one begins.
pub const FLOOR_HOLD: u32 = 500;
/// Floors after the first.
pub const PENDING_FLOORS: usize = 3;

/// `a` is a copy of card `b`: same id and texture, and a copy of its effect.
pub open spec fn card_copy(a: Card, b: Card) -> bool {
    &&& a.id == b.id
    &&& a.texture == b.texture
    &&& a.effect.copy_of(b.effect)
}

/// `c` is a copy of one of `cards`.
pub open spec fn copied_from(c: Card, cards: Seq<Card>) -> bool {
    exists|i: int| 0 <= i < cards.len() && card_copy(c, cards[i])
}

/// `a` holds a copy of each card of `b`, in the same order.
pub open spec fn copies(a: Seq<Card>, b: Seq<Card>) -> bool {
    &&& a.len() == b.len()
    &&& forall|i: int| 0 <= i < a.len() ==> card_copy(#[trigger] a[i], b[i])
}

/// `deck` holds a copy of each card of `cards`, in some order.
pub open spec fn shuffled_copy(deck: Seq<Card>, cards: Seq<Card>) -> bool {
    exists|c: Seq<Card>| copies(c, cards) && deck.to_multiset() == c.to_multiset()
}

/// Relies on rand's `SliceRandom::shuffle` with the thread-local generator, which only
/// swaps elements: the same cards come back, in some order.
#[verifier::external_body]
fn shuffle_cards(cards: &mut Vec<Card>)
    ensures
        final(cards)@.to_multiset() == old(cards)@.to_multiset(),
{
    cards.shuffle(&mut rand::thread_rng());
}

/// A shuffled copy of `cards`.
pub fn make_deck(cards: &Vec<Card>) -> (r: Vec<Card>)
    ensures
        shuffled_copy(r@, cards@),
{
    let mut deck: Vec<Card> = Vec::new();
    let mut i: usize = 0;
    while i < cards.len()
        invariant
            i <= cards@.len(),
            copies(deck@, cards@.take(i as int)),
        decreases cards@.len() - i,
    {
        deck.push(cards[i].clone());
        i += 1;
    }
    assert(cards@.take(cards@.len() as int) =~= cards@);
    shuffle_cards(&mut deck);
    deck
}

/// `after` is `before` with `card` put in it; a monster card's creature takes the cell.
pub open spec fn placed(before: Cell, after: Cell, card: Card) -> bool {
    &&& after == Cell { card: Some(card), enemy: after.enemy, ..before }
    &&& match card.effect {
        CardEffect::Enemy(c) => after.enemy is Some && after.enemy.unwrap().creature.same_stats(&c),
        _ => after.enemy is None,
    }
}

/// Puts `card` in `cell`.
pub fn place(cell: &mut Cell, card: Card)
    ensures
        placed(*old(cell), *final(cell), card),
{
    cell.enemy = match &card.effect {
        CardEffect::Enemy(c) => Some(ActiveCreature::from(c.clone())),
        _ => None,
    };
    cell.card = Some(card);
}

/// Cell `i` takes a trap: a fixed cell, past the start, with no card yet.
pub open spec fn trap_slot(cells: Seq<Cell>, i: int) -> bool {
    1 <= i < cells.len() && cells[i].fixed && cells[i].card is None
}

/// Number of trap slots before cell `i`.
pub open spec fn slots_before(cells: Seq<Cell>, i: int) -> nat
    decreases i,
{
    if i <= 0 {
        0
    } else {
        slots_before(cells, i - 1) + if trap_slot(cells, i - 1) { 1nat } else { 0nat }
    }
}

pub open spec fn min(a: int, b: int) -> int {
    if a < b { a } else { b }
}

/// Traps are dealt from the end of the trap deck to the trap slots in path order, until
/// either runs out.
pub open spec fn dealt(cells: Seq<Cell>, traps: Seq<Card>, cells2: Seq<Cell>, traps2: Seq<Card>) -> bool {
    let n = traps.len() as int;
    let k = min(slots_before(cells, cells.len() as int) as int, n);
    &&& traps2 == traps.take(n - k)
    &&& cells2.len() == cells.len()
    &&& forall|i: int|
        0 <= i < cells.len() ==> if trap_slot(cells, i) && slots_before(cells, i) < n {
            placed(cells[i], #[trigger] cells2[i], traps[n - 1 - slots_before(cells, i)])
        } else {
            cells2[i] == cells[i]
        }
}

/// Cards that refilling a hand of `hand_len` draws from a deck of `deck_len`.
pub open spec fn draw_count(hand_len: int, deck_len: int) -> int {
    if hand_len >= HAND_SIZE {
        0
    } else {
        min(HAND_SIZE - hand_len, deck_len)
    }
}

/// The hand is refilled from the end of the deck; each card drawn goes to the front.
pub open spec fn drawn(deck: Seq<Card>, hand: Seq<Card>, deck2: Seq<Card>, hand2: Seq<Card>) -> bool {
    let n = deck.len() as int;
    let k = draw_count(hand.len() as int, n);
    &&& deck2 == deck.take(n - k)
    &&& hand2 == deck.subrange(n - k, n) + hand
}

/// Deals traps from `traps` into `cells`.
pub fn deal_traps(cells: &mut Vec<Cell>, traps: &mut Vec<Card>)
    ensures
        dealt(old(cells)@, old(traps)@, final(cells)@, final(traps)@),
{
    let ghost cells0 = cells@;
    let ghost traps0 = traps@;
    let ghost n = traps0.len() as int;
    let mut i: usize = 1;
    if cells.len() == 0 {
        assert(traps@ =~= traps0.take(n));
        return;
    }
    assert(slots_before(cells0, 0) == 0);
    assert(slots_before(cells0, 1) == 0);
    assert(traps@ =~= traps0.take(n));
    while i < cells.len()
        invariant
            n == traps0.len(),
            1 <= i <= cells0.len(),
            cells@.len() == cells0.len(),
            traps@ == traps0.take(n - min(slots_before(cells0, i as int) as int, n)),
            forall|j: int|
                0 <= j < i ==> if trap_slot(cells0, j) && slots_before(cells0, j) < n {
                    placed(cells0[j], #[trigger] cells@[j], traps0[n - 1 - slots_before(cells0, j)])
                } else {
                    cells@[j] == cells0[j]
                },
            forall|j: int| i <= j < cells0.len() ==> #[trigger] cells@[j] == cells0[j],
        decreases cells0.len() - i,
    {
        let ghost s = slots_before(cells0, i as int) as int;
        let ghost before = traps@;
        assert(before.len() == n - min(s, n));
        let slot = cells[i].fixed && cells[i].card.is_none();
        if slot {
            if let Some(card) = traps.pop() {
                assert(s < n);
                assert(before[before.len() - 1] == traps0[n - 1 - s]);
                assert(card == traps0[n - 1 - s]);
                place(&mut cells[i], card);
            }
        }
        assert(slots_before(cells0, i + 1) == s + if trap_slot(cells0, i as int) { 1int } else { 0int });
        assert(traps@ =~= traps0.take(n - min(slots_before(cells0, i + 1) as int, n)));
        i += 1;
    }
}


/// A run: the floor in play, the floors still to come, and the player's cards.
#[derive(Debug)]
pub struct GameState {
    pub field: Field,
    pub pending_fields: Vec<Field>,
    pub deck: Vec<Card>,
    pub trap_deck: Vec<Card>,
    pub discards: Vec<Card>,
    pub trap_discards: Vec<Card>,
    pub hand: Vec<Card>,
    /// The card being dragged, out of the hand or off a cell.
    pub drag: Option<Card>,
    /// Between floors: cards may be placed, the floor does not run.
    pub preparing: bool,
}

/// A floor that waits for the player.
pub open spec fn waiting(f: Field) -> bool {
    &&& f.player is None
    &&& f.action == ActionState::Start
    &&& f.cells@.len() >= 1
}

impl GameState {
    pub open spec fn valid(self) -> bool {
        &&& self.field.valid()
        &&& self.preparing ==> self.field.action == ActionState::Start
        &&& forall|k: int| 0 <= k < self.pending_fields@.len() ==> waiting(#[trigger] self.pending_fields@[k])
    }

    /// The floor in play is over and another one waits: the player goes on to it.
    pub open spec fn floor_done(self) -> bool {
        &&& self.field.action matches ActionState::Finished(t) && t >= FLOOR_HOLD
        &&& self.field.player is Some
        &&& self.pending_fields@.len() > 0
    }

    /// What `enter_next_floor` does.
    pub open spec fn entered(before: GameState, after: GameState) -> bool {
        if before.floor_done() {
            let next = before.pending_fields@[0];
            let p = before.field.player.unwrap();
            &&& after.pending_fields@ == before.pending_fields@.drop_first()
            &&& after.preparing
            &&& after.field.player == Some(Player { cell: 0, ..p })
            &&& after.field.action == next.action
            &&& dealt(next.cells@, before.trap_deck@, after.field.cells@, after.trap_deck@)
            &&& drawn(before.deck@, before.hand@, after.deck@, after.hand@)
            &&& after.discards == before.discards
            &&& after.trap_discards == before.trap_discards
            &&& after.drag == before.drag
        } else {
            after == before
        }
    }

    /// Refills the hand to `HAND_SIZE` from the end of the deck, as far as the deck goes.
    pub fn draw_hand(&mut self)
        ensures
            drawn(old(self).deck@, old(self).hand@, final(self).deck@, final(self).hand@),
            final(self).field == old(self).field,
            final(self).pending_fields == old(self).pending_fields,
            final(self).trap_deck == old(self).trap_deck,
            final(self).discards == old(self).discards,
            final(self).trap_discards == old(self).trap_discards,
            final(self).drag == old(self).drag,
            final(self).preparing == old(self).preparing,
    {
        let ghost deck0 = self.deck@;
        let ghost hand0 = self.hand@;
        let ghost n = deck0.len() as int;
        while self.hand.len() < HAND_SIZE
            invariant
                n == deck0.len(),
                self.deck@ == deck0.take(self.deck@.len() as int),
                self.deck@.len() <= n,
                self.hand@ == deck0.subrange(self.deck@.len() as int, n) + hand0,
                hand0.len() < HAND_SIZE ==> self.hand@.len() <= HAND_SIZE,
                hand0.len() >= HAND_SIZE ==> self.deck@.len() == n,
                self.field == old(self).field,
                self.pending_fields == old(self).pending_fields,
                self.trap_deck == old(self).trap_deck,
                self.discards == old(self).discards,
                self.trap_discards == old(self).trap_discards,
                self.drag == old(self).drag,
                self.preparing == old(self).preparing,
            ensures
                self.hand@.len() >= HAND_SIZE || (self.deck@.len() == 0 && self.hand@.len()
                    < HAND_SIZE),
            decreases self.deck@.len(),
        {
            let ghost d = self.deck@.len() as int;
            match self.deck.pop() {
                Some(card) => {
                    assert(card == deck0[d - 1]);
                    self.hand.insert(0, card);
                    assert(self.deck@ =~= deck0.take(d - 1));
                    assert(self.hand@ =~= deck0.subrange(d - 1, n) + hand0);
                },
                None => {
                    break;
                },
            }
        }
        assert(self.hand@.len() == hand0.len() + n - self.deck@.len());
        assert(n - self.deck@.len() == draw_count(hand0.len() as int, n));
    }

    /// Deals traps from the trap deck onto the floor in play.
    pub fn draw_traps(&mut self)
        ensures
            dealt(old(self).field.cells@, old(self).trap_deck@, final(self).field.cells@, final(self).trap_deck@),
            final(self).field.player == old(self).field.player,
            final(self).field.action == old(self).field.action,
            final(self).pending_fields == old(self).pending_fields,
            final(self).deck == old(self).deck,
            final(self).hand == old(self).hand,
            final(self).discards == old(self).discards,
            final(self).trap_discards == old(self).trap_discards,
            final(self).drag == old(self).drag,
            final(self).preparing == old(self).preparing,
    {
        deal_traps(&mut self.field.cells, &mut self.trap_deck);
    }

    /// Once the floor in play has been finished for `FLOOR_HOLD` with the player alive,
    /// moves the player to the start of the next floor and gets it ready.
    pub fn enter_next_floor(&mut self)
        requires
            old(self).valid(),
        ensures
            final(self).valid(),
            GameState::entered(*old(self), *final(self)),
    {
        let done = match self.field.action {
            ActionState::Finished(t) => t >= FLOOR_HOLD,
            _ => false,
        } && self.field.player.is_some() && self.pending_fields.len() > 0;
        if !done {
            return;
        }
        let ghost before = *self;
        let next = self.pending_fields.remove(0);
        let player = self.field.player.take();
        self.field = next;
        if let Some(p) = player {
            self.field.player = Some(Player { creature: p.creature, cell: 0 });
        }
        self.preparing = true;
        self.draw_hand();
        self.draw_traps();
        proof {
            assert forall|k: int| 0 <= k < self.pending_fields@.len() implies waiting(
                #[trigger] self.pending_fields@[k],
            ) by {
                assert(self.pending_fields@[k] == before.pending_fields@[k + 1]);
            }
        }
    }

    /// Advances the run by `dt` milliseconds of game time: outside preparation the floor
    /// runs, and a floor that is done gives way to the next.
    pub fn advance(&mut self, dt: u32)
        requires
            old(self).valid(),
        ensures
            final(self).valid(),
            old(self).preparing ==> *final(self) == *old(self),
            !old(self).preparing ==> exists|mid: Field|
                Field::stepped(old(self).field, dt, mid) && GameState::entered(
                    GameState { field: mid, ..*old(self) },
                    *final(self),
                ),
    {
        if self.preparing {
            return;
        }
        self.field.update_action(dt);
        let ghost mid = *self;
        self.enter_next_floor();
        assert(Field::stepped(old(self).field, dt, mid.field));
    }

    /// Ends preparation: the floor starts to run.
    pub fn finish_preparing(&mut self)
        ensures
            *final(self) == (GameState { preparing: false, ..*old(self) }),
    {
        self.preparing = false;
    }
}


/// The cells of a new floor `index`.
pub open spec fn fresh_floor(index: int) -> Seq<Cell> {
    Seq::new(FIELD_CELLS as nat, |i: int| Field::fresh_cell(index, i))
}

impl GameState {
    /// Only the cells, the hand and the dragged card differ.
    pub open spec fn same_but_cards(before: GameState, after: GameState) -> bool {
        after == GameState {
            field: Field { cells: after.field.cells, ..before.field },
            hand: after.hand,
            drag: after.drag,
            ..before
        }
    }

    /// Picks up card `index` of the hand.
    pub fn take_from_hand(&mut self, index: usize)
        requires
            old(self).drag is None,
            index < old(self).hand@.len(),
        ensures
            final(self).drag == Some(old(self).hand@[index as int]),
            final(self).hand@ == old(self).hand@.remove(index as int),
            *final(self) == (GameState { hand: final(self).hand, drag: final(self).drag, ..*old(self) }),
    {
        let card = self.hand.remove(index);
        self.drag = Some(card);
    }

    /// Puts the dragged card back in the hand, at `index`.
    pub fn return_to_hand(&mut self, index: usize)
        requires
            old(self).drag is Some,
            index <= old(self).hand@.len(),
        ensures
            final(self).drag is None,
            final(self).hand@ == old(self).hand@.insert(index as int, old(self).drag.unwrap()),
            *final(self) == (GameState { hand: final(self).hand, drag: final(self).drag, ..*old(self) }),
    {
        if let Some(card) = self.drag.take() {
            self.hand.insert(index, card);
        }
    }

    /// While preparing, picks up the card of free cell `index`, with its monster if it has
    /// one. Returns whether it did.
    pub fn take_from_cell(&mut self, index: usize) -> (r: bool)
        ensures
            r == (old(self).preparing && old(self).drag is None && index < old(self).field.cells@.len()
                && !old(self).field.cells@[index as int].fixed && old(self).field.cells@[index as int].card is Some),
            r ==> {
                let cell = old(self).field.cells@[index as int];
                &&& final(self).drag == cell.card
                &&& final(self).field.cells@ == old(self).field.cells@.update(
                    index as int,
                    Cell { card: None, enemy: None, ..cell },
                )
                &&& final(self).hand == old(self).hand
                &&& GameState::same_but_cards(*old(self), *final(self))
            },
            !r ==> *final(self) == *old(self),
            old(self).valid() ==> final(self).valid(),
    {
        if !self.preparing || self.drag.is_some() || index >= self.field.cells.len() {
            return false;
        }
        if self.field.cells[index].fixed || self.field.cells[index].card.is_none() {
            return false;
        }
        let card = self.field.cells[index].card.take();
        self.field.cells[index].enemy = None;
        self.drag = card;
        true
    }

    /// While preparing, puts the dragged card on free, empty cell `index`. Returns whether
    /// it did; if not, the card stays in the drag.
    pub fn drop_on_cell(&mut self, index: usize) -> (r: bool)
        ensures
            r == (old(self).preparing && old(self).drag is Some && index < old(self).field.cells@.len()
                && !old(self).field.cells@[index as int].fixed && old(self).field.cells@[index as int].card is None),
            r ==> {
                &&& final(self).drag is None
                &&& final(self).field.cells@ == old(self).field.cells@.update(
                    index as int,
                    final(self).field.cells@[index as int],
                )
                &&& placed(
                    old(self).field.cells@[index as int],
                    final(self).field.cells@[index as int],
                    old(self).drag.unwrap(),
                )
                &&& final(self).hand == old(self).hand
                &&& GameState::same_but_cards(*old(self), *final(self))
            },
            !r ==> *final(self) == *old(self),
            old(self).valid() ==> final(self).valid(),
    {
        if !self.preparing || self.drag.is_none() || index >= self.field.cells.len() {
            return false;
        }
        if self.field.cells[index].fixed || self.field.cells[index].card.is_some() {
            return false;
        }
        if let Some(card) = self.drag.take() {
            place(&mut self.field.cells[index], card);
        }
        true
    }

    /// A run over the given decks, already shuffled, with `boss` at the end of the last floor.
    pub fn from_decks(deck: Vec<Card>, trap_deck: Vec<Card>, boss: Card) -> (r: GameState)
        ensures
            r.valid(),
            r.preparing,
            r.drag is None,
            r.discards@.len() == 0,
            r.trap_discards@.len() == 0,
            drawn(deck@, Seq::empty(), r.deck@, r.hand@),
            dealt(fresh_floor(0), trap_deck@, r.field.cells@, r.trap_deck@),
            r.field.player is Some,
            r.field.player.unwrap().cell == 0,
            starting_creature(r.field.pc()),
            r.field.action == ActionState::Start,
            r.pending_fields@.len() == PENDING_FLOORS,
            forall|k: int| 0 <= k < PENDING_FLOORS - 1 ==> #[trigger] r.pending_fields@[k].cells@ == fresh_floor(k + 1),
            r.pending_fields@[PENDING_FLOORS - 1].cells@ == fresh_floor(PENDING_FLOORS as int).update(
                FIELD_CELLS - 1,
                r.pending_fields@[PENDING_FLOORS - 1].cells@[FIELD_CELLS - 1],
            ),
            placed(
                Field::fresh_cell(PENDING_FLOORS as int, FIELD_CELLS - 1),
                r.pending_fields@[PENDING_FLOORS - 1].cells@[FIELD_CELLS - 1],
                boss,
            ),
    {
        let mut last = Field::new_pending(3);
        place(&mut last.cells[7], boss);
        let mut pending_fields: Vec<Field> = Vec::new();
        pending_fields.push(Field::new_pending(1));
        pending_fields.push(Field::new_pending(2));
        pending_fields.push(last);
        let field = Field::new();
        assert(field.cells@ =~= fresh_floor(0));
        assert(pending_fields@[0].cells@ =~= fresh_floor(1));
        assert(pending_fields@[1].cells@ =~= fresh_floor(2));
        assert(pending_fields@[2].cells@ =~= fresh_floor(3).update(7, pending_fields@[2].cells@[7]));
        let mut state = GameState {
            field,
            pending_fields,
            deck,
            trap_deck,
            discards: Vec::new(),
            trap_discards: Vec::new(),
            hand: Vec::new(),
            drag: None,
            preparing: true,
        };
        assert(state.hand@ =~= Seq::empty());
        state.draw_hand();
        state.draw_traps();
        state
    }

    /// A new run: the draw and trap decks are shuffled copies of `decks`' lists, the boss
    /// waits at the end of the last floor, the hand is drawn and the first traps are dealt.
    pub fn new(decks: &Decks) -> (r: GameState)
        ensures
            r.valid(),
            r.preparing,
            r.drag is None,
            r.discards@.len() == 0,
            r.trap_discards@.len() == 0,
            exists|d: Seq<Card>, t: Seq<Card>|
                shuffled_copy(d, decks.draw@) && shuffled_copy(t, decks.trap@) && drawn(
                    d,
                    Seq::empty(),
                    r.deck@,
                    r.hand@,
                ) && dealt(fresh_floor(0), t, r.field.cells@, r.trap_deck@),
            r.hand@.len() == min(HAND_SIZE as int, decks.draw@.len() as int),
            r.hand@.len() + r.deck@.len() == decks.draw@.len(),
            r.field.player is Some,
            r.field.player.unwrap().cell == 0,
            starting_creature(r.field.pc()),
            r.field.action == ActionState::Start,
            r.pending_fields@.len() == PENDING_FLOORS,
            forall|k: int| 0 <= k < PENDING_FLOORS - 1 ==> #[trigger] r.pending_fields@[k].cells@ == fresh_floor(k + 1),
            r.pending_fields@[PENDING_FLOORS - 1].cells@ == fresh_floor(PENDING_FLOORS as int).update(
                FIELD_CELLS - 1,
                r.pending_fields@[PENDING_FLOORS - 1].cells@[FIELD_CELLS - 1],
            ),
            r.pending_fields@[PENDING_FLOORS - 1].cells@[FIELD_CELLS - 1].card matches Some(b) && card_copy(
                b,
                decks.boss,
            ) && placed(
                Field::fresh_cell(PENDING_FLOORS as int, FIELD_CELLS - 1),
                r.pending_fields@[PENDING_FLOORS - 1].cells@[FIELD_CELLS - 1],
                b,
            ),
    {
        let deck = make_deck(&decks.draw);
        let trap_deck = make_deck(&decks.trap);
        let boss = decks.boss.clone();
        let ghost d = deck@;
        let ghost t = trap_deck@;
        proof {
            let c = choose|c: Seq<Card>| copies(c, decks.draw@) && deck@.to_multiset() == c.to_multiset();
            assert(deck@.len() == decks.draw@.len()) by {
                deck@.to_multiset_ensures();
                c.to_multiset_ensures();
            }
        }
        let r = GameState::from_decks(deck, trap_deck, boss);
        assert(shuffled_copy(d, decks.draw@) && shuffled_copy(t, decks.trap@) && drawn(
            d,
            Seq::empty(),
            r.deck@,
            r.hand@,
        ) && dealt(fresh_floor(0), t, r.field.cells@, r.trap_deck@));
        r
    }
}


/// Number of treasure cards offered.
pub const TREASURE_PICKS: usize = 3;

/// Relies on `rand::random::<usize>`: any value may come back.
#[verifier::external_body]
fn random_usize() -> usize {
    rand::random::<usize>()
}

/// No card of `picks` has the id of `c`.
pub open spec fn unpicked(picks: Seq<Card>, c: Card) -> bool {
    forall|j: int| 0 <= j < picks.len() ==> (#[trigger] picks[j]).id@ != c.id@
}

/// Indices of the cards whose id no card of `picks` has.
fn candidates(cards: &Vec<Card>, picks: &Vec<Card>) -> (r: Vec<usize>)
    ensures
        forall|k: int| 0 <= k < r@.len() ==> (#[trigger] r@[k]) < cards@.len() && unpicked(picks@, cards@[r@[k] as int]),
        forall|i: int| 0 <= i < cards@.len() && unpicked(picks@, cards@[i]) ==> exists|k: int| 0 <= k < r@.len() && r@[k] == i,
{
    let mut r: Vec<usize> = Vec::new();
    let mut i: usize = 0;
    while i < cards.len()
        invariant
            i <= cards@.len(),
            forall|k: int| 0 <= k < r@.len() ==> (#[trigger] r@[k]) < i && unpicked(picks@, cards@[r@[k] as int]),
            forall|m: int| 0 <= m < i && unpicked(picks@, cards@[m]) ==> exists|k: int| 0 <= k < r@.len() && r@[k] == m,
        decreases cards@.len() - i,
    {
        let mut fresh = true;
        let mut j: usize = 0;
        while j < picks.len()
            invariant
                i < cards@.len(),
                j <= picks@.len(),
                fresh == forall|q: int| 0 <= q < j ==> (#[trigger] picks@[q]).id@ != cards@[i as int].id@,
            decreases picks@.len() - j,
        {
            if picks[j].id == cards[i].id {
                fresh = false;
            }
            j += 1;
        }
        let ghost r0 = r@;
        if fresh {
            r.push(i);
        }
        proof {
            assert forall|m: int| 0 <= m < i + 1 && unpicked(picks@, cards@[m]) implies exists|k: int|
                0 <= k < r@.len() && r@[k] == m by {
                if m == i {
                    assert(r@[r@.len() - 1] == i);
                } else {
                    let k = choose|k: int| 0 <= k < r0.len() && r0[k] == m;
                    assert(r@[k] == m);
                }
            }
        }
        i += 1;
    }
    r
}

/// Up to `TREASURE_PICKS` copies of cards of `cards`, chosen at random, no two with the
/// same id.
/// Fewer come back only when every id of `cards` is among them.
pub fn select_treasure(cards: &Vec<Card>) -> (r: Vec<Card>)
    ensures
        r@.len() <= TREASURE_PICKS,
        forall|a: int, b: int| 0 <= a < b < r@.len() ==> (#[trigger] r@[a]).id@ != (#[trigger] r@[b]).id@,
        forall|a: int| 0 <= a < r@.len() ==> copied_from(#[trigger] r@[a], cards@),
        r@.len() < TREASURE_PICKS ==> forall|i: int| 0 <= i < cards@.len() ==> !unpicked(r@, #[trigger] cards@[i]),
{
    let mut picks: Vec<Card> = Vec::new();
    while picks.len() < TREASURE_PICKS
        invariant
            picks@.len() <= TREASURE_PICKS,
            forall|a: int, b: int| 0 <= a < b < picks@.len() ==> (#[trigger] picks@[a]).id@ != (#[trigger] picks@[b]).id@,
            forall|a: int| 0 <= a < picks@.len() ==> copied_from(#[trigger] picks@[a], cards@),
        ensures
            picks@.len() < TREASURE_PICKS ==> forall|i: int| 0 <= i < cards@.len() ==> !unpicked(picks@, #[trigger] cards@[i]),
        decreases TREASURE_PICKS - picks@.len(),
    {
        let open = candidates(cards, &picks);
        if open.len() == 0 {
            assert forall|i: int| 0 <= i < cards@.len() implies !unpicked(picks@, #[trigger] cards@[i]) by {
                if unpicked(picks@, cards@[i]) {
                    let k = choose|k: int| 0 <= k < open@.len() && open@[k] == i;
                }
            }
            break;
        }
        let roll = random_usize();
        let k = roll % open.len();
        let index = open[k];
        let pick = cards[index].clone();
        proof {
            assert(unpicked(picks@, cards@[index as int]));
        }
        let ghost before = picks@;
        picks.push(pick);
        proof {
            assert forall|a: int, b: int| 0 <= a < b < picks@.len() implies (#[trigger] picks@[a]).id@
                != (#[trigger] picks@[b]).id@ by {
                if b == picks@.len() - 1 {
                    assert(before[a] == picks@[a]);
                } else {
                    assert(before[a] == picks@[a] && before[b] == picks@[b]);
                }
            }
            assert forall|a: int| 0 <= a < picks@.len() implies copied_from(#[trigger] picks@[a], cards@) by {
                if a == picks@.len() - 1 {
                    assert(card_copy(picks@[a], cards@[index as int]));
                } else {
                    assert(before[a] == picks@[a]);
                }
            }
        }
    }
    picks
}

} // verus!
