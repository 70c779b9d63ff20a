use vstd::prelude::*;
use crate::card::{Card, Decks};
use crate::config;
use crate::game::card_copy;

verus! {

/// Some card of `cards` is called `name`.
pub open spec fn defined(cards: Seq<Card>, name: Seq<char>) -> bool {
    exists|i: int| 0 <= i < cards.len() && cards[i].id@ == name
}

/// Every name of `list` is defined in `cards`.
pub open spec fn all_defined(cards: Seq<Card>, list: Seq<(String, u32)>) -> bool {
    forall|j: int| 0 <= j < list.len() ==> defined(cards, (#[trigger] list[j]).0@)
}

/// The card names of a deck: each name of `list` as many times as its count, in order.
pub open spec fn deck_names(list: Seq<(String, u32)>) -> Seq<Seq<char>>
    decreases list.len(),
{
    if list.len() == 0 {
        Seq::empty()
    } else {
        deck_names(list.drop_last()) + Seq::new(list.last().1 as nat, |k: int| list.last().0@)
    }
}

/// `c` is a copy of a card of `cards` called `name`.
pub open spec fn copy_named(cards: Seq<Card>, name: Seq<char>, c: Card) -> bool {
    exists|i: int| 0 <= i < cards.len() && cards[i].id@ == name && card_copy(c, cards[i])
}

/// `deck` holds, in order, a copy of the card of `cards` named by each entry of `names`.
pub open spec fn deck_of(cards: Seq<Card>, names: Seq<Seq<char>>, deck: Seq<Card>) -> bool {
    &&& deck.len() == names.len()
    &&& forall|k: int| 0 <= k < deck.len() ==> copy_named(cards, names[k], #[trigger] deck[k])
}

/// Index of a card called `name`.
pub fn find_card(cards: &Vec<Card>, name: &String) -> (r: Option<usize>)
    ensures
        r matches Some(i) ==> i < cards@.len() && cards@[i as int].id@ == name@,
        r is None ==> !defined(cards@, name@),
{
    let mut i: usize = 0;
    while i < cards.len()
        invariant
            i <= cards@.len(),
            forall|j: int| 0 <= j < i ==> (#[trigger] cards@[j]).id@ != name@,
        decreases cards@.len() - i,
    {
        if cards[i].id == *name {
            return Some(i);
        }
        i += 1;
    }
    None
}

/// A deck with `count` copies of each card of `list`, in the order of `list`.
pub fn expand_deck(cards: &Vec<Card>, list: &Vec<(String, u32)>) -> (r: Vec<Card>)
    requires
        all_defined(cards@, list@),
    ensures
        deck_of(cards@, deck_names(list@), r@),
{
    let mut deck: Vec<Card> = Vec::new();
    let mut j: usize = 0;
    assert(deck_names(list@.take(0)) =~= Seq::<Seq<char>>::empty());
    while j < list.len()
        invariant
            j <= list@.len(),
            all_defined(cards@, list@),
            deck_of(cards@, deck_names(list@.take(j as int)), deck@),
        decreases list@.len() - j,
    {
        let ghost base = deck_names(list@.take(j as int));
        assert(defined(cards@, list@[j as int].0@));
        let i = match find_card(cards, &list[j].0) {
            Some(i) => i,
            None => {
                assert(false);
                0
            },
        };
        let count = list[j].1;
        let mut c: u32 = 0;
        while c < count
            invariant
                c <= count,
                i < cards@.len(),
                cards@[i as int].id@ == list@[j as int].0@,
                deck_of(
                    cards@,
                    base + Seq::new(c as nat, |k: int| list@[j as int].0@),
                    deck@,
                ),
            decreases count - c,
        {
            let ghost before = deck@;
            deck.push(cards[i].clone());
            proof {
                let name = list@[j as int].0@;
                let old_names = base + Seq::new(c as nat, |k: int| name);
                let names = base + Seq::new((c + 1) as nat, |k: int| name);
                assert forall|k: int| 0 <= k < deck@.len() implies copy_named(cards@, names[k], #[trigger] deck@[k]) by {
                    if k == deck@.len() - 1 {
                        assert(names[k] == name);
                        assert(card_copy(deck@[k], cards@[i as int]));
                    } else {
                        assert(deck@[k] == before[k]);
                        assert(names[k] == old_names[k]);
                        assert(copy_named(cards@, old_names[k], before[k]));
                    }
                }
            }
            c += 1;
        }
        proof {
            assert(list@.take(j + 1).drop_last() =~= list@.take(j as int));
        }
        j += 1;
    }
    assert(list@.take(list@.len() as int) =~= list@);
    deck
}

/// The decks that `config` describes, built from the card definitions `cards`.
pub fn build_decks(cards: &Vec<Card>, config: &config::Decks) -> (r: Decks)
    requires
        config.well_formed(),
        all_defined(cards@, config.draw@),
        all_defined(cards@, config.trap@),
        all_defined(cards@, config.treasure@),
        defined(cards@, config.boss@),
    ensures
        deck_of(cards@, deck_names(config.draw@), r.draw@),
        deck_of(cards@, deck_names(config.trap@), r.trap@),
        deck_of(cards@, deck_names(config.treasure@), r.treasure@),
        copy_named(cards@, config.boss@, r.boss),
{
    let boss = match find_card(cards, &config.boss) {
        Some(i) => cards[i].clone(),
        None => {
            assert(false);
            cards[0].clone()
        },
    };
    Decks {
        draw: expand_deck(cards, &config.draw),
        trap: expand_deck(cards, &config.trap),
        treasure: expand_deck(cards, &config.treasure),
        boss,
    }
}

} // verus!
