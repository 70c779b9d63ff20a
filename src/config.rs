use vstd::prelude::*;
use crate::card;
use crate::engine;

verus! {

/// An icon as card definitions name it.
#[derive(PartialEq, Eq, Debug, Copy, Clone)]
pub enum Icon {
    Circle,
    Dot,
    Square,
    Sword,
    Heart,
    Shield,
    Fighter,
    Beholder,
    Card,
    Play,
    CardBack,
    Coin,
    Cross,
    Bang,
    RedCircle,
    BlueBeholder,
    GreenHeart,
    Broken,
    Deck,
    TrapDeck,
    Black,
    Disarm,
    RedSword,
    Bow,
    Fighter2,
    Chicken,
}

/// The atlas index of each named icon.
pub open spec fn icon_number(icon: Icon) -> u32 {
    match icon {
        Icon::Circle => engine::CIRCLE,
        Icon::Dot => engine::DOT,
        Icon::Square => engine::SQUARE,
        Icon::Sword => engine::SWORD,
        Icon::Heart => engine::HEART,
        Icon::Shield => engine::SHIELD,
        Icon::Fighter => engine::FIGHTER,
        Icon::Beholder => engine::BEHOLDER,
        Icon::Card => engine::CARD,
        Icon::Play => engine::PLAY,
        Icon::CardBack => engine::CARD_BACK,
        Icon::Coin => engine::COIN,
        Icon::Cross => engine::CROSS,
        Icon::Bang => engine::BANG,
        Icon::RedCircle => engine::RED_CIRCLE,
        Icon::BlueBeholder => engine::BLUE_BEHOLDER,
        Icon::GreenHeart => engine::GREEN_HEART,
        Icon::Broken => engine::BROKEN,
        Icon::Deck => engine::DECK,
        Icon::TrapDeck => engine::TRAP_DECK,
        Icon::Black => engine::BLACK,
        Icon::Disarm => engine::DISARM,
        Icon::RedSword => engine::RED_SWORD,
        Icon::Bow => engine::BOW,
        Icon::Fighter2 => engine::FIGHTER_2,
        Icon::Chicken => engine::CHICKEN,
    }
}

impl From<Icon> for engine::Icon {
    fn from(icon: Icon) -> (r: engine::Icon)
        ensures
            r.index == icon_number(icon),
    {
        match icon {
            Icon::Circle => engine::Icon::new(engine::CIRCLE),
            Icon::Dot => engine::Icon::new(engine::DOT),
            Icon::Square => engine::Icon::new(engine::SQUARE),
            Icon::Sword => engine::Icon::new(engine::SWORD),
            Icon::Heart => engine::Icon::new(engine::HEART),
            Icon::Shield => engine::Icon::new(engine::SHIELD),
            Icon::Fighter => engine::Icon::new(engine::FIGHTER),
            Icon::Beholder => engine::Icon::new(engine::BEHOLDER),
            Icon::Card => engine::Icon::new(engine::CARD),
            Icon::Play => engine::Icon::new(engine::PLAY),
            Icon::CardBack => engine::Icon::new(engine::CARD_BACK),
            Icon::Coin => engine::Icon::new(engine::COIN),
            Icon::Cross => engine::Icon::new(engine::CROSS),
            Icon::Bang => engine::Icon::new(engine::BANG),
            Icon::RedCircle => engine::Icon::new(engine::RED_CIRCLE),
            Icon::BlueBeholder => engine::Icon::new(engine::BLUE_BEHOLDER),
            Icon::GreenHeart => engine::Icon::new(engine::GREEN_HEART),
            Icon::Broken => engine::Icon::new(engine::BROKEN),
            Icon::Deck => engine::Icon::new(engine::DECK),
            Icon::TrapDeck => engine::Icon::new(engine::TRAP_DECK),
            Icon::Black => engine::Icon::new(engine::BLACK),
            Icon::Disarm => engine::Icon::new(engine::DISARM),
            Icon::RedSword => engine::Icon::new(engine::RED_SWORD),
            Icon::Bow => engine::Icon::new(engine::BOW),
            Icon::Fighter2 => engine::Icon::new(engine::FIGHTER_2),
            Icon::Chicken => engine::Icon::new(engine::CHICKEN),
        }
    }
}

impl vstd::std_specs::convert::FromSpecImpl<Icon> for engine::Icon {
    open spec fn obeys_from_spec() -> bool {
        true
    }

    open spec fn from_spec(icon: Icon) -> engine::Icon {
        engine::Icon { index: icon_number(icon) }
    }
}


/// A card as its definition describes it.
#[derive(Debug)]
pub struct Card {
    pub icon: Icon,
    pub title: String,
    pub description: Vec<String>,
    pub effect: CardEffect,
}

/// A card effect as definitions describe it.
#[derive(Debug)]
pub enum CardEffect {
    Empty,
    Enemy {
        icon: Icon,
        attack: u32,
        health: u32,
        max_health: Option<u32>,
        coins: u32,
        rewards: Vec<CardEffect>,
    },
    Buff { icon: Icon, kind: Buff, expiration: BuffExpiration },
    BossBuff { icon: Icon, kind: Buff, expiration: BuffExpiration },
    Heal { health: u32 },
    Armor { amount: u32 },
    Coins { amount: u32 },
    Attack { use_base: bool, bonus: u32 },
    HealEnemy { health: u32 },
    Weapon { icon: Icon, damage: u32, durability: u32, price: u32 },
    Buy { price: u32, effect: Box<CardEffect> },
    Disarm,
}

#[derive(PartialEq, Eq, Debug, Copy, Clone)]
pub enum Buff {
    AttackBonus { bonus: u32 },
    NextAttackBonus { bonus: u32 },
}

#[derive(PartialEq, Eq, Debug, Copy, Clone)]
pub enum BuffExpiration {
    Permanent,
    AfterAttack,
    AfterBeingHit,
}

/// Each deck as a list of card names with the number of copies of each; in a
/// well-formed one no name appears twice in a list.
#[derive(Debug)]
pub struct Decks {
    pub draw: Vec<(String, u32)>,
    pub trap: Vec<(String, u32)>,
    pub treasure: Vec<(String, u32)>,
    pub boss: String,
}

pub open spec fn expiration_of(e: BuffExpiration) -> card::BuffExpiration {
    match e {
        BuffExpiration::Permanent => card::BuffExpiration::Permanent,
        BuffExpiration::AfterAttack => card::BuffExpiration::AfterAttack,
        BuffExpiration::AfterBeingHit => card::BuffExpiration::AfterBeingHit,
    }
}

/// The buff that a definition describes.
pub open spec fn buff_of(icon: Icon, kind: Buff, expiration: BuffExpiration) -> card::Buff {
    card::Buff {
        icon: engine::Icon { index: icon_number(icon) },
        kind: match kind {
            Buff::AttackBonus { bonus } => card::BuffKind::AttackBonus { damage: bonus },
            Buff::NextAttackBonus { bonus } => card::BuffKind::NextAttackBonus { damage: bonus },
        },
        expiration: expiration_of(expiration),
    }
}

/// `e` is the effect that definition `c` describes.
pub open spec fn converts(c: CardEffect, e: card::CardEffect) -> bool
    decreases c,
{
    match c {
        CardEffect::Empty => e == card::CardEffect::Empty,
        CardEffect::Enemy { icon, attack, health, max_health, coins, rewards } => match e {
            card::CardEffect::Enemy(k) => {
                &&& k.icon == engine::Icon { index: icon_number(icon) }
                &&& k.health == health
                &&& k.max_health == max_health
                &&& k.attack == attack
                &&& k.coins == coins
                &&& k.weapon is None
                &&& k.buffs@.len() == 0
                &&& k.rewards@.len() == rewards@.len()
                &&& forall|i: int|
                    0 <= i < rewards@.len() ==> converts(
                        #[trigger] rewards@[i],
                        k.rewards@[i],
                    )
            },
            _ => false,
        },
        CardEffect::Buff { icon, kind, expiration } => e == card::CardEffect::Buff(
            buff_of(icon, kind, expiration),
        ),
        CardEffect::BossBuff { icon, kind, expiration } => e == card::CardEffect::BossBuff(
            buff_of(icon, kind, expiration),
        ),
        CardEffect::Heal { health } => e == card::CardEffect::Heal { health },
        CardEffect::Armor { amount } => e == card::CardEffect::Armor { amount },
        CardEffect::Coins { amount } => e == card::CardEffect::Coins { amount },
        CardEffect::Attack { use_base, bonus } => e == card::CardEffect::Attack { use_base, bonus },
        CardEffect::HealEnemy { health } => e == card::CardEffect::HealEnemy { health },
        CardEffect::Weapon { icon, damage, durability, price } => e == card::CardEffect::Weapon(
            card::Weapon { icon: engine::Icon { index: icon_number(icon) }, damage, durability, price },
        ),
        CardEffect::Buy { price, effect } => match e {
            card::CardEffect::Buy { price: p, effect: x } => p == price && converts(*effect, *x),
            _ => false,
        },
        CardEffect::Disarm => e == card::CardEffect::Disarm,
    }
}

/// The buff that a definition describes.
pub fn convert_buff(icon: Icon, kind: &Buff, expiration: BuffExpiration) -> (r: card::Buff)
    ensures
        r == buff_of(icon, *kind, expiration),
{
    let kind = match kind {
        Buff::AttackBonus { bonus } => card::BuffKind::AttackBonus { damage: *bonus },
        Buff::NextAttackBonus { bonus } => card::BuffKind::NextAttackBonus { damage: *bonus },
    };
    let expiration = match expiration {
        BuffExpiration::Permanent => card::BuffExpiration::Permanent,
        BuffExpiration::AfterAttack => card::BuffExpiration::AfterAttack,
        BuffExpiration::AfterBeingHit => card::BuffExpiration::AfterBeingHit,
    };
    card::Buff { icon: engine::Icon::from(icon), kind, expiration }
}

fn convert_effects(v: &Vec<CardEffect>) -> (r: Vec<card::CardEffect>)
    ensures
        r@.len() == v@.len(),
        forall|i: int| 0 <= i < v@.len() ==> converts(#[trigger] v@[i], r@[i]),
    decreases v,
{
    let mut r: Vec<card::CardEffect> = Vec::new();
    let mut i: usize = 0;
    while i < v.len()
        invariant
            i <= v@.len(),
            r@.len() == i,
            forall|j: int| 0 <= j < i ==> converts(#[trigger] v@[j], r@[j]),
        decreases v@.len() - i,
    {
        proof {
            vstd::std_specs::vec::axiom_vec_index_decreases(*v, i as int);
        }
        r.push(convert_effect(&v[i]));
        i += 1;
    }
    r
}

/// The effect that a definition describes.
pub fn convert_effect(effect: &CardEffect) -> (r: card::CardEffect)
    ensures
        converts(*effect, r),
    decreases effect,
{
    match effect {
        CardEffect::Empty => card::CardEffect::Empty,
        CardEffect::Enemy { icon, attack, health, max_health, coins, rewards } => {
            let converted = convert_effects(rewards);
            card::CardEffect::Enemy(
                card::Creature {
                    icon: engine::Icon::from(*icon),
                    health: *health,
                    max_health: *max_health,
                    attack: *attack,
                    coins: *coins,
                    rewards: converted,
                    weapon: None,
                    buffs: Vec::new(),
                },
            )
        },
        CardEffect::Buff { icon, kind, expiration } => card::CardEffect::Buff(
            convert_buff(*icon, kind, *expiration),
        ),
        CardEffect::BossBuff { icon, kind, expiration } => card::CardEffect::BossBuff(
            convert_buff(*icon, kind, *expiration),
        ),
        CardEffect::Heal { health } => card::CardEffect::Heal { health: *health },
        CardEffect::Armor { amount } => card::CardEffect::Armor { amount: *amount },
        CardEffect::Coins { amount } => card::CardEffect::Coins { amount: *amount },
        CardEffect::Attack { use_base, bonus } => card::CardEffect::Attack {
            use_base: *use_base,
            bonus: *bonus,
        },
        CardEffect::HealEnemy { health } => card::CardEffect::HealEnemy { health: *health },
        CardEffect::Weapon { icon, damage, durability, price } => card::CardEffect::Weapon(
            card::Weapon {
                icon: engine::Icon::from(*icon),
                damage: *damage,
                durability: *durability,
                price: *price,
            },
        ),
        CardEffect::Buy { price, effect } => {
            let inner = convert_effect(&**effect);
            card::CardEffect::Buy { price: *price, effect: Box::new(inner) }
        },
        CardEffect::Disarm => card::CardEffect::Disarm,
    }
}


/// The atlas index of an icon named in a card definition, if the name is known.
pub open spec fn icon_for_name(name: Seq<char>) -> Option<u32> {
    if name == "sword"@ {
        Some(4u32)
    } else if name == "heart"@ {
        Some(5u32)
    } else if name == "shield"@ {
        Some(6u32)
    } else if name == "beholder"@ {
        Some(8u32)
    } else if name == "coin"@ {
        Some(12u32)
    } else if name == "cross"@ {
        Some(13u32)
    } else if name == "bang"@ {
        Some(14u32)
    } else if name == "blue-beholder"@ {
        Some(16u32)
    } else if name == "green-heart"@ {
        Some(17u32)
    } else if name == "broken"@ {
        Some(18u32)
    } else if name == "disarm"@ {
        Some(22u32)
    } else if name == "red-sword"@ {
        Some(23u32)
    } else {
        None
    }
}

fn same_text(a: &str, b: &str) -> (r: bool)
    ensures
        r == (a@ == b@),
{
    a.to_owned() == b.to_owned()
}

/// The atlas index of the icon called `name`.
pub fn icon_index(name: &str) -> (r: u32)
    requires
        icon_for_name(name@) is Some,
    ensures
        Some(r) == icon_for_name(name@),
{
    if same_text(name, "sword") {
        return 4;
    }
    if same_text(name, "heart") {
        return 5;
    }
    if same_text(name, "shield") {
        return 6;
    }
    if same_text(name, "beholder") {
        return 8;
    }
    if same_text(name, "coin") {
        return 12;
    }
    if same_text(name, "cross") {
        return 13;
    }
    if same_text(name, "bang") {
        return 14;
    }
    if same_text(name, "blue-beholder") {
        return 16;
    }
    if same_text(name, "green-heart") {
        return 17;
    }
    if same_text(name, "broken") {
        return 18;
    }
    if same_text(name, "disarm") {
        return 22;
    }
    if same_text(name, "red-sword") {
        return 23;
    }
    0
}


/// No name appears twice in `list`.
pub open spec fn unique_names(list: Seq<(String, u32)>) -> bool {
    forall|a: int, b: int| 0 <= a < b < list.len() ==> (#[trigger] list[a]).0@ != (#[trigger] list[b]).0@
}

/// Whether no name appears twice in `list`.
pub fn names_unique(list: &Vec<(String, u32)>) -> (r: bool)
    ensures
        r == unique_names(list@),
{
    let mut a: usize = 0;
    while a < list.len()
        invariant
            a <= list@.len(),
            forall|x: int, y: int| 0 <= x < a && x < y < list@.len() ==> (#[trigger] list@[x]).0@ != (#[trigger] list@[y]).0@,
        decreases list@.len() - a,
    {
        let mut b: usize = a + 1;
        while b < list.len()
            invariant
                a < b <= list@.len(),
                forall|y: int| a < y < b ==> list@[a as int].0@ != (#[trigger] list@[y]).0@,
            decreases list@.len() - b,
        {
            if list[a].0 == list[b].0 {
                return false;
            }
            b += 1;
        }
        a += 1;
    }
    true
}

impl Decks {
    pub open spec fn well_formed(&self) -> bool {
        &&& unique_names(self.draw@)
        &&& unique_names(self.trap@)
        &&& unique_names(self.treasure@)
    }

    /// Whether the decks are well formed.
    pub fn is_well_formed(&self) -> (r: bool)
        ensures
            r == self.well_formed(),
    {
        names_unique(&self.draw) && names_unique(&self.trap) && names_unique(&self.treasure)
    }
}

} // verus!
