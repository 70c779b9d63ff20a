use vstd::prelude::*;
use crate::engine::{Icon, Texture};

verus! {

/// A weapon; its damage adds to its owner's attack until its durability runs out.
#[derive(PartialEq, Eq, Structural, Debug, Copy, Clone)]
pub struct Weapon {
    pub icon: Icon,
    pub damage: u32,
    pub durability: u32,
    pub price: u32,
}

#[derive(PartialEq, Eq, Structural, Debug, Copy, Clone)]
pub enum BuffKind {
    /// Adds to the next attack only.
    NextAttackBonus { damage: u32 },
    /// Adds to every attack while the buff lasts.
    AttackBonus { damage: u32 },
}

#[derive(PartialEq, Eq, Structural, Debug, Copy, Clone)]
pub enum BuffExpiration {
    Permanent,
    AfterAttack,
    AfterBeingHit,
}

#[derive(PartialEq, Eq, Structural, Debug, Copy, Clone)]
pub struct Buff {
    pub icon: Icon,
    pub kind: BuffKind,
    pub expiration: BuffExpiration,
}

/// A fighter on the path: the player, or a monster that a card put in a cell.
#[derive(Debug)]
pub struct Creature {
    pub icon: Icon,
    pub health: u32,
    pub max_health: Option<u32>,
    pub attack: u32,
    pub coins: u32,
    /// Effects meant for whoever defeats this creature. Combat does not apply them: a
    /// defeated monster pays out its `coins` only.
    pub rewards: Vec<CardEffect>,
    pub weapon: Option<Weapon>,
    pub buffs: Vec<Buff>,
}

/// Health after healing `amount`: the sum, held at `u32::MAX`, then at the cap if there is one.
pub open spec fn healed_health(health: u32, amount: u32, cap: Option<u32>) -> u32 {
    let sum: u32 = if health + amount > u32::MAX { u32::MAX } else { (health + amount) as u32 };
    match cap {
        Some(m) => if sum > m { m } else { sum },
        None => sum,
    }
}

impl Creature {
    /// This creature after `heal(amount)`.
    pub open spec fn healed(self, amount: u32) -> Creature {
        Creature { health: healed_health(self.health, amount, self.max_health), ..self }
    }

    /// Adds `amount` to health, then clamps it to `max_health` if there is one.
    pub fn heal(&mut self, amount: u32)
        ensures
            *final(self) == old(self).healed(amount),
    {
        self.health = self.health.saturating_add(amount);
        if let Some(limit) = self.max_health {
            if self.health > limit {
                self.health = limit;
            }
        }
    }

    /// Everything but the `rewards` list, which `clone` copies only in length.
    pub open spec fn same_stats(&self, other: &Creature) -> bool {
        &&& self.icon == other.icon
        &&& self.health == other.health
        &&& self.max_health == other.max_health
        &&& self.attack == other.attack
        &&& self.coins == other.coins
        &&& self.weapon == other.weapon
        &&& self.buffs@ == other.buffs@
        &&& self.rewards@.len() == other.rewards@.len()
    }
}

impl Clone for Creature {
    fn clone(&self) -> (r: Creature)
        ensures
            r.same_stats(self),
    {
        copy_creature(self)
    }
}

/// What a card does when the player reaches it.
#[derive(Debug)]
pub enum CardEffect {
    /// Does nothing.
    Empty,
    Heal { health: u32 },
    Armor { amount: u32 },
    Coins { amount: u32 },
    Attack { use_base: bool, bonus: u32 },
    HealEnemy { health: u32 },
    Buff(Buff),
    BossBuff(Buff),
    Weapon(Weapon),
    /// A monster; it takes its cell when the card is placed.
    Enemy(Creature),
    Buy { price: u32, effect: Box<CardEffect> },
    Disarm,
}

impl CardEffect {
    /// `self` is a copy of `other`: equal, but that a monster's rewards agree only in number.
    pub open spec fn copy_of(self, other: CardEffect) -> bool
        decreases self,
    {
        match (self, other) {
            (CardEffect::Enemy(a), CardEffect::Enemy(b)) => a.same_stats(&b),
            (CardEffect::Buy { price: p, effect: x }, CardEffect::Buy { price: q, effect: y }) =>
                p == q && (*x).copy_of(*y),
            _ => self == other,
        }
    }
}

impl Clone for CardEffect {
    fn clone(&self) -> (r: CardEffect)
        ensures
            r.copy_of(*self),
    {
        copy_effect(self)
    }
}

fn copy_effect(e: &CardEffect) -> (r: CardEffect)
    ensures
        r.copy_of(*e),
    decreases e,
{
    match e {
        CardEffect::Empty => CardEffect::Empty,
        CardEffect::Heal { health } => CardEffect::Heal { health: *health },
        CardEffect::Armor { amount } => CardEffect::Armor { amount: *amount },
        CardEffect::Coins { amount } => CardEffect::Coins { amount: *amount },
        CardEffect::Attack { use_base, bonus } => CardEffect::Attack { use_base: *use_base, bonus: *bonus },
        CardEffect::HealEnemy { health } => CardEffect::HealEnemy { health: *health },
        CardEffect::Buff(b) => CardEffect::Buff(*b),
        CardEffect::BossBuff(b) => CardEffect::BossBuff(*b),
        CardEffect::Weapon(w) => CardEffect::Weapon(*w),
        CardEffect::Enemy(c) => CardEffect::Enemy(copy_creature(c)),
        CardEffect::Buy { price, effect } => {
            let inner = copy_effect(&**effect);
            CardEffect::Buy { price: *price, effect: Box::new(inner) }
        },
        CardEffect::Disarm => CardEffect::Disarm,
    }
}

fn copy_creature(c: &Creature) -> (r: Creature)
    ensures
        r.same_stats(c),
    decreases c,
{
    Creature {
        icon: c.icon,
        health: c.health,
        max_health: c.max_health,
        attack: c.attack,
        coins: c.coins,
        rewards: copy_effects(&c.rewards),
        weapon: c.weapon,
        buffs: c.buffs.clone(),
    }
}

fn copy_effects(v: &Vec<CardEffect>) -> (r: Vec<CardEffect>)
    ensures
        r@.len() == v@.len(),
        forall|i: int| 0 <= i < v@.len() ==> (#[trigger] r@[i]).copy_of(v@[i]),
    decreases v,
{
    let mut r: Vec<CardEffect> = Vec::new();
    let mut i: usize = 0;
    while i < v.len()
        invariant
            i <= v@.len(),
            r@.len() == i,
            forall|j: int| 0 <= j < i ==> (#[trigger] r@[j]).copy_of(v@[j]),
        decreases v@.len() - i,
    {
        proof {
            vstd::std_specs::vec::axiom_vec_index_decreases(*v, i as int);
        }
        let e = copy_effect(&v[i]);
        r.push(e);
        i += 1;
    }
    r
}

#[derive(Debug)]
pub struct Card {
    pub id: String,
    pub texture: Texture,
    pub effect: CardEffect,
}

impl Clone for Card {
    fn clone(&self) -> (r: Card)
        ensures
            r.id == self.id,
            r.texture == self.texture,
            r.effect.copy_of(self.effect),
    {
        Card { id: self.id.clone(), texture: self.texture, effect: self.effect.clone() }
    }
}

#[derive(Debug, Clone)]
pub struct Decks {
    pub draw: Vec<Card>,
    pub trap: Vec<Card>,
    pub treasure: Vec<Card>,
    pub boss: Card,
}


/// `c` after `heal(a)` for each `a` of `amounts`, in order.
pub open spec fn healed_by_all(c: Creature, amounts: Seq<u32>) -> Creature
    decreases amounts.len(),
{
    if amounts.len() == 0 {
        c
    } else {
        healed_by_all(c, amounts.drop_last()).healed(amounts.last())
    }
}

/// Healing never lifts a creature above its cap: after one heal or more, a creature
/// with `max_health == Some(m)` has at most `m` health.
pub proof fn heal_stays_capped(c: Creature, amounts: Seq<u32>, m: u32)
    requires
        c.max_health == Some(m),
        amounts.len() > 0,
    ensures
        healed_by_all(c, amounts).health <= m,
        healed_by_all(c, amounts).max_health == Some(m),
    decreases amounts.len(),
{
    if amounts.len() > 1 {
        heal_stays_capped(c, amounts.drop_last(), m);
    } else {
        assert(healed_by_all(c, amounts.drop_last()) == c);
    }
}

} // verus!
