use vstd::prelude::*;
use crate::card::{Buff, BuffExpiration, BuffKind, Creature, Weapon};

verus! {

/// `x` held at `u32::MAX`.
pub open spec fn cap_u32(x: int) -> int {
    if x > u32::MAX { u32::MAX as int } else { x }
}

/// What one buff adds to its owner's attack.
pub open spec fn buff_bonus(b: Buff) -> int {
    match b.kind {
        BuffKind::NextAttackBonus { damage } => damage as int,
        BuffKind::AttackBonus { damage } => damage as int,
    }
}

pub open spec fn bonus_sum(buffs: Seq<Buff>) -> int
    decreases buffs.len(),
{
    if buffs.len() == 0 {
        0
    } else {
        bonus_sum(buffs.drop_last()) + buff_bonus(buffs.last())
    }
}

pub open spec fn weapon_damage(w: Option<Weapon>) -> int {
    match w {
        Some(w) => w.damage as int,
        None => 0,
    }
}

/// Base attack, plus every attack buff, plus the weapon's damage.
pub open spec fn total_attack(c: Creature) -> int {
    c.attack + bonus_sum(c.buffs@) + weapon_damage(c.weapon)
}

/// The two moments at which a buff may run out.
#[derive(PartialEq, Eq, Structural, Debug, Copy, Clone)]
pub enum BuffEvent {
    /// The owner has attacked.
    Attacked,
    /// The owner has been hit.
    Hit,
}

/// A one-shot bonus, or an `AfterAttack` buff, ends with the attack; an `AfterBeingHit`
/// buff ends with a hit.
pub open spec fn expires(b: Buff, event: BuffEvent) -> bool {
    match event {
        BuffEvent::Attacked => b.kind is NextAttackBonus || b.expiration == BuffExpiration::AfterAttack,
        BuffEvent::Hit => b.expiration == BuffExpiration::AfterBeingHit,
    }
}

/// The buffs that outlast `event`, in their order.
pub open spec fn surviving(buffs: Seq<Buff>, event: BuffEvent) -> Seq<Buff>
    decreases buffs.len(),
{
    if buffs.len() == 0 {
        buffs
    } else {
        let rest = surviving(buffs.drop_last(), event);
        if expires(buffs.last(), event) { rest } else { rest.push(buffs.last()) }
    }
}

/// The weapon after one attack: one durability less, gone when none is left.
pub open spec fn worn(w: Option<Weapon>) -> Option<Weapon> {
    match w {
        Some(w) => if w.durability <= 1 {
            None
        } else {
            Some(Weapon { durability: (w.durability - 1) as u32, ..w })
        },
        None => None,
    }
}

/// Fields that neither attacking nor being hit change.
pub open spec fn same_identity(a: Creature, b: Creature) -> bool {
    &&& a.icon == b.icon
    &&& a.max_health == b.max_health
    &&& a.attack == b.attack
    &&& a.rewards == b.rewards
}

pub fn surviving_buffs(buffs: &Vec<Buff>, event: BuffEvent) -> (r: Vec<Buff>)
    ensures
        r@ == surviving(buffs@, event),
{
    let mut r: Vec<Buff> = Vec::new();
    let mut i: usize = 0;
    while i < buffs.len()
        invariant
            i <= buffs@.len(),
            r@ == surviving(buffs@.take(i as int), event),
        decreases buffs@.len() - i,
    {
        let b = buffs[i];
        let gone = match event {
            BuffEvent::Attacked => {
                let one_shot = match b.kind {
                    BuffKind::NextAttackBonus { .. } => true,
                    BuffKind::AttackBonus { .. } => false,
                };
                one_shot || b.expiration == BuffExpiration::AfterAttack
            },
            BuffEvent::Hit => b.expiration == BuffExpiration::AfterBeingHit,
        };
        if !gone {
            r.push(b);
        }
        proof {
            assert(buffs@.take(i + 1).drop_last() =~= buffs@.take(i as int));
        }
        i += 1;
    }
    proof {
        assert(buffs@.take(buffs@.len() as int) =~= buffs@);
    }
    r
}

/// A creature in play: the player, or a monster that holds a cell.
#[derive(Debug, Clone)]
pub struct ActiveCreature {
    pub creature: Creature,
}

impl From<Creature> for ActiveCreature {
    fn from(creature: Creature) -> (r: ActiveCreature)
        ensures
            r.creature == creature,
    {
        ActiveCreature { creature }
    }
}

impl vstd::std_specs::convert::FromSpecImpl<Creature> for ActiveCreature {
    open spec fn obeys_from_spec() -> bool {
        true
    }

    open spec fn from_spec(creature: Creature) -> ActiveCreature {
        ActiveCreature { creature }
    }
}

impl ActiveCreature {
    /// The damage of one attack: `total_attack`, held at `u32::MAX`.
    pub fn attack_power(&self) -> (r: u32)
        ensures
            r as int == cap_u32(total_attack(self.creature)),
    {
        let buffs = &self.creature.buffs;
        let mut attack: u32 = self.creature.attack;
        let mut i: usize = 0;
        while i < buffs.len()
            invariant
                i <= buffs@.len(),
                buffs == self.creature.buffs,
                attack as int == cap_u32(self.creature.attack + bonus_sum(buffs@.take(i as int))),
            decreases buffs@.len() - i,
        {
            let damage = match buffs[i].kind {
                BuffKind::NextAttackBonus { damage } => damage,
                BuffKind::AttackBonus { damage } => damage,
            };
            proof {
                assert(buffs@.take(i + 1).drop_last() =~= buffs@.take(i as int));
                lemma_bonus_sum_nonneg(buffs@.take(i as int));
            }
            attack = attack.saturating_add(damage);
            i += 1;
        }
        proof {
            assert(buffs@.take(buffs@.len() as int) =~= buffs@);
            lemma_bonus_sum_nonneg(buffs@);
        }
        if let Some(weapon) = &self.creature.weapon {
            attack = attack.saturating_add(weapon.damage);
        }
        attack
    }

    /// Pays for one attack: one-shot buffs are used up and the weapon wears.
    pub fn spend_attack(&mut self)
        ensures
            final(self).creature.buffs@ == surviving(old(self).creature.buffs@, BuffEvent::Attacked),
            final(self).creature.weapon == worn(old(self).creature.weapon),
            final(self).creature.health == old(self).creature.health,
            final(self).creature.coins == old(self).creature.coins,
            same_identity(final(self).creature, old(self).creature),
    {
        self.creature.buffs = surviving_buffs(&self.creature.buffs, BuffEvent::Attacked);
        if let Some(weapon) = self.creature.weapon {
            if weapon.durability <= 1 {
                self.creature.weapon = None;
            } else {
                self.creature.weapon = Some(Weapon { durability: weapon.durability - 1, ..weapon });
            }
        }
    }

    /// Takes `damage` off health, stopping at 0; buffs that end on a hit are removed.
    pub fn take_hit(&mut self, damage: u32)
        ensures
            final(self).creature.health == if damage >= old(self).creature.health {
                0
            } else {
                (old(self).creature.health - damage) as u32
            },
            final(self).creature.buffs@ == surviving(old(self).creature.buffs@, BuffEvent::Hit),
            final(self).creature.weapon == old(self).creature.weapon,
            final(self).creature.coins == old(self).creature.coins,
            same_identity(final(self).creature, old(self).creature),
    {
        self.creature.health = self.creature.health.saturating_sub(damage);
        self.creature.buffs = surviving_buffs(&self.creature.buffs, BuffEvent::Hit);
    }
}

pub proof fn lemma_bonus_sum_nonneg(buffs: Seq<Buff>)
    ensures
        bonus_sum(buffs) >= 0,
    decreases buffs.len(),
{
    if buffs.len() > 0 {
        lemma_bonus_sum_nonneg(buffs.drop_last());
    }
}


/// A weapon with durability 1 is gone after one attack; one with durability `n > 1`
/// stays, with `n - 1`.
pub proof fn weapon_depletion(w: Weapon)
    ensures
        w.durability == 1 ==> worn(Some(w)) is None,
        w.durability > 1 ==> worn(Some(w)) == Some(Weapon { durability: (w.durability - 1) as u32, ..w }),
{
}

/// No `NextAttackBonus` buff outlasts an attack.
pub proof fn no_one_shot_survives(buffs: Seq<Buff>)
    ensures
        forall|i: int|
            0 <= i < surviving(buffs, BuffEvent::Attacked).len() ==> !((#[trigger] surviving(
                buffs,
                BuffEvent::Attacked,
            )[i]).kind is NextAttackBonus),
    decreases buffs.len(),
{
    if buffs.len() > 0 {
        no_one_shot_survives(buffs.drop_last());
    }
}

/// A `NextAttackBonus` buff adds its damage to the attack until the owner attacks, and
/// is gone afterwards.
pub proof fn next_attack_bonus_is_spent(buffs: Seq<Buff>, b: Buff)
    requires
        b.kind is NextAttackBonus,
    ensures
        bonus_sum(buffs.push(b)) == bonus_sum(buffs) + buff_bonus(b),
        !surviving(buffs.push(b), BuffEvent::Attacked).contains(b),
{
    assert(buffs.push(b).drop_last() =~= buffs);
    no_one_shot_survives(buffs.push(b));
    if surviving(buffs.push(b), BuffEvent::Attacked).contains(b) {
        let i = choose|i: int|
            0 <= i < surviving(buffs.push(b), BuffEvent::Attacked).len() && surviving(
                buffs.push(b),
                BuffEvent::Attacked,
            )[i] == b;
        assert(!(surviving(buffs.push(b), BuffEvent::Attacked)[i].kind is NextAttackBonus));
    }
}


/// Where the sum fits in `u32`, an unspent `NextAttackBonus` buff adds exactly its
/// damage to the attack: `c` has the buffs of `d` and `b` after them.
pub proof fn next_attack_bonus_adds(c: Creature, d: Creature, b: Buff)
    requires
        b.kind is NextAttackBonus,
        c.attack == d.attack,
        c.weapon == d.weapon,
        c.buffs@ == d.buffs@.push(b),
        total_attack(c) <= u32::MAX,
    ensures
        cap_u32(total_attack(c)) == cap_u32(total_attack(d)) + buff_bonus(b),
{
    next_attack_bonus_is_spent(d.buffs@, b);
    lemma_bonus_sum_nonneg(d.buffs@);
}

} // verus!
