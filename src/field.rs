use vstd::prelude::*;
use crate::card::{Card, CardEffect, Creature, Weapon};
use crate::creature::{
    ActiveCreature, BuffEvent, cap_u32, same_identity, surviving, total_attack, worn,
};
use crate::engine::{self, Icon};
use vstd::arithmetic::div_mod::{lemma_fundamental_div_mod, lemma_mod_multiples_vanish};

verus! {

/// One slot of the path.
#[derive(Debug)]
pub struct Cell {
    pub position: (u32, u32),
    pub card: Option<Card>,
    /// Filled from the trap deck; never a place for the player's own cards.
    pub fixed: bool,
    pub enemy: Option<ActiveCreature>,
}

#[derive(Debug)]
pub struct Player {
    pub creature: ActiveCreature,
    /// Index of the cell the player stands on.
    pub cell: usize,
}

/// Times are milliseconds of game time, counted from the start of the phase.
#[derive(PartialEq, Eq, Structural, Debug, Copy, Clone)]
pub enum ActionState {
    /// Not started yet.
    Start,
    Finished(u32),
    PlayerMove(u32),
    PlayerAttack(bool, u32),
    EnemyAttack(bool, usize, u32),
    AcceptBonus(u32, Icon),
}

#[derive(Debug)]
pub struct Field {
    pub cells: Vec<Cell>,
    pub player: Option<Player>,
    pub action: ActionState,
}

/// Number of cells on every floor.
pub const FIELD_CELLS: usize = 8;
/// A move from one cell to the next lasts this long.
pub const MOVE_TIME: u32 = 1200;
/// An attack lands at this point of its phase.
pub const HIT_TIME: u32 = 500;
/// An attack phase lasts this long.
pub const ATTACK_TIME: u32 = 1000;
/// A reward is shown this long.
pub const BONUS_TIME: u32 = 600;

pub open spec fn sat_add(a: u32, b: u32) -> u32 {
    if a + b > u32::MAX { u32::MAX } else { (a + b) as u32 }
}

pub open spec fn sat_sub(a: u32, b: u32) -> u32 {
    if b >= a { 0 } else { (a - b) as u32 }
}

pub open spec fn icon(index: u32) -> Icon {
    Icon { index }
}

/// Vertical offset of cell `i` on floor `index`: the ends sit level, the cells between
/// follow a fixed integer recurrence.
pub open spec fn cell_y(index: int, i: int) -> int {
    if i == 0 || i == FIELD_CELLS - 1 {
        250
    } else {
        100 + ((index + i + (i + 5) * ((i + 2) / 2)) * 65) % 150
    }
}

/// The first and last cells, and every other cell between them, are fixed.
pub open spec fn cell_fixed(i: int) -> bool {
    i % 2 == 0 || i == FIELD_CELLS - 1
}

/// An effect that the resolver can carry out: monsters are placed, not resolved.
pub open spec fn resolvable(e: CardEffect) -> bool
    decreases e,
{
    match e {
        CardEffect::Enemy(_) => false,
        CardEffect::Buy { effect, .. } => resolvable(*effect),
        _ => true,
    }
}

pub fn is_resolvable(e: &CardEffect) -> (r: bool)
    ensures
        r == resolvable(*e),
    decreases e,
{
    match e {
        CardEffect::Enemy(_) => false,
        CardEffect::Buy { effect, .. } => is_resolvable(&**effect),
        _ => true,
    }
}

/// Index of the first cell at or after `from` that holds a monster.
pub open spec fn first_enemy(cells: Seq<Cell>, from: int) -> Option<int>
    decreases cells.len() - from,
{
    if from < 0 || from >= cells.len() {
        None
    } else if cells[from].enemy is Some {
        Some(from)
    } else {
        first_enemy(cells, from + 1)
    }
}

/// Damage of an `Attack` card.
pub open spec fn card_damage(c: Creature, use_base: bool, bonus: u32) -> u32 {
    if use_base { sat_add(c.attack, bonus) } else { bonus }
}

impl Field {
    /// The player's creature.
    pub open spec fn pc(self) -> Creature {
        self.player.unwrap().creature.creature
    }

    /// This field with the player's creature replaced.
    pub open spec fn with_pc(self, c: Creature) -> Field {
        Field {
            player: Some(Player {
                creature: ActiveCreature { creature: c },
                cell: self.player.unwrap().cell,
            }),
            ..self
        }
    }

    /// `after` is `before` but for cell `i`, which is `cell`.
    pub open spec fn only_cell_changed(before: Field, after: Field, i: int, cell: Cell) -> bool {
        &&& after == Field { cells: after.cells, ..before }
        &&& after.cells@ == before.cells@.update(i, cell)
    }

    /// What resolving `e` does: `after` is the field afterwards and `r` the reward shown.
    pub open spec fn resolves(before: Field, e: CardEffect, after: Field, r: Option<Icon>) -> bool
        decreases e,
    {
        let pc = before.pc();
        let at = before.player.unwrap().cell as int;
        match e {
            CardEffect::Empty => after == before && r is None,
            CardEffect::Heal { health } => after == before.with_pc(pc.healed(health)) && r
                == Some(icon(engine::HEART)),
            CardEffect::Armor { amount } => after == before.with_pc(
                Creature { health: sat_add(pc.health, amount), ..pc },
            ) && r == Some(icon(engine::SHIELD)),
            CardEffect::Coins { amount } => after == before.with_pc(
                Creature { coins: sat_add(pc.coins, amount), ..pc },
            ) && r == Some(icon(engine::COIN)),
            CardEffect::Weapon(w) => if pc.coins >= w.price {
                after == before.with_pc(
                    Creature { coins: (pc.coins - w.price) as u32, weapon: Some(w), ..pc },
                ) && r == Some(w.icon)
            } else {
                after == before && r == Some(icon(engine::CROSS))
            },
            CardEffect::Buff(b) => {
                &&& after == before.with_pc(after.pc())
                &&& after.pc() == Creature { buffs: after.pc().buffs, ..pc }
                &&& after.pc().buffs@ == pc.buffs@.push(b)
                &&& r == Some(b.icon)
            },
            CardEffect::HealEnemy { health } => match first_enemy(before.cells@, at) {
                Some(i) => {
                    let cell = before.cells@[i];
                    let foe = cell.enemy.unwrap().creature;
                    &&& Field::only_cell_changed(
                        before,
                        after,
                        i,
                        Cell { enemy: Some(ActiveCreature { creature: foe.healed(health) }), ..cell },
                    )
                    &&& r == Some(icon(engine::GREEN_HEART))
                },
                None => after == before && r is None,
            },
            CardEffect::Attack { use_base, bonus } => match first_enemy(before.cells@, at) {
                Some(i) => {
                    let cell = before.cells@[i];
                    let foe = cell.enemy.unwrap().creature;
                    let left = sat_sub(foe.health, card_damage(pc, use_base, bonus));
                    &&& r == Some(icon(engine::BANG))
                    &&& if left == 0 {
                        Field::only_cell_changed(
                            before.with_pc(Creature { coins: sat_add(pc.coins, foe.coins), ..pc }),
                            after,
                            i,
                            Cell { enemy: None, ..cell },
                        )
                    } else {
                        Field::only_cell_changed(
                            before,
                            after,
                            i,
                            Cell {
                                enemy: Some(ActiveCreature { creature: Creature { health: left, ..foe } }),
                                ..cell
                            },
                        )
                    }
                },
                None => after == before && r is None,
            },
            CardEffect::BossBuff(b) => {
                let last = before.cells@.len() - 1;
                let cell = before.cells@[last];
                if cell.enemy is Some {
                    let boss = cell.enemy.unwrap().creature;
                    let now = after.cells@[last];
                    let boss_now = now.enemy.unwrap().creature;
                    &&& Field::only_cell_changed(before, after, last, now)
                    &&& now == Cell { enemy: now.enemy, ..cell }
                    &&& now.enemy is Some
                    &&& boss_now == Creature { buffs: boss_now.buffs, ..boss }
                    &&& boss_now.buffs@ == boss.buffs@.push(b)
                    &&& r == Some(b.icon)
                } else {
                    after == before && r is None
                }
            },
            CardEffect::Disarm => if pc.weapon is Some {
                after == before.with_pc(Creature { weapon: None, ..pc }) && r == Some(
                    icon(engine::DISARM),
                )
            } else {
                after == before && r is None
            },
            CardEffect::Buy { price, effect } => if pc.coins >= price {
                Field::resolves(
                    before.with_pc(Creature { coins: (pc.coins - price) as u32, ..pc }),
                    *effect,
                    after,
                    r,
                )
            } else {
                after == before && r == Some(icon(engine::CROSS))
            },
            CardEffect::Enemy(_) => false,
        }
    }
}


/// The player every run starts with.
pub open spec fn starting_creature(c: Creature) -> bool {
    &&& c.icon == icon(engine::FIGHTER)
    &&& c.health == 10
    &&& c.max_health == Some(10u32)
    &&& c.attack == 4
    &&& c.coins == 0
    &&& c.rewards@.len() == 0
    &&& c.weapon is None
    &&& c.buffs@.len() == 0
}

proof fn lemma_cell_y(index: int, i: int)
    requires
        0 <= index,
        0 <= i < FIELD_CELLS,
    ensures
        ((index % 150 + i + (i + 5) * ((i + 2) / 2)) * 65) % 150 == ((index + i + (i + 5) * ((i
            + 2) / 2)) * 65) % 150,
{
    let c = i + (i + 5) * ((i + 2) / 2);
    let q = index / 150;
    let base = index % 150;
    lemma_fundamental_div_mod(index, 150);
    assert((index + c) * 65 == 150 * (65 * q) + (base + c) * 65) by (nonlinear_arith)
        requires
            index == 150 * q + base,
    ;
    lemma_mod_multiples_vanish(65 * q, (base + c) * 65, 150);
}

impl Field {
    /// Cell `i` of floor `index`, empty.
    pub open spec fn fresh_cell(index: int, i: int) -> Cell {
        Cell {
            position: ((170 + 180 * i) as u32, cell_y(index, i) as u32),
            card: None,
            fixed: cell_fixed(i),
            enemy: None,
        }
    }

    /// The cells of floor `index`, all empty.
    pub open spec fn fresh_cells(cells: Seq<Cell>, index: int) -> bool {
        &&& cells.len() == FIELD_CELLS
        &&& forall|i: int| 0 <= i < FIELD_CELLS ==> #[trigger] cells[i] == Field::fresh_cell(index, i)
    }

    /// The first floor, with the starting player on its first cell.
    pub fn new() -> (r: Field)
        ensures
            Field::fresh_cells(r.cells@, 0),
            r.player is Some,
            r.player.unwrap().cell == 0,
            starting_creature(r.pc()),
            r.action == ActionState::Start,
    {
        let mut field = Field::new_pending(0);
        field.player = Some(
            Player {
                creature: ActiveCreature::from(
                    Creature {
                        icon: Icon::new(engine::FIGHTER),
                        health: 10,
                        max_health: Some(10),
                        attack: 4,
                        coins: 0,
                        rewards: Vec::new(),
                        weapon: None,
                        buffs: Vec::new(),
                    },
                ),
                cell: 0,
            },
        );
        field
    }

    /// Floor `index`, waiting for a player.
    pub fn new_pending(index: usize) -> (r: Field)
        ensures
            Field::fresh_cells(r.cells@, index as int),
            r.player is None,
            r.action == ActionState::Start,
    {
        let mut cells: Vec<Cell> = Vec::new();
        let base = (index % 150) as u32;
        let mut i: u32 = 0;
        while i < 8
            invariant
                i <= FIELD_CELLS,
                base == index % 150,
                cells@.len() == i,
                forall|j: int| 0 <= j < i ==> #[trigger] cells@[j] == Field::fresh_cell(index as int, j),
            decreases 8 - i,
        {
            let y: u32 = if i == 0 || i == 7 {
                250
            } else {
                proof {
                    lemma_cell_y(index as int, i as int);
                    assert((i + 5) * ((i + 2) / 2) <= 48) by (nonlinear_arith)
                        requires
                            i < 8,
                    ;
                }
                100 + ((base + i + (i + 5) * ((i + 2) / 2)) * 65) % 150
            };
            cells.push(Cell { position: (170 + 180 * i, y), card: None, fixed: i % 2 == 0 || i == 7, enemy: None });
            i += 1;
        }
        Field { cells, player: None, action: ActionState::Start }
    }

    /// Index of the first cell at or after `from` that holds a monster.
    pub fn find_enemy(&self, from: usize) -> (r: Option<usize>)
        ensures
            r matches Some(i) ==> first_enemy(self.cells@, from as int) == Some(i as int) && i
                < self.cells@.len() && self.cells@[i as int].enemy is Some,
            r is None ==> first_enemy(self.cells@, from as int) is None,
    {
        let mut i = from;
        while i < self.cells.len()
            invariant
                from <= i,
                first_enemy(self.cells@, from as int) == first_enemy(self.cells@, i as int),
            decreases self.cells@.len() - i,
        {
            if self.cells[i].enemy.is_some() {
                return Some(i);
            }
            i += 1;
        }
        None
    }

    /// Carries out a card's effect for the player, returning the reward icon to show.
    pub fn apply_effect(&mut self, effect: &CardEffect) -> (r: Option<Icon>)
        requires
            old(self).player is Some,
            old(self).player.unwrap().cell < old(self).cells@.len(),
            resolvable(*effect),
        ensures
            Field::resolves(*old(self), *effect, *final(self), r),
            final(self).player is Some,
            final(self).player.unwrap().cell == old(self).player.unwrap().cell,
            final(self).cells@.len() == old(self).cells@.len(),
            final(self).action == old(self).action,
        decreases effect,
    {
        let ghost before = *self;
        let at = match &self.player {
            Some(p) => p.cell,
            None => 0,
        };
        match effect {
            CardEffect::Empty => None,
            CardEffect::Enemy(_) => None,
            CardEffect::Heal { health } => {
                if let Some(p) = &mut self.player {
                    p.creature.creature.heal(*health);
                }
                Some(Icon::new(engine::HEART))
            },
            CardEffect::Armor { amount } => {
                if let Some(p) = &mut self.player {
                    p.creature.creature.health = p.creature.creature.health.saturating_add(*amount);
                }
                Some(Icon::new(engine::SHIELD))
            },
            CardEffect::Coins { amount } => {
                if let Some(p) = &mut self.player {
                    p.creature.creature.coins = p.creature.creature.coins.saturating_add(*amount);
                }
                Some(Icon::new(engine::COIN))
            },
            CardEffect::Weapon(weapon) => {
                if let Some(p) = &mut self.player {
                    if p.creature.creature.coins >= weapon.price {
                        p.creature.creature.coins = p.creature.creature.coins - weapon.price;
                        p.creature.creature.weapon = Some(*weapon);
                        return Some(weapon.icon);
                    }
                }
                Some(Icon::new(engine::CROSS))
            },
            CardEffect::Buff(buff) => {
                if let Some(p) = &mut self.player {
                    p.creature.creature.buffs.push(*buff);
                }
                Some(buff.icon)
            },
            CardEffect::HealEnemy { health } => {
                match self.find_enemy(at) {
                    Some(i) => {
                        if let Some(foe) = &mut self.cells[i].enemy {
                            foe.creature.heal(*health);
                        }
                        Some(Icon::new(engine::GREEN_HEART))
                    },
                    None => None,
                }
            },
            CardEffect::Attack { use_base, bonus } => {
                match self.find_enemy(at) {
                    Some(i) => {
                        let base = match &self.player {
                            Some(p) => p.creature.creature.attack,
                            None => 0,
                        };
                        let damage = if *use_base { base.saturating_add(*bonus) } else { *bonus };
                        let mut loot: Option<u32> = None;
                        if let Some(foe) = &mut self.cells[i].enemy {
                            foe.creature.health = foe.creature.health.saturating_sub(damage);
                            if foe.creature.health == 0 {
                                loot = Some(foe.creature.coins);
                            }
                        }
                        if let Some(coins) = loot {
                            self.cells[i].enemy = None;
                            assert(self.cells@ =~= before.cells@.update(
                                i as int,
                                Cell { enemy: None, ..before.cells@[i as int] },
                            ));
                            if let Some(p) = &mut self.player {
                                p.creature.creature.coins = p.creature.creature.coins.saturating_add(coins);
                            }
                        }
                        Some(Icon::new(engine::BANG))
                    },
                    None => None,
                }
            },
            CardEffect::BossBuff(buff) => {
                let last = self.cells.len() - 1;
                if self.cells[last].enemy.is_none() {
                    return None;
                }
                if let Some(boss) = &mut self.cells[last].enemy {
                    boss.creature.buffs.push(*buff);
                }
                Some(buff.icon)
            },
            CardEffect::Disarm => {
                if let Some(p) = &mut self.player {
                    if p.creature.creature.weapon.is_some() {
                        p.creature.creature.weapon = None;
                        return Some(Icon::new(engine::DISARM));
                    }
                }
                None
            },
            CardEffect::Buy { price, effect } => {
                let mut paid = false;
                if let Some(p) = &mut self.player {
                    if p.creature.creature.coins >= *price {
                        p.creature.creature.coins = p.creature.creature.coins - *price;
                        paid = true;
                    }
                }
                if paid {
                    self.apply_effect(&**effect)
                } else {
                    Some(Icon::new(engine::CROSS))
                }
            },
        }
    }
}


/// What the player's next phase is once it may move on: the end of the path finishes the floor.
pub open spec fn moving(player: Option<Player>, len: nat) -> ActionState {
    match player {
        Some(p) => if p.cell == len - 1 {
            ActionState::Finished(0)
        } else {
            ActionState::PlayerMove(0)
        },
        None => ActionState::PlayerMove(0),
    }
}

/// The reward icon that a phase shows, if it is the reward phase.
pub open spec fn bonus_of(a: ActionState) -> Option<Icon> {
    match a {
        ActionState::AcceptBonus(_, i) => Some(i),
        _ => None,
    }
}

/// The damage of one attack by `c`.
pub open spec fn power(c: Creature) -> u32 {
    cap_u32(total_attack(c)) as u32
}

/// `after` is `before` once it has attacked, coins aside.
pub open spec fn attack_spent(before: Creature, after: Creature) -> bool {
    &&& after.buffs@ == surviving(before.buffs@, BuffEvent::Attacked)
    &&& after.weapon == worn(before.weapon)
    &&& after.health == before.health
    &&& same_identity(after, before)
}

/// `after` is `before` once it has been hit for `damage`.
pub open spec fn hit_taken(before: Creature, after: Creature, damage: u32) -> bool {
    &&& after.health == sat_sub(before.health, damage)
    &&& after.buffs@ == surviving(before.buffs@, BuffEvent::Hit)
    &&& after.weapon == before.weapon
    &&& after.coins == before.coins
    &&& same_identity(after, before)
}

proof fn lemma_copy_of_resolvable(a: CardEffect, b: CardEffect)
    requires
        a.copy_of(b),
    ensures
        resolvable(a) == resolvable(b),
        resolvable(b) ==> a == b,
    decreases a,
{
    if let (CardEffect::Buy { effect: x, .. }, CardEffect::Buy { effect: y, .. }) = (a, b) {
        lemma_copy_of_resolvable(*x, *y);
    }
}

impl Field {
    /// The invariant of a floor in play: each phase has what it acts on.
    pub open spec fn valid(self) -> bool {
        let len = self.cells@.len();
        let p = self.player.unwrap();
        &&& len >= 1
        &&& self.player is Some ==> p.cell < len
        &&& match self.action {
            ActionState::Start => self.player is Some,
            ActionState::Finished(_) => true,
            ActionState::PlayerMove(_) => self.player is Some && p.cell + 1 < len,
            ActionState::PlayerAttack(hit, _) => self.player is Some && (!hit
                ==> self.cells@[p.cell as int].enemy is Some),
            ActionState::EnemyAttack(hit, c, _) => {
                &&& c < len
                &&& self.cells@[c as int].enemy is Some
                &&& !hit ==> self.player is Some
                &&& self.player is Some ==> p.cell == c
            },
            ActionState::AcceptBonus(_, _) => self.player is Some,
        }
    }

    /// The player, on its cell, hits the monster there. The attack is paid for whatever the
    /// outcome; a monster left at 0 health leaves its cell and its coins go to the player
    /// (its `rewards` are not applied).
    pub open spec fn player_struck(before: Field, after: Field) -> bool {
        let at = before.player.unwrap().cell as int;
        let cell = before.cells@[at];
        let foe = cell.enemy.unwrap().creature;
        let pc = before.pc();
        let damage = power(pc);
        let left = sat_sub(foe.health, damage);
        &&& after.action == before.action
        &&& after.player is Some
        &&& after.player.unwrap().cell == at
        &&& attack_spent(pc, after.pc())
        &&& after.pc().coins == if left == 0 {
            sat_add(pc.coins, foe.coins)
        } else {
            pc.coins
        }
        &&& after.cells@ == before.cells@.update(at, after.cells@[at])
        &&& if left == 0 {
            after.cells@[at] == Cell { enemy: None, ..cell }
        } else {
            &&& after.cells@[at] == Cell { enemy: after.cells@[at].enemy, ..cell }
            &&& after.cells@[at].enemy is Some
            &&& hit_taken(foe, after.cells@[at].enemy.unwrap().creature, damage)
        }
    }

    /// The monster in cell `c` hits the player; a player left at 0 health is gone.
    pub open spec fn enemy_struck(before: Field, after: Field, c: int) -> bool {
        let cell = before.cells@[c];
        let foe = cell.enemy.unwrap().creature;
        let damage = power(foe);
        let pc = before.pc();
        let now = after.cells@[c];
        &&& after.action == before.action
        &&& after.cells@ == before.cells@.update(c, now)
        &&& now == Cell { enemy: now.enemy, ..cell }
        &&& now.enemy is Some
        &&& attack_spent(foe, now.enemy.unwrap().creature)
        &&& now.enemy.unwrap().creature.coins == foe.coins
        &&& if sat_sub(pc.health, damage) == 0 {
            after.player is None
        } else {
            &&& after.player is Some
            &&& after.player.unwrap().cell == before.player.unwrap().cell
            &&& hit_taken(pc, after.pc(), damage)
        }
    }

    /// The player reaches the next cell: a monster there is fought, a card there is
    /// resolved, and otherwise the player moves on.
    pub open spec fn arrived(before: Field, after: Field) -> bool {
        let len = before.cells@.len();
        let p = before.player.unwrap();
        let at = p.cell + 1;
        let moved = Field { player: Some(Player { cell: at as usize, ..p }), ..before };
        let cell = before.cells@[at];
        if cell.enemy is Some {
            after == Field { action: ActionState::PlayerAttack(false, 0), ..moved }
        } else if cell.card is Some && resolvable(cell.card.unwrap().effect) {
            let r = bonus_of(after.action);
            &&& Field::resolves(
                moved,
                cell.card.unwrap().effect,
                Field { action: moved.action, ..after },
                r,
            )
            &&& after.action == match r {
                Some(i) => ActionState::AcceptBonus(0, i),
                None => moving(after.player, len),
            }
        } else {
            after == Field { action: moving(moved.player, len), ..moved }
        }
    }

    /// One tick of `dt` milliseconds, from `before` to `after`.
    pub open spec fn stepped(before: Field, dt: u32, after: Field) -> bool {
        let len = before.cells@.len();
        let at = before.player.unwrap().cell;
        match before.action {
            ActionState::Start => after == Field { action: moving(before.player, len), ..before },
            ActionState::Finished(t) => after == Field {
                action: ActionState::Finished(sat_add(t, dt)),
                ..before
            },
            ActionState::PlayerMove(t) => if sat_add(t, dt) < MOVE_TIME {
                after == Field { action: ActionState::PlayerMove(sat_add(t, dt)), ..before }
            } else {
                Field::arrived(before, after)
            },
            ActionState::PlayerAttack(hit, t) => {
                let t2 = sat_add(t, dt);
                let strikes = t2 >= HIT_TIME && !hit;
                &&& if strikes {
                    Field::player_struck(before, Field { action: before.action, ..after })
                } else {
                    after == Field { action: after.action, ..before }
                }
                &&& after.action == if t2 >= ATTACK_TIME {
                    if after.cells@[at as int].enemy is None {
                        moving(after.player, len)
                    } else {
                        ActionState::EnemyAttack(false, at, 0)
                    }
                } else {
                    ActionState::PlayerAttack(hit || strikes, t2)
                }
            },
            ActionState::EnemyAttack(hit, c, t) => {
                let t2 = sat_add(t, dt);
                let strikes = t2 >= HIT_TIME && !hit;
                &&& if strikes {
                    Field::enemy_struck(before, Field { action: before.action, ..after }, c as int)
                } else {
                    after == Field { action: after.action, ..before }
                }
                &&& after.action == if t2 >= ATTACK_TIME {
                    if after.player is None {
                        ActionState::Finished(0)
                    } else {
                        ActionState::PlayerAttack(false, 0)
                    }
                } else {
                    ActionState::EnemyAttack(hit || strikes, c, t2)
                }
            },
            ActionState::AcceptBonus(t, i) => after == Field {
                action: if sat_add(t, dt) >= BONUS_TIME {
                    moving(before.player, len)
                } else {
                    ActionState::AcceptBonus(sat_add(t, dt), i)
                },
                ..before
            },
        }
    }

    fn player_strike(&mut self)
        requires
            old(self).player is Some,
            old(self).player.unwrap().cell < old(self).cells@.len(),
            old(self).cells@[old(self).player.unwrap().cell as int].enemy is Some,
        ensures
            Field::player_struck(*old(self), *final(self)),
    {
        let ghost before = *self;
        let at = match &self.player {
            Some(p) => p.cell,
            None => 0,
        };
        let damage = match &self.player {
            Some(p) => p.creature.attack_power(),
            None => 0,
        };
        let mut loot: Option<u32> = None;
        if let Some(foe) = &mut self.cells[at].enemy {
            foe.take_hit(damage);
            if foe.creature.health == 0 {
                loot = Some(foe.creature.coins);
            }
        }
        if let Some(p) = &mut self.player {
            p.creature.spend_attack();
            if let Some(coins) = loot {
                p.creature.creature.coins = p.creature.creature.coins.saturating_add(coins);
            }
        }
        if loot.is_some() {
            self.cells[at].enemy = None;
        }
        assert(self.cells@ =~= before.cells@.update(at as int, self.cells@[at as int]));
    }

    fn enemy_strike(&mut self, c: usize)
        requires
            c < old(self).cells@.len(),
            old(self).cells@[c as int].enemy is Some,
            old(self).player is Some,
        ensures
            Field::enemy_struck(*old(self), *final(self), c as int),
    {
        let damage = match &self.cells[c].enemy {
            Some(foe) => foe.attack_power(),
            None => 0,
        };
        let mut dead = false;
        if let Some(p) = &mut self.player {
            p.creature.take_hit(damage);
            dead = p.creature.creature.health == 0;
        }
        if let Some(foe) = &mut self.cells[c].enemy {
            foe.spend_attack();
        }
        if dead {
            self.player = None;
        }
    }

    fn arrive(&mut self)
        requires
            old(self).valid(),
            old(self).action is PlayerMove,
        ensures
            Field::arrived(*old(self), *final(self)),
            final(self).valid(),
    {
        let len = self.cells.len();
        let mut at: usize = 0;
        if let Some(p) = &mut self.player {
            p.cell = p.cell + 1;
            at = p.cell;
        }
        if self.cells[at].enemy.is_some() {
            self.action = ActionState::PlayerAttack(false, 0);
            return;
        }
        let effect = match &self.cells[at].card {
            Some(card) => Some(card.effect.clone()),
            None => None,
        };
        let ghost moved = *self;
        let mut shown: Option<Icon> = None;
        if let Some(effect) = effect {
            proof {
                lemma_copy_of_resolvable(effect, self.cells@[at as int].card.unwrap().effect);
            }
            if is_resolvable(&effect) {
                shown = self.apply_effect(&effect);
            }
        }
        let ghost resolved = *self;
        match shown {
            Some(i) => {
                self.action = ActionState::AcceptBonus(0, i);
            },
            None => {
                self.action = if at == len - 1 {
                    ActionState::Finished(0)
                } else {
                    ActionState::PlayerMove(0)
                };
            },
        }
        assert(Field { action: moved.action, ..*self } == resolved);
    }

    /// Advances the floor by `dt` milliseconds of game time.
    pub fn update_action(&mut self, dt: u32)
        requires
            old(self).valid(),
        ensures
            final(self).valid(),
            Field::stepped(*old(self), dt, *final(self)),
    {
        let len = self.cells.len();
        let at = match &self.player {
            Some(p) => p.cell,
            None => 0,
        };
        match self.action {
            ActionState::Start => {
                self.action = ActionState::PlayerMove(0);
            },
            ActionState::Finished(t) => {
                self.action = ActionState::Finished(t.saturating_add(dt));
            },
            ActionState::PlayerMove(t) => {
                let t2 = t.saturating_add(dt);
                if t2 < MOVE_TIME {
                    self.action = ActionState::PlayerMove(t2);
                } else {
                    self.arrive();
                    return;
                }
            },
            ActionState::PlayerAttack(hit, t) => {
                let t2 = t.saturating_add(dt);
                let strikes = t2 >= HIT_TIME && !hit;
                if strikes {
                    self.player_strike();
                }
                if t2 >= ATTACK_TIME {
                    if self.cells[at].enemy.is_none() {
                        self.action = ActionState::PlayerMove(0);
                    } else {
                        self.action = ActionState::EnemyAttack(false, at, 0);
                    }
                } else {
                    self.action = ActionState::PlayerAttack(hit || strikes, t2);
                }
            },
            ActionState::EnemyAttack(hit, c, t) => {
                let t2 = t.saturating_add(dt);
                let strikes = t2 >= HIT_TIME && !hit;
                if strikes {
                    self.enemy_strike(c);
                }
                if t2 >= ATTACK_TIME {
                    if self.player.is_none() {
                        self.action = ActionState::Finished(0);
                    } else {
                        self.action = ActionState::PlayerAttack(false, 0);
                    }
                } else {
                    self.action = ActionState::EnemyAttack(hit || strikes, c, t2);
                }
            },
            ActionState::AcceptBonus(t, i) => {
                let t2 = t.saturating_add(dt);
                if t2 >= BONUS_TIME {
                    self.action = ActionState::PlayerMove(0);
                } else {
                    self.action = ActionState::AcceptBonus(t2, i);
                }
            },
        }
        if let ActionState::PlayerMove(_) = self.action {
            if let Some(p) = &self.player {
                if p.cell == len - 1 {
                    self.action = ActionState::Finished(0);
                }
            }
        }
    }
}


/// A hit whose damage is at least the health left leaves exactly 0 health.
pub proof fn lethal_hit(before: Creature, after: Creature, damage: u32)
    requires
        hit_taken(before, after, damage),
        damage >= before.health,
    ensures
        after.health == 0,
{
}

/// A weapon the player cannot afford changes nothing and shows the cross; one the player
/// can afford costs exactly its price, is equipped, and shows its own icon.
pub proof fn purchase_gating(before: Field, w: Weapon, after: Field, r: Option<Icon>)
    requires
        before.player is Some,
        Field::resolves(before, CardEffect::Weapon(w), after, r),
    ensures
        w.price > before.pc().coins ==> after == before && r == Some(icon(engine::CROSS)),
        w.price <= before.pc().coins ==> {
            &&& after.pc().coins == before.pc().coins - w.price
            &&& after.pc().weapon == Some(w)
            &&& r == Some(w.icon)
        },
{
}

/// A player hit that brings a monster to 0 health removes it and pays the player the
/// monster's coins in the same step (held at `u32::MAX`).
pub proof fn kill_reward(before: Field, after: Field)
    requires
        Field::player_struck(before, after),
        after.cells@[before.player.unwrap().cell as int].enemy is None,
    ensures
        after.pc().coins == sat_add(
            before.pc().coins,
            before.cells@[before.player.unwrap().cell as int].enemy.unwrap().creature.coins,
        ),
        before.pc().coins + before.cells@[before.player.unwrap().cell as int].enemy.unwrap().creature.coins
            <= u32::MAX ==> after.pc().coins == before.pc().coins
            + before.cells@[before.player.unwrap().cell as int].enemy.unwrap().creature.coins,
{
}

/// Distance, in milliseconds of walking, from a state of an empty path to its end.
pub open spec fn walk_left(f: Field) -> int {
    match f.action {
        ActionState::PlayerMove(t) => (f.cells@.len() - 1 - f.player.unwrap().cell) * MOVE_TIME
            - t,
        _ => 0,
    }
}

/// Each field of `trace` is the one before it after a tick of `dt`.
#[verifier::opaque]
pub open spec fn ticks(trace: Seq<Field>, dt: u32) -> bool {
    forall|k: int| 0 <= k < trace.len() - 1 ==> Field::stepped(#[trigger] trace[k], dt, trace[k + 1])
}

/// A state of a walk along a path without monsters or cards.
pub open spec fn walking(f: Field, cells: Vec<Cell>) -> bool {
    let len = f.cells@.len();
    &&& f.cells == cells
    &&& f.player is Some
    &&& match f.action {
        ActionState::PlayerMove(t) => t < MOVE_TIME && f.player.unwrap().cell + 1 < len,
        ActionState::Finished(_) => f.player.unwrap().cell == len - 1,
        _ => false,
    }
}

proof fn walk_step(f: Field, dt: u32, g: Field, cells: Vec<Cell>)
    requires
        walking(f, cells),
        dt > 0,
        Field::stepped(f, dt, g),
        forall|i: int| 0 <= i < cells@.len() ==> (#[trigger] cells@[i]).enemy is None && cells@[i].card is None,
    ensures
        walking(g, cells),
        g.player.unwrap().cell >= f.player.unwrap().cell,
        f.action is PlayerMove ==> walk_left(g) < walk_left(f),
        f.action is Finished ==> g.action is Finished && g.player == f.player,
        f.action matches ActionState::PlayerMove(t) ==> if sat_add(t, dt) < MOVE_TIME {
            g.action == ActionState::PlayerMove((t + dt) as u32) && g.player.unwrap().cell
                == f.player.unwrap().cell
        } else {
            g.player.unwrap().cell == f.player.unwrap().cell + 1 && (g.action is Finished
                || g.action == ActionState::PlayerMove(0))
        },
{
    let p = f.player.unwrap();
    let len = f.cells@.len();
    assert(f.cells.len() == len);
    if let ActionState::PlayerMove(t) = f.action {
        let left = (len - 1 - p.cell) * 1200 - t;
        assert(walk_left(f) == left);
        if sat_add(t, dt) >= MOVE_TIME {
            let n = p.cell + 1;
            assert(cells@[n as int].enemy is None && cells@[n as int].card is None);
            let moved = Field { player: Some(Player { cell: n as usize, ..p }), ..f };
            assert(g == Field { action: moving(moved.player, len), ..moved });
            assert(g.player.unwrap().cell == n);
            if n == len - 1 {
                assert(walk_left(g) == 0);
            } else {
                assert(walk_left(g) == (len - 1 - n) * 1200);
            }
        } else {
            assert(g == Field { action: ActionState::PlayerMove(sat_add(t, dt)), ..f });
            assert(walk_left(g) == (len - 1 - p.cell) * 1200 - (t + dt));
        }
    }
}

/// On a path of `len >= 2` cells with no monsters and no cards, a player who starts to
/// walk from the first cell never passes the last cell and, after enough ticks of any
/// positive length, has finished the floor standing on the last cell. `trace` is the
/// field tick after tick.
pub proof fn path_termination(trace: Seq<Field>, dt: u32)
    requires
        trace.len() >= 1,
        dt > 0,
        trace[0].cells@.len() >= 2,
        trace[0].player is Some,
        trace[0].player.unwrap().cell == 0,
        trace[0].action == ActionState::PlayerMove(0),
        forall|i: int|
            0 <= i < trace[0].cells@.len() ==> (#[trigger] trace[0].cells@[i]).enemy is None
                && trace[0].cells@[i].card is None,
        ticks(trace, dt),
    ensures
        forall|k: int|
            0 <= k < trace.len() ==> (#[trigger] trace[k]).player is Some && trace[k].player.unwrap().cell
                <= trace[0].cells@.len() - 1,
        trace.len() > trace[0].cells@.len() * MOVE_TIME ==> {
            &&& trace.last().action is Finished
            &&& trace.last().player.unwrap().cell == trace[0].cells@.len() - 1
        },
    decreases trace.len(),
{
    let cells = trace[0].cells;
    let len = cells@.len();
    if trace.len() == 1 {
        return;
    }
    assert forall|k: int| 0 <= k < trace.len() implies walking(#[trigger] trace[k], cells)
        && (trace[k].action is PlayerMove ==> 1 <= walk_left(trace[k]) <= len * MOVE_TIME - k) by {
        walk_trace(trace, dt, cells, k);
    }
    let last = trace.last();
    assert(walking(last, cells));
    assert(trace[trace.len() - 1] == last);
}

proof fn walk_trace(trace: Seq<Field>, dt: u32, cells: Vec<Cell>, k: int)
    requires
        0 <= k < trace.len(),
        dt > 0,
        trace[0].cells == cells,
        cells@.len() >= 2,
        trace[0].player is Some,
        trace[0].player.unwrap().cell == 0,
        trace[0].action == ActionState::PlayerMove(0),
        forall|i: int| 0 <= i < cells@.len() ==> (#[trigger] cells@[i]).enemy is None && cells@[i].card is None,
        ticks(trace, dt),
    ensures
        walking(trace[k], cells),
        trace[k].action is PlayerMove ==> 1 <= walk_left(trace[k]) <= cells@.len() * MOVE_TIME - k,
    decreases k,
{
    if k > 0 {
        walk_trace(trace, dt, cells, k - 1);
        let j = k - 1;
        assert(Field::stepped(trace[j], dt, trace[j + 1])) by {
            reveal(ticks);
        }
        walk_step(trace[j], dt, trace[j + 1], cells);
    }
}


proof fn lemma_resolves_keeps_player_cell(before: Field, e: CardEffect, after: Field, r: Option<Icon>)
    requires
        before.player is Some,
        Field::resolves(before, e, after, r),
    ensures
        after.player is Some,
        after.player.unwrap().cell == before.player.unwrap().cell,
    decreases e,
{
    if let CardEffect::Buy { price, effect } = e {
        let pc = before.pc();
        if pc.coins >= price {
            lemma_resolves_keeps_player_cell(
                before.with_pc(Creature { coins: (pc.coins - price) as u32, ..pc }),
                *effect,
                after,
                r,
            );
        }
    }
}

/// In one tick the player moves forward by one cell at most, never back, and a player
/// who is gone stays gone.
pub proof fn player_only_moves_forward(before: Field, dt: u32, after: Field)
    requires
        before.valid(),
        Field::stepped(before, dt, after),
    ensures
        before.player is None ==> after.player is None,
        after.player is Some ==> {
            &&& before.player is Some
            &&& before.player.unwrap().cell <= after.player.unwrap().cell
            &&& after.player.unwrap().cell <= before.player.unwrap().cell + 1
        },
{
    if let ActionState::PlayerMove(t) = before.action {
        if sat_add(t, dt) >= MOVE_TIME {
            let p = before.player.unwrap();
            let at = p.cell + 1;
            assert(before.cells.len() == before.cells@.len());
            let moved = Field { player: Some(Player { cell: at as usize, ..p }), ..before };
            let cell = before.cells@[at as int];
            if cell.enemy is None && cell.card is Some && resolvable(cell.card.unwrap().effect) {
                lemma_resolves_keeps_player_cell(
                    moved,
                    cell.card.unwrap().effect,
                    Field { action: moved.action, ..after },
                    bonus_of(after.action),
                );
            }
        }
    }
}


/// Time that `j` ticks of `dt` make up.
pub open spec fn elapsed(j: int, dt: u32) -> int {
    j * dt
}

proof fn walk_ticks(trace: Seq<Field>, dt: u32, steps: int, cells: Vec<Cell>, k: int)
    requires
        0 <= k < trace.len(),
        dt > 0,
        steps * dt >= MOVE_TIME,
        trace[0].cells == cells,
        cells@.len() >= 2,
        trace[0].player is Some,
        trace[0].player.unwrap().cell == 0,
        trace[0].action == ActionState::PlayerMove(0),
        forall|i: int| 0 <= i < cells@.len() ==> (#[trigger] cells@[i]).enemy is None && cells@[i].card is None,
        ticks(trace, dt),
    ensures
        walking(trace[k], cells),
        trace[k].action matches ActionState::PlayerMove(t) ==> exists|j: int|
            0 <= j < steps && t == #[trigger] elapsed(j, dt) && k <= trace[k].player.unwrap().cell * steps + j,
    decreases k,
{
    if k == 0 {
        assert(0 < steps) by (nonlinear_arith)
            requires
                steps * dt >= MOVE_TIME,
                dt > 0,
        ;
        assert(0u32 == elapsed(0, dt));
    } else {
        walk_ticks(trace, dt, steps, cells, k - 1);
        let j0 = k - 1;
        assert(Field::stepped(trace[j0], dt, trace[j0 + 1])) by {
            reveal(ticks);
        }
        walk_step(trace[j0], dt, trace[j0 + 1], cells);
        let f = trace[j0];
        let g = trace[k];
        if let ActionState::PlayerMove(t) = f.action {
            let j = choose|j: int| 0 <= j < steps && t == #[trigger] elapsed(j, dt) && j0 <= f.player.unwrap().cell * steps + j;
            let c = f.player.unwrap().cell as int;
            if sat_add(t, dt) < MOVE_TIME {
                assert(t + dt == (j + 1) * dt) by (nonlinear_arith)
                    requires
                        t == j * dt,
                ;
                assert(j + 1 < steps) by (nonlinear_arith)
                    requires
                        (j + 1) * dt < MOVE_TIME,
                        steps * dt >= MOVE_TIME,
                        dt > 0,
                ;
                assert(g.action matches ActionState::PlayerMove(t2) && t2 == elapsed(j + 1, dt) && k <= c * steps + (j + 1));
            } else if let ActionState::PlayerMove(t2) = g.action {
                assert(t2 == 0 && g.player.unwrap().cell == c + 1);
                assert(k <= (c + 1) * steps + 0) by (nonlinear_arith)
                    requires
                        k == j0 + 1,
                        j0 <= c * steps + j,
                        j < steps,
                ;
                assert(0u32 == elapsed(0, dt));
            }
        }
    }
}

/// On a path of `len >= 2` cells with no monsters and no cards, a player who starts to
/// walk from the first cell has finished the floor on the last cell after
/// `(len - 1) * steps` ticks of `dt`, for any `steps` ticks that make up a move
/// (`steps * dt >= MOVE_TIME`, so `steps` may be `MOVE_TIME / dt` rounded up).
pub proof fn path_termination_in_ticks(trace: Seq<Field>, dt: u32, steps: int)
    requires
        trace.len() >= 1,
        dt > 0,
        steps * dt >= MOVE_TIME,
        trace[0].cells@.len() >= 2,
        trace[0].player is Some,
        trace[0].player.unwrap().cell == 0,
        trace[0].action == ActionState::PlayerMove(0),
        forall|i: int|
            0 <= i < trace[0].cells@.len() ==> (#[trigger] trace[0].cells@[i]).enemy is None
                && trace[0].cells@[i].card is None,
        ticks(trace, dt),
    ensures
        trace.len() > (trace[0].cells@.len() - 1) * steps ==> {
            &&& trace.last().action is Finished
            &&& trace.last().player.unwrap().cell == trace[0].cells@.len() - 1
        },
{
    let cells = trace[0].cells;
    let len = cells@.len() as int;
    let k = trace.len() - 1;
    walk_ticks(trace, dt, steps, cells, k);
    assert(trace[k] == trace.last());
    if trace.len() > (len - 1) * steps {
        if let ActionState::PlayerMove(t) = trace[k].action {
            let j = choose|j: int| 0 <= j < steps && t == #[trigger] elapsed(j, dt) && k <= trace[k].player.unwrap().cell * steps + j;
            let c = trace[k].player.unwrap().cell as int;
            assert(c <= len - 2);
            assert((c + 1) * steps <= (len - 1) * steps) by (nonlinear_arith)
                requires
                    0 <= c <= len - 2,
                    0 <= j < steps,
            ;
            assert(c * steps + j < (c + 1) * steps) by (nonlinear_arith)
                requires
                    0 <= j < steps,
            ;
        }
    }
}

} // verus!
