//! The per-cell rule table: cell states, natural decay, the influence each
//! cell may propose to a neighbor, and the resolution of simultaneous
//! proposals into one net effect.

use vstd::prelude::*;

verus! {

use crate::automata::Automata::{Redstone, Water, RedstoneBlock, GameOfLife, Air, Slug, Slime};
use crate::automata::Direction::{Up, Left, Right, Down};

/// One cell's state. Power and wetness payloads stay within `0..=15`
/// (see [`cell_bounded`]); the constant source emits 16 transiently,
/// which the receiver's decrement clamps back to 15.
#[derive(Debug, Copy, Clone, PartialEq, Eq, Structural)]
pub enum Automata {
    /// A conductor carrying power; decays by one per tick unless re-powered.
    Redstone(u8),
    /// A liquid carrying wetness; decays by one per tick and wets
    /// susceptible neighbors, vanishing into `Air` at zero.
    Water(u8),
    /// A constant power source; never decays, always emits power 16.
    RedstoneBlock(),
    /// A life cell; an inactive one is woken by any nonzero power stimulus.
    GameOfLife(bool),
    /// Inert empty space, and the state of every out-of-bounds lookup.
    Air(),
    /// A mover that propagates one cell per tick in its heading and turns
    /// into `Slime` behind itself; two movers meeting become `Slime`.
    Slug(Direction),
    /// The fixed terminal residue left by movers.
    Slime(),
}

/// The heading of a mover, and the tag on each neighbor telling which way
/// the neighbor lies from the cell it tries to influence.
#[derive(Debug, Copy, Clone, PartialEq, Eq, Structural)]
pub enum Direction {
    Up,
    Left,
    Right,
    Down,
}

/// Payload bound: every conductor's power and every liquid's wetness fits
/// in `0..=15`. The tick rule preserves this bound across the whole grid
/// (see [`lemma_next_middle_bounded`]).
pub open spec fn cell_bounded(a: Automata) -> bool {
    match a {
        Redstone(p) => p <= 15,
        Water(w) => w <= 15,
        _ => true,
    }
}

/// Which states a wetting stimulus can alter.
pub open spec fn spec_liquid_susceptible(a: Automata) -> bool {
    match a {
        Redstone(_) => true,
        RedstoneBlock() => true,
        Air() => true,
        Water(_) => true,
        _ => false,
    }
}

/// What `a` becomes when wetted with stimulus `wetness` (at least 1), or
/// `None` if the water has no effect: only susceptible states change, and a
/// liquid already at least as wet as the emitter is left alone.
pub open spec fn spec_wet(a: Automata, wetness: u8) -> Option<Automata> {
    match a {
        Redstone(_) => Some(Water((wetness - 1) as u8)),
        RedstoneBlock() => Some(Water((wetness - 1) as u8)),
        Air() => Some(Water((wetness - 1) as u8)),
        Water(wet) => if wet >= wetness {
            None
        } else {
            Some(Water((wetness - 1) as u8))
        },
        _ => None,
    }
}

/// What `a` becomes when powered with stimulus `pow`, or `None` if power has
/// no effect: a conductor below the stimulus is raised to `pow - 1`, and an
/// inactive life cell wakes.
pub open spec fn spec_powered(a: Automata, pow: u8) -> Option<Automata> {
    match a {
        Redstone(spow) => if spow >= pow {
            None
        } else {
            Some(Redstone((pow - 1) as u8))
        },
        GameOfLife(active) => if !active {
            Some(GameOfLife(true))
        } else {
            None
        },
        _ => None,
    }
}

/// The influence `a`, acting as a neighbor lying in `direction` from
/// `other`, proposes for `other` this tick; `None` when no effect applies.
pub open spec fn spec_inflict(a: Automata, other: Automata, direction: Direction) -> Option<
    Automata,
> {
    match a {
        Water(wetness) => if wetness == 0 {
            None
        } else {
            spec_wet(other, wetness)
        },
        Slug(slug_direction) => if slug_direction == direction {
            Some(Slug(slug_direction))
        } else {
            None
        },
        Redstone(powa) => if powa == 0 {
            None
        } else {
            spec_powered(other, powa)
        },
        RedstoneBlock() => spec_powered(other, 16),
        _ => None,
    }
}

/// A cell's natural next state when no neighbor influences it: liquids and
/// conductors lose one level (a liquid at zero vanishes into air), a mover
/// leaves residue behind, everything else is stable.
pub open spec fn spec_decay(a: Automata) -> Automata {
    match a {
        Water(wetness) => if wetness == 0 {
            Air()
        } else {
            Water((wetness - 1) as u8)
        },
        Redstone(pow) => if pow == 0 {
            Redstone(0)
        } else {
            Redstone((pow - 1) as u8)
        },
        Slug(_) => Slime(),
        other => other,
    }
}

/// The pairs the resolution rule is defined on: exactly those that can
/// co-occur as (accumulated, fresh) proposals aimed at one common cell.
/// Any other pair would be an internal-consistency defect, so resolution
/// is never asked to guess one.
pub open spec fn resolvable(a: Automata, b: Automata) -> bool {
    ||| a is Slug
    ||| b is Slug
    ||| a is Slime
    ||| a is Water
    ||| b is Water
    ||| (a is Redstone && b is Redstone)
    ||| (a == GameOfLife(true) && b == GameOfLife(true))
}

/// The merge of two simultaneous proposals: movers win over everything but
/// each other (two movers collide into residue, and residue absorbs later
/// stimuli), two simultaneous wake-ups of a life cell are one wake-up,
/// colliding liquids keep the higher level, liquid wins over a susceptible
/// competitor and yields to an insusceptible one, and two power results
/// keep the higher power.
pub open spec fn spec_resolve(a: Automata, b: Automata) -> Automata {
    match (a, b) {
        (Slug(_), Slug(_)) => Slime(),
        (Slug(direction), _) => Slug(direction),
        (_, Slug(direction)) => Slug(direction),
        (Slime(), _) => Slime(),
        (GameOfLife(_), GameOfLife(_)) => GameOfLife(true),
        (Water(weta), Water(wetb)) => Water(if weta >= wetb {
            weta
        } else {
            wetb
        }),
        (Water(wet), o) => if spec_liquid_susceptible(o) {
            Water(wet)
        } else {
            o
        },
        (o, Water(wet)) => if spec_liquid_susceptible(o) {
            Water(wet)
        } else {
            o
        },
        (Redstone(powa), Redstone(powb)) => Redstone(if powa >= powb {
            powa
        } else {
            powb
        }),
        _ => a,
    }
}

/// A value that some neighbor could propose for the cell `middle`: a mover
/// propagates itself to any target, wetting needs a susceptible target, a
/// power result keeps the target's own kind.
pub open spec fn is_proposal(middle: Automata, p: Automata) -> bool {
    match p {
        Slug(_) => true,
        Water(_) => spec_liquid_susceptible(middle),
        Redstone(_) => middle is Redstone,
        GameOfLife(active) => active && middle == GameOfLife(false),
        _ => false,
    }
}

/// A value the left-to-right merge can have accumulated for `middle`:
/// either a direct proposal, or the residue of a mover collision.
pub open spec fn is_merged_proposal(middle: Automata, p: Automata) -> bool {
    is_proposal(middle, p) || p is Slime
}

/// Every influence a neighbor proposes fits the shape the target admits.
pub proof fn lemma_inflict_is_proposal(a: Automata, other: Automata, direction: Direction)
    ensures
        spec_inflict(a, other, direction) matches Some(p) ==> is_proposal(other, p),
{
}

/// The merge is closed over one cell's proposals: an accumulated value and a
/// fresh proposal for the same cell are always a defined (resolvable) pair,
/// and their merge is again an accumulated value for that cell.
pub proof fn lemma_resolve_closed(middle: Automata, a: Automata, b: Automata)
    requires
        is_merged_proposal(middle, a),
        is_proposal(middle, b),
    ensures
        resolvable(a, b),
        is_merged_proposal(middle, spec_resolve(a, b)),
{
}

/// The merge is commutative over the pairs that can co-occur as two fresh
/// proposals for one common cell: the outcome of a collision does not
/// depend on which neighbor's proposal is considered first.
pub proof fn lemma_resolve_commutative(middle: Automata, a: Automata, b: Automata)
    requires
        is_proposal(middle, a),
        is_proposal(middle, b),
    ensures
        spec_resolve(a, b) == spec_resolve(b, a),
{
}

/// A bounded neighbor proposes only bounded influences: a liquid wets with
/// one less than its own level, and a power stimulus of at most 16 lands
/// as a conductor level of at most 15.
pub proof fn lemma_inflict_bounded(a: Automata, other: Automata, direction: Direction)
    requires
        cell_bounded(a),
    ensures
        spec_inflict(a, other, direction) matches Some(p) ==> cell_bounded(p),
{
}

/// Merging two bounded proposals yields a bounded value: the merge only
/// ever keeps one of the two payloads.
pub proof fn lemma_resolve_bounded(a: Automata, b: Automata)
    requires
        cell_bounded(a),
        cell_bounded(b),
    ensures
        cell_bounded(spec_resolve(a, b)),
{
}

/// One step of the left-to-right reduction of the neighbors' proposals.
pub open spec fn merge_step(acc: Option<Automata>, prop: Option<Automata>) -> Option<Automata> {
    match (acc, prop) {
        (Some(l), Some(r)) => Some(spec_resolve(l, r)),
        (None, p) => p,
        (l, None) => l,
    }
}

/// The net external influence on `s.middle`: the four orthogonal neighbors'
/// proposals, reduced left-to-right in the order top, left, right, bottom.
pub open spec fn spec_infliction_requested(s: Surroundings) -> Option<Automata> {
    merge_step(
        merge_step(
            merge_step(
                merge_step(None, spec_inflict(s.topmiddle, s.middle, Down)),
                spec_inflict(s.left, s.middle, Right),
            ),
            spec_inflict(s.right, s.middle, Left),
        ),
        spec_inflict(s.bottommiddle, s.middle, Up),
    )
}

/// The full tick rule for one cell: a resolved external influence replaces
/// the cell outright; otherwise the cell decays naturally.
pub open spec fn spec_next_middle(s: Surroundings) -> Automata {
    match spec_infliction_requested(s) {
        Some(next) => next,
        None => spec_decay(s.middle),
    }
}

/// An accumulated influence built from bounded proposals stays bounded.
proof fn lemma_merge_step_bounded(acc: Option<Automata>, prop: Option<Automata>)
    requires
        acc matches Some(l) ==> cell_bounded(l),
        prop matches Some(p) ==> cell_bounded(p),
    ensures
        merge_step(acc, prop) matches Some(m) ==> cell_bounded(m),
{
    match (acc, prop) {
        (Some(l), Some(r)) => lemma_resolve_bounded(l, r),
        _ => (),
    }
}

/// The payload invariant of the rule table: a cell whose own state and
/// orthogonal neighbors all carry power and wetness within `0..=15` steps
/// to a cell within `0..=15` again.
pub proof fn lemma_next_middle_bounded(s: Surroundings)
    requires
        cell_bounded(s.middle),
        cell_bounded(s.topmiddle),
        cell_bounded(s.left),
        cell_bounded(s.right),
        cell_bounded(s.bottommiddle),
    ensures
        cell_bounded(spec_next_middle(s)),
{
    let p0 = spec_inflict(s.topmiddle, s.middle, Down);
    let p1 = spec_inflict(s.left, s.middle, Right);
    let p2 = spec_inflict(s.right, s.middle, Left);
    let p3 = spec_inflict(s.bottommiddle, s.middle, Up);
    lemma_inflict_bounded(s.topmiddle, s.middle, Down);
    lemma_inflict_bounded(s.left, s.middle, Right);
    lemma_inflict_bounded(s.right, s.middle, Left);
    lemma_inflict_bounded(s.bottommiddle, s.middle, Up);
    let a0 = merge_step(None, p0);
    lemma_merge_step_bounded(None, p0);
    let a1 = merge_step(a0, p1);
    lemma_merge_step_bounded(a0, p1);
    let a2 = merge_step(a1, p2);
    lemma_merge_step_bounded(a1, p2);
    lemma_merge_step_bounded(a2, p3);
}

impl Automata {
    /// Whether a wetting stimulus can alter this cell.
    pub fn is_succeptible_to_liquid(&self) -> (r: bool)
        ensures
            r == spec_liquid_susceptible(*self),
    {
        match *self {
            Redstone(_) => true,
            RedstoneBlock() => true,
            Air() => true,
            Water(_) => true,
            _ => false,
        }
    }

    /// What this cell becomes when it gets wet with stimulus `wetness`;
    /// `None` if the water has no effect.
    pub fn wet(&self, wetness: u8) -> (r: Option<Automata>)
        requires
            wetness >= 1,
        ensures
            r == spec_wet(*self, wetness),
    {
        let wetness_here = wetness - 1;
        let maybe = Some(Water(wetness_here));
        match *self {
            Redstone(_) => maybe,
            RedstoneBlock() => maybe,
            Air() => maybe,
            Water(wet) => if wet >= wetness {
                None
            } else {
                maybe
            },
            _ => None,
        }
    }

    /// What this cell becomes when it is powered with stimulus `pow`;
    /// `None` if power has no effect.
    pub fn powered(&self, pow: u8) -> (r: Option<Automata>)
        ensures
            r == spec_powered(*self, pow),
    {
        match *self {
            Redstone(spow) => if spow >= pow {
                None
            } else {
                Some(Redstone(pow - 1))
            },
            GameOfLife(active) => if !active {
                Some(GameOfLife(true))
            } else {
                None
            },
            _ => None,
        }
    }

    /// The influence this cell, lying in `direction` from `other`, proposes
    /// for `other` this tick; `None` when no effect applies.
    pub fn inflict(&self, other: Automata, direction: Direction) -> (r: Option<Automata>)
        ensures
            r == spec_inflict(*self, other, direction),
    {
        match *self {
            Water(wetness) => if wetness == 0 {
                None
            } else {
                other.wet(wetness)
            },
            Slug(slug_direction) => if slug_direction == direction {
                Some(Slug(slug_direction))
            } else {
                None
            },
            Redstone(powa) => if powa == 0 {
                None
            } else {
                other.powered(powa)
            },
            RedstoneBlock() => other.powered(16),
            _ => None,
        }
    }

    /// This cell's natural next state when no neighbor influences it.
    pub fn decay(&self) -> (r: Automata)
        ensures
            r == spec_decay(*self),
    {
        match *self {
            Water(wetness) => if wetness == 0 {
                Air()
            } else {
                Water(wetness - 1)
            },
            Redstone(pow) => if pow == 0 {
                Redstone(0)
            } else {
                Redstone(pow - 1)
            },
            Slug(_) => Slime(),
            other => other,
        }
    }

    /// Merges this accumulated proposal with a later one. Only pairs that
    /// can genuinely co-occur are admitted; any other pair would be an
    /// internal-consistency defect, which verification rules out instead of
    /// guessing at run time.
    pub fn resolve_infliction(&self, other: Automata) -> (r: Automata)
        requires
            resolvable(*self, other),
        ensures
            r == spec_resolve(*self, other),
    {
        match (*self, other) {
            (Slug(_), Slug(_)) => Slime(),
            (Slug(direction), _) => Slug(direction),
            (_, Slug(direction)) => Slug(direction),
            (Slime(), _) => Slime(),
            (GameOfLife(_), GameOfLife(_)) => GameOfLife(true),
            (Water(weta), Water(wetb)) => Water(if weta >= wetb {
                weta
            } else {
                wetb
            }),
            (Water(wet), a) => if a.is_succeptible_to_liquid() {
                Water(wet)
            } else {
                a
            },
            (a, Water(wet)) => if a.is_succeptible_to_liquid() {
                Water(wet)
            } else {
                a
            },
            (Redstone(powa), Redstone(powb)) => Redstone(if powa >= powb {
                powa
            } else {
                powb
            }),
            _ => {
                // No other pair satisfies the precondition, so this arm is
                // provably dead: the defect it would signal cannot occur.
                proof {
                    assert(false);
                }
                *self
            },
        }
    }
}

/// A cell and its eight surrounding states, each read from the pre-tick
/// snapshot. Only the four orthogonal neighbors take part in the specified
/// rules; the diagonals are carried for extensibility.
#[derive(Debug, Copy, Clone)]
pub struct Surroundings {
    pub topleft: Automata,
    pub topmiddle: Automata,
    pub topright: Automata,
    pub left: Automata,
    pub middle: Automata,
    pub right: Automata,
    pub bottomleft: Automata,
    pub bottommiddle: Automata,
    pub bottomright: Automata,
}

impl Surroundings {
    /// Folds one more neighbor proposal for `middle` into the accumulated
    /// influence, resolving a collision if both are present.
    fn merge(middle: Automata, acc: Option<Automata>, prop: Option<Automata>) -> (r: Option<
        Automata,
    >)
        requires
            acc matches Some(l) ==> is_merged_proposal(middle, l),
            prop matches Some(p) ==> is_proposal(middle, p),
        ensures
            r == merge_step(acc, prop),
            r matches Some(l) ==> is_merged_proposal(middle, l),
    {
        match (acc, prop) {
            (Some(l), Some(r)) => {
                proof {
                    lemma_resolve_closed(middle, l, r);
                }
                Some(l.resolve_infliction(r))
            },
            (None, p) => p,
            (l, None) => l,
        }
    }

    /// The net external influence on the middle cell, if any: each
    /// orthogonal neighbor proposes at most one influence, and the
    /// proposals are reduced left-to-right.
    pub fn infliction_requested(&self) -> (r: Option<Automata>)
        ensures
            r == spec_infliction_requested(*self),
    {
        let middle = self.middle;
        proof {
            lemma_inflict_is_proposal(self.topmiddle, middle, Down);
            lemma_inflict_is_proposal(self.left, middle, Right);
            lemma_inflict_is_proposal(self.right, middle, Left);
            lemma_inflict_is_proposal(self.bottommiddle, middle, Up);
        }
        let mut acc: Option<Automata> = self.topmiddle.inflict(middle, Down);
        acc = Self::merge(middle, acc, self.left.inflict(middle, Right));
        acc = Self::merge(middle, acc, self.right.inflict(middle, Left));
        acc = Self::merge(middle, acc, self.bottommiddle.inflict(middle, Up));
        acc
    }
}

/// The next state of the middle cell: a resolved external influence
/// replaces it outright; otherwise it decays naturally.
pub fn next_middle(surroundings: Surroundings) -> (r: Automata)
    ensures
        r == spec_next_middle(surroundings),
{
    if let Some(next) = surroundings.infliction_requested() {
        return next;
    }
    surroundings.middle.decay()
}

} // verus!
