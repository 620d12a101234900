//! Board constants, cell coordinates, movement directions, and the
//! collision detector: a pure predicate deciding whether a candidate set
//! of cells is free of the walls, the floor and the locked stack.

use vstd::prelude::*;

verus! {

/// Number of columns of the board; every cell keeps `0 <= x < ARENA_WIDTH`.
pub const ARENA_WIDTH: i32 = 10;

/// Number of rows of the visible board. Locked cells stack from `y = 0`
/// upward; an active piece may briefly stand at or above this height.
pub const ARENA_HEIGHT: i32 = 20;

/// Delay, in clock units, between a lock event and the next spawn.
pub const BLOCK_RESPAWN_DELAY: u64 = 1000;

/// An integer cell coordinate. `x` grows rightward, `y` grows upward;
/// the floor is at `y = 0`.
#[derive(Clone, Copy, Debug, PartialEq, Eq, Structural)]
pub struct Position {
    pub x: i32,
    pub y: i32,
}

/// What occupies a cell, for the render sink: part of the settled
/// stack, or of the piece still falling.
#[derive(Clone, Copy, Debug, PartialEq, Eq, Structural)]
pub enum CellKind {
    Active,
    Locked,
}

/// The one direction command a tick may carry. Anything that is not one
/// of the four button directions is `Neutral`.
#[derive(Clone, Copy, Debug, PartialEq, Eq, Structural)]
pub enum Direction {
    Neutral,
    Left,
    Up,
    Right,
    Down,
}

/// A single cell is blocked when it stands outside the side walls, below
/// the floor, or on a locked cell. The top of the board does not block:
/// an active piece may stand above `ARENA_HEIGHT`.
pub open spec fn cell_blocked(c: Position, locked: Seq<Position>) -> bool {
    c.x < 0 || c.x >= ARENA_WIDTH || c.y < 0 || locked.contains(c)
}

/// A candidate set of cells is blocked when any one of its cells is.
pub open spec fn blocked(cells: Seq<Position>, locked: Seq<Position>) -> bool {
    exists|i: int| 0 <= i < cells.len() && cell_blocked(cells[i], locked)
}

/// Linear scan for one position in a cell list.
pub fn contains_pos(v: &Vec<Position>, p: Position) -> (r: bool)
    ensures
        r == v@.contains(p),
{
    let mut i: usize = 0;
    while i < v.len()
        invariant
            i <= v.len(),
            forall|k: int| 0 <= k < i ==> v@[k] != p,
        decreases v.len() - i,
    {
        if v[i] == p {
            return true;
        }
        i += 1;
    }
    false
}

/// Collision detector over a whole candidate cell set.
pub fn is_blocked(cells: &Vec<Position>, locked: &Vec<Position>) -> (r: bool)
    ensures
        r == blocked(cells@, locked@),
{
    let mut i: usize = 0;
    while i < cells.len()
        invariant
            i <= cells.len(),
            forall|k: int| 0 <= k < i ==> !cell_blocked(cells@[k], locked@),
        decreases cells.len() - i,
    {
        let c = cells[i];
        if c.x < 0 || c.x >= ARENA_WIDTH || c.y < 0 || contains_pos(locked, c) {
            assert(cell_blocked(cells@[i as int], locked@));
            return true;
        }
        i += 1;
    }
    false
}

/// Membership in a sequence splits into the last element and the rest.
pub proof fn lemma_contains_split(s: Seq<Position>, p: Position)
    requires
        s.len() > 0,
    ensures
        s.contains(p) <==> s.drop_last().contains(p) || s.last() == p,
{
    if s.contains(p) {
        let i = choose|i: int| 0 <= i < s.len() && s[i] == p;
        if i < s.len() - 1 {
            assert(s.drop_last()[i] == p);
        }
    }
    if s.drop_last().contains(p) {
        let i = choose|i: int| 0 <= i < s.drop_last().len() && s.drop_last()[i] == p;
        assert(s[i] == p);
    }
    if s.last() == p {
        assert(s[s.len() - 1] == p);
    }
}

/// Membership in a pushed sequence splits into the new element and the rest.
pub proof fn lemma_contains_push(s: Seq<Position>, v: Position, p: Position)
    ensures
        s.push(v).contains(p) <==> s.contains(p) || v == p,
{
    if s.push(v).contains(p) {
        let i = choose|i: int| 0 <= i < s.push(v).len() && s.push(v)[i] == p;
        if i < s.len() {
            assert(s[i] == p);
        }
    }
    if s.contains(p) {
        let i = choose|i: int| 0 <= i < s.len() && s[i] == p;
        assert(s.push(v)[i] == p);
    }
    if v == p {
        assert(s.push(v)[s.len() as int] == p);
    }
}

} // verus!
