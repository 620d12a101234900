//! Board state and the per-tick components that act on it: the movement
//! resolver, the gravity driver, the lock manager and the spawner.
//!
//! The board holds the set of locked cells and at most one active piece.
//! Components run in a fixed order within a tick — movement, gravity,
//! locking, line clearing, spawning — so that each stage observes the
//! committed state of the one before it.

use vstd::prelude::*;
use crate::catalog::{shape_at, shape_offsets, lemma_shape_offsets_bounds, CATALOG_SIZE};
use crate::cells::{
    blocked, cell_blocked, contains_pos, is_blocked, lemma_contains_push, lemma_contains_split,
    CellKind, Direction, Position, ARENA_HEIGHT, ARENA_WIDTH, BLOCK_RESPAWN_DELAY,
};

verus! {

/// The single falling piece: its origin cell and its resolved absolute
/// cells. Every move shifts origin and cells together, so the cells keep
/// their catalog offsets from the origin.
pub struct ActivePiece {
    pub origin: Position,
    pub cells: Vec<Position>,
}

/// The whole simulation state: locked cells, the optional active piece,
/// the direction resolved for the current tick, and the clock reading of
/// the last lock event.
pub struct Game {
    pub locked: Vec<Position>,
    pub active: Option<ActivePiece>,
    pub direction: Direction,
    pub stack_time: u64,
}

/// A position `p` shifted by `(dx, dy)`.
pub open spec fn shift_pos(p: Position, dx: int, dy: int) -> Position {
    Position { x: (p.x + dx) as i32, y: (p.y + dy) as i32 }
}

/// A whole cell sequence shifted by `(dx, dy)`.
pub open spec fn shift_seq(s: Seq<Position>, dx: int, dy: int) -> Seq<Position> {
    Seq::new(s.len(), |i: int| shift_pos(s[i], dx, dy))
}

/// No position occurs twice.
pub open spec fn no_dup(s: Seq<Position>) -> bool {
    forall|i: int, j: int| 0 <= i < j < s.len() ==> s[i] != s[j]
}

/// A locked cell stands within the side walls and not below the floor.
/// (The visible height bounds stacking in play, but a piece that locks
/// while partly above the top row keeps its cells, so no upper bound on
/// `y` is part of well-formedness.)
pub open spec fn locked_cell_ok(p: Position) -> bool {
    0 <= p.x < ARENA_WIDTH && 0 <= p.y
}

/// The locked stack is well-formed: all cells in bounds, none repeated.
pub open spec fn locked_wf(locked: Seq<Position>) -> bool {
    &&& no_dup(locked)
    &&& forall|i: int| 0 <= i < locked.len() ==> locked_cell_ok(#[trigger] locked[i])
}

/// An active cell stands within the side walls, on or above the floor,
/// and within the catalog's offset envelope of its origin: at most one
/// column aside and at most three rows above.
pub open spec fn active_cell_ok(origin: Position, c: Position) -> bool {
    &&& 0 <= c.x < ARENA_WIDTH
    &&& 0 <= c.y
    &&& origin.x - 1 <= c.x <= origin.x + 1
    &&& origin.y <= c.y <= origin.y + 3
}

impl ActivePiece {
    /// A well-formed piece has at least one cell, never stands with its
    /// origin above the spawn row, and keeps every cell in the offset
    /// envelope of the origin.
    pub open spec fn wf(self) -> bool {
        &&& self.cells@.len() >= 1
        &&& self.origin.y <= ARENA_HEIGHT - 1
        &&& forall|i: int|
            0 <= i < self.cells@.len() ==> active_cell_ok(self.origin, #[trigger] self.cells@[i])
    }
}

impl Game {
    /// The board invariant: the locked stack is well-formed and the
    /// active piece, if any, is well-formed.
    pub open spec fn wf(self) -> bool {
        &&& locked_wf(self.locked@)
        &&& match self.active {
            Option::Some(p) => p.wf(),
            Option::None => true,
        }
    }

    /// A fresh, empty board: no locked cells, no active piece.
    pub fn new() -> (g: Game)
        ensures
            g.wf(),
            g.locked@ == Seq::<Position>::empty(),
            g.active is None,
            g.direction == Direction::Neutral,
            g.stack_time == 0,
    {
        let g = Game {
            locked: Vec::new(),
            active: Option::None,
            direction: Direction::Neutral,
            stack_time: 0,
        };
        proof {
            assert(g.locked@ =~= Seq::<Position>::empty());
        }
        g
    }
}

/// Shift every cell of the active piece by `diff`, in place.
pub fn move_tetoriminos(cells: &mut Vec<Position>, diff: &Position)
    requires
        forall|i: int|
            0 <= i < old(cells)@.len() ==> i32::MIN <= (#[trigger] old(cells)@[i]).x + diff.x
                <= i32::MAX,
        forall|i: int|
            0 <= i < old(cells)@.len() ==> i32::MIN <= (#[trigger] old(cells)@[i]).y + diff.y
                <= i32::MAX,
    ensures
        final(cells)@ == shift_seq(old(cells)@, diff.x as int, diff.y as int),
{
    let ghost orig = cells@;
    let mut i: usize = 0;
    while i < cells.len()
        invariant
            cells@.len() == orig.len(),
            i <= orig.len(),
            forall|k: int|
                0 <= k < orig.len() ==> i32::MIN <= (#[trigger] orig[k]).x + diff.x <= i32::MAX,
            forall|k: int|
                0 <= k < orig.len() ==> i32::MIN <= (#[trigger] orig[k]).y + diff.y <= i32::MAX,
            forall|k: int| 0 <= k < i ==> cells@[k] == shift_pos(orig[k], diff.x as int, diff.y as int),
            forall|k: int| i <= k < orig.len() ==> cells@[k] == orig[k],
        decreases orig.len() - i,
    {
        let c = cells[i];
        proof {
            assert(cells@[i as int] == orig[i as int]);
            assert(i32::MIN <= (orig[i as int]).x + diff.x <= i32::MAX);
            assert(i32::MIN <= (orig[i as int]).y + diff.y <= i32::MAX);
        }
        cells.set(i, Position { x: c.x + diff.x, y: c.y + diff.y });
        i += 1;
    }
    proof {
        assert(cells@ =~= shift_seq(orig, diff.x as int, diff.y as int));
    }
}

/// A copy of `cells` shifted by `(dx, dy)`; the original is untouched.
/// Used to build a candidate cell set before the collision check.
fn shifted_copy(cells: &Vec<Position>, dx: i32, dy: i32) -> (r: Vec<Position>)
    requires
        forall|i: int| 0 <= i < cells@.len() ==> i32::MIN <= (#[trigger] cells@[i]).x + dx <= i32::MAX,
        forall|i: int| 0 <= i < cells@.len() ==> i32::MIN <= (#[trigger] cells@[i]).y + dy <= i32::MAX,
    ensures
        r@ == shift_seq(cells@, dx as int, dy as int),
{
    let mut r: Vec<Position> = Vec::new();
    let mut i: usize = 0;
    while i < cells.len()
        invariant
            i <= cells@.len(),
            r@.len() == i,
            forall|k: int| 0 <= k < cells@.len() ==> i32::MIN <= (#[trigger] cells@[k]).x + dx <= i32::MAX,
            forall|k: int| 0 <= k < cells@.len() ==> i32::MIN <= (#[trigger] cells@[k]).y + dy <= i32::MAX,
            forall|k: int| 0 <= k < i ==> r@[k] == shift_pos(cells@[k], dx as int, dy as int),
        decreases cells@.len() - i,
    {
        let c = cells[i];
        proof {
            assert(i32::MIN <= (cells@[i as int]).x + dx <= i32::MAX);
            assert(i32::MIN <= (cells@[i as int]).y + dy <= i32::MAX);
        }
        r.push(Position { x: c.x + dx, y: c.y + dy });
        i += 1;
    }
    proof {
        assert(r@ =~= shift_seq(cells@, dx as int, dy as int));
    }
    r
}

/// The x/y step of each direction command. `Neutral` and `Up` resolve to
/// no step here: `Up` is handled as the unconditional rise.
pub open spec fn dir_dx(d: Direction) -> int {
    match d {
        Direction::Left => -1,
        Direction::Right => 1,
        _ => 0,
    }
}

/// See `dir_dx`.
pub open spec fn dir_dy(d: Direction) -> int {
    match d {
        Direction::Down => -1,
        _ => 0,
    }
}

/// What the movement resolver does in one tick. For `Left`, `Right` and
/// `Down` the candidate cell set is the piece shifted one step; the move
/// commits only when no candidate cell is blocked, and a blocked move
/// leaves the whole piece exactly where it was. `Up` rises one row
/// without a collision check while the origin is below the spawn row.
/// Locked cells, the direction and the respawn clock never change here.
pub open spec fn move_rel(pre: Game, post: Game) -> bool {
    &&& post.locked == pre.locked
    &&& post.direction == pre.direction
    &&& post.stack_time == pre.stack_time
    &&& match pre.active {
        Option::None => post.active == pre.active,
        Option::Some(p) => match pre.direction {
            Direction::Neutral => post.active == pre.active,
            Direction::Up => if p.origin.y < ARENA_HEIGHT - 1 {
                &&& post.active matches Option::Some(q)
                &&& q.origin == shift_pos(p.origin, 0, 1)
                &&& q.cells@ == shift_seq(p.cells@, 0, 1)
            } else {
                post.active == pre.active
            },
            _ => {
                let dx = dir_dx(pre.direction);
                let dy = dir_dy(pre.direction);
                if blocked(shift_seq(p.cells@, dx, dy), pre.locked@) {
                    post.active == pre.active
                } else {
                    &&& post.active matches Option::Some(q)
                    &&& q.origin == shift_pos(p.origin, dx, dy)
                    &&& q.cells@ == shift_seq(p.cells@, dx, dy)
                }
            },
        },
    }
}

/// An unblocked candidate set never touches the locked stack: the second
/// half of the no-overlap law. Together with `move_rel` it says that
/// immediately after a committed move no active cell equals a locked one.
pub proof fn lemma_unblocked_no_overlap(cells: Seq<Position>, locked: Seq<Position>)
    requires
        !blocked(cells, locked),
    ensures
        forall|i: int| 0 <= i < cells.len() ==> !locked.contains(#[trigger] cells[i]),
{
    assert forall|i: int| 0 <= i < cells.len() implies !locked.contains(#[trigger] cells[i]) by {
        assert(!cell_blocked(cells[i], locked));
    }
}

impl Game {
    /// Movement resolver: apply the direction resolved for this tick to
    /// the active piece, as `move_rel` describes. A move commits as a
    /// whole or not at all.
    pub fn block_movement(&mut self)
        requires
            old(self).wf(),
        ensures
            final(self).wf(),
            move_rel(*old(self), *final(self)),
    {
        match self.direction {
            Direction::Neutral => {},
            Direction::Up => {
                if let Option::Some(p) = &mut self.active {
                    if p.origin.y < ARENA_HEIGHT - 1 {
                        proof {
                            assert(active_cell_ok(p.origin, p.cells@[0]));
                        }
                        let diff = Position { x: 0, y: 1 };
                        move_tetoriminos(&mut p.cells, &diff);
                        p.origin = Position { x: p.origin.x, y: p.origin.y + 1 };
                    }
                }
            },
            _ => {
                let dx: i32 = if matches!(self.direction, Direction::Left) {
                    -1
                } else if matches!(self.direction, Direction::Right) {
                    1
                } else {
                    0
                };
                let dy: i32 = if matches!(self.direction, Direction::Down) {
                    -1
                } else {
                    0
                };
                if let Option::Some(p) = &mut self.active {
                    let cand = shifted_copy(&p.cells, dx, dy);
                    if !is_blocked(&cand, &self.locked) {
                        proof {
                            assert(active_cell_ok(p.origin, p.cells@[0]));
                            assert(!cell_blocked(shift_seq(p.cells@, dx as int, dy as int)[0],
                                self.locked@));
                        }
                        p.cells = cand;
                        p.origin = Position { x: p.origin.x + dx, y: p.origin.y + dy };
                    }
                }
            },
        }
    }

    /// Gravity driver: one automatic downward step per fixed tick,
    /// through the same collision check as a soft drop. A held `Down`
    /// input fully substitutes for gravity in its tick, so the step is
    /// never applied twice; a blocked step leaves the piece unchanged
    /// for the lock manager to judge.
    pub fn block_free_fall(&mut self)
        requires
            old(self).wf(),
        ensures
            final(self).wf(),
            fall_rel(*old(self), *final(self)),
    {
        if matches!(self.direction, Direction::Down) {
            return ;
        }
        if let Option::Some(p) = &mut self.active {
            let cand = shifted_copy(&p.cells, 0, -1);
            if !is_blocked(&cand, &self.locked) {
                proof {
                    assert(active_cell_ok(p.origin, p.cells@[0]));
                    assert(!cell_blocked(shift_seq(p.cells@, 0, -1)[0], self.locked@));
                }
                p.cells = cand;
                p.origin = Position { x: p.origin.x, y: p.origin.y - 1 };
            }
        }
    }
}

/// What the gravity driver does in one tick: the one-step downward
/// candidate commits unless blocked, except that a resolved `Down` input
/// already stood in for gravity this tick.
pub open spec fn fall_rel(pre: Game, post: Game) -> bool {
    &&& post.locked == pre.locked
    &&& post.direction == pre.direction
    &&& post.stack_time == pre.stack_time
    &&& match pre.active {
        Option::None => post.active == pre.active,
        Option::Some(p) => if pre.direction == Direction::Down {
            post.active == pre.active
        } else if blocked(shift_seq(p.cells@, 0, -1), pre.locked@) {
            post.active == pre.active
        } else {
            &&& post.active matches Option::Some(q)
            &&& q.origin == shift_pos(p.origin, 0, -1)
            &&& q.cells@ == shift_seq(p.cells@, 0, -1)
        },
    }
}

/// Locking appends each active cell to the locked stack unless its
/// position is already taken, so a position is never stacked twice.
pub open spec fn push_unique(locked: Seq<Position>, cells: Seq<Position>) -> Seq<Position>
    decreases cells.len(),
{
    if cells.len() == 0 {
        locked
    } else {
        let rest = push_unique(locked, cells.drop_last());
        if rest.contains(cells.last()) {
            rest
        } else {
            rest.push(cells.last())
        }
    }
}

/// After locking, a position is on the board exactly when it was locked
/// before or belonged to the piece.
pub proof fn lemma_push_unique_contains(locked: Seq<Position>, cells: Seq<Position>, p: Position)
    ensures
        push_unique(locked, cells).contains(p) <==> locked.contains(p) || cells.contains(p),
    decreases cells.len(),
{
    if cells.len() == 0 {
    } else {
        lemma_push_unique_contains(locked, cells.drop_last(), p);
        lemma_contains_split(cells, p);
        let rest = push_unique(locked, cells.drop_last());
        if !rest.contains(cells.last()) {
            lemma_contains_push(rest, cells.last(), p);
        } else {
            if cells.last() == p {
                lemma_push_unique_contains(locked, cells.drop_last(), cells.last());
            }
        }
    }
}

/// Locking preserves the stack invariant: cells within bounds stay
/// within bounds and no position is ever duplicated.
pub proof fn lemma_push_unique_wf(locked: Seq<Position>, cells: Seq<Position>)
    requires
        locked_wf(locked),
        forall|i: int| 0 <= i < cells.len() ==> locked_cell_ok(#[trigger] cells[i]),
    ensures
        locked_wf(push_unique(locked, cells)),
    decreases cells.len(),
{
    if cells.len() == 0 {
    } else {
        assert(forall|i: int|
            0 <= i < cells.drop_last().len() ==> locked_cell_ok(#[trigger] cells.drop_last()[i]));
        lemma_push_unique_wf(locked, cells.drop_last());
        let rest = push_unique(locked, cells.drop_last());
        let v = cells.last();
        if !rest.contains(v) {
            let out = rest.push(v);
            assert(locked_cell_ok(cells[cells.len() - 1]));
            assert forall|i: int, j: int| 0 <= i < j < out.len() implies out[i] != out[j] by {
                if j < rest.len() {
                } else {
                    if rest[i] == v {
                        assert(rest.contains(v));
                    }
                }
            }
            assert forall|i: int| 0 <= i < out.len() implies locked_cell_ok(#[trigger] out[i]) by {
                if i < rest.len() {
                }
            }
        }
    }
}

/// The lock manager fires when any active cell touches the floor or the
/// cell one step below it is locked.
pub open spec fn lock_trigger(p: ActivePiece, locked: Seq<Position>) -> bool {
    ||| exists|i: int| 0 <= i < p.cells@.len() && (#[trigger] p.cells@[i]).y <= 0
    ||| exists|i: int|
        0 <= i < p.cells@.len() && locked.contains(#[trigger] shift_pos(p.cells@[i], 0, -1))
}

/// Gravity and locking are exact complements: in a given state the lock
/// manager fires exactly when the one-step downward candidate of the
/// gravity driver is blocked. A gravity tick therefore locks rather than
/// moves, and never both.
pub proof fn lemma_lock_gravity_duality(p: ActivePiece, locked: Seq<Position>)
    requires
        p.wf(),
    ensures
        lock_trigger(p, locked) == blocked(shift_seq(p.cells@, 0, -1), locked),
{
    let cand = shift_seq(p.cells@, 0, -1);
    if lock_trigger(p, locked) {
        if exists|i: int| 0 <= i < p.cells@.len() && (#[trigger] p.cells@[i]).y <= 0 {
            let i = choose|i: int| 0 <= i < p.cells@.len() && (#[trigger] p.cells@[i]).y <= 0;
            assert(active_cell_ok(p.origin, p.cells@[i]));
            assert(cell_blocked(cand[i], locked));
        } else {
            let i = choose|i: int|
                0 <= i < p.cells@.len() && locked.contains(
                    #[trigger] shift_pos(p.cells@[i], 0, -1),
                );
            assert(cell_blocked(cand[i], locked));
        }
    }
    if blocked(cand, locked) {
        let i = choose|i: int| 0 <= i < cand.len() && cell_blocked(cand[i], locked);
        assert(active_cell_ok(p.origin, p.cells@[i]));
        if cand[i].y < 0 {
            assert((p.cells@[i]).y <= 0);
        } else {
            assert(locked.contains(shift_pos(p.cells@[i], 0, -1)));
        }
    }
}

/// What the lock manager does in one tick: when it fires, every active
/// cell becomes a locked cell at its exact position (atomically, and
/// without duplicating a taken position), the piece is destroyed and the
/// respawn clock is set to `now`; otherwise nothing changes.
pub open spec fn lock_rel(pre: Game, now: u64, post: Game) -> bool {
    &&& post.direction == pre.direction
    &&& match pre.active {
        Option::None => {
            &&& post.active is None
            &&& post.locked == pre.locked
            &&& post.stack_time == pre.stack_time
        },
        Option::Some(p) => if lock_trigger(p, pre.locked@) {
            &&& post.active is None
            &&& post.locked@ == push_unique(pre.locked@, p.cells@)
            &&& post.stack_time == now
        } else {
            &&& post.active == pre.active
            &&& post.locked == pre.locked
            &&& post.stack_time == pre.stack_time
        },
    }
}

/// Does any cell stand on or below the floor row?
fn any_on_floor(cells: &Vec<Position>) -> (r: bool)
    ensures
        r == exists|i: int| 0 <= i < cells@.len() && (#[trigger] cells@[i]).y <= 0,
{
    let mut i: usize = 0;
    while i < cells.len()
        invariant
            i <= cells@.len(),
            forall|k: int| 0 <= k < i ==> (#[trigger] cells@[k]).y > 0,
        decreases cells@.len() - i,
    {
        if cells[i].y <= 0 {
            assert((cells@[i as int]).y <= 0);
            return true;
        }
        i += 1;
    }
    false
}

/// Is the position one step below any cell already locked?
fn any_locked_below(cells: &Vec<Position>, locked: &Vec<Position>) -> (r: bool)
    requires
        forall|i: int| 0 <= i < cells@.len() ==> (#[trigger] cells@[i]).y > i32::MIN,
    ensures
        r == exists|i: int|
            0 <= i < cells@.len() && locked@.contains(#[trigger] shift_pos(cells@[i], 0, -1)),
{
    let mut i: usize = 0;
    while i < cells.len()
        invariant
            i <= cells@.len(),
            forall|k: int| 0 <= k < cells@.len() ==> (#[trigger] cells@[k]).y > i32::MIN,
            forall|k: int| 0 <= k < i ==> !locked@.contains(#[trigger] shift_pos(cells@[k], 0, -1)),
        decreases cells@.len() - i,
    {
        let c = cells[i];
        let below = Position { x: c.x, y: c.y - 1 };
        proof {
            assert(below == shift_pos(cells@[i as int], 0, -1));
        }
        if contains_pos(locked, below) {
            return true;
        }
        i += 1;
    }
    false
}

impl Game {
    /// Lock manager: convert the active piece into locked cells when it
    /// rests on the floor or on the stack, as `lock_rel` describes. A
    /// well-formed piece never stands below the floor, so every cell is
    /// locked at exactly its position.
    pub fn stack_block(&mut self, now: u64)
        requires
            old(self).wf(),
        ensures
            final(self).wf(),
            lock_rel(*old(self), now, *final(self)),
    {
        let trig = match &self.active {
            Option::None => false,
            Option::Some(p) => {
                proof {
                    assert forall|i: int| 0 <= i < p.cells@.len() implies (
                    #[trigger] p.cells@[i]).y > i32::MIN by {
                        assert(active_cell_ok(p.origin, p.cells@[i]));
                    }
                }
                if any_on_floor(&p.cells) {
                    true
                } else {
                    any_locked_below(&p.cells, &self.locked)
                }
            },
        };
        if trig {
            let ghost orig_locked = self.locked@;
            if let Option::Some(p) = &self.active {
                let mut j: usize = 0;
                while j < p.cells.len()
                    invariant
                        j <= p.cells@.len(),
                        self.locked@ == push_unique(orig_locked, p.cells@.take(j as int)),
                        self.direction == old(self).direction,
                        self.stack_time == old(self).stack_time,
                        self.active == old(self).active,
                    decreases p.cells@.len() - j,
                {
                    let c = p.cells[j];
                    proof {
                        assert(p.cells@.take(j as int + 1).drop_last() =~= p.cells@.take(
                            j as int,
                        ));
                        assert(p.cells@.take(j as int + 1).last() == p.cells@[j as int]);
                    }
                    if !contains_pos(&self.locked, c) {
                        self.locked.push(c);
                    }
                    j += 1;
                }
                proof {
                    assert(p.cells@.take(p.cells@.len() as int) =~= p.cells@);
                    assert forall|i: int| 0 <= i < p.cells@.len() implies locked_cell_ok(
                        #[trigger] p.cells@[i],
                    ) by {
                        assert(active_cell_ok(p.origin, p.cells@[i]));
                    }
                    lemma_push_unique_wf(orig_locked, p.cells@);
                }
            }
            self.active = Option::None;
            self.stack_time = now;
        }
    }
}


/// The fixed origin where every new piece appears.
pub open spec fn spawn_origin() -> Position {
    Position { x: 3, y: (ARENA_HEIGHT - 1) as i32 }
}

/// The absolute cells a piece of shape `idx` occupies at spawn.
pub open spec fn spawn_cells(idx: int) -> Seq<Position> {
    shift_seq(shape_offsets(idx), spawn_origin().x as int, spawn_origin().y as int)
}

/// Would a fresh piece of shape `idx` land on an already-locked cell?
/// When it would, the board is full near the top and the spawn is
/// rejected rather than installed overlapping the stack.
pub open spec fn spawn_overlaps(idx: int, locked: Seq<Position>) -> bool {
    exists|i: int| 0 <= i < spawn_cells(idx).len() && locked.contains(#[trigger] spawn_cells(idx)[i])
}

/// What the spawner does for a chosen shape `idx`. While a piece is
/// active, repeated calls change nothing and never create a second
/// piece. On a free board the piece is installed at the spawn origin;
/// on a full board nothing is installed and the call reports failure.
pub open spec fn spawn_rel(pre: Game, post: Game, idx: int, spawned: bool) -> bool {
    &&& post.direction == pre.direction
    &&& post.stack_time == pre.stack_time
    &&& post.locked == pre.locked
    &&& 0 <= idx < CATALOG_SIZE
    &&& if pre.active is Some {
        &&& !spawned
        &&& post.active == pre.active
    } else if spawn_overlaps(idx, pre.locked@) {
        &&& !spawned
        &&& post.active is None
    } else {
        &&& spawned
        &&& post.active matches Option::Some(q)
        &&& q.origin == spawn_origin()
        &&& q.cells@ == spawn_cells(idx)
    }
}

/// Is any of the candidate cells already locked?
fn any_in_locked(cells: &Vec<Position>, locked: &Vec<Position>) -> (r: bool)
    ensures
        r == exists|i: int| 0 <= i < cells@.len() && locked@.contains(#[trigger] cells@[i]),
{
    let mut i: usize = 0;
    while i < cells.len()
        invariant
            i <= cells@.len(),
            forall|k: int| 0 <= k < i ==> !locked@.contains(#[trigger] cells@[k]),
        decreases cells@.len() - i,
    {
        if contains_pos(locked, cells[i]) {
            assert(locked@.contains(cells@[i as int]));
            return true;
        }
        i += 1;
    }
    false
}

impl Game {
    /// Spawner for a chosen catalog index: install a new piece of shape
    /// `idx` at the spawn origin, as `spawn_rel` describes.
    pub fn spawn_block_with(&mut self, idx: usize) -> (spawned: bool)
        requires
            old(self).wf(),
            idx < CATALOG_SIZE,
        ensures
            final(self).wf(),
            spawn_rel(*old(self), *final(self), idx as int, spawned),
    {
        if self.active.is_some() {
            return false;
        }
        let offsets = shape_at(idx);
        proof {
            lemma_shape_offsets_bounds(idx as int);
        }
        let base_position_x: i32 = 3;
        let base_position_y: i32 = ARENA_HEIGHT - 1;
        let cells = shifted_copy(&offsets, base_position_x, base_position_y);
        proof {
            assert(cells@ == spawn_cells(idx as int));
        }
        if any_in_locked(&cells, &self.locked) {
            return false;
        }
        let piece = ActivePiece {
            origin: Position { x: base_position_x, y: base_position_y },
            cells,
        };
        proof {
            assert forall|i: int| 0 <= i < piece.cells@.len() implies active_cell_ok(
                piece.origin,
                #[trigger] piece.cells@[i],
            ) by {
                assert(piece.cells@[i] == shift_pos(shape_offsets(idx as int)[i], 3, (
                ARENA_HEIGHT - 1) as int));
            }
        }
        self.active = Option::Some(piece);
        true
    }

    /// Spawner: choose a shape uniformly at random over the catalog and
    /// install it. Whatever index the generator yields, the outcome is
    /// `spawn_rel` for that index.
    pub fn spawn_block(&mut self) -> (spawned: bool)
        requires
            old(self).wf(),
        ensures
            final(self).wf(),
            exists|idx: int| spawn_rel(*old(self), *final(self), idx, spawned),
    {
        let idx = crate::rng::random_shape_index();
        let spawned = self.spawn_block_with(idx);
        proof {
            assert(spawn_rel(*old(self), *self, idx as int, spawned));
        }
        spawned
    }
}

/// Gate of the respawn: a new piece may spawn only while none is active
/// and the respawn delay since the last lock has fully elapsed.
pub open spec fn respawn_gate(pre: Game, now: u64) -> bool {
    pre.active is None && now > pre.stack_time + BLOCK_RESPAWN_DELAY
}

/// What the respawn step does in one tick: while the delay still runs
/// or a piece is active nothing changes; otherwise the spawner runs
/// for some catalog index.
pub open spec fn respawn_rel(pre: Game, now: u64, post: Game, spawned: bool) -> bool {
    if respawn_gate(pre, now) {
        exists|idx: int| spawn_rel(pre, post, idx, spawned)
    } else {
        &&& !spawned
        &&& post.active == pre.active
        &&& post.locked == pre.locked
        &&& post.direction == pre.direction
        &&& post.stack_time == pre.stack_time
    }
}

impl Game {
    /// Respawn step: run the spawner once the delay has elapsed.
    pub fn respawn_block(&mut self, now: u64) -> (spawned: bool)
        requires
            old(self).wf(),
        ensures
            final(self).wf(),
            respawn_rel(*old(self), now, *final(self), spawned),
    {
        if self.active.is_none() {
            if BLOCK_RESPAWN_DELAY <= u64::MAX - self.stack_time && now > self.stack_time
                + BLOCK_RESPAWN_DELAY {
                return self.spawn_block();
            }
        }
        false
    }
}


/// The state at the start of a tick, with the direction sampled from
/// the input source installed for this tick.
pub open spec fn with_direction(g: Game, dir: Direction) -> Game {
    Game { direction: dir, ..g }
}

/// One whole fixed tick: input resolution, gravity, locking, line
/// clearing and respawn chain through intermediate states, each stage
/// observing the committed state of the one before it.
pub open spec fn tick_rel(pre: Game, dir: Direction, now: u64, post: Game, spawned: bool) -> bool {
    exists|s1: Game, s2: Game, s3: Game, s4: Game|
        #![trigger fall_rel(s1, s2), lock_rel(s2, now, s3), crate::clear::clear_rel(s3, s4)]
        {
            &&& move_rel(with_direction(pre, dir), s1)
            &&& fall_rel(s1, s2)
            &&& lock_rel(s2, now, s3)
            &&& crate::clear::clear_rel(s3, s4)
            &&& respawn_rel(s4, now, post, spawned)
        }
}

impl Game {
    /// Drive one fixed simulation tick: resolve the sampled input, let
    /// gravity act, lock a resting piece, clear full rows and respawn,
    /// in that fixed order.
    pub fn fixed_tick(&mut self, dir: Direction, now: u64) -> (spawned: bool)
        requires
            old(self).wf(),
        ensures
            final(self).wf(),
            tick_rel(*old(self), dir, now, *final(self), spawned),
    {
        self.direction = dir;
        proof {
            assert(*self == with_direction(*old(self), dir));
        }
        self.block_movement();
        let ghost s1 = *self;
        self.block_free_fall();
        let ghost s2 = *self;
        self.stack_block(now);
        let ghost s3 = *self;
        self.destroy_block();
        let ghost s4 = *self;
        let spawned = self.respawn_block(now);
        proof {
            assert(move_rel(with_direction(*old(self), dir), s1));
            assert(fall_rel(s1, s2));
            assert(lock_rel(s2, now, s3));
            assert(crate::clear::clear_rel(s3, s4));
            assert(respawn_rel(s4, now, *self, spawned));
        }
        spawned
    }

    /// The locked cells, for the render sink.
    pub fn locked_cells(&self) -> (r: &Vec<Position>)
        ensures
            r@ == self.locked@,
    {
        &self.locked
    }

    /// The cells of the falling piece, empty while none is active.
    pub fn active_cells(&self) -> (r: Vec<Position>)
        ensures
            r@ == match self.active {
                Option::Some(p) => p.cells@,
                Option::None => Seq::<Position>::empty(),
            },
    {
        let mut r: Vec<Position> = Vec::new();
        if let Option::Some(p) = &self.active {
            let mut i: usize = 0;
            while i < p.cells.len()
                invariant
                    i <= p.cells@.len(),
                    r@ == p.cells@.take(i as int),
                decreases p.cells@.len() - i,
            {
                proof {
                    assert(p.cells@.take(i as int + 1).drop_last() =~= p.cells@.take(i as int));
                }
                r.push(p.cells[i]);
                i += 1;
            }
            proof {
                assert(p.cells@.take(p.cells@.len() as int) =~= p.cells@);
            }
        } else {
            proof {
                assert(r@ =~= Seq::<Position>::empty());
            }
        }
        r
    }
}

/// Bounds law: on a well-formed board every locked and every active
/// cell stands within the side walls and no cell is below the floor.
/// Every component keeps the board well-formed, so this holds of every
/// reachable state.
pub proof fn lemma_board_bounds(g: Game)
    requires
        g.wf(),
    ensures
        forall|i: int|
            0 <= i < g.locked@.len() ==> 0 <= (#[trigger] g.locked@[i]).x < ARENA_WIDTH && 0 <= (
            g.locked@[i]).y,
        match g.active {
            Option::Some(p) => forall|i: int|
                0 <= i < p.cells@.len() ==> 0 <= (#[trigger] p.cells@[i]).x < ARENA_WIDTH && 0 <= (
                p.cells@[i]).y,
            Option::None => true,
        },
{
    assert forall|i: int|
        0 <= i < g.locked@.len() implies 0 <= (#[trigger] g.locked@[i]).x < ARENA_WIDTH && 0 <= (
    g.locked@[i]).y by {
        assert(locked_cell_ok(g.locked@[i]));
    }
    match g.active {
        Option::Some(p) => {
            assert forall|i: int|
                0 <= i < p.cells@.len() implies 0 <= (#[trigger] p.cells@[i]).x < ARENA_WIDTH && 0
                <= (p.cells@[i]).y by {
                assert(active_cell_ok(p.origin, p.cells@[i]));
            }
        },
        Option::None => {},
    }
}

/// No-overlap law, locked half: on a well-formed board no two locked
/// cells share a position. The active half is
/// `lemma_unblocked_no_overlap`: a move that commits never places a
/// cell on the stack.
pub proof fn lemma_board_no_overlap(g: Game)
    requires
        g.wf(),
    ensures
        no_dup(g.locked@),
{
}


impl Game {
    /// Every occupied cell with its kind, for the render sink: the
    /// locked cells first, then the cells of the falling piece.
    pub fn occupied_cells(&self) -> (r: Vec<(Position, CellKind)>)
        ensures
            r@.len() == self.locked@.len() + match self.active {
                Option::Some(p) => p.cells@.len(),
                Option::None => 0,
            },
            forall|i: int|
                0 <= i < self.locked@.len() ==> #[trigger] r@[i] == (self.locked@[i],
                CellKind::Locked),
            match self.active {
                Option::Some(p) => forall|i: int|
                    0 <= i < p.cells@.len() ==> #[trigger] r@[self.locked@.len() + i] == (
                    p.cells@[i], CellKind::Active),
                Option::None => true,
            },
    {
        let mut r: Vec<(Position, CellKind)> = Vec::new();
        let mut i: usize = 0;
        while i < self.locked.len()
            invariant
                i <= self.locked@.len(),
                r@.len() == i,
                forall|k: int|
                    0 <= k < i ==> #[trigger] r@[k] == (self.locked@[k], CellKind::Locked),
            decreases self.locked@.len() - i,
        {
            r.push((self.locked[i], CellKind::Locked));
            i += 1;
        }
        if let Option::Some(p) = &self.active {
            let mut j: usize = 0;
            while j < p.cells.len()
                invariant
                    j <= p.cells@.len(),
                    r@.len() == self.locked@.len() + j,
                    forall|k: int|
                        0 <= k < self.locked@.len() ==> #[trigger] r@[k] == (self.locked@[k],
                        CellKind::Locked),
                    forall|k: int|
                        0 <= k < j ==> #[trigger] r@[self.locked@.len() + k] == (p.cells@[k],
                        CellKind::Active),
                decreases p.cells@.len() - j,
            {
                r.push((p.cells[j], CellKind::Active));
                j += 1;
            }
        }
        r
    }
}

} // verus!
