//! Line clear engine: scan the locked stack from the floor upward,
//! remove every fully populated row and shift all cells above it down
//! one row, so that stacked full rows compound correctly in one pass.

use vstd::prelude::*;
use crate::board::{locked_cell_ok, locked_wf, Game};
use crate::cells::{lemma_contains_push, Position, ARENA_HEIGHT, ARENA_WIDTH};

verus! {

/// Number of locked cells standing at height `h`.
pub open spec fn count_row(s: Seq<Position>, h: int) -> nat
    decreases s.len(),
{
    if s.len() == 0 {
        0
    } else {
        count_row(s.drop_last(), h) + (if s.last().y == h {
            1nat
        } else {
            0nat
        })
    }
}

/// Where one cell stands after row `h` is cleared: cells above the row
/// move down one, everything else stays.
pub open spec fn shift_above(p: Position, h: int) -> Position {
    if p.y > h {
        Position { x: p.x, y: (p.y - 1) as i32 }
    } else {
        p
    }
}

/// The stack after row `h` is cleared: its cells are removed and every
/// cell above it shifts down one row; the order of the rest is kept.
pub open spec fn remove_and_shift(s: Seq<Position>, h: int) -> Seq<Position>
    decreases s.len(),
{
    if s.len() == 0 {
        Seq::empty()
    } else {
        let rest = remove_and_shift(s.drop_last(), h);
        if s.last().y == h {
            rest
        } else {
            rest.push(shift_above(s.last(), h))
        }
    }
}

/// Clearing a row removes exactly the cells counted in it.
pub proof fn lemma_remove_and_shift_len(s: Seq<Position>, h: int)
    ensures
        remove_and_shift(s, h).len() == s.len() - count_row(s, h),
    decreases s.len(),
{
    if s.len() > 0 {
        lemma_remove_and_shift_len(s.drop_last(), h);
    }
}

/// The scan of the line clear engine from row `h` upward: a full row is
/// cleared and the same height examined again (the rows above have
/// shifted into it); any other row moves the scan up one, whether or
/// not anything stands in it.
pub open spec fn clear_rows_from(s: Seq<Position>, h: int) -> Seq<Position>
    decreases ARENA_HEIGHT - h, s.len(),
    via clear_rows_from_decreases
{
    if h < 0 || h >= ARENA_HEIGHT {
        s
    } else if count_row(s, h) == ARENA_WIDTH {
        clear_rows_from(remove_and_shift(s, h), h)
    } else {
        clear_rows_from(s, h + 1)
    }
}

#[via_fn]
proof fn clear_rows_from_decreases(s: Seq<Position>, h: int) {
    if 0 <= h < ARENA_HEIGHT && count_row(s, h) == ARENA_WIDTH {
        lemma_remove_and_shift_len(s, h);
    }
}

/// A cleared position comes from exactly one surviving original cell.
pub proof fn lemma_remove_and_shift_contains(s: Seq<Position>, h: int, q: Position)
    ensures
        remove_and_shift(s, h).contains(q) <==> exists|i: int|
            0 <= i < s.len() && (#[trigger] s[i]).y != h && shift_above(s[i], h) == q,
    decreases s.len(),
{
    if s.len() == 0 {
    } else {
        let prefix = s.drop_last();
        lemma_remove_and_shift_contains(prefix, h, q);
        let rest = remove_and_shift(prefix, h);
        if s.last().y != h {
            lemma_contains_push(rest, shift_above(s.last(), h), q);
        }
        // lift a witness in the prefix to the whole sequence
        if exists|i: int|
            0 <= i < prefix.len() && (#[trigger] prefix[i]).y != h && shift_above(prefix[i], h)
                == q {
            let i = choose|i: int|
                0 <= i < prefix.len() && (#[trigger] prefix[i]).y != h && shift_above(
                    prefix[i],
                    h,
                ) == q;
            assert((s[i]).y != h && shift_above(s[i], h) == q);
        }
        // push a witness in the whole sequence down to the prefix or the last
        if exists|i: int| 0 <= i < s.len() && (#[trigger] s[i]).y != h && shift_above(s[i], h)
            == q {
            let i = choose|i: int|
                0 <= i < s.len() && (#[trigger] s[i]).y != h && shift_above(s[i], h) == q;
            if i < s.len() - 1 {
                assert((prefix[i]).y != h && shift_above(prefix[i], h) == q);
            }
        }
    }
}

/// Shifting after a clear tells cells apart: two distinct surviving
/// cells never land on the same position.
proof fn lemma_shift_above_injective(p: Position, q: Position, h: int)
    requires
        p.y != h,
        q.y != h,
        0 <= p.y,
        0 <= q.y,
        shift_above(p, h) == shift_above(q, h),
    ensures
        p == q,
{
}

/// A line clear pass keeps the stack well-formed: bounds hold and no
/// position is duplicated.
pub proof fn lemma_remove_and_shift_wf(s: Seq<Position>, h: int)
    requires
        locked_wf(s),
        0 <= h,
    ensures
        locked_wf(remove_and_shift(s, h)),
    decreases s.len(),
{
    if s.len() == 0 {
    } else {
        let prefix = s.drop_last();
        assert(forall|i: int| 0 <= i < prefix.len() ==> prefix[i] == s[i]);
        lemma_remove_and_shift_wf(prefix, h);
        let rest = remove_and_shift(prefix, h);
        let v = s.last();
        if v.y != h {
            let w = shift_above(v, h);
            assert(locked_cell_ok(s[s.len() - 1]));
            if rest.contains(w) {
                lemma_remove_and_shift_contains(prefix, h, w);
                let i = choose|i: int|
                    0 <= i < prefix.len() && (#[trigger] prefix[i]).y != h && shift_above(
                        prefix[i],
                        h,
                    ) == w;
                assert(locked_cell_ok(s[i]));
                lemma_shift_above_injective(prefix[i], v, h);
                assert(s[i] == s[s.len() - 1]);
                assert(false);
            }
            let out = rest.push(w);
            assert forall|i: int, j: int| 0 <= i < j < out.len() implies out[i] != out[j] by {
                if j < rest.len() {
                } else {
                    if rest[i] == w {
                        assert(rest.contains(w));
                    }
                }
            }
            assert forall|i: int| 0 <= i < out.len() implies locked_cell_ok(
                #[trigger] out[i],
            ) by {
                if i < rest.len() {
                }
            }
        }
    }
}

/// How row counts change when row `h` is cleared: counts below `h` are
/// untouched, and the count at or above `h` is the old count one row up.
pub proof fn lemma_count_after_clear(s: Seq<Position>, h: int, h2: int)
    requires
        0 <= h,
    ensures
        h2 >= h ==> count_row(remove_and_shift(s, h), h2) == count_row(s, h2 + 1),
        h2 < h ==> count_row(remove_and_shift(s, h), h2) == count_row(s, h2),
    decreases s.len(),
{
    if s.len() == 0 {
    } else {
        let prefix = s.drop_last();
        lemma_count_after_clear(prefix, h, h2);
        let rest = remove_and_shift(prefix, h);
        if s.last().y != h {
            let w = shift_above(s.last(), h);
            assert(rest.push(w).drop_last() =~= rest);
        }
    }
}

/// A row no cell stands in counts zero.
pub proof fn lemma_count_empty_row(s: Seq<Position>, h: int)
    requires
        forall|i: int| 0 <= i < s.len() ==> (#[trigger] s[i]).y != h,
    ensures
        count_row(s, h) == 0,
    decreases s.len(),
{
    if s.len() > 0 {
        assert(forall|i: int|
            0 <= i < s.drop_last().len() ==> (#[trigger] s.drop_last()[i]).y != h);
        lemma_count_empty_row(s.drop_last(), h);
    }
}

/// The scan changes nothing when no row at or above `a` is full.
pub proof fn lemma_clear_stops(s: Seq<Position>, a: int)
    requires
        forall|h2: int| a <= h2 < ARENA_HEIGHT ==> count_row(s, h2) != ARENA_WIDTH,
    ensures
        clear_rows_from(s, a) == s,
    decreases ARENA_HEIGHT - a,
{
    if 0 <= a < ARENA_HEIGHT {
        lemma_clear_stops(s, a + 1);
    }
}

/// The scan passes over rows that are not full.
pub proof fn lemma_clear_advances(s: Seq<Position>, a: int, b: int)
    requires
        0 <= a <= b <= ARENA_HEIGHT,
        forall|h2: int| a <= h2 < b ==> count_row(s, h2) != ARENA_WIDTH,
    ensures
        clear_rows_from(s, a) == clear_rows_from(s, b),
    decreases b - a,
{
    if a < b {
        lemma_clear_advances(s, a + 1, b);
    }
}

/// Line clear correctness for a single full row: when row `h` is the
/// one full row on the board, one pass removes exactly the cells of
/// row `h`, moves every cell above it down one row, and leaves the
/// cells below it unchanged.
pub proof fn lemma_line_clear_single_row(s: Seq<Position>, h: int)
    requires
        0 <= h < ARENA_HEIGHT,
        forall|i: int| 0 <= i < s.len() ==> 0 <= (#[trigger] s[i]).y < ARENA_HEIGHT,
        count_row(s, h) == ARENA_WIDTH,
        forall|h2: int| 0 <= h2 < ARENA_HEIGHT && h2 != h ==> count_row(s, h2) != ARENA_WIDTH,
    ensures
        clear_rows_from(s, 0) == remove_and_shift(s, h),
{
    lemma_clear_advances(s, 0, h);
    let s2 = remove_and_shift(s, h);
    assert forall|h2: int| h <= h2 < ARENA_HEIGHT implies count_row(s2, h2) != ARENA_WIDTH by {
        lemma_count_after_clear(s, h, h2);
        if h2 + 1 == ARENA_HEIGHT {
            assert(forall|i: int| 0 <= i < s.len() ==> (#[trigger] s[i]).y != ARENA_HEIGHT);
            lemma_count_empty_row(s, ARENA_HEIGHT as int);
        }
    }
    lemma_clear_stops(s2, h);
}

/// What the line clear stage does in one tick: the locked stack is
/// rewritten by the scan from the floor; nothing else changes.
pub open spec fn clear_rel(pre: Game, post: Game) -> bool {
    &&& post.active == pre.active
    &&& post.direction == pre.direction
    &&& post.stack_time == pre.stack_time
    &&& post.locked@ == clear_rows_from(pre.locked@, 0)
}

/// Count the locked cells standing at height `h`.
fn count_row_exec(locked: &Vec<Position>, h: i32) -> (n: usize)
    ensures
        n == count_row(locked@, h as int),
{
    let mut n: usize = 0;
    let mut i: usize = 0;
    while i < locked.len()
        invariant
            i <= locked@.len(),
            n <= i,
            n == count_row(locked@.take(i as int), h as int),
        decreases locked@.len() - i,
    {
        proof {
            assert(locked@.take(i as int + 1).drop_last() =~= locked@.take(i as int));
            assert(locked@.take(i as int + 1).last() == locked@[i as int]);
        }
        if locked[i].y == h {
            n += 1;
        }
        i += 1;
    }
    proof {
        assert(locked@.take(locked@.len() as int) =~= locked@);
    }
    n
}

/// Rebuild the stack with row `h` removed and the rows above shifted.
fn remove_and_shift_exec(locked: &Vec<Position>, h: i32) -> (r: Vec<Position>)
    requires
        h >= 0,
    ensures
        r@ == remove_and_shift(locked@, h as int),
{
    let mut r: Vec<Position> = Vec::new();
    let mut i: usize = 0;
    while i < locked.len()
        invariant
            i <= locked@.len(),
            h >= 0,
            r@ == remove_and_shift(locked@.take(i as int), h as int),
        decreases locked@.len() - i,
    {
        proof {
            assert(locked@.take(i as int + 1).drop_last() =~= locked@.take(i as int));
            assert(locked@.take(i as int + 1).last() == locked@[i as int]);
        }
        let c = locked[i];
        if c.y != h {
            if c.y > h {
                r.push(Position { x: c.x, y: c.y - 1 });
            } else {
                r.push(c);
            }
        }
        i += 1;
    }
    proof {
        assert(locked@.take(locked@.len() as int) =~= locked@);
    }
    r
}

impl Game {
    /// Line clear engine: one pass of the scan over the whole board, as
    /// `clear_rel` describes.
    pub fn destroy_block(&mut self)
        requires
            old(self).wf(),
        ensures
            final(self).wf(),
            clear_rel(*old(self), *final(self)),
    {
        let mut h: i32 = 0;
        while h < ARENA_HEIGHT
            invariant
                0 <= h <= ARENA_HEIGHT,
                clear_rows_from(self.locked@, h as int) == clear_rows_from(
                    old(self).locked@,
                    0,
                ),
                locked_wf(self.locked@),
                self.active == old(self).active,
                self.direction == old(self).direction,
                self.stack_time == old(self).stack_time,
            ensures
                self.locked@ == clear_rows_from(old(self).locked@, 0),
                locked_wf(self.locked@),
                self.active == old(self).active,
                self.direction == old(self).direction,
                self.stack_time == old(self).stack_time,
            decreases ARENA_HEIGHT - h, self.locked@.len(),
        {
            let n = count_row_exec(&self.locked, h);
            if n == ARENA_WIDTH as usize {
                proof {
                    lemma_remove_and_shift_len(self.locked@, h as int);
                    lemma_remove_and_shift_wf(self.locked@, h as int);
                }
                let cleared = remove_and_shift_exec(&self.locked, h);
                self.locked = cleared;
            } else {
                h += 1;
            }
        }
    }
}

} // verus!
