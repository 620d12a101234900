//! Shape catalog: the fixed table of tetromino cell offsets, and the
//! translation of a 0/1 grid into absolute cell positions.

use vstd::prelude::*;
use crate::cells::Position;

verus! {

/// Number of shapes in the catalog. Read-only for the lifetime of a run.
pub const CATALOG_SIZE: usize = 7;

/// The cell offsets of shape `idx`, relative to the piece origin.
/// Total over `0 <= idx < CATALOG_SIZE`.
pub open spec fn shape_offsets(idx: int) -> Seq<Position> {
    if idx == 0 {  // square
        seq![
            Position { x: 0, y: 0 },
            Position { x: 1, y: 0 },
            Position { x: 0, y: 1 },
            Position { x: 1, y: 1 },
        ]
    } else if idx == 1 {  // S
        seq![
            Position { x: -1i32, y: 1 },
            Position { x: 0, y: 1 },
            Position { x: 0, y: 0 },
            Position { x: 1, y: 0 },
        ]
    } else if idx == 2 {  // reverse S
        seq![
            Position { x: -1i32, y: 0 },
            Position { x: 0, y: 0 },
            Position { x: 0, y: 1 },
            Position { x: 1, y: 1 },
        ]
    } else if idx == 3 {  // L
        seq![
            Position { x: 1, y: 0 },
            Position { x: 0, y: 0 },
            Position { x: 0, y: 1 },
            Position { x: 0, y: 2 },
        ]
    } else if idx == 4 {  // reverse L
        seq![
            Position { x: -1i32, y: 0 },
            Position { x: 0, y: 0 },
            Position { x: 0, y: 1 },
            Position { x: 0, y: 2 },
        ]
    } else if idx == 5 {  // T
        seq![
            Position { x: -1i32, y: 0 },
            Position { x: 0, y: 0 },
            Position { x: 1, y: 0 },
            Position { x: 0, y: 1 },
        ]
    } else {  // I
        seq![
            Position { x: 0, y: 0 },
            Position { x: 0, y: 1 },
            Position { x: 0, y: 2 },
            Position { x: 0, y: 3 },
        ]
    }
}

/// Every catalog shape has four cells, with offsets within one column of
/// the origin and at most three rows above it.
pub proof fn lemma_shape_offsets_bounds(idx: int)
    requires
        0 <= idx < CATALOG_SIZE,
    ensures
        shape_offsets(idx).len() == 4,
        forall|i: int| 0 <= i < shape_offsets(idx).len()
            ==> -1 <= #[trigger] shape_offsets(idx)[i].x <= 1,
        forall|i: int| 0 <= i < shape_offsets(idx).len()
            ==> 0 <= #[trigger] shape_offsets(idx)[i].y <= 3,
{
}

/// Look one shape up in the catalog.
pub fn shape_at(idx: usize) -> (r: Vec<Position>)
    requires
        idx < CATALOG_SIZE,
    ensures
        r@ == shape_offsets(idx as int),
{
    let r: Vec<Position> = if idx == 0 {
        vec![
            Position { x: 0, y: 0 },
            Position { x: 1, y: 0 },
            Position { x: 0, y: 1 },
            Position { x: 1, y: 1 },
        ]
    } else if idx == 1 {
        vec![
            Position { x: -1, y: 1 },
            Position { x: 0, y: 1 },
            Position { x: 0, y: 0 },
            Position { x: 1, y: 0 },
        ]
    } else if idx == 2 {
        vec![
            Position { x: -1, y: 0 },
            Position { x: 0, y: 0 },
            Position { x: 0, y: 1 },
            Position { x: 1, y: 1 },
        ]
    } else if idx == 3 {
        vec![
            Position { x: 1, y: 0 },
            Position { x: 0, y: 0 },
            Position { x: 0, y: 1 },
            Position { x: 0, y: 2 },
        ]
    } else if idx == 4 {
        vec![
            Position { x: -1, y: 0 },
            Position { x: 0, y: 0 },
            Position { x: 0, y: 1 },
            Position { x: 0, y: 2 },
        ]
    } else if idx == 5 {
        vec![
            Position { x: -1, y: 0 },
            Position { x: 0, y: 0 },
            Position { x: 1, y: 0 },
            Position { x: 0, y: 1 },
        ]
    } else {
        vec![
            Position { x: 0, y: 0 },
            Position { x: 0, y: 1 },
            Position { x: 0, y: 2 },
            Position { x: 0, y: 3 },
        ]
    };
    proof {
        assert(r@ =~= shape_offsets(idx as int));
    }
    r
}

/// A rectangular 0/1 grid describing a shape, stored row-major.
/// Entries equal to 1 mark occupied cells.
pub struct Grid {
    pub width: usize,
    pub data: Vec<u32>,
}

/// The absolute position of the grid entry at flat index `i`, for a grid
/// of the given width placed at `base`.
pub open spec fn grid_cell(base: Position, width: int, i: int) -> Position {
    Position { x: (base.x + i % width) as i32, y: (base.y + i / width) as i32 }
}

/// The positions of all entries equal to 1 among the first `data.len()`
/// entries, in flat-index order.
pub open spec fn tetorimino_positions(base: Position, data: Seq<u32>, width: int) -> Seq<Position>
    decreases data.len(),
{
    if data.len() == 0 {
        Seq::empty()
    } else {
        let prefix = tetorimino_positions(base, data.drop_last(), width);
        if data.last() == 1u32 {
            prefix.push(grid_cell(base, width, data.len() - 1))
        } else {
            prefix
        }
    }
}

/// Translate a shape grid into the absolute positions of its occupied
/// cells, scanning row-major from `base_position`.
pub fn generate_tetorimino_positions(base_position: &Position, block: &Grid) -> (res: Vec<
    Position,
>)
    requires
        1 <= block.width <= i32::MAX as usize,
        block.data@.len() <= i32::MAX as int,
        base_position.x + block.width <= i32::MAX as int + 1,
        base_position.y + block.data@.len() <= i32::MAX as int + 1,
    ensures
        res@ == tetorimino_positions(*base_position, block.data@, block.width as int),
{
    let ghost gdata = block.data@;
    let width = block.width;
    let mut res: Vec<Position> = Vec::new();
    let mut x_idx: usize = 0;
    let mut y_idx: usize = 0;
    let mut i: usize = 0;
    while i < block.data.len()
        invariant
            gdata == block.data@,
            width == block.width,
            1 <= width <= i32::MAX as usize,
            gdata.len() <= i32::MAX as int,
            base_position.x + width <= i32::MAX as int + 1,
            base_position.y + gdata.len() <= i32::MAX as int + 1,
            i <= gdata.len(),
            0 <= x_idx < width,
            i == y_idx * width + x_idx,
            res@ == tetorimino_positions(*base_position, gdata.take(i as int), width as int),
        decreases gdata.len() - i,
    {
        proof {
            vstd::arithmetic::div_mod::lemma_fundamental_div_mod_converse(
                i as int,
                width as int,
                y_idx as int,
                x_idx as int,
            );
            assert(gdata.take(i as int + 1).drop_last() =~= gdata.take(i as int));
        }
        let v = block.data[i];
        if v == 1 {
            assert(y_idx <= i) by (nonlinear_arith)
                requires
                    i == y_idx * width + x_idx,
                    width >= 1,
                    x_idx >= 0,
                    y_idx >= 0,
            ;
            res.push(
                Position { x: base_position.x + x_idx as i32, y: base_position.y + y_idx as i32 },
            );
        }
        i += 1;
        x_idx += 1;
        if x_idx >= width {
            proof {
                assert((y_idx + 1) * (width as int) == y_idx * (width as int) + width)
                    by (nonlinear_arith);
            }
            x_idx = 0;
            y_idx += 1;
        }
    }
    proof {
        assert(gdata.take(gdata.len() as int) =~= gdata);
    }
    res
}

} // verus!
