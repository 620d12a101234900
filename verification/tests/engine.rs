use tetris_core::board::{ActivePiece, Game};
use tetris_core::catalog::{generate_tetorimino_positions, shape_at, Grid, CATALOG_SIZE};
use tetris_core::cells::{CellKind, Direction, Position, ARENA_HEIGHT, ARENA_WIDTH};
use tetris_core::rng::random_shape_index;

fn pos(x: i32, y: i32) -> Position {
    Position { x, y }
}

fn game_with(locked: Vec<Position>, active: Option<ActivePiece>) -> Game {
    Game {
        locked,
        active,
        direction: Direction::Neutral,
        stack_time: 0,
    }
}

fn single_cell_piece(x: i32, y: i32) -> ActivePiece {
    ActivePiece {
        origin: pos(x, y),
        cells: vec![pos(x, y)],
    }
}

fn active_cells_sorted(g: &Game) -> Vec<Position> {
    let mut v = g.active_cells();
    v.sort_by(|a, b| (a.y, a.x).cmp(&(b.y, b.x)));
    v
}

#[test]
fn test_generate_tetorimino_positions() {
    let block = Grid {
        width: 2,
        data: vec![1, 1, 1, 1],
    };
    assert_eq!(
        vec![
            Position { x: 0, y: 0 },
            Position { x: 1, y: 0 },
            Position { x: 0, y: 1 },
            Position { x: 1, y: 1 }
        ],
        generate_tetorimino_positions(&Position { x: 0, y: 0 }, &block)
    );
}

#[test]
fn generate_positions_skips_empty_entries() {
    // the T shape as a grid, placed away from the origin
    let block = Grid {
        width: 3,
        data: vec![0, 1, 0, 1, 1, 1],
    };
    assert_eq!(
        vec![pos(3, 5), pos(2, 6), pos(3, 6), pos(4, 6)],
        generate_tetorimino_positions(&pos(2, 5), &block)
    );
}

#[test]
fn catalog_has_seven_stable_shapes() {
    assert_eq!(CATALOG_SIZE, 7);
    // square
    assert_eq!(vec![pos(0, 0), pos(1, 0), pos(0, 1), pos(1, 1)], shape_at(0));
    // I
    assert_eq!(vec![pos(0, 0), pos(0, 1), pos(0, 2), pos(0, 3)], shape_at(6));
    for idx in 0..CATALOG_SIZE {
        let offsets = shape_at(idx);
        assert_eq!(offsets.len(), 4);
        for c in offsets {
            assert!((-1..=1).contains(&c.x));
            assert!((0..=3).contains(&c.y));
        }
    }
}

#[test]
fn random_index_stays_in_catalog() {
    for _ in 0..200 {
        assert!(random_shape_index() < CATALOG_SIZE);
    }
}

#[test]
fn spawn_places_piece_at_origin_then_left_moves_all_cells() {
    // board empty, spawn puts the origin at (3, HEIGHT - 1)
    let mut g = Game::new();
    assert!(g.spawn_block_with(5));
    let piece = g.active.as_ref().unwrap();
    assert_eq!(piece.origin, pos(3, ARENA_HEIGHT - 1));
    let before = g.active_cells();
    assert_eq!(
        before,
        vec![pos(2, 19), pos(3, 19), pos(4, 19), pos(3, 20)]
    );

    // resolving Left moves every cell one column left
    g.direction = Direction::Left;
    g.block_movement();
    let after = g.active_cells();
    assert_eq!(after.len(), before.len());
    for (a, b) in after.iter().zip(before.iter()) {
        assert_eq!(a.x, b.x - 1);
        assert_eq!(a.y, b.y);
    }
}

#[test]
fn gravity_tick_locks_piece_resting_on_floor() {
    // a single-cell piece at (5, 0): gravity cannot move it, the lock
    // manager converts it, and no active piece remains
    let mut g = game_with(vec![], Some(single_cell_piece(5, 0)));
    g.block_free_fall();
    assert_eq!(g.active_cells(), vec![pos(5, 0)]);
    g.stack_block(1000);
    assert!(g.active.is_none());
    assert_eq!(g.locked, vec![pos(5, 0)]);
    assert_eq!(g.stack_time, 1000);
}

#[test]
fn line_clear_removes_full_row_and_shifts_above() {
    // a full row at y = 3 and one lone cell at (0, 5)
    let mut locked: Vec<Position> = (0..ARENA_WIDTH).map(|x| pos(x, 3)).collect();
    locked.push(pos(0, 5));
    let mut g = game_with(locked, None);
    g.destroy_block();
    assert!(g.locked.iter().all(|c| c.y != 3 || c.x != 0));
    assert!(g.locked.iter().all(|c| c.y != 5));
    assert_eq!(g.locked, vec![pos(0, 4)]);
}

#[test]
fn gravity_locks_rather_than_moving_onto_stack() {
    // active cell at y = 1 with a locked cell directly beneath: the
    // gravity tick must lock in place, not occupy (4, 0) a second time
    let mut g = game_with(vec![pos(4, 0)], Some(single_cell_piece(4, 1)));
    g.block_free_fall();
    assert_eq!(g.active_cells(), vec![pos(4, 1)]);
    g.stack_block(500);
    assert!(g.active.is_none());
    assert_eq!(g.locked, vec![pos(4, 0), pos(4, 1)]);
}

#[test]
fn blocked_move_leaves_piece_unchanged() {
    // push the piece to the left wall; one more Left must change nothing
    let mut g = Game::new();
    assert!(g.spawn_block_with(0));
    g.direction = Direction::Left;
    g.block_movement();
    g.block_movement();
    g.block_movement();
    let at_wall = g.active_cells();
    assert_eq!(at_wall, vec![pos(0, 19), pos(1, 19), pos(0, 20), pos(1, 20)]);
    g.block_movement();
    assert_eq!(g.active_cells(), at_wall);
}

#[test]
fn spawner_never_creates_a_second_piece() {
    let mut g = Game::new();
    assert!(g.spawn_block_with(2));
    let first = g.active_cells();
    for _ in 0..5 {
        assert!(!g.spawn_block());
        assert!(!g.spawn_block_with(1));
    }
    assert_eq!(g.active_cells(), first);
}

#[test]
fn spawn_on_occupied_cells_reports_board_full() {
    // a locked cell on the spawn origin row blocks the square shape
    let mut g = game_with(vec![pos(3, 19)], None);
    assert!(!g.spawn_block_with(0));
    assert!(g.active.is_none());
    assert_eq!(g.locked, vec![pos(3, 19)]);
}

#[test]
fn respawn_waits_for_the_delay() {
    let mut g = game_with(vec![], Some(single_cell_piece(2, 0)));
    g.stack_block(4000);
    assert!(g.active.is_none());
    // gate closed: exactly at the delay boundary nothing spawns
    assert!(!g.respawn_block(5000));
    assert!(g.active.is_none());
    // gate open one unit later
    assert!(g.respawn_block(5001));
    assert!(g.active.is_some());
    assert_eq!(g.active.as_ref().unwrap().origin, pos(3, ARENA_HEIGHT - 1));
}

#[test]
fn respawn_does_nothing_while_a_piece_is_active() {
    let mut g = Game::new();
    assert!(g.spawn_block_with(3));
    let before = g.active_cells();
    assert!(!g.respawn_block(u64::MAX));
    assert_eq!(g.active_cells(), before);
}

#[test]
fn held_down_substitutes_for_gravity_in_the_same_tick() {
    let mut g = Game::new();
    assert!(g.spawn_block_with(0));
    g.direction = Direction::Down;
    g.block_movement();
    // soft drop took the step; gravity must not apply a second one
    g.block_free_fall();
    assert_eq!(
        g.active_cells(),
        vec![pos(3, 18), pos(4, 18), pos(3, 19), pos(4, 19)]
    );
}

#[test]
fn rise_moves_up_only_below_the_spawn_row() {
    let mut g = Game::new();
    assert!(g.spawn_block_with(0));
    let at_spawn = g.active_cells();
    // at the spawn row the rise is refused
    g.direction = Direction::Up;
    g.block_movement();
    assert_eq!(g.active_cells(), at_spawn);
    // one row lower it rises back
    g.direction = Direction::Down;
    g.block_movement();
    g.direction = Direction::Up;
    g.block_movement();
    assert_eq!(g.active_cells(), at_spawn);
}

#[test]
fn empty_board_clear_is_a_no_op() {
    let mut g = Game::new();
    g.destroy_block();
    assert!(g.locked.is_empty());
    assert!(g.active.is_none());
}

#[test]
fn stacked_full_rows_clear_in_one_pass() {
    // full rows at y = 3 and y = 4 plus a lone cell at (0, 6): both
    // rows go and the lone cell drops by two
    let mut locked: Vec<Position> = (0..ARENA_WIDTH).map(|x| pos(x, 3)).collect();
    locked.extend((0..ARENA_WIDTH).map(|x| pos(x, 4)));
    locked.push(pos(0, 6));
    let mut g = game_with(locked, None);
    g.destroy_block();
    assert_eq!(g.locked, vec![pos(0, 4)]);
}

#[test]
fn full_row_clears_even_above_empty_rows() {
    // rows 0 and 1 hold nothing, yet the full row at y = 2 still goes
    let locked: Vec<Position> = (0..ARENA_WIDTH).map(|x| pos(x, 2)).collect();
    let mut g = game_with(locked, None);
    g.destroy_block();
    assert!(g.locked.is_empty());
}

#[test]
fn full_bottom_row_clears_to_empty() {
    let locked: Vec<Position> = (0..ARENA_WIDTH).map(|x| pos(x, 0)).collect();
    let mut g = game_with(locked, None);
    g.destroy_block();
    assert!(g.locked.is_empty());
}

#[test]
fn bounds_and_uniqueness_hold_over_many_ticks() {
    let mut g = Game::new();
    let dirs = [
        Direction::Left,
        Direction::Down,
        Direction::Right,
        Direction::Neutral,
        Direction::Up,
        Direction::Down,
    ];
    let mut now: u64 = 2000;
    for step in 0..200 {
        g.fixed_tick(dirs[step % dirs.len()], now);
        now += 500;
        for c in g.locked.iter().chain(g.active_cells().iter()) {
            assert!(0 <= c.x && c.x < ARENA_WIDTH);
            assert!(c.y >= 0);
        }
        for (i, a) in g.locked.iter().enumerate() {
            for b in g.locked.iter().skip(i + 1) {
                assert_ne!(a, b);
            }
        }
    }
    // pieces fell, locked and stacked over the run
    assert!(!g.locked.is_empty());
}

#[test]
fn committed_move_never_lands_on_the_stack() {
    // a wall of locked cells to the left of the piece: Left is refused,
    // and after any committed move no active cell equals a locked cell
    let locked: Vec<Position> = (0..=20).map(|y| pos(2, y)).collect();
    let piece = ActivePiece {
        origin: pos(3, 5),
        cells: vec![pos(3, 5)],
    };
    let mut g = game_with(locked, Some(piece));
    g.direction = Direction::Left;
    g.block_movement();
    assert_eq!(g.active_cells(), vec![pos(3, 5)]);
    g.direction = Direction::Down;
    g.block_movement();
    assert_eq!(g.active_cells(), vec![pos(3, 4)]);
    for c in g.active_cells() {
        assert!(!g.locked.contains(&c));
    }
}

#[test]
fn fixed_tick_spawns_on_an_empty_gated_board() {
    let mut g = Game::new();
    let spawned = g.fixed_tick(Direction::Neutral, 1001);
    assert!(spawned);
    let cells = active_cells_sorted(&g);
    assert_eq!(cells.len(), 4);
    assert!(cells.iter().all(|c| (2..=4).contains(&c.x)));
    assert!(cells.iter().all(|c| (19..=22).contains(&c.y)));
    assert!(g.locked_cells().is_empty());
}

#[test]
fn occupied_cells_pairs_each_cell_with_its_kind() {
    let mut g = game_with(vec![pos(1, 0), pos(2, 0)], None);
    assert!(g.spawn_block_with(6));
    let all = g.occupied_cells();
    assert_eq!(all.len(), 6);
    assert_eq!(all[0], (pos(1, 0), CellKind::Locked));
    assert_eq!(all[1], (pos(2, 0), CellKind::Locked));
    for (c, kind) in &all[2..] {
        assert_eq!(*kind, CellKind::Active);
        assert_eq!(c.x, 3);
        assert!((19..=22).contains(&c.y));
    }
}

#[test]
fn non_adjacent_full_rows_each_shift_what_stands_above() {
    // full rows at y = 2 and y = 5 and a lone cell at (0, 7): both
    // clear in one pass and the lone cell drops by two in total
    let mut locked: Vec<Position> = (0..ARENA_WIDTH).map(|x| pos(x, 2)).collect();
    locked.extend((0..ARENA_WIDTH).map(|x| pos(x, 5)));
    locked.push(pos(0, 7));
    let mut g = game_with(locked, None);
    g.destroy_block();
    assert_eq!(g.locked, vec![pos(0, 5)]);
}

#[test]
fn locking_never_duplicates_a_taken_position() {
    // the rise is unconditional below the spawn row, so a piece can
    // stand on a taken position; locking it must not stack the
    // position twice
    let mut g = game_with(vec![pos(4, 2)], Some(single_cell_piece(4, 1)));
    g.direction = Direction::Up;
    g.block_movement();
    assert_eq!(g.active_cells(), vec![pos(4, 2)]);
    // resting on the locked cell beneath, it locks without doubling
    // the position it shares with the stack
    g.locked.push(pos(4, 1));
    g.active = Some(single_cell_piece(4, 2));
    g.stack_block(900);
    assert!(g.active.is_none());
    assert_eq!(g.locked, vec![pos(4, 2), pos(4, 1)]);
}
