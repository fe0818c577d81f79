use tetris::block::{Block, Kind, Pos};
use tetris::board::{Direction, Tetris};

fn one_cell(x: i32, y: i32) -> Block {
    Block::new(Kind::T, vec![Pos(x, y)])
}

#[test]
fn single_cell_block_lands_on_the_bottom_row() {
    // Board(10, 20) with a single-cell-wide block never shifted: after
    // 19 ticks it sits on the bottom row (row 19); the next tick fixes
    // it there and spawns a new falling block at row 0.
    let mut t = Tetris::new_with_block(10, 20, one_cell(5, 0));
    assert!(t.push_next(one_cell(0, 0)));
    for i in 0..19 {
        t.tick();
        assert_eq!(t.current_block().positions(), &vec![Pos(5, i + 1)]);
    }
    assert_eq!(t.current_block().positions(), &vec![Pos(5, 19)]);
    assert!(t.fixed_blocks().is_empty());
    t.tick();
    assert_eq!(t.fixed_blocks().len(), 1);
    assert!(t.fixed_blocks()[0].has_position(Pos(5, 19)));
    assert_eq!(t.current_block().positions(), &vec![Pos(5, 0)]);
    assert!(!t.is_lost());
}

#[test]
fn clearing_a_full_row_shifts_the_rows_above_down() {
    // Width 4: four single-cell blocks fill row 5, a marker sits at
    // row 4, and the falling block rests on the bottom row. The tick
    // fixes the falling block, row 5 is cleared, and the marker —
    // previously at row 4 — is found at row 5 afterwards.
    let mut t = Tetris::new_with_block(4, 8, one_cell(0, 7));
    for x in 0..4 {
        assert!(t.place_fixed(one_cell(x, 5)));
    }
    assert!(t.place_fixed(one_cell(2, 4)));
    assert!(t.is_line_full(5));
    assert!(t.push_next(one_cell(0, 0)));
    t.tick();
    // the four row-5 blocks were emptied by the collapse
    for k in 0..4 {
        assert!(t.fixed_blocks()[k].positions().is_empty());
    }
    // the marker moved down from row 4 to row 5
    assert_eq!(t.fixed_blocks()[4].positions(), &vec![Pos(2, 5)]);
    // the landed block sat below the cleared row and did not move
    assert_eq!(t.fixed_blocks()[5].positions(), &vec![Pos(0, 7)]);
    assert!(!t.is_line_full(5));
    assert!(!t.is_lost());
}

#[test]
fn two_stacked_full_rows_clear_in_one_tick() {
    // Rows 5 and 6 are both full; the single ascending pass clears
    // both, and a marker at row 4 falls two rows to row 6.
    let mut t = Tetris::new_with_block(2, 8, one_cell(0, 7));
    for x in 0..2 {
        assert!(t.place_fixed(one_cell(x, 5)));
        assert!(t.place_fixed(one_cell(x, 6)));
    }
    assert!(t.place_fixed(one_cell(1, 4)));
    assert!(t.push_next(one_cell(0, 0)));
    t.tick();
    assert_eq!(t.fixed_blocks()[4].positions(), &vec![Pos(1, 6)]);
    for k in 0..4 {
        assert!(t.fixed_blocks()[k].positions().is_empty());
    }
    assert_eq!(t.fixed_blocks()[5].positions(), &vec![Pos(0, 7)]);
}

#[test]
fn blocked_spawn_loses_the_game_and_freezes_it() {
    // Board(3, 3): the spawn position is surrounded, so the spawn right
    // after the falling block is fixed collides, the game is lost, and
    // every later tick, shift and rotate is a no-op.
    let mut t = Tetris::new_with_block(3, 3, one_cell(1, 0));
    assert!(t.push_next(one_cell(0, 0))); // will spawn at (1, 0)
    assert!(t.place_fixed(one_cell(1, 1)));
    assert!(t.place_fixed(one_cell(0, 0)));
    assert!(!t.is_lost());
    t.tick();
    assert!(t.is_lost());
    let fixed_len = t.fixed_blocks().len();
    let curr = t.current_block().positions().clone();
    t.tick();
    t.shift(Direction::Left);
    t.shift(Direction::Right);
    t.rotate();
    assert!(t.is_lost());
    assert_eq!(t.fixed_blocks().len(), fixed_len);
    assert_eq!(t.current_block().positions(), &curr);
}
