use tetris::block::{Block, Kind, Pos};
use tetris::board::{Direction, Tetris};

fn single(x: i32, y: i32) -> Block {
    Block::new(Kind::T, vec![Pos(x, y)])
}

#[test]
fn new_board_is_active_with_a_valid_spawn() {
    let t = Tetris::new(10, 20);
    assert!(!t.is_lost());
    assert_eq!(t.width(), 10);
    assert_eq!(t.height(), 20);
    assert!(t.fixed_blocks().is_empty());
    let curr = t.current_block();
    assert_eq!(curr.positions().len(), 4);
    assert!(!t.is_out_of_bounds(curr));
    assert!(!t.is_colliding(curr));
    // spawned at the centered column, top rows
    for p in curr.positions() {
        assert!(5 <= p.0 && p.0 <= 8);
        assert!(0 <= p.1 && p.1 <= 1);
    }
}

#[test]
fn out_of_bounds_checks_all_four_edges() {
    let t = Tetris::new_with_block(4, 4, single(0, 0));
    assert!(!t.is_out_of_bounds(&single(3, 3)));
    assert!(t.is_out_of_bounds(&single(-1, 0)));
    assert!(t.is_out_of_bounds(&single(4, 0)));
    assert!(t.is_out_of_bounds(&single(0, -1)));
    assert!(t.is_out_of_bounds(&single(0, 4)));
    assert!(t.is_out_of_bounds(&Block::new(Kind::I, vec![Pos(1, 1), Pos(1, 4)])));
}

#[test]
fn colliding_checks_only_the_fixed_blocks() {
    let mut t = Tetris::new_with_block(5, 5, single(2, 0));
    assert!(t.place_fixed(single(1, 3)));
    assert!(t.is_colliding(&single(1, 3)));
    assert!(!t.is_colliding(&single(1, 2)));
    // the falling block itself is not fixed terrain
    assert!(!t.is_colliding(&single(2, 0)));
}

#[test]
fn place_fixed_rejects_overlap_and_out_of_bounds() {
    let mut t = Tetris::new_with_block(5, 5, single(2, 0));
    assert!(t.place_fixed(single(1, 3)));
    assert!(!t.place_fixed(single(1, 3)), "overlap with a fixed block");
    assert!(!t.place_fixed(single(2, 0)), "overlap with the falling block");
    assert!(!t.place_fixed(single(5, 1)), "outside the grid");
    assert_eq!(t.fixed_blocks().len(), 1);
}

#[test]
fn line_full_needs_every_column_of_the_row() {
    let mut t = Tetris::new_with_block(4, 8, single(0, 0));
    assert!(t.place_fixed(single(0, 5)));
    assert!(t.place_fixed(single(1, 5)));
    assert!(t.place_fixed(single(2, 5)));
    assert!(!t.is_line_full(5), "one column still open");
    assert!(t.place_fixed(single(3, 5)));
    assert!(t.is_line_full(5));
    assert!(!t.is_line_full(4));
    assert!(!t.is_line_full(6));
}

#[test]
fn get_prefers_the_falling_block_then_first_fixed_in_order() {
    let mut t = Tetris::new_with_block(5, 5, Block::new(Kind::I, vec![Pos(1, 0)]));
    assert!(t.place_fixed(Block::new(Kind::J, vec![Pos(0, 0)])));
    assert_eq!(t.get(Pos(1, 0)), Some("I"));
    assert_eq!(t.get(Pos(0, 0)), Some("J"));
    assert_eq!(t.get(Pos(2, 2)), None);
}

#[test]
fn iter_positions_is_row_major() {
    let t = Tetris::new(10, 20);
    let ps = t.iter_positions();
    assert_eq!(ps.len(), 200);
    assert_eq!(ps[0], Pos(0, 0));
    assert_eq!(ps[9], Pos(9, 0));
    assert_eq!(ps[10], Pos(0, 1));
    assert_eq!(ps[13], Pos(3, 1));
    assert_eq!(ps[199], Pos(9, 19));
}

#[test]
fn shift_moves_one_column_and_is_rejected_at_the_wall() {
    let mut t = Tetris::new_with_block(5, 5, single(2, 0));
    t.shift(Direction::Left);
    assert_eq!(t.current_block().positions(), &vec![Pos(1, 0)]);
    t.shift(Direction::Left);
    assert_eq!(t.current_block().positions(), &vec![Pos(0, 0)]);
    t.shift(Direction::Left);
    assert_eq!(t.current_block().positions(), &vec![Pos(0, 0)], "rejected at the wall");
    t.shift(Direction::Right);
    assert_eq!(t.current_block().positions(), &vec![Pos(1, 0)]);
}

#[test]
fn shift_left_then_right_restores_the_position() {
    let mut t = Tetris::new_with_block(5, 5, single(2, 3));
    t.shift(Direction::Left);
    t.shift(Direction::Right);
    assert_eq!(t.current_block().positions(), &vec![Pos(2, 3)]);
}

#[test]
fn shift_is_rejected_against_a_fixed_block() {
    let mut t = Tetris::new_with_block(5, 5, single(2, 0));
    assert!(t.place_fixed(single(3, 0)));
    t.shift(Direction::Right);
    assert_eq!(t.current_block().positions(), &vec![Pos(2, 0)]);
}

#[test]
fn rotate_turns_the_block_in_place_when_there_is_room() {
    let mut t = Tetris::new_with_block(10, 10, Block::canonical(Kind::I).translated(3, 3));
    t.rotate();
    assert_eq!(
        t.current_block().positions(),
        &vec![Pos(3, 3), Pos(3, 4), Pos(3, 5), Pos(3, 6)]
    );
}

#[test]
fn rotate_is_rejected_when_it_would_leave_the_grid() {
    // a vertical bar pivoting at the left edge would swing outside
    let bar = Block::new(Kind::I, vec![Pos(0, 0), Pos(0, 1), Pos(0, 2), Pos(0, 3)]);
    let mut t = Tetris::new_with_block(10, 10, bar);
    t.rotate();
    assert_eq!(
        t.current_block().positions(),
        &vec![Pos(0, 0), Pos(0, 1), Pos(0, 2), Pos(0, 3)]
    );
}

#[test]
fn tick_moves_the_block_down_one_row() {
    let mut t = Tetris::new_with_block(10, 20, single(5, 0));
    t.tick();
    assert_eq!(t.current_block().positions(), &vec![Pos(5, 1)]);
    assert!(t.fixed_blocks().is_empty());
    assert!(!t.is_lost());
}

#[test]
fn tick_fixes_a_block_resting_on_terrain() {
    let mut t = Tetris::new_with_block(10, 20, single(5, 10));
    assert!(t.place_fixed(single(5, 11)));
    assert!(t.push_next(single(0, 0)));
    t.tick();
    assert_eq!(t.fixed_blocks().len(), 2);
    assert!(t.fixed_blocks()[1].has_position(Pos(5, 10)));
    // the queued single cell spawned at the centered column 10 / 2
    assert_eq!(t.current_block().positions(), &vec![Pos(5, 0)]);
    assert!(!t.is_lost());
}

#[test]
fn push_next_rejects_a_shape_too_wide_for_the_board() {
    let mut t = Tetris::new_with_block(3, 3, single(1, 0));
    assert!(!t.push_next(Block::canonical(Kind::I)), "four cells wide on a three-wide board");
    assert!(t.push_next(Block::canonical(Kind::O)));
}

#[test]
fn invariant_holds_through_a_long_random_game() {
    let mut t = Tetris::new(10, 20);
    for i in 0..300 {
        match i % 5 {
            0 => t.shift(Direction::Left),
            1 => t.shift(Direction::Right),
            2 => t.rotate(),
            _ => t.tick(),
        }
        if t.is_lost() {
            break;
        }
        let curr = t.current_block();
        assert!(!t.is_out_of_bounds(curr));
        assert!(!t.is_colliding(curr));
    }
}

#[test]
fn new_boards_draw_the_same_first_shape() {
    let a = Tetris::new(10, 20);
    let b = Tetris::new(10, 20);
    assert_eq!(a.current_block().shape(), b.current_block().shape());
    assert_eq!(a.current_block().positions(), b.current_block().positions());
}
