use tetris::block::{Block, Kind, Pos};

fn cells(b: &Block) -> Vec<Pos> {
    b.positions().clone()
}

#[test]
fn translate_moves_every_cell() {
    let b = Block::new(Kind::T, vec![Pos(1, 2), Pos(3, 4)]);
    let t = b.translated(2, -1);
    assert_eq!(cells(&t), vec![Pos(3, 1), Pos(5, 3)]);
    assert_eq!(t.shape(), Kind::T);
    // the original block is untouched
    assert_eq!(cells(&b), vec![Pos(1, 2), Pos(3, 4)]);
}

#[test]
fn rotate_quarter_turn_about_first_cell() {
    let b = Block::canonical(Kind::I);
    assert_eq!(cells(&b), vec![Pos(0, 0), Pos(1, 0), Pos(2, 0), Pos(3, 0)]);
    let r = b.rotated();
    // pivot (0,0): (x, y) -> (-y, x), the horizontal bar turns vertical
    assert_eq!(cells(&r), vec![Pos(0, 0), Pos(0, 1), Pos(0, 2), Pos(0, 3)]);
}

#[test]
fn rotate_four_times_is_identity_for_every_kind() {
    let kinds = [Kind::I, Kind::O, Kind::T, Kind::S, Kind::Z, Kind::J, Kind::L];
    for k in kinds {
        let b = Block::canonical(k).translated(3, 5);
        let r = b.rotated().rotated().rotated().rotated();
        assert_eq!(cells(&r), cells(&b));
        assert_eq!(r.shape(), k);
    }
}

#[test]
fn rotate_empty_block_stays_empty() {
    let b = Block::new(Kind::O, vec![]);
    let r = b.rotated();
    assert!(r.positions().is_empty());
}

#[test]
fn has_position_checks_membership() {
    let b = Block::new(Kind::S, vec![Pos(2, 3), Pos(4, 5)]);
    assert!(b.has_position(Pos(2, 3)));
    assert!(b.has_position(Pos(4, 5)));
    assert!(!b.has_position(Pos(3, 3)));
    assert!(!b.has_position(Pos(2, 4)));
}

#[test]
fn collides_with_detects_a_shared_cell() {
    let a = Block::new(Kind::I, vec![Pos(0, 0), Pos(1, 0)]);
    let b = Block::new(Kind::O, vec![Pos(1, 0), Pos(1, 1)]);
    let c = Block::new(Kind::T, vec![Pos(2, 2)]);
    assert!(a.collides_with(&b));
    assert!(b.collides_with(&a));
    assert!(!a.collides_with(&c));
    assert!(!c.collides_with(&b));
}

#[test]
fn remove_line_drops_the_row_and_shifts_rows_above_down() {
    let mut b = Block::new(Kind::J, vec![Pos(0, 0), Pos(0, 1), Pos(0, 2), Pos(1, 1)]);
    b.remove_line(1);
    // row 1 vanishes, row 0 moves to row 1, row 2 stays
    assert_eq!(cells(&b), vec![Pos(0, 1), Pos(0, 2)]);
    assert_eq!(b.shape(), Kind::J);
}

#[test]
fn remove_line_missing_the_block_still_shifts_rows_above() {
    let mut b = Block::new(Kind::L, vec![Pos(3, 2), Pos(4, 7)]);
    b.remove_line(5);
    assert_eq!(cells(&b), vec![Pos(3, 3), Pos(4, 7)]);
}

#[test]
fn remove_line_can_empty_a_block() {
    let mut b = Block::new(Kind::I, vec![Pos(0, 4), Pos(1, 4)]);
    b.remove_line(4);
    assert!(b.positions().is_empty());
}

#[test]
fn typ_names_each_kind() {
    assert_eq!(Block::canonical(Kind::I).typ(), "I");
    assert_eq!(Block::canonical(Kind::O).typ(), "O");
    assert_eq!(Block::canonical(Kind::T).typ(), "T");
    assert_eq!(Block::canonical(Kind::S).typ(), "S");
    assert_eq!(Block::canonical(Kind::Z).typ(), "Z");
    assert_eq!(Block::canonical(Kind::J).typ(), "J");
    assert_eq!(Block::canonical(Kind::L).typ(), "L");
}

#[test]
fn canonical_layouts_sit_in_the_spawn_box() {
    let kinds = [Kind::I, Kind::O, Kind::T, Kind::S, Kind::Z, Kind::J, Kind::L];
    for k in kinds {
        let b = Block::canonical(k);
        assert_eq!(b.positions().len(), 4);
        for p in b.positions() {
            assert!(0 <= p.0 && p.0 <= 3);
            assert!(0 <= p.1 && p.1 <= 1);
        }
    }
}

#[test]
fn new_random_is_a_pure_function_of_the_selector_state() {
    let mut s1: u64 = 12345;
    let mut s2: u64 = 12345;
    let a = Block::new_random(&mut s1);
    let b = Block::new_random(&mut s2);
    assert_eq!(s1, s2);
    assert_ne!(s1, 12345);
    assert_eq!(a.shape(), b.shape());
    assert_eq!(cells(&a), cells(&b));
}
