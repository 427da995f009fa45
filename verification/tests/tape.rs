use brainfuck::tape::Tape;

#[test]
fn new_tape_has_cursor_on_a_zero_cell() {
    let tape = Tape::new();
    assert_eq!(tape.cursor(), 0);
    assert_eq!(tape.get(), 0);
    assert!(tape.can_advance());
}

#[test]
fn default_tape_is_a_new_tape() {
    let tape = Tape::default();
    assert_eq!(tape.cursor(), 0);
    assert_eq!(tape.get(), 0);
}

#[test]
fn inc_and_dec_change_the_cell_by_one() {
    let mut tape = Tape::new();
    tape.inc();
    tape.inc();
    tape.inc();
    assert_eq!(tape.get(), 3);
    tape.dec();
    assert_eq!(tape.get(), 2);
}

#[test]
fn dec_below_zero_gives_negative_values() {
    let mut tape = Tape::new();
    tape.dec();
    assert_eq!(tape.get(), -1);
    tape.dec();
    assert_eq!(tape.get(), -2);
    tape.inc();
    tape.inc();
    assert_eq!(tape.get(), 0);
}

#[test]
fn moves_change_the_cursor_only() {
    let mut tape = Tape::new();
    tape.inc();
    tape.next();
    assert_eq!(tape.cursor(), 1);
    assert_eq!(tape.get(), 0);
    tape.inc();
    tape.inc();
    tape.prev();
    assert_eq!(tape.cursor(), 0);
    assert_eq!(tape.get(), 1);
    tape.next();
    assert_eq!(tape.get(), 2);
}

#[test]
fn cells_reached_by_moving_right_read_zero() {
    let mut tape = Tape::new();
    for i in 1..=5000usize {
        tape.next();
        assert_eq!(tape.cursor(), i);
        assert_eq!(tape.get(), 0);
    }
}

#[test]
fn values_survive_growth_of_the_tape() {
    let mut tape = Tape::new();
    for i in 0..300usize {
        for _ in 0..(i % 7) {
            tape.inc();
        }
        tape.next();
    }
    assert_eq!(tape.get(), 0);
    for i in (0..300usize).rev() {
        tape.prev();
        assert_eq!(tape.cursor(), i);
        assert_eq!(tape.get(), (i % 7) as i32);
    }
}

#[test]
fn a_cell_written_far_right_leaves_its_neighbours_zero() {
    let mut tape = Tape::new();
    for _ in 0..1000 {
        tape.next();
    }
    tape.dec();
    assert_eq!(tape.get(), -1);
    tape.prev();
    assert_eq!(tape.get(), 0);
    tape.next();
    tape.next();
    assert_eq!(tape.get(), 0);
    tape.prev();
    assert_eq!(tape.get(), -1);
}

#[test]
fn new_tape_stores_one_cell() {
    assert_eq!(Tape::new().len(), 1);
    assert_eq!(Tape::default().len(), 1);
}

#[test]
fn storage_grows_to_twice_the_cursor_index_when_the_cursor_leaves_it() {
    let mut tape = Tape::new();
    tape.next();
    assert_eq!(tape.len(), 2);
    tape.next();
    assert_eq!(tape.len(), 4);
    tape.next();
    assert_eq!(tape.len(), 4);
    tape.next();
    assert_eq!(tape.len(), 8);
    for _ in 0..4 {
        tape.next();
    }
    assert_eq!((tape.cursor(), tape.len()), (8, 16));
}

#[test]
fn storage_never_shrinks() {
    let mut tape = Tape::new();
    for _ in 0..100 {
        tape.next();
    }
    let stored = tape.len();
    for _ in 0..100 {
        tape.prev();
        tape.inc();
        assert_eq!(tape.len(), stored);
    }
}

#[test]
fn inc_wraps_from_the_largest_value_to_the_smallest() {
    let mut tape = Tape::new();
    let mut i: u32 = 0;
    while i < i32::MAX as u32 {
        tape.inc();
        i += 1;
    }
    assert_eq!(tape.get(), i32::MAX);
    tape.inc();
    assert_eq!(tape.get(), i32::MIN);
    tape.dec();
    assert_eq!(tape.get(), i32::MAX);
}

#[test]
fn dec_wraps_from_the_smallest_value_to_the_largest() {
    let mut tape = Tape::new();
    let mut i: u32 = 0;
    while i < 1 << 31 {
        tape.dec();
        i += 1;
    }
    assert_eq!(tape.get(), i32::MIN);
    tape.dec();
    assert_eq!(tape.get(), i32::MAX);
}
