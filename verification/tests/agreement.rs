use brainfuck::cursor::Cursor;
use brainfuck::machine::Status;
use brainfuck::printer::Printer;
use brainfuck::selftest::REFERENCE_PROGRAM;
use brainfuck::tape::Tape;
use brainfuck::tree::{run, Program};

struct Seen {
    status: Status,
    out: Vec<u8>,
    checksum: i32,
    cursor: usize,
    cell: i32,
    open_loops: usize,
}

fn start_tape(right: usize, value: i32) -> Tape {
    let mut tape = Tape::new();
    for _ in 0..right {
        tape.next();
    }
    for _ in 0..value {
        tape.inc();
    }
    tape
}

fn by_tree(text: &str, right: usize, value: i32, quiet: bool, fuel: u64) -> Seen {
    let mut tape = start_tape(right, value);
    let mut p = Printer::new(quiet);
    let program = Program::new(text);
    let status = run(program.ops(), &mut tape, &mut p, fuel);
    Seen {
        status,
        checksum: p.get_checksum(),
        out: p.take_output(),
        cursor: tape.cursor(),
        cell: tape.get(),
        open_loops: 0,
    }
}

fn by_cursor(text: &str, right: usize, value: i32, quiet: bool, fuel: u64) -> Seen {
    let mut tape = start_tape(right, value);
    let mut p = Printer::new(quiet);
    let mut cursor = Cursor::new(text);
    let status = cursor.run(&mut tape, &mut p, fuel);
    Seen {
        status,
        checksum: p.get_checksum(),
        out: p.take_output(),
        cursor: tape.cursor(),
        cell: tape.get(),
        open_loops: cursor.open_loops(),
    }
}

fn same_state(a: &Seen, b: &Seen) {
    assert_eq!(a.out, b.out);
    assert_eq!(a.checksum, b.checksum);
    assert_eq!(a.cursor, b.cursor);
    assert_eq!(a.cell, b.cell);
}

const BALANCED: [&str; 10] = [
    "",
    "+++.",
    "+[-]",
    ",",
    "+++[>++++[>++<-]<-]>>.",
    "++>+++<[.>]<<.",
    "[[.]+[[.]-]]+.>.<<",
    "-[.]+[.-]",
    ">>>+[<+.]<<<<",
    "+[>+.<-]>[.[-]].",
];

const UNBALANCED: [&str; 8] = ["]", "+.]+.", "+[-]].", "+[.", "[.-", "++[.-", "+[>+[.", "[[]+.]]]"];

#[test]
fn balanced_texts_run_alike_after_every_number_of_steps() {
    for text in BALANCED {
        for fuel in 0..60 {
            for quiet in [false, true] {
                let t = by_tree(text, 0, 0, quiet, fuel);
                let c = by_cursor(text, 0, 0, quiet, fuel);
                assert_eq!(t.status, c.status);
                assert_ne!(c.status, Status::UnmatchedClose);
                same_state(&t, &c);
                if c.status == Status::Done {
                    assert_eq!(c.open_loops, 0);
                }
            }
        }
    }
}

#[test]
fn balanced_texts_run_alike_from_other_tapes() {
    for text in BALANCED {
        for (right, value) in [(0, 3), (2, 0), (5, 1)] {
            for fuel in [0, 1, 5, 17, 1000] {
                let t = by_tree(text, right, value, false, fuel);
                let c = by_cursor(text, right, value, false, fuel);
                assert_eq!(t.status, c.status);
                same_state(&t, &c);
            }
        }
    }
}

#[test]
fn reference_program_runs_alike_after_every_number_of_steps() {
    for fuel in (0..920).step_by(13) {
        let t = by_tree(REFERENCE_PROGRAM, 0, 0, true, fuel);
        let c = by_cursor(REFERENCE_PROGRAM, 0, 0, true, fuel);
        assert_eq!(t.status, c.status);
        same_state(&t, &c);
    }
}

#[test]
fn unbalanced_texts_run_alike_until_the_text_ends_inside_a_loop() {
    for text in UNBALANCED {
        for fuel in 0..40 {
            let t = by_tree(text, 0, 0, false, fuel);
            let c = by_cursor(text, 0, 0, false, fuel);
            if c.status == Status::Done && c.open_loops > 0 {
                continue;
            }
            same_state(&t, &c);
            if c.status == Status::UnmatchedClose {
                assert_eq!(t.status, Status::Done);
            } else {
                assert_eq!(t.status, c.status);
            }
        }
    }
}

#[test]
fn text_that_ends_inside_a_loop_parts_the_two() {
    let t = by_tree("+[.", 0, 0, false, 10);
    let c = by_cursor("+[.", 0, 0, false, 10);
    assert_eq!(c.status, Status::Done);
    assert_eq!(c.open_loops, 1);
    assert_eq!(c.out, vec![1u8]);
    assert_eq!(t.status, Status::OutOfFuel);
    assert_eq!(t.out, vec![1u8, 1, 1, 1]);
}
