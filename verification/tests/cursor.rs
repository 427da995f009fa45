use brainfuck::cursor::{run, Cursor};
use brainfuck::machine::Status;
use brainfuck::printer::Printer;
use brainfuck::selftest::REFERENCE_PROGRAM;
use brainfuck::tape::Tape;

fn live_text(text: &str, fuel: u64) -> (Status, Vec<u8>) {
    let mut tape = Tape::new();
    let mut p = Printer::new(false);
    let status = run(text, &mut tape, &mut p, fuel);
    (status, p.take_output())
}

#[test]
fn cursor_three_increments_and_a_print_emit_byte_three() {
    assert_eq!(live_text("+++.", 100), (Status::Done, vec![3u8]));
}

#[test]
fn cursor_counting_down_to_zero_emits_nothing() {
    let mut tape = Tape::new();
    let mut p = Printer::new(true);
    assert_eq!(run("+[-]", &mut tape, &mut p, 100), Status::Done);
    assert_eq!(p.get_checksum(), 0);
    assert_eq!(tape.get(), 0);
}

#[test]
fn cursor_passes_over_comments_for_free() {
    assert_eq!(live_text(",", 0), (Status::Done, vec![]));
    assert_eq!(live_text("one + two + print . done", 3), (Status::Done, vec![2u8]));
    assert_eq!(live_text("one + two + print . done", 2), (Status::OutOfFuel, vec![]));
}

#[test]
fn cursor_skips_a_loop_on_a_zero_cell() {
    assert_eq!(live_text("[+.]+.", 100), (Status::Done, vec![1u8]));
    assert_eq!(live_text("[+.]+.", 3), (Status::Done, vec![1u8]));
}

#[test]
fn cursor_skips_over_nested_brackets() {
    assert_eq!(live_text("[[.]+[[.]-]]+.", 100), (Status::Done, vec![1u8]));
    assert_eq!(live_text("-[[.]].", 100), (Status::Done, vec![255u8]));
}

#[test]
fn cursor_skip_ignores_everything_but_brackets() {
    assert_eq!(live_text("[ <<< . skip [me] ]+.", 100), (Status::Done, vec![1u8]));
}

#[test]
fn cursor_repeats_a_loop_while_the_cell_is_positive() {
    assert_eq!(live_text("+++[.-]", 100), (Status::Done, vec![3u8, 2, 1]));
    assert_eq!(live_text("+[--.]", 100), (Status::Done, vec![255u8]));
    assert_eq!(live_text("+++[>++++[>++<-]<-]>>.", 1000), (Status::Done, vec![24u8]));
}

#[test]
fn cursor_counts_each_command_and_each_bracket_as_one_step() {
    assert_eq!(live_text("+[-]", 3), (Status::OutOfFuel, vec![]));
    assert_eq!(live_text("+[-]", 4), (Status::Done, vec![]));
    assert_eq!(live_text("[+]", 0), (Status::OutOfFuel, vec![]));
    assert_eq!(live_text("[+]", 1), (Status::Done, vec![]));
}

#[test]
fn cursor_reports_a_close_that_closes_nothing() {
    assert_eq!(live_text("]", 100), (Status::UnmatchedClose, vec![]));
    assert_eq!(live_text("]", 0), (Status::UnmatchedClose, vec![]));
    assert_eq!(live_text("+.]+.", 100), (Status::UnmatchedClose, vec![1u8]));
    assert_eq!(live_text("+[-]].", 100), (Status::UnmatchedClose, vec![]));
}

#[test]
fn cursor_ends_at_the_end_of_the_text_with_loops_open() {
    let mut cursor = Cursor::new("+[.[");
    let mut tape = Tape::new();
    let mut p = Printer::new(false);
    assert_eq!(cursor.run(&mut tape, &mut p, 100), Status::Done);
    assert_eq!(p.take_output(), vec![1u8]);
    assert_eq!(cursor.open_loops(), 2);
    assert_eq!(cursor.position(), 4);
}

#[test]
fn cursor_skip_of_an_unclosed_loop_ends_the_run() {
    assert_eq!(live_text("[.+.", 100), (Status::Done, vec![]));
}

#[test]
fn cursor_stops_left_of_cell_zero() {
    let mut cursor = Cursor::new("+.<+.");
    let mut tape = Tape::new();
    let mut p = Printer::new(false);
    assert_eq!(cursor.run(&mut tape, &mut p, 100), Status::CursorUnderflow);
    assert_eq!(cursor.position(), 2);
    assert_eq!(tape.cursor(), 0);
    assert_eq!(p.take_output(), vec![1u8]);
    assert_eq!(cursor.run(&mut tape, &mut p, 100), Status::CursorUnderflow);
}

#[test]
fn cursor_prints_hello_world() {
    let (status, out) = live_text(REFERENCE_PROGRAM, 906);
    assert_eq!(status, Status::Done);
    assert_eq!(out, b"Hello World!\n".to_vec());
    assert_eq!(live_text(REFERENCE_PROGRAM, 905).0, Status::OutOfFuel);
}

#[test]
fn cursor_goes_on_where_it_stopped() {
    let mut cursor = Cursor::new(REFERENCE_PROGRAM);
    assert_eq!(cursor.position(), 0);
    assert_eq!(cursor.open_loops(), 0);
    let mut tape = Tape::new();
    let mut p = Printer::new(false);
    let mut out = Vec::new();
    let mut calls = 0;
    while cursor.run(&mut tape, &mut p, 7) == Status::OutOfFuel {
        out.extend(p.take_output());
        calls += 1;
    }
    out.extend(p.take_output());
    assert_eq!(calls, 906 / 7);
    assert_eq!(out, b"Hello World!\n".to_vec());
    assert_eq!(cursor.open_loops(), 0);
    assert_eq!(cursor.position(), REFERENCE_PROGRAM.len());
}
