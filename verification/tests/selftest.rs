use brainfuck::selftest::{checksum_of_text, verify, REFERENCE_OUTPUT, REFERENCE_PROGRAM};
use brainfuck::printer::Printer;
use brainfuck::machine::Status;
use brainfuck::tree::Program;

#[test]
fn self_test_passes() {
    assert_eq!(verify(), Ok(()));
}

#[test]
fn checksum_of_text_sums_code_points() {
    assert_eq!(checksum_of_text(""), 0);
    assert_eq!(checksum_of_text("H"), 18504);
    assert_eq!(checksum_of_text("Hello World!\n"), 42059);
    assert_eq!(checksum_of_text(REFERENCE_OUTPUT), 42059);
}

#[test]
fn checksum_of_text_takes_the_low_byte_of_wide_characters() {
    assert_eq!(checksum_of_text("\u{141}"), checksum_of_text("A"));
}

#[test]
fn reference_program_has_the_checksum_of_its_output() {
    let mut p = Printer::new(true);
    assert_eq!(Program::new(REFERENCE_PROGRAM).run(&mut p, 100000), Status::Done);
    assert_eq!(p.get_checksum(), checksum_of_text("Hello World!\n"));
}
