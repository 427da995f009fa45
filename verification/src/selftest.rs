//! A guard for the engine itself: a fixed program whose output is known is
//! run in quiet mode, and its checksum is held against the checksum of the
//! text it should have printed.

use crate::machine::{State, Status};
use crate::printer::{Printer, PrinterView};
use crate::syntax::{chars_of, program_of};
use crate::tape::TapeView;
use crate::tree::{eval, Program};
use vstd::prelude::*;

verus! {

/// The program that is run.
pub const REFERENCE_PROGRAM: &'static str =
    "++++++++[>++++[>++>+++>+++>+<<<<-]>+>+>->>+[<]<-]>>.>---.+++++++..+++.>>.<-.<.+++.------.--------.>>+.>++.";

/// What the program prints.
pub const REFERENCE_OUTPUT: &'static str = "Hello World!\n";

/// More steps than the program takes.
pub const REFERENCE_FUEL: u64 = 100000;

/// The code points of a text, as the values that would be emitted for it.
pub open spec fn code_points(text: Seq<char>) -> Seq<i32> {
    text.map_values(|c: char| c as i32)
}

/// The checksum of a text: that of a quiet printer which was given each
/// character's code point.
pub open spec fn text_checksum(text: Seq<char>) -> int {
    PrinterView::fresh(true).emit_all(code_points(text)).checksum()
}

/// How a quiet run of a program text on a blank tape ends.
pub open spec fn quiet_run(code: Seq<char>, fuel: nat) -> crate::tree::Outcome {
    eval(program_of(code), State::new(TapeView::blank(), PrinterView::fresh(true)), fuel)
}

/// The code point of a character.
fn code_point(c: char) -> (v: i32)
    ensures
        v == c as i32,
{
    let point = c as u32;
    point as i32
}

/// Computes the checksum of a text.
pub fn checksum_of_text(text: &str) -> (sum: i32)
    ensures
        sum == text_checksum(text@),
{
    let chars = chars_of(text);
    let mut p = Printer::new(true);
    let mut i: usize = 0;
    assert(code_points(chars@).take(0) =~= Seq::<i32>::empty());
    while i < chars.len()
        invariant
            i <= chars.len(),
            p@ == PrinterView::fresh(true).emit_all(code_points(chars@).take(i as int)),
        decreases chars.len() - i,
    {
        let c = chars[i];
        p.print(code_point(c));
        proof {
            let points = code_points(chars@);
            assert(points.take(i + 1).drop_last() =~= points.take(i as int));
            assert(points.take(i + 1).last() == c as i32);
        }
        i = i + 1;
    }
    assert(code_points(chars@).take(chars.len() as int) =~= code_points(chars@));
    p.get_checksum()
}

/// Runs the reference program and compares checksums.  `Ok` if the program
/// ran to its end and its checksum is that of the reference output;
/// otherwise both checksums, the program's first.
pub fn verify() -> (r: Result<(), (i32, i32)>)
    ensures
        ({
            let run = quiet_run(REFERENCE_PROGRAM@, REFERENCE_FUEL as nat);
            let left = run.state.printer.checksum();
            let right = text_checksum(REFERENCE_OUTPUT@);
            &&& r is Ok <==> run.status == Status::Done && left == right
            &&& r is Err ==> r->Err_0 == (left as i32, right as i32)
        }),
{
    let mut p = Printer::new(true);
    let status = Program::new(REFERENCE_PROGRAM).run(&mut p, REFERENCE_FUEL);
    let left = p.get_checksum();
    let right = checksum_of_text(REFERENCE_OUTPUT);
    if left == right && status == Status::Done {
        Ok(())
    } else {
        Err((left, right))
    }
}

} // verus!
