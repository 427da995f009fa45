//! What the two interpreters share: the state that a program acts on, the
//! meaning of the five plain commands, and the ways a run can stop.

use crate::printer::PrinterView;
use crate::syntax::Instr;
use crate::tape::TapeView;
use vstd::prelude::*;

verus! {

/// Everything a program can change: the tape and the printer.
#[verifier::ext_equal]
pub struct State {
    pub tape: TapeView,
    pub printer: PrinterView,
}

impl State {
    pub open spec fn new(tape: TapeView, printer: PrinterView) -> State {
        State { tape, printer }
    }
}

/// Why a run stopped.
#[derive(Clone, Copy, Debug, PartialEq, Eq, Structural)]
pub enum Status {
    /// The program ran to its end.
    Done,
    /// The step budget was used up before the program ended.
    OutOfFuel,
    /// The program tried to move the cursor left of cell 0.
    CursorUnderflow,
    /// The program tried to move the cursor further right than this machine
    /// can address.
    TapeExhausted,
    /// The text held a `]` where no loop was open.
    UnmatchedClose,
}

/// The reason why a plain command cannot be carried out in a state, if there
/// is one.  Only the two moves can fail.
pub open spec fn blocked(i: Instr, s: State) -> Option<Status> {
    match i {
        Instr::Prev => if s.tape.pos == 0 {
            Some(Status::CursorUnderflow)
        } else {
            None
        },
        Instr::Next => if s.tape.can_advance() {
            None
        } else {
            Some(Status::TapeExhausted)
        },
        _ => None,
    }
}

/// The state after a plain command.  A loop is no plain command and leaves
/// the state as it is.
pub open spec fn apply(i: Instr, s: State) -> State {
    match i {
        Instr::Dec => State { tape: s.tape.dec(), ..s },
        Instr::Inc => State { tape: s.tape.inc(), ..s },
        Instr::Prev => State { tape: s.tape.left(), ..s },
        Instr::Next => State { tape: s.tape.right(), ..s },
        Instr::Print => State { printer: s.printer.emit(s.tape.read()), ..s },
        Instr::Loop(_) => s,
    }
}

} // verus!
