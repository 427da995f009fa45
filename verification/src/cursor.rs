//! The cursor interpreter: runs a program from its text, with no tree.
//!
//! It keeps a position in the text and a stack with one entry per loop that
//! is being run: the position of the first character of that loop's body.

use crate::machine::{apply, blocked, State, Status};
use crate::printer::Printer;
use crate::syntax::{chars_of, leaf};
use crate::tape::Tape;
use vstd::prelude::*;

verus! {

/// Where the interpreter is in the text: the position of the next character
/// and the saved positions of the open loops, innermost last.
#[verifier::ext_equal]
pub struct Place {
    pub pc: nat,
    pub stack: Seq<nat>,
}

impl Place {
    /// The beginning of the text, with no loop open.
    pub open spec fn start() -> Place {
        Place { pc: 0, stack: Seq::empty() }
    }
}

/// Where a run of the text stopped: the place, the state, and the reason.
#[verifier::ext_equal]
pub struct Outcome {
    pub place: Place,
    pub state: State,
    pub status: Status,
}

/// Whether a character is one of the seven commands.
pub open spec fn is_command(c: char) -> bool {
    c == '[' || c == ']' || leaf(c) is Some
}

/// The position behind the `]` that brings the nesting depth down to zero,
/// reading from `pc` at depth `depth`; the end of the text if there is no
/// such `]`.  Only brackets count.
pub open spec fn skip_from(code: Seq<char>, pc: nat, depth: nat) -> nat
    decreases code.len() - pc,
{
    if pc >= code.len() {
        pc
    } else if code[pc as int] == '[' {
        skip_from(code, pc + 1, depth + 1)
    } else if code[pc as int] == ']' {
        if depth <= 1 {
            pc + 1
        } else {
            skip_from(code, pc + 1, (depth - 1) as nat)
        }
    } else {
        skip_from(code, pc + 1, depth)
    }
}

/// Runs the text `code` from place `at` and state `s` for at most `fuel`
/// steps.
///
/// Comments are passed over and cost nothing.  Each command is one step:
/// - a plain command acts on the state;
/// - `[` enters the loop if the cell under the cursor is greater than zero,
///   saving the position behind the `[`, and else skips to behind the
///   matching `]`;
/// - `]` goes back to the saved position if the cell is greater than zero,
///   and else forgets the saved position and goes on.
/// A `]` met while no loop is open stops the run at once.  The end of the
/// text ends the run, whether loops are open or not.
pub open spec fn run_from(code: Seq<char>, at: Place, s: State, fuel: nat) -> Outcome
    decreases fuel, code.len() - at.pc,
{
    if at.pc >= code.len() {
        Outcome { place: at, state: s, status: Status::Done }
    } else {
        let c = code[at.pc as int];
        let on = Place { pc: at.pc + 1, stack: at.stack };
        if c == ']' && at.stack.len() == 0 {
            Outcome { place: at, state: s, status: Status::UnmatchedClose }
        } else if !is_command(c) {
            run_from(code, on, s, fuel)
        } else if fuel == 0 {
            Outcome { place: at, state: s, status: Status::OutOfFuel }
        } else if c == '[' {
            if s.tape.read() > 0 {
                let inside = Place { pc: at.pc + 1, stack: at.stack.push(at.pc + 1) };
                run_from(code, inside, s, (fuel - 1) as nat)
            } else {
                let behind = Place { pc: skip_from(code, at.pc + 1, 1), stack: at.stack };
                run_from(code, behind, s, (fuel - 1) as nat)
            }
        } else if c == ']' {
            if s.tape.read() > 0 {
                let again = Place { pc: at.stack.last(), stack: at.stack };
                run_from(code, again, s, (fuel - 1) as nat)
            } else {
                let out = Place { pc: at.pc + 1, stack: at.stack.drop_last() };
                run_from(code, out, s, (fuel - 1) as nat)
            }
        } else {
            let i = leaf(c)->0;
            match blocked(i, s) {
                Some(fault) => Outcome { place: at, state: s, status: fault },
                None => run_from(code, on, apply(i, s), (fuel - 1) as nat),
            }
        }
    }
}

/// A run may be made in two parts: running out of fuel loses nothing.  With
/// `f1 + f2` steps a run comes to where `f1` steps and then, if those did not
/// suffice, `f2` more steps from there bring it.
pub proof fn lemma_run_in_parts(code: Seq<char>, at: Place, s: State, f1: nat, f2: nat)
    ensures
        ({
            let o = run_from(code, at, s, f1);
            run_from(code, at, s, f1 + f2) == if o.status == Status::OutOfFuel {
                run_from(code, o.place, o.state, f2)
            } else {
                o
            }
        }),
    decreases f1, code.len() - at.pc,
{
    if at.pc < code.len() {
        let c = code[at.pc as int];
        let on = Place { pc: at.pc + 1, stack: at.stack };
        let less = (f1 - 1) as nat;
        if c == ']' && at.stack.len() == 0 {
        } else if !is_command(c) {
            lemma_run_in_parts(code, on, s, f1, f2);
        } else if f1 == 0 {
        } else {
            assert(less + f2 == (f1 + f2 - 1) as nat);
            if c == '[' {
                if s.tape.read() > 0 {
                    let inside = Place { pc: at.pc + 1, stack: at.stack.push(at.pc + 1) };
                    lemma_run_in_parts(code, inside, s, less, f2);
                } else {
                    let behind = Place { pc: skip_from(code, at.pc + 1, 1), stack: at.stack };
                    lemma_run_in_parts(code, behind, s, less, f2);
                }
            } else if c == ']' {
                if s.tape.read() > 0 {
                    let again = Place { pc: at.stack.last(), stack: at.stack };
                    lemma_run_in_parts(code, again, s, less, f2);
                } else {
                    let out = Place { pc: at.pc + 1, stack: at.stack.drop_last() };
                    lemma_run_in_parts(code, out, s, less, f2);
                }
            } else {
                let i = leaf(c)->0;
                if blocked(i, s) is None {
                    lemma_run_in_parts(code, on, apply(i, s), less, f2);
                }
            }
        }
    }
}

/// The saved positions as mathematical integers.
spec fn positions(stack: Seq<usize>) -> Seq<nat> {
    stack.map_values(|x: usize| x as nat)
}

/// A text being run: the text, the position of the next character, and the
/// saved positions of the open loops.
pub struct Cursor {
    code: Vec<char>,
    pc: usize,
    stack: Vec<usize>,
}

impl Cursor {
    /// The text that is run.
    pub closed spec fn code(&self) -> Seq<char> {
        self.code@
    }

    /// Where in the text the run stands.
    pub closed spec fn place(&self) -> Place {
        Place { pc: self.pc as nat, stack: positions(self.stack@) }
    }

    /// Ready to run `code` from its beginning.
    pub fn new(code: &str) -> (cursor: Cursor)
        ensures
            cursor.code() == code@,
            cursor.place() == Place::start(),
    {
        let cursor = Cursor { code: chars_of(code), pc: 0, stack: Vec::new() };
        assert(cursor.place() =~= Place::start());
        cursor
    }

    /// The position of the next character.
    pub fn position(&self) -> (pc: usize)
        ensures
            pc == self.place().pc,
    {
        self.pc
    }

    /// How many loops are open.
    pub fn open_loops(&self) -> (n: usize)
        ensures
            n == self.place().stack.len(),
    {
        self.stack.len()
    }

    /// The position behind the `]` that closes the loop opened by the `[` at
    /// `open`, or the end of the text.
    fn skip(&self, open: usize) -> (to: usize)
        requires
            open < self.code().len(),
        ensures
            to == skip_from(self.code(), (open + 1) as nat, 1),
    {
        let end = self.code.len();
        let mut q: usize = open + 1;
        let mut depth: usize = 1;
        while depth > 0 && q < end
            invariant
                end == self.code@.len(),
                open < q <= end,
                depth <= q - open,
                skip_from(self.code@, (open + 1) as nat, 1) == if depth == 0 {
                    q as nat
                } else {
                    skip_from(self.code@, q as nat, depth as nat)
                },
            decreases self.code@.len() - q,
        {
            let c = self.code[q];
            q = q + 1;
            if c == '[' {
                depth = depth + 1;
            } else if c == ']' {
                depth = depth - 1;
            }
        }
        q
    }

    /// Goes on with the run for at most `fuel` steps.  After
    /// [`Status::OutOfFuel`] another call takes up where this one stopped.
    pub fn run(&mut self, tape: &mut Tape, p: &mut Printer, fuel: u64) -> (status: Status)
        ensures
            final(self).code() == old(self).code(),
            ({
                let o = run_from(
                    old(self).code(),
                    old(self).place(),
                    State::new(old(tape)@, old(p)@),
                    fuel as nat,
                );
                &&& o.status == status
                &&& o.place == final(self).place()
                &&& o.state == State::new(final(tape)@, final(p)@)
            }),
    {
        let ghost code = self.code@;
        let ghost goal = run_from(code, self.place(), State::new(tape@, p@), fuel as nat);
        let mut left: u64 = fuel;
        while self.pc < self.code.len()
            invariant
                self.code@ == code,
                code == old(self).code(),
                goal == run_from(
                    code,
                    old(self).place(),
                    State::new(old(tape)@, old(p)@),
                    fuel as nat,
                ),
                goal == run_from(code, self.place(), State::new(tape@, p@), left as nat),
            decreases left, code.len() - self.pc,
        {
            let c = self.code[self.pc];
            let ghost at = self.place();
            if c == ']' && self.stack.len() == 0 {
                return Status::UnmatchedClose;
            }
            let plain = c == '-' || c == '+' || c == '<' || c == '>' || c == '.';
            if !(plain || c == '[' || c == ']') {
                self.pc = self.pc + 1;
                continue ;
            }
            if left == 0 {
                return Status::OutOfFuel;
            }
            if c == '[' {
                if tape.get() > 0 {
                    self.stack.push(self.pc + 1);
                    self.pc = self.pc + 1;
                    assert(self.place().stack =~= at.stack.push(at.pc + 1));
                } else {
                    self.pc = self.skip(self.pc);
                }
            } else if c == ']' {
                if tape.get() > 0 {
                    self.pc = self.stack[self.stack.len() - 1];
                } else {
                    self.stack.pop();
                    self.pc = self.pc + 1;
                    assert(self.place().stack =~= at.stack.drop_last());
                }
            } else if c == '-' {
                tape.dec();
                self.pc = self.pc + 1;
            } else if c == '+' {
                tape.inc();
                self.pc = self.pc + 1;
            } else if c == '<' {
                if tape.cursor() == 0 {
                    return Status::CursorUnderflow;
                }
                tape.prev();
                self.pc = self.pc + 1;
            } else if c == '>' {
                if !tape.can_advance() {
                    return Status::TapeExhausted;
                }
                tape.next();
                self.pc = self.pc + 1;
            } else {
                p.print(tape.get());
                self.pc = self.pc + 1;
            }
            left = left - 1;
        }
        Status::Done
    }
}

/// Runs a program from its text on the given tape, for at most `fuel` steps.
pub fn run(program: &str, tape: &mut Tape, p: &mut Printer, fuel: u64) -> (status: Status)
    ensures
        ({
            let o = run_from(
                program@,
                Place::start(),
                State::new(old(tape)@, old(p)@),
                fuel as nat,
            );
            o.status == status && o.state == State::new(final(tape)@, final(p)@)
        }),
{
    let mut cursor = Cursor::new(program);
    cursor.run(tape, p, fuel)
}

} // verus!
