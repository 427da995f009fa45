//! The tree interpreter: runs the tree form of a program.

use crate::machine::{apply, blocked, State, Status};
use crate::printer::Printer;
use crate::syntax::{chars_of, lemma_loop_view, parse, program_of, view_ops, Instr, Op};
use crate::tape::{Tape, TapeView};
use vstd::prelude::*;

verus! {

/// Where a run of the tree form stopped: the instructions that were still to
/// be run, the state, the reason, and the steps that were left.
#[verifier::ext_equal]
pub struct Outcome {
    pub rest: Seq<Instr>,
    pub state: State,
    pub status: Status,
    pub left: nat,
}

/// Runs the instructions `todo`, in order, from state `s`, for at most `fuel`
/// steps.
///
/// Each plain command is one step.  A loop at the head of `todo` is tested,
/// which is one step: if the cell under the cursor is greater than zero the
/// loop's body is put in front of `todo`, with the loop itself still behind
/// it, so that the loop is tested again once the body has run; otherwise the
/// loop is dropped.  A command that cannot be carried out stops the run and
/// leaves the state as it found it.
pub open spec fn eval(todo: Seq<Instr>, s: State, fuel: nat) -> Outcome
    decreases fuel,
{
    if todo.len() == 0 {
        Outcome { rest: todo, state: s, status: Status::Done, left: fuel }
    } else if fuel == 0 {
        Outcome { rest: todo, state: s, status: Status::OutOfFuel, left: 0 }
    } else {
        match todo[0] {
            Instr::Loop(body) => if s.tape.read() > 0 {
                eval(body + todo, s, (fuel - 1) as nat)
            } else {
                eval(todo.drop_first(), s, (fuel - 1) as nat)
            },
            i => match blocked(i, s) {
                Some(fault) => Outcome { rest: todo, state: s, status: fault, left: fuel },
                None => eval(todo.drop_first(), apply(i, s), (fuel - 1) as nat),
            },
        }
    }
}

/// A run never ends with more steps than it began with, and a run that goes
/// to its end leaves nothing to be run.
pub proof fn lemma_eval_bounds(todo: Seq<Instr>, s: State, fuel: nat)
    ensures
        eval(todo, s, fuel).left <= fuel,
        eval(todo, s, fuel).status == Status::Done <==> eval(todo, s, fuel).rest.len() == 0,
    decreases fuel,
{
    if todo.len() > 0 && fuel > 0 {
        match todo[0] {
            Instr::Loop(body) => {
                if s.tape.read() > 0 {
                    lemma_eval_bounds(body + todo, s, (fuel - 1) as nat);
                } else {
                    lemma_eval_bounds(todo.drop_first(), s, (fuel - 1) as nat);
                }
            },
            i => {
                if blocked(i, s) is None {
                    lemma_eval_bounds(todo.drop_first(), apply(i, s), (fuel - 1) as nat);
                }
            },
        }
    }
}

/// Instructions run as a unit: running `first` followed by `then` is running
/// `first` to its end and `then` from where that leaves state and steps.  If
/// `first` does not reach its end, nothing of `then` is run.
pub proof fn lemma_eval_append(first: Seq<Instr>, then: Seq<Instr>, s: State, fuel: nat)
    ensures
        ({
            let o = eval(first, s, fuel);
            eval(first + then, s, fuel) == if o.status == Status::Done {
                eval(then, o.state, o.left)
            } else {
                Outcome { rest: o.rest + then, ..o }
            }
        }),
    decreases fuel,
{
    let all = first + then;
    if first.len() == 0 {
        assert(all =~= then);
    } else if fuel == 0 {
    } else {
        assert(all[0] == first[0]);
        assert(all.drop_first() =~= first.drop_first() + then);
        match first[0] {
            Instr::Loop(body) => {
                if s.tape.read() > 0 {
                    assert(body + all =~= (body + first) + then);
                    lemma_eval_append(body + first, then, s, (fuel - 1) as nat);
                } else {
                    lemma_eval_append(first.drop_first(), then, s, (fuel - 1) as nat);
                }
            },
            i => {
                if blocked(i, s) is None {
                    lemma_eval_append(first.drop_first(), then, apply(i, s), (fuel - 1) as nat);
                }
            },
        }
    }
}

/// A run may be made in two parts: running out of fuel loses nothing.  With
/// `f1 + f2` steps a run comes to where `f1` steps and then, if those did not
/// suffice, `f2` more steps from there bring it.
pub proof fn lemma_eval_in_parts(todo: Seq<Instr>, s: State, f1: nat, f2: nat)
    ensures
        ({
            let o = eval(todo, s, f1);
            eval(todo, s, f1 + f2) == if o.status == Status::OutOfFuel {
                eval(o.rest, o.state, f2)
            } else {
                Outcome { left: o.left + f2, ..o }
            }
        }),
    decreases f1,
{
    if todo.len() > 0 && f1 > 0 {
        let less = (f1 - 1) as nat;
        assert(less + f2 == (f1 + f2 - 1) as nat);
        match todo[0] {
            Instr::Loop(body) => {
                if s.tape.read() > 0 {
                    lemma_eval_in_parts(body + todo, s, less, f2);
                } else {
                    lemma_eval_in_parts(todo.drop_first(), s, less, f2);
                }
            },
            i => {
                if blocked(i, s) is None {
                    lemma_eval_in_parts(todo.drop_first(), apply(i, s), less, f2);
                }
            },
        }
    }
}

/// A loop that is reached with a cell not greater than zero is passed over
/// in one step: its body is not run at all.
pub proof fn lemma_loop_passed_over(body: Seq<Instr>, then: Seq<Instr>, s: State, fuel: nat)
    requires
        s.tape.read() <= 0,
        fuel > 0,
    ensures
        eval(seq![Instr::Loop(body)] + then, s, fuel) == eval(then, s, (fuel - 1) as nat),
{
    let todo = seq![Instr::Loop(body)] + then;
    assert(todo[0] == Instr::Loop(body));
    assert(todo.drop_first() =~= then);
}

/// A loop that is reached with a cell greater than zero runs its body once,
/// as a unit, and is then reached again: the cell is tested before each pass
/// and at no other time.  If the pass does not reach the end of the body, the
/// run stops where the pass stopped.
pub proof fn lemma_loop_pass(body: Seq<Instr>, then: Seq<Instr>, s: State, fuel: nat)
    requires
        s.tape.read() > 0,
        fuel > 0,
    ensures
        ({
            let again = seq![Instr::Loop(body)] + then;
            let pass = eval(body, s, (fuel - 1) as nat);
            eval(again, s, fuel) == if pass.status == Status::Done {
                eval(again, pass.state, pass.left)
            } else {
                Outcome { rest: pass.rest + again, ..pass }
            }
        }),
{
    let again = seq![Instr::Loop(body)] + then;
    assert(again[0] == Instr::Loop(body));
    lemma_eval_append(body, again, s, (fuel - 1) as nat);
}

/// Runs one block of the tree, loops and all, and says how many steps are
/// left.
fn run_block(ops: &[Op], tape: &mut Tape, p: &mut Printer, fuel: u64) -> (r: (Status, u64))
    ensures
        ({
            let o = eval(view_ops(ops@), State::new(old(tape)@, old(p)@), fuel as nat);
            &&& o.status == r.0
            &&& o.left == r.1
            &&& o.state == State::new(final(tape)@, final(p)@)
        }),
    decreases fuel,
{
    let ghost block = view_ops(ops@);
    let ghost goal = eval(block, State::new(tape@, p@), fuel as nat);
    let mut left: u64 = fuel;
    let mut i: usize = 0;
    assert(block.skip(0) =~= block);
    while i < ops.len()
        invariant
            i <= ops.len(),
            left <= fuel,
            block == view_ops(ops@),
            goal == eval(block, State::new(old(tape)@, old(p)@), fuel as nat),
            goal == eval(block.skip(i as int), State::new(tape@, p@), left as nat),
        decreases ops.len() - i,
    {
        let ghost todo = block.skip(i as int);
        assert(todo[0] == block[i as int]);
        assert(todo.drop_first() =~= block.skip(i + 1));
        if left == 0 {
            return (Status::OutOfFuel, 0);
        }
        match &ops[i] {
            Op::Dec => {
                tape.dec();
                left = left - 1;
            },
            Op::Inc => {
                tape.inc();
                left = left - 1;
            },
            Op::Prev => {
                if tape.cursor() == 0 {
                    return (Status::CursorUnderflow, left);
                }
                tape.prev();
                left = left - 1;
            },
            Op::Next => {
                if !tape.can_advance() {
                    return (Status::TapeExhausted, left);
                }
                tape.next();
                left = left - 1;
            },
            Op::Print => {
                p.print(tape.get());
                left = left - 1;
            },
            Op::Loop(body) => {
                proof {
                    lemma_loop_view(*body);
                }
                let mut looping = true;
                while looping
                    invariant
                        i < ops.len(),
                        left <= fuel,
                        block == view_ops(ops@),
                        todo == block.skip(i as int),
                        todo[0] == Instr::Loop(view_ops(body@)),
                        todo.drop_first() == block.skip(i + 1),
                        goal == eval(block, State::new(old(tape)@, old(p)@), fuel as nat),
                        looping ==> goal == eval(todo, State::new(tape@, p@), left as nat),
                        !looping ==> goal == eval(
                            block.skip(i + 1),
                            State::new(tape@, p@),
                            left as nat,
                        ),
                    decreases left,
                {
                    if left == 0 {
                        return (Status::OutOfFuel, 0);
                    }
                    left = left - 1;
                    if tape.get() > 0 {
                        proof {
                            lemma_eval_append(
                                view_ops(body@),
                                todo,
                                State::new(tape@, p@),
                                left as nat,
                            );
                            lemma_eval_bounds(view_ops(body@), State::new(tape@, p@), left as nat);
                        }
                        let (status, after) = run_block(body.as_slice(), tape, p, left);
                        if status != Status::Done {
                            return (status, after);
                        }
                        left = after;
                    } else {
                        looping = false;
                    }
                }
            },
        }
        i = i + 1;
    }
    (Status::Done, left)
}

/// Runs a program in tree form on the given tape for at most `fuel` steps,
/// and hands every value it emits to the printer.  Where the run stops, and
/// why, is what [`eval`] says.
pub fn run(program: &[Op], tape: &mut Tape, p: &mut Printer, fuel: u64) -> (status: Status)
    ensures
        ({
            let o = eval(view_ops(program@), State::new(old(tape)@, old(p)@), fuel as nat);
            o.status == status && o.state == State::new(final(tape)@, final(p)@)
        }),
{
    let (status, _) = run_block(program, tape, p, fuel);
    status
}

/// A program in tree form, parsed once and run as often as wanted.
pub struct Program {
    ops: Vec<Op>,
}

impl View for Program {
    type V = Seq<Instr>;

    closed spec fn view(&self) -> Seq<Instr> {
        view_ops(self.ops@)
    }
}

impl Program {
    /// Parses a text.  Every text is a program: comments are skipped, a `[`
    /// that is never closed loops over all that follows it, and a `]` that
    /// closes nothing ends the program.
    pub fn new(code: &str) -> (program: Program)
        ensures
            program@ == program_of(code@),
    {
        let chars = chars_of(code);
        let mut pos: usize = 0;
        let ops = parse(chars.as_slice(), &mut pos);
        Program { ops }
    }

    /// The instructions of the program.
    pub fn ops(&self) -> (ops: &[Op])
        ensures
            view_ops(ops@) == self@,
    {
        self.ops.as_slice()
    }

    /// Runs the program on a blank tape for at most `fuel` steps.
    pub fn run(&self, p: &mut Printer, fuel: u64) -> (status: Status)
        ensures
            ({
                let o = eval(self@, State::new(TapeView::blank(), old(p)@), fuel as nat);
                o.status == status && o.state.printer == final(p)@
            }),
    {
        let mut tape = Tape::new();
        run(self.ops.as_slice(), &mut tape, p, fuel)
    }
}

/// One block of a program that is being run, and how far the run has come
/// in it.
struct Frame<'a> {
    ops: &'a [Op],
    at: usize,
}

/// What is left to run of one block.
spec fn frame_todo(f: Frame) -> Seq<Instr> {
    if f.at <= f.ops@.len() {
        view_ops(f.ops@).skip(f.at as int)
    } else {
        Seq::empty()
    }
}

/// What is left to run of a stack of blocks, the innermost block last: the
/// rest of the innermost block first.
spec fn frames_todo(frames: Seq<Frame>) -> Seq<Instr>
    decreases frames.len(),
{
    if frames.len() == 0 {
        Seq::empty()
    } else {
        frame_todo(frames.last()) + frames_todo(frames.drop_last())
    }
}

/// A run of the tree form that can stop and go on: it keeps the blocks it is
/// in on a stack of its own, so it can hand control back after any step, and
/// nests as deep as memory allows.
pub struct Walker<'a> {
    frames: Vec<Frame<'a>>,
}

impl<'a> Walker<'a> {
    /// The instructions that are still to be run.
    pub closed spec fn todo(&self) -> Seq<Instr> {
        frames_todo(self.frames@)
    }

    /// Ready to run `program` from its first instruction.
    pub fn new(program: &'a [Op]) -> (walker: Walker<'a>)
        ensures
            walker.todo() == view_ops(program@),
    {
        let mut frames: Vec<Frame<'a>> = Vec::new();
        frames.push(Frame { ops: program, at: 0 });
        proof {
            assert(frames@.drop_last() =~= Seq::<Frame>::empty());
            assert(view_ops(program@).skip(0) =~= view_ops(program@));
            assert(frames_todo(frames@.drop_last()) =~= Seq::<Instr>::empty());
            assert(frames_todo(frames@) =~= view_ops(program@));
        }
        Walker { frames }
    }

    /// Moves the innermost block on by one instruction.
    fn advance(&mut self)
        requires
            old(self).frames@.len() > 0,
            old(self).frames@.last().at < old(self).frames@.last().ops@.len(),
        ensures
            final(self).todo() == old(self).todo().drop_first(),
            final(self).frames@.len() == old(self).frames@.len(),
    {
        let ghost below = self.frames@.drop_last();
        let top = self.frames.pop().unwrap();
        assert(self.frames@ =~= below);
        let len = top.ops.len();
        assert(top.at < len);
        self.frames.push(Frame { ops: top.ops, at: top.at + 1 });
        proof {
            assert(self.frames@.drop_last() =~= below);
            let block = view_ops(top.ops@);
            assert(block.skip(top.at as int).drop_first() =~= block.skip(top.at + 1));
            assert(self.todo() =~= old(self).todo().drop_first());
        }
    }

    /// Goes on with the run for at most `fuel` steps.  After
    /// [`Status::OutOfFuel`] another call takes up where this one stopped.
    pub fn run(&mut self, tape: &mut Tape, p: &mut Printer, fuel: u64) -> (status: Status)
        ensures
            ({
                let o = eval(old(self).todo(), State::new(old(tape)@, old(p)@), fuel as nat);
                &&& o.status == status
                &&& o.rest == final(self).todo()
                &&& o.state == State::new(final(tape)@, final(p)@)
            }),
    {
        let ghost goal = eval(self.todo(), State::new(tape@, p@), fuel as nat);
        let mut left: u64 = fuel;
        loop
            invariant
                goal == eval(old(self).todo(), State::new(old(tape)@, old(p)@), fuel as nat),
                goal == eval(self.todo(), State::new(tape@, p@), left as nat),
            decreases left, self.frames@.len(),
        {
            let n = self.frames.len();
            if n == 0 {
                return Status::Done;
            }
            let block: &'a [Op] = self.frames[n - 1].ops;
            let at = self.frames[n - 1].at;
            if at >= block.len() {
                let ghost below = self.frames@.drop_last();
                assert(frame_todo(self.frames@.last()) =~= Seq::<Instr>::empty());
                assert(self.todo() =~= frames_todo(below));
                self.frames.pop();
                assert(self.frames@ =~= below);
                continue ;
            }
            proof {
                let rest = view_ops(block@).skip(at as int);
                assert(rest[0] == block@[at as int]@);
                assert(self.todo()[0] == block@[at as int]@);
            }
            if left == 0 {
                return Status::OutOfFuel;
            }
            match &block[at] {
                Op::Dec => {
                    tape.dec();
                    self.advance();
                },
                Op::Inc => {
                    tape.inc();
                    self.advance();
                },
                Op::Prev => {
                    if tape.cursor() == 0 {
                        return Status::CursorUnderflow;
                    }
                    tape.prev();
                    self.advance();
                },
                Op::Next => {
                    if !tape.can_advance() {
                        return Status::TapeExhausted;
                    }
                    tape.next();
                    self.advance();
                },
                Op::Print => {
                    p.print(tape.get());
                    self.advance();
                },
                Op::Loop(body) => {
                    proof {
                        lemma_loop_view(*body);
                    }
                    if tape.get() > 0 {
                        let ghost before = self.frames@;
                        self.frames.push(Frame { ops: body.as_slice(), at: 0 });
                        proof {
                            assert(self.frames@.drop_last() =~= before);
                            assert(view_ops(body@).skip(0) =~= view_ops(body@));
                        }
                    } else {
                        self.advance();
                    }
                },
            }
            left = left - 1;
        }
    }
}

} // verus!
