//! The two interpreters do the same.
//!
//! Step for step, the cursor interpreter at a place in the text and the tree
//! interpreter with the instructions that are pending at that place act
//! alike.  They part only where the text is not balanced, and there in two
//! ways that this module states exactly.

use crate::cursor::{is_command, run_from, skip_from, Outcome, Place};
use crate::machine::{apply, blocked, State, Status};
use crate::syntax::{
    balanced, depth, leaf, lemma_parse_bounds, parse_from, program_of, Instr,
};
use crate::tree::eval;
use vstd::prelude::*;

verus! {

/// What the tree interpreter has still to run, seen from the bracket level
/// that ends at `next`, when the loops whose bodies begin at the positions in
/// `stack` are open: for each open loop, innermost first, the loop itself,
/// which is tested again when its body is through, and then what follows it
/// on the level above.
spec fn outer(code: Seq<char>, next: nat, stack: Seq<nat>) -> Seq<Instr>
    decreases stack.len(),
{
    if stack.len() == 0 {
        Seq::empty()
    } else {
        let up = parse_from(code, next);
        seq![Instr::Loop(parse_from(code, stack.last()).ops)] + up.ops + outer(
            code,
            up.next,
            stack.drop_last(),
        )
    }
}

/// What the tree interpreter has still to run when the cursor interpreter
/// stands at `at`: the rest of the current level, then the open loops.
spec fn pending(code: Seq<char>, at: Place) -> Seq<Instr> {
    let level = parse_from(code, at.pc);
    level.ops + outer(code, level.next, at.stack)
}

/// Each saved position begins a loop body that ends where the level inside
/// it ends: the innermost at `next`, the others where the level above ends.
spec fn chained(code: Seq<char>, next: nat, stack: Seq<nat>) -> bool
    decreases stack.len(),
{
    stack.len() == 0 || (parse_from(code, stack.last()).next == next && chained(
        code,
        parse_from(code, next).next,
        stack.drop_last(),
    ))
}

/// The saved positions of a place fit the position it stands at.
spec fn linked(code: Seq<char>, at: Place) -> bool {
    chained(code, parse_from(code, at.pc).next, at.stack)
}

/// How the outcomes of the two interpreters relate after the same number of
/// steps on the same text.
///
/// Unless the cursor interpreter met the end of the text with a loop still
/// open, both have reached the same state, and stopped for the same reason;
/// only that where the cursor interpreter reports a `]` that closes nothing,
/// the tree interpreter, whose program ends at that `]`, reports the end of
/// the program.
pub open spec fn agree(cursor: Outcome, tree: crate::tree::Outcome) -> bool {
    ||| cursor.status == Status::Done && cursor.place.stack.len() > 0
    ||| {
        &&& tree.state == cursor.state
        &&& tree.status == if cursor.status == Status::UnmatchedClose {
            Status::Done
        } else {
            cursor.status
        }
    }
}

/// Skipping a loop by counting brackets ends where parsing its body ends.
proof fn lemma_skip_is_parse(code: Seq<char>, pc: nat, depth: nat)
    requires
        depth >= 1,
    ensures
        skip_from(code, pc, depth) == if depth == 1 || !parse_from(code, pc).closed {
            parse_from(code, pc).next
        } else {
            skip_from(code, parse_from(code, pc).next, (depth - 1) as nat)
        },
    decreases code.len() - pc,
{
    if pc < code.len() {
        let c = code[pc as int];
        if c == ']' {
        } else if c == '[' {
            let body = parse_from(code, pc + 1);
            let rest = parse_from(code, body.next);
            lemma_parse_bounds(code, pc + 1);
            lemma_skip_is_parse(code, pc + 1, depth + 1);
            assert(pc < body.next <= code.len());
            assert(parse_from(code, pc).next == rest.next);
            assert(parse_from(code, pc).closed == rest.closed);
            if body.closed {
                lemma_skip_is_parse(code, body.next, depth);
            } else {
                assert(body.next == code.len());
                assert(rest.next == code.len() && !rest.closed);
            }
        } else {
            lemma_skip_is_parse(code, pc + 1, depth);
        }
    }
}

/// From a place whose saved positions fit, the two interpreters agree.
proof fn lemma_agree_from(code: Seq<char>, at: Place, s: State, fuel: nat)
    requires
        linked(code, at),
    ensures
        agree(run_from(code, at, s, fuel), eval(pending(code, at), s, fuel)),
    decreases fuel, code.len() - at.pc,
{
    let level = parse_from(code, at.pc);
    let todo = pending(code, at);
    let tail = outer(code, level.next, at.stack);
    if at.pc >= code.len() {
        if at.stack.len() == 0 {
            assert(todo =~= Seq::<Instr>::empty());
        }
    } else {
        let c = code[at.pc as int];
        let on = Place { pc: at.pc + 1, stack: at.stack };
        lemma_parse_bounds(code, at.pc + 1);
        if c == ']' && at.stack.len() == 0 {
            assert(todo =~= Seq::<Instr>::empty());
        } else if !is_command(c) {
            lemma_agree_from(code, on, s, fuel);
        } else if c == '[' {
            let body = parse_from(code, at.pc + 1);
            let rest = parse_from(code, body.next);
            assert(todo[0] == Instr::Loop(body.ops));
            if fuel == 0 {
            } else if s.tape.read() > 0 {
                let inside = Place { pc: at.pc + 1, stack: at.stack.push(at.pc + 1) };
                assert(inside.stack.drop_last() =~= at.stack);
                assert(pending(code, inside) =~= body.ops + todo);
                lemma_agree_from(code, inside, s, (fuel - 1) as nat);
            } else {
                lemma_skip_is_parse(code, at.pc + 1, 1);
                let behind = Place { pc: body.next, stack: at.stack };
                assert(pending(code, behind) =~= todo.drop_first());
                lemma_agree_from(code, behind, s, (fuel - 1) as nat);
            }
        } else if c == ']' {
            let top = at.stack.last();
            let up = parse_from(code, at.pc + 1);
            assert(level.ops =~= Seq::<Instr>::empty());
            assert(todo[0] == Instr::Loop(parse_from(code, top).ops));
            if fuel == 0 {
            } else if s.tape.read() > 0 {
                let again = Place { pc: top, stack: at.stack };
                assert(pending(code, again) =~= parse_from(code, top).ops + todo);
                lemma_agree_from(code, again, s, (fuel - 1) as nat);
            } else {
                let out = Place { pc: at.pc + 1, stack: at.stack.drop_last() };
                assert(pending(code, out) =~= todo.drop_first());
                lemma_agree_from(code, out, s, (fuel - 1) as nat);
            }
        } else {
            let i = leaf(c)->0;
            assert(todo[0] == i);
            if fuel == 0 {
            } else if blocked(i, s) is None {
                assert(pending(code, on) =~= todo.drop_first());
                lemma_agree_from(code, on, apply(i, s), (fuel - 1) as nat);
            }
        }
    }
}

/// On every text, from every state and for every number of steps, the cursor
/// interpreter that starts at the beginning of the text and the tree
/// interpreter that runs the parsed text agree.
pub proof fn lemma_interpreters_agree(code: Seq<char>, s: State, fuel: nat)
    ensures
        agree(run_from(code, Place::start(), s, fuel), eval(program_of(code), s, fuel)),
{
    assert(pending(code, Place::start()) =~= program_of(code));
    lemma_agree_from(code, Place::start(), s, fuel);
}

/// In a balanced text, a place at which the number of open loops is the
/// bracket depth of the position, and each saved position lies just behind
/// the `[` that opened its loop.
spec fn nested(code: Seq<char>, at: Place) -> bool {
    &&& at.pc <= code.len()
    &&& at.stack.len() == depth(code, at.pc)
    &&& forall|j: int|
        0 <= j < at.stack.len() ==> at.stack[j] <= code.len() && depth(code, #[trigger] at.stack[j])
            == j + 1
}

/// In a balanced text, skipping from inside `d` open brackets ends inside the
/// text, `d` levels further out.
proof fn lemma_skip_depth(code: Seq<char>, pc: nat, d: nat)
    requires
        balanced(code),
        pc <= code.len(),
        1 <= d <= depth(code, pc),
    ensures
        skip_from(code, pc, d) <= code.len(),
        depth(code, skip_from(code, pc, d)) == depth(code, pc) - d,
    decreases code.len() - pc,
{
    if pc < code.len() {
        let c = code[pc as int];
        assert(depth(code, pc + 1) == depth(code, pc) + if c == '[' {
            1int
        } else if c == ']' {
            -1int
        } else {
            0int
        });
        if c == '[' {
            lemma_skip_depth(code, pc + 1, d + 1);
        } else if c == ']' {
            if d > 1 {
                lemma_skip_depth(code, pc + 1, (d - 1) as nat);
            }
        } else {
            lemma_skip_depth(code, pc + 1, d);
        }
    }
}

/// On a balanced text the cursor interpreter never meets a `]` that closes
/// nothing, and has no loop open when it reaches the end.
proof fn lemma_balanced_run(code: Seq<char>, at: Place, s: State, fuel: nat)
    requires
        balanced(code),
        nested(code, at),
    ensures
        run_from(code, at, s, fuel).status != Status::UnmatchedClose,
        run_from(code, at, s, fuel).status == Status::Done ==> run_from(
            code,
            at,
            s,
            fuel,
        ).place.stack.len() == 0,
    decreases fuel, code.len() - at.pc,
{
    if at.pc < code.len() {
        let c = code[at.pc as int];
        let on = Place { pc: at.pc + 1, stack: at.stack };
        assert(depth(code, at.pc + 1) == depth(code, at.pc) + if c == '[' {
            1int
        } else if c == ']' {
            -1int
        } else {
            0int
        });
        if c == ']' && at.stack.len() == 0 {
            assert(depth(code, at.pc + 1) >= 0);
        } else if !is_command(c) {
            lemma_balanced_run(code, on, s, fuel);
        } else if fuel == 0 {
        } else if c == '[' {
            if s.tape.read() > 0 {
                let inside = Place { pc: at.pc + 1, stack: at.stack.push(at.pc + 1) };
                lemma_balanced_run(code, inside, s, (fuel - 1) as nat);
            } else {
                lemma_skip_depth(code, at.pc + 1, 1);
                let behind = Place { pc: skip_from(code, at.pc + 1, 1), stack: at.stack };
                lemma_balanced_run(code, behind, s, (fuel - 1) as nat);
            }
        } else if c == ']' {
            if s.tape.read() > 0 {
                let again = Place { pc: at.stack.last(), stack: at.stack };
                lemma_balanced_run(code, again, s, (fuel - 1) as nat);
            } else {
                let out = Place { pc: at.pc + 1, stack: at.stack.drop_last() };
                lemma_balanced_run(code, out, s, (fuel - 1) as nat);
            }
        } else {
            let i = leaf(c)->0;
            if blocked(i, s) is None {
                lemma_balanced_run(code, on, apply(i, s), (fuel - 1) as nat);
            }
        }
    }
}

/// On a balanced text the two interpreters reach the same state and stop for
/// the same reason, from every state and for every number of steps; and the
/// reason is never a `]` that closes nothing.
pub proof fn lemma_balanced_agree(code: Seq<char>, s: State, fuel: nat)
    requires
        balanced(code),
    ensures
        eval(program_of(code), s, fuel).state == run_from(code, Place::start(), s, fuel).state,
        eval(program_of(code), s, fuel).status == run_from(code, Place::start(), s, fuel).status,
        run_from(code, Place::start(), s, fuel).status != Status::UnmatchedClose,
{
    lemma_interpreters_agree(code, s, fuel);
    lemma_balanced_run(code, Place::start(), s, fuel);
}

} // verus!
