//! Program text and its tree form.
//!
//! Seven characters are commands; all others are comments.  The tree form
//! keeps the five plain commands as leaves and turns each bracket pair into
//! a loop that owns the commands between the brackets.

use vstd::prelude::*;
use vstd::std_specs::iter::IteratorSpec;

verus! {

/// One instruction of the tree form, as a mathematical value.
pub enum Instr {
    Dec,
    Inc,
    Prev,
    Next,
    Print,
    Loop(Seq<Instr>),
}

/// One instruction of the tree form, as stored.
#[derive(Debug)]
pub enum Op {
    Dec,
    Inc,
    Prev,
    Next,
    Loop(Vec<Op>),
    Print,
}

impl View for Op {
    type V = Instr;

    open spec fn view(&self) -> Instr
        decreases self,
    {
        match self {
            Op::Dec => Instr::Dec,
            Op::Inc => Instr::Inc,
            Op::Prev => Instr::Prev,
            Op::Next => Instr::Next,
            Op::Print => Instr::Print,
            Op::Loop(body) => Instr::Loop(
                Seq::new(
                    body@.len(),
                    |i: int|
                        if 0 <= i < body@.len() {
                            body@[i].view()
                        } else {
                            Instr::Dec
                        },
                ),
            ),
        }
    }
}

/// The instructions that a stored sequence stands for.
pub open spec fn view_ops(ops: Seq<Op>) -> Seq<Instr> {
    Seq::new(ops.len(), |i: int| ops[i]@)
}

/// The leaf instruction that a character stands for, if it is one of the
/// five plain commands.
pub open spec fn leaf(c: char) -> Option<Instr> {
    if c == '-' {
        Some(Instr::Dec)
    } else if c == '+' {
        Some(Instr::Inc)
    } else if c == '<' {
        Some(Instr::Prev)
    } else if c == '>' {
        Some(Instr::Next)
    } else if c == '.' {
        Some(Instr::Print)
    } else {
        None
    }
}

/// The result of parsing one bracket level: its instructions, the position
/// at which parsing goes on one level up, and whether the level was ended by
/// a `]` rather than by the end of the text.
pub struct Parsed {
    pub ops: Seq<Instr>,
    pub next: nat,
    pub closed: bool,
}

/// Parses `code` from position `pc` to the end of the bracket level that
/// `pc` lies in.
///
/// A `]` ends the level and is consumed.  A `[` opens a level of its own,
/// which becomes the body of a loop; parsing then goes on behind it.  The end
/// of the text ends every open level, so a `[` that is never closed takes
/// all that follows as its body.
///
/// The test on `body.next` always succeeds (see [`lemma_parse_bounds`]); it
/// is there to show that the definition terminates.
pub open spec fn parse_from(code: Seq<char>, pc: nat) -> Parsed
    decreases code.len() - pc,
{
    if pc >= code.len() {
        Parsed { ops: Seq::empty(), next: pc, closed: false }
    } else if code[pc as int] == ']' {
        Parsed { ops: Seq::empty(), next: pc + 1, closed: true }
    } else if code[pc as int] == '[' {
        let body = parse_from(code, pc + 1);
        if pc < body.next <= code.len() {
            let rest = parse_from(code, body.next);
            Parsed {
                ops: seq![Instr::Loop(body.ops)] + rest.ops,
                next: rest.next,
                closed: rest.closed,
            }
        } else {
            Parsed { ops: seq![Instr::Loop(body.ops)], next: body.next, closed: false }
        }
    } else {
        let rest = parse_from(code, pc + 1);
        match leaf(code[pc as int]) {
            Some(i) => Parsed { ops: seq![i] + rest.ops, next: rest.next, closed: rest.closed },
            None => rest,
        }
    }
}

/// Parsing moves forward: it never stops before the position it started at,
/// and stops behind it, within the text, when there was something to read.
/// A level is closed only if there was something to read, and a level that is
/// not closed reaches the end of the text.
pub proof fn lemma_parse_bounds(code: Seq<char>, pc: nat)
    ensures
        parse_from(code, pc).next >= pc,
        pc < code.len() ==> pc < parse_from(code, pc).next <= code.len(),
        parse_from(code, pc).closed ==> pc < code.len(),
        !parse_from(code, pc).closed ==> parse_from(code, pc).next >= code.len(),
    decreases code.len() - pc,
{
    if pc < code.len() && code[pc as int] != ']' {
        lemma_parse_bounds(code, pc + 1);
        if code[pc as int] == '[' {
            lemma_parse_bounds(code, parse_from(code, pc + 1).next);
        }
    }
}

/// A `[` that is never closed takes all that follows it as its body: the
/// loop is the last instruction of its level, and its body was parsed to the
/// end of the text.
pub proof fn lemma_unclosed_loop(code: Seq<char>, pc: nat)
    requires
        pc < code.len(),
        code[pc as int] == '[',
        !parse_from(code, pc + 1).closed,
    ensures
        parse_from(code, pc).ops == seq![Instr::Loop(parse_from(code, pc + 1).ops)],
        parse_from(code, pc + 1).next == code.len(),
        parse_from(code, pc).next == code.len(),
        !parse_from(code, pc).closed,
{
    lemma_parse_bounds(code, pc + 1);
    let body = parse_from(code, pc + 1);
    let rest = parse_from(code, body.next);
    assert(rest.ops =~= Seq::<Instr>::empty());
    assert(seq![Instr::Loop(body.ops)] + rest.ops =~= seq![Instr::Loop(body.ops)]);
}

/// The whole program that a text stands for: its outermost level.  What
/// follows a `]` that closes nothing is not part of the program.
pub open spec fn program_of(code: Seq<char>) -> Seq<Instr> {
    parse_from(code, 0).ops
}

/// How many more `[` than `]` there are among the first `n` characters.
pub open spec fn depth(code: Seq<char>, n: nat) -> int
    decreases n,
{
    if n == 0 || n > code.len() {
        0
    } else {
        let c = code[n - 1];
        depth(code, (n - 1) as nat) + if c == '[' {
            1int
        } else if c == ']' {
            -1int
        } else {
            0int
        }
    }
}

/// Every `]` closes a `[` before it, and every `[` is closed.
pub open spec fn balanced(code: Seq<char>) -> bool {
    &&& forall|n: nat| n <= code.len() ==> depth(code, n) >= 0
    &&& depth(code, code.len()) == 0
}

/// Parsing a level follows the bracket depth: a level that is closed ends
/// one bracket further out than it began, and a level that is not closed
/// began no deeper than the text ends.
pub proof fn lemma_parse_depth(code: Seq<char>, pc: nat)
    requires
        pc <= code.len(),
    ensures
        parse_from(code, pc).closed ==> depth(code, parse_from(code, pc).next) == depth(code, pc)
            - 1,
        !parse_from(code, pc).closed ==> depth(code, code.len()) >= depth(code, pc),
    decreases code.len() - pc,
{
    if pc < code.len() {
        let c = code[pc as int];
        assert(depth(code, pc + 1) == depth(code, pc) + if c == '[' {
            1int
        } else if c == ']' {
            -1int
        } else {
            0int
        });
        if c != ']' {
            lemma_parse_bounds(code, pc + 1);
            lemma_parse_depth(code, pc + 1);
            if c == '[' {
                let body = parse_from(code, pc + 1);
                let rest = parse_from(code, body.next);
                assert(parse_from(code, pc).closed == rest.closed);
                assert(parse_from(code, pc).next == rest.next);
                lemma_parse_bounds(code, body.next);
                if body.closed {
                    lemma_parse_depth(code, body.next);
                }
            }
        }
    }
}

/// In a balanced text nothing is cut off and nothing is left open: the
/// program is parsed from the whole text, and the body of every loop ends at
/// a `]`.
pub proof fn lemma_balanced_text(code: Seq<char>, pc: nat)
    requires
        balanced(code),
    ensures
        !parse_from(code, 0).closed,
        parse_from(code, 0).next == code.len(),
        pc < code.len() && code[pc as int] == '[' ==> parse_from(code, pc + 1).closed,
{
    lemma_parse_depth(code, 0);
    lemma_parse_bounds(code, 0);
    if parse_from(code, 0).closed {
        assert(depth(code, parse_from(code, 0).next) >= 0);
    }
    if pc < code.len() && code[pc as int] == '[' {
        lemma_parse_depth(code, pc + 1);
        assert(depth(code, pc) >= 0);
        assert(depth(code, pc + 1) == depth(code, pc) + 1);
    }
}

/// A stored loop stands for the loop over what its stored body stands for.
pub proof fn lemma_loop_view(body: Vec<Op>)
    ensures
        Op::Loop(body)@ == Instr::Loop(view_ops(body@)),
{
    assert(Op::Loop(body)@->Loop_0 =~= view_ops(body@));
}

/// Parses `code` from `*pos` to the end of the bracket level that `*pos`
/// lies in, and leaves `*pos` where parsing goes on one level up: behind the
/// `]` that ended the level, or at the end of the text.
pub fn parse(code: &[char], pos: &mut usize) -> (ops: Vec<Op>)
    ensures
        view_ops(ops@) == parse_from(code@, *old(pos) as nat).ops,
        *final(pos) == parse_from(code@, *old(pos) as nat).next,
    decreases code@.len() - *old(pos),
{
    let ghost start = *pos as nat;
    let mut buf: Vec<Op> = Vec::new();
    assert(view_ops(buf@) + parse_from(code@, start).ops =~= parse_from(code@, start).ops);
    while *pos < code.len()
        invariant
            start == *old(pos),
            start <= *pos,
            parse_from(code@, start).ops == view_ops(buf@) + parse_from(code@, *pos as nat).ops,
            parse_from(code@, start).next == parse_from(code@, *pos as nat).next,
        decreases code@.len() - *pos,
    {
        let ghost here = *pos as nat;
        let ghost before = view_ops(buf@);
        let c = code[*pos];
        *pos = *pos + 1;
        if c == ']' {
            assert(before + Seq::<Instr>::empty() =~= before);
            return buf;
        }
        if c == '[' {
            let body = parse(code, pos);
            proof {
                lemma_parse_bounds(code@, here + 1);
                lemma_loop_view(body);
            }
            buf.push(Op::Loop(body));
        } else if c == '-' {
            buf.push(Op::Dec);
        } else if c == '+' {
            buf.push(Op::Inc);
        } else if c == '<' {
            buf.push(Op::Prev);
        } else if c == '>' {
            buf.push(Op::Next);
        } else if c == '.' {
            buf.push(Op::Print);
        }
        proof {
            let rest = parse_from(code@, *pos as nat).ops;
            if c == '[' || leaf(c) is Some {
                let op = buf@.last()@;
                assert(view_ops(buf@) =~= before.push(op));
                assert(before + (seq![op] + rest) =~= before.push(op) + rest);
            } else {
                assert(view_ops(buf@) =~= before);
            }
        }
    }
    assert(view_ops(buf@) + Seq::<Instr>::empty() =~= view_ops(buf@));
    buf
}

/// The characters of a text, one per element.
pub fn chars_of(code: &str) -> (chars: Vec<char>)
    ensures
        chars@ == code@,
{
    let mut chars: Vec<char> = Vec::new();
    let mut it = code.chars();
    loop
        invariant
            it.obeys_prophetic_iter_laws(),
            it.decrease() is Some,
            chars@ + it.remaining() == code@,
        decreases it.decrease()->0,
    {
        match it.next() {
            Some(c) => {
                chars.push(c);
            },
            None => {
                return chars;
            },
        }
    }
}

} // verus!
