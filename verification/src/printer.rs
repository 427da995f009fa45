//! The sink for emitted values.  In quiet mode it folds them into a rolling
//! checksum; in live mode it queues their low bytes for whoever owns the
//! output stream.

use vstd::prelude::*;

verus! {

/// The low eight bits of a cell value, as the byte that is written for it.
pub open spec fn low_byte(v: i32) -> u8 {
    (v as int % 256) as u8
}

/// What a printer holds: its mode, the two running sums, and the bytes that
/// were emitted in live mode and not yet taken.
#[verifier::ext_equal]
pub struct PrinterView {
    pub quiet: bool,
    pub sum1: int,
    pub sum2: int,
    pub pending: Seq<u8>,
}

impl PrinterView {
    /// A printer that has seen nothing.
    pub open spec fn fresh(quiet: bool) -> PrinterView {
        PrinterView { quiet, sum1: 0, sum2: 0, pending: Seq::empty() }
    }

    /// The printer after one more value.  Quiet: the byte is added to the
    /// first sum and the first sum to the second, both modulo 255.  Live: the
    /// byte joins the queue and the sums stay.
    pub open spec fn emit(self, v: i32) -> PrinterView {
        if self.quiet {
            let sum1 = (self.sum1 + low_byte(v)) % 255;
            let sum2 = (self.sum2 + sum1) % 255;
            PrinterView { quiet: true, sum1, sum2, pending: self.pending }
        } else {
            PrinterView { pending: self.pending.push(low_byte(v)), ..self }
        }
    }

    /// The printer after a whole sequence of values, first to last.
    pub open spec fn emit_all(self, vs: Seq<i32>) -> PrinterView
        decreases vs.len(),
    {
        if vs.len() == 0 {
            self
        } else {
            self.emit_all(vs.drop_last()).emit(vs.last())
        }
    }

    /// The second sum in the high byte, the first in the low byte.
    pub open spec fn checksum(self) -> int {
        self.sum2 * 256 + self.sum1
    }

    /// The same printer with an empty queue.
    pub open spec fn drained(self) -> PrinterView {
        PrinterView { pending: Seq::empty(), ..self }
    }
}

/// The checksum depends on the order of the values.  Two values emitted one
/// after the other, and the same two the other way round, leave the first sum
/// the same, and leave the same checksum only if their bytes are equal
/// modulo 255: if they are the same byte, or one is 0 and the other 255.
pub proof fn lemma_order_matters(p: PrinterView, a: i32, b: i32)
    requires
        p.quiet,
    ensures
        p.emit(a).emit(b).sum1 == p.emit(b).emit(a).sum1,
        p.emit(a).emit(b).checksum() == p.emit(b).emit(a).checksum() <==> low_byte(a) % 255
            == low_byte(b) % 255,
{
    let x = low_byte(a) as int;
    let y = low_byte(b) as int;
    let first_a = (p.sum1 + x) % 255;
    let first_b = (p.sum1 + y) % 255;
    let both = (p.sum1 + x + y) % 255;
    lemma_sum_modulo(p.sum1 + x, y);
    lemma_sum_modulo(p.sum1 + y, x);
    assert(p.emit(a).emit(b).sum1 == both);
    assert(p.emit(b).emit(a).sum1 == both);
    lemma_sum_modulo(p.sum2 + first_a, both);
    lemma_sum_modulo(p.sum2 + first_b, both);
    assert(p.emit(a).emit(b).sum2 == (p.sum2 + first_a + both) % 255);
    assert(p.emit(b).emit(a).sum2 == (p.sum2 + first_b + both) % 255);
    lemma_same_remainder(first_a, first_b, p.sum2 + both);
    lemma_same_remainder(x, y, p.sum1);
}

/// Reducing one summand modulo 255 before adding does not change the sum
/// modulo 255.
proof fn lemma_sum_modulo(u: int, v: int)
    ensures
        (u % 255 + v) % 255 == (u + v) % 255,
{
}

/// Adding the same number to both keeps two numbers equal or unequal modulo
/// 255.
proof fn lemma_same_remainder(u: int, v: int, w: int)
    ensures
        (u + w) % 255 == (v + w) % 255 <==> u % 255 == v % 255,
{
}

/// Emitting two sequences one after the other is emitting them joined.
pub proof fn lemma_emit_all_append(p: PrinterView, first: Seq<i32>, then: Seq<i32>)
    ensures
        p.emit_all(first + then) == p.emit_all(first).emit_all(then),
    decreases then.len(),
{
    if then.len() == 0 {
        assert(first + then =~= first);
    } else {
        assert((first + then).drop_last() =~= first + then.drop_last());
        lemma_emit_all_append(p, first, then.drop_last());
    }
}

pub struct Printer {
    sum1: u8,
    sum2: u8,
    quiet: bool,
    out: Vec<u8>,
}

impl View for Printer {
    type V = PrinterView;

    closed spec fn view(&self) -> PrinterView {
        PrinterView {
            quiet: self.quiet,
            sum1: self.sum1 as int,
            sum2: self.sum2 as int,
            pending: self.out@,
        }
    }
}

fn byte_of(n: i32) -> (b: u8)
    ensures
        b == low_byte(n),
{
    let b = (n & 0xff) as u8;
    assert(n & 0xff == (n as int) % 256) by (bit_vector);
    b
}

impl Printer {
    /// A printer in the given mode, with both sums at zero and nothing queued.
    pub fn new(quiet: bool) -> (p: Printer)
        ensures
            p@ == PrinterView::fresh(quiet),
            p@.checksum() == 0,
    {
        Printer { sum1: 0, sum2: 0, quiet, out: Vec::new() }
    }

    /// Whether values are summed rather than queued.
    pub fn is_quiet(&self) -> (q: bool)
        ensures
            q == self@.quiet,
    {
        self.quiet
    }

    /// Emits one value.
    pub fn print(&mut self, n: i32)
        ensures
            final(self)@ == old(self)@.emit(n),
    {
        let b = byte_of(n);
        if self.quiet {
            let s1: u16 = (self.sum1 as u16 + b as u16) % 255;
            let s2: u16 = (self.sum2 as u16 + s1) % 255;
            self.sum1 = s1 as u8;
            self.sum2 = s2 as u8;
        } else {
            self.out.push(b);
        }
    }

    /// The checksum of everything emitted in quiet mode.  Zero before the
    /// first value, and zero throughout in live mode.
    pub fn get_checksum(&self) -> (c: i32)
        ensures
            c == self@.checksum(),
    {
        let hi = self.sum2 as i32;
        let lo = self.sum1 as i32;
        assert((hi << 8) | lo == hi * 256 + lo) by (bit_vector)
            requires
                0 <= hi < 256,
                0 <= lo < 256,
        ;
        (hi << 8) | lo
    }

    /// Hands over the bytes queued since the last call, oldest first, and
    /// leaves the queue empty.
    pub fn take_output(&mut self) -> (bytes: Vec<u8>)
        ensures
            bytes@ == old(self)@.pending,
            final(self)@ == old(self)@.drained(),
    {
        let mut bytes: Vec<u8> = Vec::new();
        std::mem::swap(&mut self.out, &mut bytes);
        bytes
    }
}

impl Default for Printer {
    fn default() -> (p: Printer)
        ensures
            p@ == PrinterView::fresh(false),
    {
        Printer::new(false)
    }
}

} // verus!
