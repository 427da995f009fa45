//! A verified interpreter for a small tape language.
//!
//! A program is a text over the seven command characters `- + < > . [ ]`;
//! every other character is a comment.  The crate offers two ways to run
//! one: [`tree`] parses the text into nested loops first, [`cursor`] walks
//! the text itself with a stack of saved positions.  Both act on a
//! [`tape::Tape`] and hand the values they emit to a [`printer::Printer`].
//! [`agreement`] proves that the two do the same, [`selftest`] holds a
//! program with known output to try the engine on.
//!
//! A program need not end, so every run is given a number of steps and
//! reports [`machine::Status::OutOfFuel`] when they are used up.  Nothing in
//! this crate reads or writes a file or a stream.

pub mod agreement;
pub mod cursor;
pub mod machine;
pub mod printer;
pub mod selftest;
pub mod syntax;
pub mod tape;
pub mod tree;
