//! What can go wrong once a source text has been parsed: while the program
//! is linked, and while it runs.

use vstd::prelude::*;

verus! {

/// A failure of the linker or of the interpreter.
#[derive(Debug, Clone, PartialEq, Eq)]
pub enum LmcError {
    /// An operand names a label that the label table does not hold.
    UndefinedLabel(String),
    /// The text of a `Dat` is no literal of the data type.
    MalformedLiteral { text: String, target_type: String },
    /// The cell at this address is of the wrong kind: an instruction where a
    /// datum is read or written, or a datum where an instruction is to run.
    TypeMismatchAtAddress(usize),
    /// The line given to an `Inp`, without the white space around it, is no
    /// literal of the data type.
    MalformedInput(String),
    /// The program has no cell at this address.
    AddressOutOfRange(usize),
    /// The instruction at this address would take the accumulator out of
    /// the range of the data type.
    ArithmeticOverflow(usize),
}

/// The view of an `LmcError`.
pub enum Fault {
    UndefinedLabel(Seq<char>),
    MalformedLiteral { text: Seq<char>, target_type: Seq<char> },
    TypeMismatchAtAddress(usize),
    MalformedInput(Seq<char>),
    AddressOutOfRange(usize),
    ArithmeticOverflow(usize),
}

impl View for LmcError {
    type V = Fault;

    open spec fn view(&self) -> Fault {
        match *self {
            LmcError::UndefinedLabel(name) => Fault::UndefinedLabel(name@),
            LmcError::MalformedLiteral { text, target_type } => Fault::MalformedLiteral {
                text: text@,
                target_type: target_type@,
            },
            LmcError::TypeMismatchAtAddress(address) => Fault::TypeMismatchAtAddress(address),
            LmcError::MalformedInput(text) => Fault::MalformedInput(text@),
            LmcError::AddressOutOfRange(address) => Fault::AddressOutOfRange(address),
            LmcError::ArithmeticOverflow(address) => Fault::ArithmeticOverflow(address),
        }
    }
}

} // verus!
