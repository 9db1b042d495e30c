//! The instruction set of the machine.

use vstd::prelude::*;

verus! {

/// One cell of a program: an instruction or a datum.
///
/// `AddressType` is what the seven operand-carrying instructions hold: the
/// text of a label before linking, an index into the program after it.
/// `DataType` is what a `Dat` cell holds: the text of a literal before
/// linking, a number after it.
#[derive(Debug, Clone, Copy, PartialEq, Eq)]
pub enum LmcInstruction<AddressType, DataType> {
    /// Read a number into the accumulator.
    Inp,
    /// Add the addressed datum to the accumulator.
    Add(AddressType),
    /// Subtract the addressed datum from the accumulator.
    Sub(AddressType),
    /// Store the accumulator in the addressed cell.
    Sta(AddressType),
    /// Load the addressed datum into the accumulator.
    Lda(AddressType),
    /// Branch always.
    Bra(AddressType),
    /// Branch if the accumulator is zero.
    Brz(AddressType),
    /// Branch if the accumulator is zero or positive.
    Brp(AddressType),
    /// Write the accumulator out.
    Out,
    /// Halt.
    Hlt,
    /// A datum.
    Dat(DataType),
}

impl<A: DeepView, D: DeepView> DeepView for LmcInstruction<A, D> {
    type V = LmcInstruction<A::V, D::V>;

    /// The same instruction over the views of its operand or datum.
    open spec fn deep_view(&self) -> Self::V {
        match *self {
            LmcInstruction::Inp => LmcInstruction::Inp,
            LmcInstruction::Add(a) => LmcInstruction::Add(a.deep_view()),
            LmcInstruction::Sub(a) => LmcInstruction::Sub(a.deep_view()),
            LmcInstruction::Sta(a) => LmcInstruction::Sta(a.deep_view()),
            LmcInstruction::Lda(a) => LmcInstruction::Lda(a.deep_view()),
            LmcInstruction::Bra(a) => LmcInstruction::Bra(a.deep_view()),
            LmcInstruction::Brz(a) => LmcInstruction::Brz(a.deep_view()),
            LmcInstruction::Brp(a) => LmcInstruction::Brp(a.deep_view()),
            LmcInstruction::Out => LmcInstruction::Out,
            LmcInstruction::Hlt => LmcInstruction::Hlt,
            LmcInstruction::Dat(d) => LmcInstruction::Dat(d.deep_view()),
        }
    }
}

impl<A, D> LmcInstruction<A, D> {
    /// The datum of a `Dat` cell.
    pub open spec fn datum(self) -> Option<D> {
        match self {
            LmcInstruction::Dat(d) => Some(d),
            _ => None,
        }
    }

    /// The operand of an instruction that carries an address.
    pub open spec fn address(self) -> Option<A> {
        match self {
            LmcInstruction::Add(a)
            | LmcInstruction::Sub(a)
            | LmcInstruction::Sta(a)
            | LmcInstruction::Lda(a)
            | LmcInstruction::Bra(a)
            | LmcInstruction::Brz(a)
            | LmcInstruction::Brp(a) => Some(a),
            _ => None,
        }
    }

    /// Every cell carries an address, a datum or nothing, and never two of
    /// them.
    pub proof fn lemma_one_payload(self)
        ensures
            !(self.address() is Some && self.datum() is Some),
            self.address() is None && self.datum() is None <==> self is Inp || self is Out
                || self is Hlt,
            self.datum() is Some <==> self is Dat,
    {
    }

    /// The datum of a `Dat` cell, `None` for every other cell.
    pub fn value(&self) -> (result: Option<&D>)
        ensures
            match result {
                Some(d) => self.datum() == Some(*d),
                None => self.datum() is None,
            },
    {
        if let LmcInstruction::Dat(value) = self {
            Some(value)
        } else {
            None
        }
    }

    /// The datum of a `Dat` cell, to be overwritten in place: the cell ends
    /// as a `Dat` of whatever the caller leaves behind the reference. Every
    /// other cell gives `None` and stays as it is.
    pub fn value_mut(&mut self) -> (result: Option<&mut D>)
        ensures
            match result {
                Some(d) => old(self).datum() == Some(*d) && *final(self) == LmcInstruction::<
                    A,
                    D,
                >::Dat(*final(d)),
                None => old(self).datum() is None && *final(self) == *old(self),
            },
    {
        if let LmcInstruction::Dat(value) = self {
            Some(value)
        } else {
            None
        }
    }

    /// Whether the cell is a `Dat`.
    pub fn is_data(&self) -> (result: bool)
        ensures
            result == (*self is Dat),
    {
        if let LmcInstruction::Dat(_) = self {
            true
        } else {
            false
        }
    }

    /// The operand of an instruction that carries an address, `None` for
    /// `Inp`, `Out`, `Hlt` and `Dat`.
    pub fn operand(&self) -> (result: Option<&A>)
        ensures
            match result {
                Some(a) => self.address() == Some(*a),
                None => self.address() is None,
            },
    {
        match self {
            LmcInstruction::Add(operand) => Some(operand),
            LmcInstruction::Sub(operand) => Some(operand),
            LmcInstruction::Sta(operand) => Some(operand),
            LmcInstruction::Lda(operand) => Some(operand),
            LmcInstruction::Bra(operand) => Some(operand),
            LmcInstruction::Brz(operand) => Some(operand),
            LmcInstruction::Brp(operand) => Some(operand),
            LmcInstruction::Dat(_) => None,
            LmcInstruction::Out | LmcInstruction::Hlt | LmcInstruction::Inp => None,
        }
    }
}

} // verus!
