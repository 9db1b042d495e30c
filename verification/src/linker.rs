//! The linker: an unresolved program in, a resolved program out. Each label
//! becomes the index that the label table gives it, and each literal becomes
//! its number.

use crate::decimal::{literal_value, parse_literal};
use crate::error::{Fault, LmcError};
use crate::instruction::LmcInstruction;
use crate::parser::{PreLinkerProgram, Symbolic, Unresolved};
use crate::text::chars_of;
use vstd::hash_map::StringHashMap;
use vstd::prelude::*;

verus! {

/// A cell of a resolved program: its operand is an index, its datum a
/// number.
pub type Cell = LmcInstruction<usize, i64>;

/// A linked program: its cells, indexed from zero.
#[derive(Debug, Clone, PartialEq, Eq)]
pub struct PostLinkerProgram(pub Vec<LmcInstruction<usize, i64>>);

/// The name of the data type, as a `MalformedLiteral` gives it.
pub open spec fn data_type_name() -> Seq<char> {
    seq!['i', '6', '4']
}

/// The index that `name` stands for in a program of `size` cells. The name
/// must be in the table, and its index must be that of a cell.
pub open spec fn target(name: Seq<char>, labels: Map<Seq<char>, usize>, size: nat) -> Result<
    usize,
    Fault,
> {
    if !labels.contains_key(name) {
        Err(Fault::UndefinedLabel(name))
    } else if labels[name] >= size {
        Err(Fault::AddressOutOfRange(labels[name]))
    } else {
        Ok(labels[name])
    }
}

/// The cell that one instruction resolves to in a program of `size` cells.
/// An operand is looked up in the label table, the text of a `Dat` is read
/// as a literal, and `Inp`, `Out` and `Hlt` stay as they are.
pub open spec fn resolve(instruction: Symbolic, labels: Map<Seq<char>, usize>, size: nat) -> Result<
    Cell,
    Fault,
> {
    match instruction {
        LmcInstruction::Inp => Ok(LmcInstruction::Inp),
        LmcInstruction::Out => Ok(LmcInstruction::Out),
        LmcInstruction::Hlt => Ok(LmcInstruction::Hlt),
        LmcInstruction::Dat(text) => match literal_value(text) {
            Some(v) => Ok(LmcInstruction::Dat(v)),
            None => Err(Fault::MalformedLiteral { text, target_type: data_type_name() }),
        },
        LmcInstruction::Add(name) => match target(name, labels, size) {
            Ok(a) => Ok(LmcInstruction::Add(a)),
            Err(fault) => Err(fault),
        },
        LmcInstruction::Sub(name) => match target(name, labels, size) {
            Ok(a) => Ok(LmcInstruction::Sub(a)),
            Err(fault) => Err(fault),
        },
        LmcInstruction::Sta(name) => match target(name, labels, size) {
            Ok(a) => Ok(LmcInstruction::Sta(a)),
            Err(fault) => Err(fault),
        },
        LmcInstruction::Lda(name) => match target(name, labels, size) {
            Ok(a) => Ok(LmcInstruction::Lda(a)),
            Err(fault) => Err(fault),
        },
        LmcInstruction::Bra(name) => match target(name, labels, size) {
            Ok(a) => Ok(LmcInstruction::Bra(a)),
            Err(fault) => Err(fault),
        },
        LmcInstruction::Brz(name) => match target(name, labels, size) {
            Ok(a) => Ok(LmcInstruction::Brz(a)),
            Err(fault) => Err(fault),
        },
        LmcInstruction::Brp(name) => match target(name, labels, size) {
            Ok(a) => Ok(LmcInstruction::Brp(a)),
            Err(fault) => Err(fault),
        },
    }
}

/// The cells that the instructions of `code` resolve to, in order.
/// The first instruction that fails ends the work with its fault.
pub open spec fn resolve_all(code: Seq<Symbolic>, labels: Map<Seq<char>, usize>, size: nat) -> Result<
    Seq<Cell>,
    Fault,
>
    decreases code.len(),
{
    if code.len() == 0 {
        Ok(Seq::empty())
    } else {
        match resolve_all(code.drop_last(), labels, size) {
            Err(fault) => Err(fault),
            Ok(cells) => match resolve(code.last(), labels, size) {
                Err(fault) => Err(fault),
                Ok(cell) => Ok(cells.push(cell)),
            },
        }
    }
}

/// The cells of the resolved program that `program` links to.
pub open spec fn link_spec(program: Unresolved) -> Result<Seq<Cell>, Fault> {
    resolve_all(program.code, program.labels, program.code.len())
}

/// Whether every operand in `cells` is the index of one of them.
pub open spec fn closed(cells: Seq<Cell>) -> bool {
    forall|i: int|
        0 <= i < cells.len() && (#[trigger] cells[i]).address() is Some ==> cells[i].address()->0
            < cells.len()
}

/// A fault is final: instructions that follow it do not change it.
pub proof fn lemma_resolve_fault_stays(
    code: Seq<Symbolic>,
    labels: Map<Seq<char>, usize>,
    size: nat,
    k: int,
)
    requires
        0 <= k <= code.len(),
        resolve_all(code.take(k), labels, size) is Err,
    ensures
        resolve_all(code, labels, size) == resolve_all(code.take(k), labels, size),
    decreases code.len(),
{
    if k == code.len() {
        assert(code.take(k) =~= code);
    } else {
        assert(code.drop_last().take(k) =~= code.take(k));
        lemma_resolve_fault_stays(code.drop_last(), labels, size, k);
    }
}

/// What resolving keeps: there are as many cells as instructions, each cell
/// is what its own instruction resolves to, and so is of the same kind, and
/// every operand is an index below `size`.
pub proof fn lemma_resolved_shape(code: Seq<Symbolic>, labels: Map<Seq<char>, usize>, size: nat)
    requires
        resolve_all(code, labels, size) is Ok,
    ensures
        resolve_all(code, labels, size)->Ok_0.len() == code.len(),
        forall|i: int|
            0 <= i < code.len() ==> resolve(#[trigger] code[i], labels, size) == Ok::<Cell, Fault>(
                resolve_all(code, labels, size)->Ok_0[i],
            ),
        forall|i: int|
            0 <= i < code.len() && (#[trigger] resolve_all(
                code,
                labels,
                size,
            )->Ok_0[i]).address() is Some ==> resolve_all(code, labels, size)->Ok_0[i].address()->0
                < size,
    decreases code.len(),
{
    if code.len() > 0 {
        let head = code.drop_last();
        lemma_resolved_shape(head, labels, size);
        let cells = resolve_all(code, labels, size)->Ok_0;
        assert forall|i: int| 0 <= i < code.len() implies resolve(
            #[trigger] code[i],
            labels,
            size,
        ) == Ok::<Cell, Fault>(cells[i]) by {
            if i < head.len() {
                assert(code[i] == head[i]);
            }
        }
    }
}

/// The index that `name` stands for.
fn look_up(labels: &StringHashMap<usize>, name: &String, size: usize) -> (result: Result<
    usize,
    LmcError,
>)
    ensures
        match target(name@, labels@, size as nat) {
            Ok(a) => result == Ok::<usize, LmcError>(a),
            Err(fault) => result matches Err(e) && e@ == fault,
        },
{
    match labels.get(name.as_str()) {
        None => Err(LmcError::UndefinedLabel(name.clone())),
        Some(a) => {
            if *a >= size {
                Err(LmcError::AddressOutOfRange(*a))
            } else {
                Ok(*a)
            }
        },
    }
}

/// The name of the data type.
fn data_type_text() -> (result: String)
    ensures
        result@ == data_type_name(),
{
    let mut result = String::new();
    result.push('i');
    result.push('6');
    result.push('4');
    assert(result@ =~= data_type_name());
    result
}

/// The cell that one instruction resolves to.
fn resolve_one(
    instruction: &LmcInstruction<String, String>,
    labels: &StringHashMap<usize>,
    size: usize,
) -> (result: Result<LmcInstruction<usize, i64>, LmcError>)
    ensures
        match resolve(instruction.deep_view(), labels@, size as nat) {
            Ok(cell) => result == Ok::<Cell, LmcError>(cell),
            Err(fault) => result matches Err(e) && e@ == fault,
        },
{
    match instruction {
        LmcInstruction::Inp => Ok(LmcInstruction::Inp),
        LmcInstruction::Out => Ok(LmcInstruction::Out),
        LmcInstruction::Hlt => Ok(LmcInstruction::Hlt),
        LmcInstruction::Dat(text) => match parse_literal(&chars_of(text.as_str())) {
            Some(v) => Ok(LmcInstruction::Dat(v)),
            None => Err(
                LmcError::MalformedLiteral { text: text.clone(), target_type: data_type_text() },
            ),
        },
        LmcInstruction::Add(name) => match look_up(labels, name, size) {
            Ok(a) => Ok(LmcInstruction::Add(a)),
            Err(e) => Err(e),
        },
        LmcInstruction::Sub(name) => match look_up(labels, name, size) {
            Ok(a) => Ok(LmcInstruction::Sub(a)),
            Err(e) => Err(e),
        },
        LmcInstruction::Sta(name) => match look_up(labels, name, size) {
            Ok(a) => Ok(LmcInstruction::Sta(a)),
            Err(e) => Err(e),
        },
        LmcInstruction::Lda(name) => match look_up(labels, name, size) {
            Ok(a) => Ok(LmcInstruction::Lda(a)),
            Err(e) => Err(e),
        },
        LmcInstruction::Bra(name) => match look_up(labels, name, size) {
            Ok(a) => Ok(LmcInstruction::Bra(a)),
            Err(e) => Err(e),
        },
        LmcInstruction::Brz(name) => match look_up(labels, name, size) {
            Ok(a) => Ok(LmcInstruction::Brz(a)),
            Err(e) => Err(e),
        },
        LmcInstruction::Brp(name) => match look_up(labels, name, size) {
            Ok(a) => Ok(LmcInstruction::Brp(a)),
            Err(e) => Err(e),
        },
    }
}

/// Links an unresolved program.
///
/// The result has one cell for each instruction, in the same order. An
/// instruction with an operand becomes the same instruction with the index
/// that the label table gives for the operand; a `Dat` becomes a `Dat` of
/// the number that its text stands for; `Inp`, `Out` and `Hlt` stay. In the
/// result every operand is the index of a cell.
///
/// The first instruction, in program order, that cannot be resolved fails
/// the link: with `UndefinedLabel` of its operand when the table does not
/// hold the operand, with `AddressOutOfRange` when the table gives an index
/// beyond the program, and with `MalformedLiteral` when the text of a `Dat`
/// is no literal.
pub fn link(initial: PreLinkerProgram) -> (result: Result<PostLinkerProgram, LmcError>)
    ensures
        match link_spec(initial@) {
            Ok(cells) => result matches Ok(linked) && linked.0@ == cells && cells.len()
                == initial@.code.len() && closed(cells),
            Err(fault) => result matches Err(e) && e@ == fault,
        },
{
    let size: usize = initial.0.len();
    let mut cells: Vec<LmcInstruction<usize, i64>> = Vec::new();
    let mut i: usize = 0;
    assert(initial@.code.take(0) =~= Seq::<Symbolic>::empty());
    while i < size
        invariant
            i <= size,
            size == initial.0.len(),
            resolve_all(initial@.code.take(i as int), initial@.labels, size as nat) == Ok::<
                Seq<Cell>,
                Fault,
            >(cells@),
        decreases size - i,
    {
        let ghost seen = initial@.code.take(i as int + 1);
        assert(seen.drop_last() =~= initial@.code.take(i as int));
        assert(seen.last() == initial.0@[i as int].deep_view());
        match resolve_one(&initial.0[i], &initial.1, size) {
            Ok(cell) => {
                cells.push(cell);
            },
            Err(e) => {
                proof {
                    lemma_resolve_fault_stays(
                        initial@.code,
                        initial@.labels,
                        size as nat,
                        i as int + 1,
                    );
                }
                return Err(e);
            },
        }
        i += 1;
    }
    proof {
        assert(initial@.code.take(size as int) =~= initial@.code);
        lemma_resolved_shape(initial@.code, initial@.labels, size as nat);
    }
    Ok(PostLinkerProgram(cells))
}

/// Whether every operand of `program` is a name that its label table holds.
pub open spec fn all_defined(program: Unresolved) -> bool {
    forall|i: int|
        0 <= i < program.code.len() && (#[trigger] program.code[i]).address() is Some
            ==> program.labels.contains_key(program.code[i].address()->0)
}

/// No instruction whose operand the table holds resolves to
/// `UndefinedLabel`.
pub proof fn lemma_resolve_defined(
    code: Seq<Symbolic>,
    labels: Map<Seq<char>, usize>,
    size: nat,
)
    requires
        forall|i: int|
            0 <= i < code.len() && (#[trigger] code[i]).address() is Some ==> labels.contains_key(
                code[i].address()->0,
            ),
    ensures
        !(resolve_all(code, labels, size) matches Err(Fault::UndefinedLabel(_))),
    decreases code.len(),
{
    if code.len() > 0 {
        let head = code.drop_last();
        assert forall|i: int| 0 <= i < head.len() && (#[trigger] head[i]).address() is Some implies labels.contains_key(
            head[i].address()->0,
        ) by {
            assert(head[i] == code[i]);
        }
        lemma_resolve_defined(head, labels, size);
        let last = code[code.len() - 1];
        assert(last.address() is Some ==> labels.contains_key(last.address()->0));
    }
}

/// Linking a program whose every operand is a label of its table never
/// fails with `UndefinedLabel`.
pub proof fn lemma_link_finds_defined_labels(program: Unresolved)
    requires
        all_defined(program),
    ensures
        !(link_spec(program) matches Err(Fault::UndefinedLabel(_))),
{
    lemma_resolve_defined(program.code, program.labels, program.code.len());
}

/// Two instructions with the same operand resolve to the same address,
/// wherever they stand in the program: the address is what the table gives
/// for the operand. An operand of the form `#5` is no exception.
pub proof fn lemma_same_operand_same_address(program: Unresolved, i: int, j: int)
    requires
        link_spec(program) is Ok,
        0 <= i < program.code.len(),
        0 <= j < program.code.len(),
        program.code[i].address() is Some,
        program.code[i].address() == program.code[j].address(),
    ensures
        link_spec(program)->Ok_0[i].address() == Some(
            program.labels[program.code[i].address()->0],
        ),
        link_spec(program)->Ok_0[i].address() == link_spec(program)->Ok_0[j].address(),
{
    lemma_resolved_shape(program.code, program.labels, program.code.len());
    assert(resolve(program.code[i], program.labels, program.code.len()) is Ok);
    assert(resolve(program.code[j], program.labels, program.code.len()) is Ok);
}

/// In a sound program the only thing that can go wrong with an instruction
/// is an operand that the table does not hold.
pub proof fn lemma_resolve_sound(code: Seq<Symbolic>, labels: Map<Seq<char>, usize>, size: nat)
    requires
        forall|name: Seq<char>| #[trigger] labels.contains_key(name) ==> labels[name] < size,
        forall|i: int|
            0 <= i < code.len() && (#[trigger] code[i]) is Dat ==> literal_value(code[i]->Dat_0)
                is Some,
    ensures
        resolve_all(code, labels, size) matches Err(fault) ==> fault is UndefinedLabel,
    decreases code.len(),
{
    if code.len() > 0 {
        let head = code.drop_last();
        assert forall|i: int| 0 <= i < head.len() && (#[trigger] head[i]) is Dat implies literal_value(
            head[i]->Dat_0,
        ) is Some by {
            assert(head[i] == code[i]);
        }
        lemma_resolve_sound(head, labels, size);
        let last = code[code.len() - 1];
        assert(last is Dat ==> literal_value(last->Dat_0) is Some);
    }
}

/// A sound program, and so every program that the parser gives out, links
/// unless one of its operands is a label that nothing defines.
pub proof fn lemma_sound_links(program: Unresolved)
    requires
        program.sound(),
    ensures
        link_spec(program) matches Err(fault) ==> fault is UndefinedLabel,
        all_defined(program) ==> link_spec(program) is Ok,
{
    lemma_resolve_sound(program.code, program.labels, program.code.len());
    if all_defined(program) {
        lemma_link_finds_defined_labels(program);
    }
}

} // verus!
