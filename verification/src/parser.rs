//! The parser: source text in, an unresolved program out.
//!
//! A program is unresolved while its operands are still text: the seven
//! instructions that carry an address hold the name of a label, and a `Dat`
//! holds its literal as written. The label table beside the instructions
//! maps each name to the index of the cell that it names.

use crate::decimal::{literal_value, parse_literal};
use crate::instruction::LmcInstruction;
use crate::normalizer::{normalize, normalize_chars};
use crate::text::{
    blank, chars_of, cut, is_blank, lines_of, lowercase, lowercased, slice, split_lines,
    split_once, text_of, trim, trimmed, views,
};
use vstd::hash_map::StringHashMap;
use vstd::prelude::*;

verus! {

/// An instruction whose operand is still text.
pub type Symbolic = LmcInstruction<Seq<char>, Seq<char>>;

/// Why a line of source is no instruction.
#[derive(Debug, Clone, PartialEq, Eq)]
pub enum TryIntoLmcInstructionError {
    /// The mnemonic, given here in lower case, is none of the eleven.
    UnknownOperator(String),
    /// The mnemonic takes an operand and the line has none.
    MissingOperand,
    /// The operand, given here, is no literal where one is needed.
    InvalidOperand(String),
}

/// The view of a `TryIntoLmcInstructionError`.
pub enum ParseFailure {
    UnknownOperator(Seq<char>),
    MissingOperand,
    InvalidOperand(Seq<char>),
}

impl View for TryIntoLmcInstructionError {
    type V = ParseFailure;

    open spec fn view(&self) -> ParseFailure {
        match *self {
            TryIntoLmcInstructionError::UnknownOperator(text) => ParseFailure::UnknownOperator(
                text@,
            ),
            TryIntoLmcInstructionError::MissingOperand => ParseFailure::MissingOperand,
            TryIntoLmcInstructionError::InvalidOperand(text) => ParseFailure::InvalidOperand(
                text@,
            ),
        }
    }
}

/// A word of three letters.
pub open spec fn word(a: char, b: char, c: char) -> Seq<char> {
    seq![a, b, c]
}

/// The instruction that the mnemonic `w` makes of the address `a`, for the
/// seven mnemonics that take one.
pub open spec fn addressed(w: Seq<char>, a: Seq<char>) -> Option<Symbolic> {
    if w == word('a', 'd', 'd') {
        Some(LmcInstruction::Add(a))
    } else if w == word('s', 'u', 'b') {
        Some(LmcInstruction::Sub(a))
    } else if w == word('s', 't', 'a') {
        Some(LmcInstruction::Sta(a))
    } else if w == word('l', 'd', 'a') {
        Some(LmcInstruction::Lda(a))
    } else if w == word('b', 'r', 'a') {
        Some(LmcInstruction::Bra(a))
    } else if w == word('b', 'r', 'z') {
        Some(LmcInstruction::Brz(a))
    } else if w == word('b', 'r', 'p') {
        Some(LmcInstruction::Brp(a))
    } else {
        None
    }
}

/// The instruction that the mnemonic `w` names, for the three mnemonics that
/// take no operand.
pub open spec fn bare(w: Seq<char>) -> Option<Symbolic> {
    if w == word('i', 'n', 'p') {
        Some(LmcInstruction::Inp)
    } else if w == word('o', 'u', 't') {
        Some(LmcInstruction::Out)
    } else if w == word('h', 'l', 't') {
        Some(LmcInstruction::Hlt)
    } else {
        None
    }
}

/// The instruction that a mnemonic and an operand make.
///
/// The mnemonic counts without regard to the case of its letters and
/// without the white space around it; the operand counts without the white
/// space around it.
/// - `add`, `sub`, `sta`, `lda`, `bra`, `brz` and `brp` take the operand as
///   it is written, and fail with `MissingOperand` when there is none.
/// - `dat` fails with `MissingOperand` likewise, and with `InvalidOperand`
///   when the operand is no literal; it keeps the literal as text.
/// - `inp`, `out` and `hlt` need no operand and ignore one.
/// - Every other mnemonic fails with `UnknownOperator`.
pub open spec fn decode(mnemonic: Seq<char>, operand: Option<Seq<char>>) -> Result<
    Symbolic,
    ParseFailure,
> {
    let w = trim(lowercase(mnemonic));
    if addressed(w, Seq::empty()) is Some {
        match operand {
            Some(o) => Ok(addressed(w, trim(o))->0),
            None => Err(ParseFailure::MissingOperand),
        }
    } else if w == word('d', 'a', 't') {
        match operand {
            Some(o) => if literal_value(trim(o)) is Some {
                Ok(LmcInstruction::Dat(trim(o)))
            } else {
                Err(ParseFailure::InvalidOperand(trim(o)))
            },
            None => Err(ParseFailure::MissingOperand),
        }
    } else if bare(w) is Some {
        Ok(bare(w)->0)
    } else {
        Err(ParseFailure::UnknownOperator(w))
    }
}

/// The text that an optional string slice holds.
pub open spec fn text_view(t: Option<&str>) -> Option<Seq<char>> {
    match t {
        Some(s) => Some(s@),
        None => None,
    }
}

/// Whether `v` is the word `a b c`.
fn is_word(v: &Vec<char>, a: char, b: char, c: char) -> (result: bool)
    ensures
        result == (v@ == word(a, b, c)),
{
    let hit: bool = v.len() == 3 && v[0] == a && v[1] == b && v[2] == c;
    assert(hit ==> v@ =~= word(a, b, c));
    hit
}

/// The instruction that a mnemonic and an operand make.
pub fn decode_chars(mnemonic: &Vec<char>, operand: Option<&Vec<char>>) -> (result: Result<
    LmcInstruction<String, String>,
    TryIntoLmcInstructionError,
>)
    ensures
        match decode(
            mnemonic@,
            match operand {
                Some(o) => Some(o@),
                None => None,
            },
        ) {
            Ok(instruction) => result matches Ok(r) && r.deep_view() == instruction,
            Err(failure) => result matches Err(e) && e@ == failure,
        },
{
    let w: Vec<char> = trimmed(&lowercased(mnemonic));
    let is_add: bool = is_word(&w, 'a', 'd', 'd');
    let is_sub: bool = is_word(&w, 's', 'u', 'b');
    let is_sta: bool = is_word(&w, 's', 't', 'a');
    let is_lda: bool = is_word(&w, 'l', 'd', 'a');
    let is_bra: bool = is_word(&w, 'b', 'r', 'a');
    let is_brz: bool = is_word(&w, 'b', 'r', 'z');
    let is_brp: bool = is_word(&w, 'b', 'r', 'p');
    if is_add || is_sub || is_sta || is_lda || is_bra || is_brz || is_brp {
        match operand {
            None => Err(TryIntoLmcInstructionError::MissingOperand),
            Some(o) => {
                let a: String = text_of(&trimmed(o));
                if is_add {
                    Ok(LmcInstruction::Add(a))
                } else if is_sub {
                    Ok(LmcInstruction::Sub(a))
                } else if is_sta {
                    Ok(LmcInstruction::Sta(a))
                } else if is_lda {
                    Ok(LmcInstruction::Lda(a))
                } else if is_bra {
                    Ok(LmcInstruction::Bra(a))
                } else if is_brz {
                    Ok(LmcInstruction::Brz(a))
                } else {
                    Ok(LmcInstruction::Brp(a))
                }
            },
        }
    } else if is_word(&w, 'd', 'a', 't') {
        match operand {
            None => Err(TryIntoLmcInstructionError::MissingOperand),
            Some(o) => {
                let literal: Vec<char> = trimmed(o);
                match parse_literal(&literal) {
                    Some(_) => Ok(LmcInstruction::Dat(text_of(&literal))),
                    None => Err(TryIntoLmcInstructionError::InvalidOperand(text_of(&literal))),
                }
            },
        }
    } else if is_word(&w, 'i', 'n', 'p') {
        Ok(LmcInstruction::Inp)
    } else if is_word(&w, 'o', 'u', 't') {
        Ok(LmcInstruction::Out)
    } else if is_word(&w, 'h', 'l', 't') {
        Ok(LmcInstruction::Hlt)
    } else {
        Err(TryIntoLmcInstructionError::UnknownOperator(text_of(&w)))
    }
}

impl LmcInstruction<String, String> {
    /// The instruction that a mnemonic and an optional operand make, or the
    /// reason why they make none: see `decode`.
    pub fn try_from(value: (&str, Option<&str>)) -> (result: Result<
        Self,
        TryIntoLmcInstructionError,
    >)
        ensures
            match decode(value.0@, text_view(value.1)) {
                Ok(instruction) => result matches Ok(r) && r.deep_view() == instruction,
                Err(failure) => result matches Err(e) && e@ == failure,
            },
    {
        let mnemonic: Vec<char> = chars_of(value.0);
        match value.1 {
            Some(text) => {
                let operand: Vec<char> = chars_of(text);
                decode_chars(&mnemonic, Some(&operand))
            },
            None => decode_chars(&mnemonic, None),
        }
    }
}

/// The view of a `PreLinkerProgram`: the instructions in the order of the
/// source, and the label table.
pub struct Unresolved {
    pub code: Seq<Symbolic>,
    pub labels: Map<Seq<char>, usize>,
}

/// A program that is not linked yet: its instructions, indexed from zero in
/// the order of the source, and its label table.
pub struct PreLinkerProgram(pub Vec<LmcInstruction<String, String>>, pub StringHashMap<usize>);

impl View for PreLinkerProgram {
    type V = Unresolved;

    open spec fn view(&self) -> Unresolved {
        Unresolved { code: self.0.deep_view(), labels: self.1@ }
    }
}

impl Default for PreLinkerProgram {
    /// The program without instructions and without labels.
    fn default() -> (result: Self)
        ensures
            result@ == Unresolved::empty(),
    {
        let result = PreLinkerProgram(Vec::new(), StringHashMap::new());
        assert(result.0.deep_view() =~= Seq::<Symbolic>::empty());
        result
    }
}

/// What the parser has gathered after some lines: the program so far, and
/// the operands that began with `#`, in the order in which they came.
pub struct Draft {
    pub program: Unresolved,
    pub immediates: Seq<Seq<char>>,
}

impl Unresolved {
    /// The program without instructions and without labels.
    pub open spec fn empty() -> Unresolved {
        Unresolved { code: Seq::empty(), labels: Map::empty() }
    }

    /// The program with `instruction` appended, and named `label` unless
    /// `label` is blank or names an earlier cell already: the first
    /// definition of a name is the one that counts.
    pub open spec fn append(self, label: Seq<char>, instruction: Symbolic) -> Unresolved {
        Unresolved {
            code: self.code.push(instruction),
            labels: if is_blank(label) || self.labels.contains_key(trim(label)) {
                self.labels
            } else {
                self.labels.insert(trim(label), self.code.len() as usize)
            },
        }
    }

    /// The program after the operand `token` asked for a cell of its own.
    /// Where the table holds `token` already, nothing changes. Otherwise the
    /// text after the first character of `token` must be a literal; a `Dat`
    /// of that literal is appended, and `token` names it.
    pub open spec fn allocate(self, token: Seq<char>) -> Result<Unresolved, ParseFailure> {
        if self.labels.contains_key(token) {
            Ok(self)
        } else if literal_value(unmarked(token)) is None {
            Err(ParseFailure::InvalidOperand(token))
        } else {
            Ok(
                Unresolved {
                    code: self.code.push(LmcInstruction::Dat(unmarked(token))),
                    labels: self.labels.insert(token, self.code.len() as usize),
                },
            )
        }
    }
}

/// `token` without its first character.
pub open spec fn unmarked(token: Seq<char>) -> Seq<char> {
    if token.len() > 0 {
        token.skip(1)
    } else {
        token
    }
}

/// Whether `operand` asks for a cell of its own: it begins with `#`.
pub open spec fn is_immediate(operand: Seq<char>) -> bool {
    operand.len() > 0 && operand[0] == '#'
}

/// The three fields of a normalized line: the label, which is what stands
/// before the first space; the mnemonic, which is what follows up to the
/// next space; and the operand, which is the rest, if there is a next
/// space. A line without any space has no fields.
pub open spec fn fields(line: Seq<char>) -> Option<(Seq<char>, Seq<char>, Option<Seq<char>>)> {
    match split_once(line, ' ') {
        None => None,
        Some((label, rest)) => match split_once(rest, ' ') {
            Some((mnemonic, operand)) => Some((label, trim(mnemonic), Some(trim(operand)))),
            None => Some((label, trim(rest), None)),
        },
    }
}

impl Draft {
    /// The draft before the first line.
    pub open spec fn empty() -> Draft {
        Draft { program: Unresolved::empty(), immediates: Seq::empty() }
    }

    /// The draft after one more normalized line. A line without fields is
    /// passed over. Otherwise its mnemonic and operand must make an
    /// instruction, which is appended under the line's label, and an operand
    /// that begins with `#` is noted.
    pub open spec fn absorb(self, line: Seq<char>) -> Result<Draft, ParseFailure> {
        match fields(line) {
            None => Ok(self),
            Some((label, mnemonic, operand)) => match decode(mnemonic, operand) {
                Err(failure) => Err(failure),
                Ok(instruction) => Ok(
                    Draft {
                        program: self.program.append(label, instruction),
                        immediates: if operand is Some && is_immediate(operand->0) {
                            self.immediates.push(operand->0)
                        } else {
                            self.immediates
                        },
                    },
                ),
            },
        }
    }

    /// The draft after one more line of source: a line without code changes
    /// nothing, every other line is absorbed in its normalized form.
    pub open spec fn absorb_raw(self, line: Seq<char>) -> Result<Draft, ParseFailure> {
        match normalize(line) {
            None => Ok(self),
            Some(code) => self.absorb(code),
        }
    }
}

/// The draft that the given lines of source make, taken in order. The first
/// line that fails ends the work with its failure.
pub open spec fn assemble(lines: Seq<Seq<char>>) -> Result<Draft, ParseFailure>
    decreases lines.len(),
{
    if lines.len() == 0 {
        Ok(Draft::empty())
    } else {
        match assemble(lines.drop_last()) {
            Err(failure) => Err(failure),
            Ok(draft) => draft.absorb_raw(lines.last()),
        }
    }
}

/// The program after each of `tokens`, in order, asked for a cell of its
/// own. The first token that fails ends the work with its failure.
pub open spec fn synthesize(program: Unresolved, tokens: Seq<Seq<char>>) -> Result<
    Unresolved,
    ParseFailure,
>
    decreases tokens.len(),
{
    if tokens.len() == 0 {
        Ok(program)
    } else {
        match synthesize(program, tokens.drop_last()) {
            Err(failure) => Err(failure),
            Ok(grown) => grown.allocate(tokens.last()),
        }
    }
}

/// The unresolved program that a source text stands for: its lines are
/// assembled, and then each operand that began with `#` gets its cell, after
/// all the instructions that the source wrote out.
pub open spec fn parse_spec(source: Seq<char>) -> Result<Unresolved, ParseFailure> {
    match assemble(lines_of(source)) {
        Err(failure) => Err(failure),
        Ok(draft) => synthesize(draft.program, draft.immediates),
    }
}

/// A failure is final: lines that follow it do not change it.
pub proof fn lemma_assemble_failure_stays(lines: Seq<Seq<char>>, k: int)
    requires
        0 <= k <= lines.len(),
        assemble(lines.take(k)) is Err,
    ensures
        assemble(lines) == assemble(lines.take(k)),
    decreases lines.len(),
{
    if k == lines.len() {
        assert(lines.take(k) =~= lines);
    } else {
        assert(lines.drop_last().take(k) =~= lines.take(k));
        lemma_assemble_failure_stays(lines.drop_last(), k);
    }
}

/// A failure is final: tokens that follow it do not change it.
pub proof fn lemma_synthesize_failure_stays(program: Unresolved, tokens: Seq<Seq<char>>, k: int)
    requires
        0 <= k <= tokens.len(),
        synthesize(program, tokens.take(k)) is Err,
    ensures
        synthesize(program, tokens) == synthesize(program, tokens.take(k)),
    decreases tokens.len(),
{
    if k == tokens.len() {
        assert(tokens.take(k) =~= tokens);
    } else {
        assert(tokens.drop_last().take(k) =~= tokens.take(k));
        lemma_synthesize_failure_stays(program, tokens.drop_last(), k);
    }
}

/// Takes one normalized line into the program.
fn absorb_line(
    program: &mut PreLinkerProgram,
    immediates: &mut Vec<Vec<char>>,
    line: &Vec<char>,
) -> (result: Result<(), TryIntoLmcInstructionError>)
    ensures
        match (Draft { program: old(program)@, immediates: views(old(immediates)@) }).absorb(
            line@,
        ) {
            Ok(draft) => result is Ok && final(program)@ == draft.program && views(
                final(immediates)@,
            ) == draft.immediates,
            Err(failure) => result matches Err(e) && e@ == failure,
        },
{
    let (label, rest) = match cut(line, ' ') {
        Some(pair) => pair,
        None => {
            return Ok(());
        },
    };
    let (mnemonic, operand) = match cut(&rest, ' ') {
        Some((m, o)) => (trimmed(&m), Some(trimmed(&o))),
        None => (trimmed(&rest), None),
    };
    let instruction = match &operand {
        Some(o) => decode_chars(&mnemonic, Some(o)),
        None => decode_chars(&mnemonic, None),
    };
    let instruction = match instruction {
        Ok(instruction) => instruction,
        Err(e) => {
            return Err(e);
        },
    };
    match operand {
        Some(o) => {
            if o.len() > 0 && o[0] == '#' {
                immediates.push(o);
                assert(views(immediates@) =~= views(old(immediates)@).push(o@));
            }
        },
        None => {},
    }
    let index: usize = program.0.len();
    program.0.push(instruction);
    assert(program.0.deep_view() =~= old(program).0.deep_view().push(instruction.deep_view()));
    if !blank(&label) {
        let name: String = text_of(&trimmed(&label));
        if !program.1.contains_key(name.as_str()) {
            program.1.insert(name, index);
        }
    }
    Ok(())
}

/// Gives the operand `token` a cell of its own, unless it has one.
fn allocate_cell(program: &mut PreLinkerProgram, token: &Vec<char>) -> (result: Result<
    (),
    TryIntoLmcInstructionError,
>)
    ensures
        match old(program)@.allocate(token@) {
            Ok(grown) => result is Ok && final(program)@ == grown,
            Err(failure) => result matches Err(e) && e@ == failure,
        },
{
    let name: String = text_of(token);
    if program.1.contains_key(name.as_str()) {
        return Ok(());
    }
    let from: usize = if token.len() > 0 {
        1
    } else {
        0
    };
    let literal: Vec<char> = slice(token, from, token.len());
    assert(literal@ =~= unmarked(token@));
    if parse_literal(&literal).is_none() {
        return Err(TryIntoLmcInstructionError::InvalidOperand(name));
    }
    let index: usize = program.0.len();
    let cell: LmcInstruction<String, String> = LmcInstruction::Dat(text_of(&literal));
    program.0.push(cell);
    assert(program.0.deep_view() =~= old(program).0.deep_view().push(cell.deep_view()));
    program.1.insert(name, index);
    Ok(())
}

/// Parses a source text into an unresolved program.
///
/// Each line is normalized; a line without code, or without a space after
/// normalization, makes no instruction and takes no index. Every other line
/// is `<label> <mnemonic> [operand]` and makes the next instruction; a label
/// that is not blank names that instruction's index, unless the name is
/// taken. After the last line each operand that began with `#`, taken in the
/// order of the source, gets a `Dat` cell of its own behind the
/// instructions written so far, named by the operand's full text and
/// holding the literal behind the `#`, unless the table has that name
/// already.
///
/// The program that comes out is sound: its labels name cells of the
/// program and its `Dat` texts are literals.
///
/// The first line that is no instruction fails the parse with its reason;
/// after the lines, the first `#` operand without a literal fails it with
/// `InvalidOperand` of the operand. No operand is looked up in the label
/// table here.
pub fn parse(source: &str) -> (result: Result<PreLinkerProgram, TryIntoLmcInstructionError>)
    ensures
        match parse_spec(source@) {
            Ok(program) => result matches Ok(r) && r@ == program && program.sound(),
            Err(failure) => result matches Err(e) && e@ == failure,
        },
{
    let chars: Vec<char> = chars_of(source);
    let lines: Vec<Vec<char>> = split_lines(&chars);
    let mut program = PreLinkerProgram::default();
    let mut immediates: Vec<Vec<char>> = Vec::new();
    let mut i: usize = 0;
    assert(views(lines@).take(0) =~= Seq::<Seq<char>>::empty());
    assert(views(immediates@) =~= Seq::<Seq<char>>::empty());
    while i < lines.len()
        invariant
            i <= lines.len(),
            views(lines@) == lines_of(source@),
            assemble(views(lines@).take(i as int)) == Ok::<Draft, ParseFailure>(
                Draft { program: program@, immediates: views(immediates@) },
            ),
        decreases lines.len() - i,
    {
        let ghost seen = views(lines@).take(i as int + 1);
        assert(seen.drop_last() =~= views(lines@).take(i as int));
        assert(seen.last() == lines@[i as int]@);
        match normalize_chars(&lines[i]) {
            None => {},
            Some(code) => {
                match absorb_line(&mut program, &mut immediates, &code) {
                    Ok(()) => {},
                    Err(e) => {
                        proof {
                            lemma_assemble_failure_stays(views(lines@), i as int + 1);
                        }
                        return Err(e);
                    },
                }
            },
        }
        i += 1;
    }
    assert(views(lines@).take(lines.len() as int) =~= views(lines@));
    let ghost start = program@;
    let mut k: usize = 0;
    assert(views(immediates@).take(0) =~= Seq::<Seq<char>>::empty());
    while k < immediates.len()
        invariant
            k <= immediates.len(),
            assemble(lines_of(source@)) == Ok::<Draft, ParseFailure>(
                Draft { program: start, immediates: views(immediates@) },
            ),
            synthesize(start, views(immediates@).take(k as int)) == Ok::<Unresolved, ParseFailure>(
                program@,
            ),
        decreases immediates.len() - k,
    {
        let ghost seen = views(immediates@).take(k as int + 1);
        assert(seen.drop_last() =~= views(immediates@).take(k as int));
        assert(seen.last() == immediates@[k as int]@);
        match allocate_cell(&mut program, &immediates[k]) {
            Ok(()) => {},
            Err(e) => {
                proof {
                    lemma_synthesize_failure_stays(start, views(immediates@), k as int + 1);
                }
                return Err(e);
            },
        }
        k += 1;
    }
    proof {
        assert(views(immediates@).take(immediates.len() as int) =~= views(immediates@));
        assert(program@.code.len() == program.0.len());
        lemma_parsed_is_sound(source@);
    }
    Ok(program)
}

impl Unresolved {
    /// Whether the program is sound: every label names a cell of the
    /// program, and the text of every `Dat` is a literal.
    pub open spec fn sound(self) -> bool {
        &&& forall|name: Seq<char>| #[trigger]
            self.labels.contains_key(name) ==> self.labels[name] < self.code.len()
        &&& forall|i: int|
            0 <= i < self.code.len() && (#[trigger] self.code[i]) is Dat ==> literal_value(
                self.code[i]->Dat_0,
            ) is Some
    }
}

/// An operand that begins with `#` gets one cell and no more: once it has
/// its cell, asking again changes nothing.
pub proof fn lemma_allocate_once(program: Unresolved, token: Seq<char>)
    requires
        program.allocate(token) is Ok,
    ensures
        program.allocate(token)->Ok_0.labels.contains_key(token),
        program.allocate(token)->Ok_0.allocate(token) == program.allocate(token),
        program.labels.contains_key(token) ==> program.allocate(token)->Ok_0 == program,
        !program.labels.contains_key(token) ==> program.allocate(token)->Ok_0.code
            == program.code.push(LmcInstruction::Dat(unmarked(token))),
{
}

/// What `decode` makes of `dat` is a `Dat` of a literal.
proof fn lemma_decode_dat(mnemonic: Seq<char>, operand: Option<Seq<char>>)
    requires
        decode(mnemonic, operand) is Ok,
        decode(mnemonic, operand)->Ok_0 is Dat,
    ensures
        literal_value(decode(mnemonic, operand)->Ok_0->Dat_0) is Some,
{
    let w = trim(lowercase(mnemonic));
    if addressed(w, Seq::empty()) is Some {
        assert(!(addressed(w, trim(operand->0))->0 is Dat));
    }
}

/// Appending keeps a program sound, as long as its length can be an index.
proof fn lemma_append_sound(program: Unresolved, label: Seq<char>, instruction: Symbolic)
    requires
        program.sound(),
        program.code.len() < usize::MAX,
        instruction is Dat ==> literal_value(instruction->Dat_0) is Some,
    ensures
        program.append(label, instruction).sound(),
{
    let grown = program.append(label, instruction);
    assert forall|i: int| 0 <= i < grown.code.len() && (#[trigger] grown.code[i]) is Dat implies literal_value(
        grown.code[i]->Dat_0,
    ) is Some by {
        if i < program.code.len() {
            assert(grown.code[i] == program.code[i]);
        }
    }
}

/// The drafts of ever more lines hold ever more instructions, and each is
/// sound if it is short enough for its length to be an index.
proof fn lemma_assemble_sound(lines: Seq<Seq<char>>)
    requires
        assemble(lines) is Ok,
        assemble(lines)->Ok_0.program.code.len() <= usize::MAX,
    ensures
        assemble(lines)->Ok_0.program.sound(),
    decreases lines.len(),
{
    if lines.len() > 0 {
        let before = assemble(lines.drop_last())->Ok_0;
        let after = assemble(lines)->Ok_0;
        assert(before.program.code.len() <= after.program.code.len());
        lemma_assemble_sound(lines.drop_last());
        match normalize(lines.last()) {
            None => {},
            Some(code) => match fields(code) {
                None => {},
                Some((label, mnemonic, operand)) => {
                    let instruction = decode(mnemonic, operand)->Ok_0;
                    if instruction is Dat {
                        lemma_decode_dat(mnemonic, operand);
                    }
                    lemma_append_sound(before.program, label, instruction);
                },
            },
        }
    }
}

/// Giving operands their cells keeps a sound program sound.
proof fn lemma_synthesize_sound(program: Unresolved, tokens: Seq<Seq<char>>)
    requires
        program.sound(),
        synthesize(program, tokens) is Ok,
        synthesize(program, tokens)->Ok_0.code.len() <= usize::MAX,
    ensures
        synthesize(program, tokens)->Ok_0.sound(),
        program.code.len() <= synthesize(program, tokens)->Ok_0.code.len(),
    decreases tokens.len(),
{
    if tokens.len() > 0 {
        let before = synthesize(program, tokens.drop_last())->Ok_0;
        let after = synthesize(program, tokens)->Ok_0;
        assert(before.code.len() <= after.code.len());
        lemma_synthesize_sound(program, tokens.drop_last());
        if !before.labels.contains_key(tokens.last()) {
            assert forall|i: int| 0 <= i < after.code.len() && (#[trigger] after.code[i]) is Dat implies literal_value(
                after.code[i]->Dat_0,
            ) is Some by {
                if i < before.code.len() {
                    assert(after.code[i] == before.code[i]);
                }
            }
        }
    }
}

/// What the parser gives out is sound: every label in the table names a
/// cell of the program, the cells of `#` operands among them, and the text
/// of every `Dat` is a literal. The bound on the length holds of every
/// program that fits in memory.
pub proof fn lemma_parsed_is_sound(source: Seq<char>)
    requires
        parse_spec(source) is Ok,
        parse_spec(source)->Ok_0.code.len() <= usize::MAX,
    ensures
        parse_spec(source)->Ok_0.sound(),
{
    let draft = assemble(lines_of(source))->Ok_0;
    lemma_synthesize_grows(draft.program, draft.immediates);
    lemma_assemble_sound(lines_of(source));
    lemma_synthesize_sound(draft.program, draft.immediates);
}

/// Giving operands their cells never takes an instruction away.
proof fn lemma_synthesize_grows(program: Unresolved, tokens: Seq<Seq<char>>)
    requires
        synthesize(program, tokens) is Ok,
    ensures
        program.code.len() <= synthesize(program, tokens)->Ok_0.code.len(),
    decreases tokens.len(),
{
    if tokens.len() > 0 {
        lemma_synthesize_grows(program, tokens.drop_last());
    }
}

} // verus!
