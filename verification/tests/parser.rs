use lmc::instruction::LmcInstruction;
use lmc::parser::{parse, PreLinkerProgram, TryIntoLmcInstructionError};

type Instr = LmcInstruction<String, String>;

fn s(text: &str) -> String {
    text.to_string()
}

fn table(program: &PreLinkerProgram, name: &str) -> Option<usize> {
    program.1.get(name).copied()
}

#[test]
fn each_mnemonic_is_recognized() {
    let x = Some("x");
    assert_eq!(Instr::try_from(("ADD", x)), Ok(LmcInstruction::Add(s("x"))));
    assert_eq!(Instr::try_from(("SUB", x)), Ok(LmcInstruction::Sub(s("x"))));
    assert_eq!(Instr::try_from(("STA", x)), Ok(LmcInstruction::Sta(s("x"))));
    assert_eq!(Instr::try_from(("LDA", x)), Ok(LmcInstruction::Lda(s("x"))));
    assert_eq!(Instr::try_from(("BRA", x)), Ok(LmcInstruction::Bra(s("x"))));
    assert_eq!(Instr::try_from(("BRZ", x)), Ok(LmcInstruction::Brz(s("x"))));
    assert_eq!(Instr::try_from(("BRP", x)), Ok(LmcInstruction::Brp(s("x"))));
    assert_eq!(Instr::try_from(("DAT", Some("12"))), Ok(LmcInstruction::Dat(s("12"))));
    assert_eq!(Instr::try_from(("INP", None)), Ok(LmcInstruction::Inp));
    assert_eq!(Instr::try_from(("OUT", None)), Ok(LmcInstruction::Out));
    assert_eq!(Instr::try_from(("HLT", None)), Ok(LmcInstruction::Hlt));
}

#[test]
fn mnemonics_ignore_case_and_surrounding_white_space() {
    assert_eq!(Instr::try_from(("add", Some("x"))), Ok(LmcInstruction::Add(s("x"))));
    assert_eq!(Instr::try_from(("aDd", Some("x"))), Ok(LmcInstruction::Add(s("x"))));
    assert_eq!(Instr::try_from((" hlt\t", None)), Ok(LmcInstruction::Hlt));
}

#[test]
fn operands_are_trimmed_and_otherwise_verbatim() {
    assert_eq!(Instr::try_from(("LDA", Some("  Loop  "))), Ok(LmcInstruction::Lda(s("Loop"))));
    assert_eq!(Instr::try_from(("LDA", Some("a b"))), Ok(LmcInstruction::Lda(s("a b"))));
    assert_eq!(Instr::try_from(("LDA", Some(""))), Ok(LmcInstruction::Lda(s(""))));
    assert_eq!(Instr::try_from(("DAT", Some(" -3 "))), Ok(LmcInstruction::Dat(s("-3"))));
}

#[test]
fn missing_operand() {
    for m in ["ADD", "SUB", "STA", "LDA", "BRA", "BRZ", "BRP", "DAT"] {
        assert_eq!(Instr::try_from((m, None)), Err(TryIntoLmcInstructionError::MissingOperand));
    }
}

#[test]
fn invalid_operand() {
    assert_eq!(
        Instr::try_from(("DAT", Some("ten"))),
        Err(TryIntoLmcInstructionError::InvalidOperand(s("ten")))
    );
    assert_eq!(
        Instr::try_from(("DAT", Some(" 1.5 "))),
        Err(TryIntoLmcInstructionError::InvalidOperand(s("1.5")))
    );
    assert_eq!(
        Instr::try_from(("DAT", Some(""))),
        Err(TryIntoLmcInstructionError::InvalidOperand(s("")))
    );
}

#[test]
fn unknown_operator() {
    assert_eq!(
        Instr::try_from(("MUL", Some("x"))),
        Err(TryIntoLmcInstructionError::UnknownOperator(s("mul")))
    );
    assert_eq!(
        Instr::try_from(("", None)),
        Err(TryIntoLmcInstructionError::UnknownOperator(s("")))
    );
    assert_eq!(
        Instr::try_from(("ADDX", Some("x"))),
        Err(TryIntoLmcInstructionError::UnknownOperator(s("addx")))
    );
}

#[test]
fn operand_of_a_bare_mnemonic_is_ignored() {
    assert_eq!(Instr::try_from(("HLT", Some("now"))), Ok(LmcInstruction::Hlt));
    assert_eq!(Instr::try_from(("INP", Some("x"))), Ok(LmcInstruction::Inp));
}

#[test]
fn empty_source_is_the_empty_program() {
    let program = parse("").unwrap();
    assert!(program.0.is_empty());
    assert_eq!(program.1.len(), 0);
    let default = PreLinkerProgram::default();
    assert!(default.0.is_empty());
    assert_eq!(default.1.len(), 0);
}

#[test]
fn labels_get_the_index_of_their_instruction() {
    let program = parse("start LDA x\n ADD x\nx DAT 4\nend HLT").unwrap();
    assert_eq!(
        program.0,
        vec![
            LmcInstruction::Lda(s("x")),
            LmcInstruction::Add(s("x")),
            LmcInstruction::Dat(s("4")),
            LmcInstruction::Hlt,
        ]
    );
    assert_eq!(table(&program, "start"), Some(0));
    assert_eq!(table(&program, "x"), Some(2));
    assert_eq!(table(&program, "end"), Some(3));
    assert_eq!(program.1.len(), 3);
}

#[test]
fn blank_and_comment_lines_take_no_index() {
    let program = parse("\n\n// header\n   \na INP\n\n// middle\nb OUT // write\n\n HLT\n").unwrap();
    assert_eq!(program.0, vec![LmcInstruction::Inp, LmcInstruction::Out, LmcInstruction::Hlt]);
    assert_eq!(table(&program, "a"), Some(0));
    assert_eq!(table(&program, "b"), Some(1));
}

#[test]
fn line_without_a_space_is_passed_over_and_takes_no_index() {
    let program = parse("a INP\nHLT\nb OUT\n HLT").unwrap();
    assert_eq!(program.0, vec![LmcInstruction::Inp, LmcInstruction::Out, LmcInstruction::Hlt]);
    assert_eq!(table(&program, "b"), Some(1));
    assert_eq!(table(&program, "HLT"), None);
}

#[test]
fn labels_are_case_sensitive() {
    let program = parse("x DAT 1\nX DAT 2").unwrap();
    assert_eq!(table(&program, "x"), Some(0));
    assert_eq!(table(&program, "X"), Some(1));
}

#[test]
fn first_definition_of_a_label_wins() {
    let program = parse("x DAT 1\nx DAT 2\n LDA x").unwrap();
    assert_eq!(table(&program, "x"), Some(0));
    assert_eq!(program.0.len(), 3);
}

#[test]
fn tabs_and_runs_of_spaces_separate_fields() {
    let program = parse("loop\tLDA   x   // load\n\tHLT\nx\t\tDAT\t5").unwrap();
    assert_eq!(
        program.0,
        vec![LmcInstruction::Lda(s("x")), LmcInstruction::Hlt, LmcInstruction::Dat(s("5"))]
    );
    assert_eq!(table(&program, "loop"), Some(0));
    assert_eq!(table(&program, "x"), Some(2));
}

#[test]
fn carriage_return_line_endings() {
    let program = parse("a INP\r\nb OUT\r\n HLT\r\n").unwrap();
    assert_eq!(program.0, vec![LmcInstruction::Inp, LmcInstruction::Out, LmcInstruction::Hlt]);
}

#[test]
fn immediate_allocates_one_cell_after_the_written_instructions() {
    let program = parse(" ADD #10\n OUT\n HLT").unwrap();
    assert_eq!(
        program.0,
        vec![
            LmcInstruction::Add(s("#10")),
            LmcInstruction::Out,
            LmcInstruction::Hlt,
            LmcInstruction::Dat(s("10")),
        ]
    );
    assert_eq!(table(&program, "#10"), Some(3));
    assert_eq!(program.1.len(), 1);
}

#[test]
fn immediates_are_deduplicated() {
    let program = parse(" ADD #5\n SUB #5\n ADD #6\n LDA #5\n HLT").unwrap();
    assert_eq!(program.0.len(), 7);
    assert_eq!(program.0[5], LmcInstruction::Dat(s("5")));
    assert_eq!(program.0[6], LmcInstruction::Dat(s("6")));
    assert_eq!(table(&program, "#5"), Some(5));
    assert_eq!(table(&program, "#6"), Some(6));
    assert_eq!(program.1.len(), 2);
}

#[test]
fn immediate_spelled_like_an_explicit_label_is_left_alone() {
    let program = parse("#7 DAT 1\n ADD #7\n HLT").unwrap();
    assert_eq!(program.0.len(), 3);
    assert_eq!(table(&program, "#7"), Some(0));
}

#[test]
fn immediate_after_a_bare_mnemonic_is_still_allocated() {
    let program = parse(" HLT #3").unwrap();
    assert_eq!(program.0, vec![LmcInstruction::Hlt, LmcInstruction::Dat(s("3"))]);
    assert_eq!(table(&program, "#3"), Some(1));
}

#[test]
fn immediate_without_a_literal_is_an_invalid_operand() {
    assert_eq!(
        parse(" ADD #ten\n HLT").err(),
        Some(TryIntoLmcInstructionError::InvalidOperand(s("#ten")))
    );
    assert_eq!(parse(" ADD #\n HLT").err(), Some(TryIntoLmcInstructionError::InvalidOperand(s("#"))));
}

#[test]
fn first_failing_line_aborts_the_parse() {
    assert_eq!(
        parse("a INP\n FOO 1\n ADD\n").err(),
        Some(TryIntoLmcInstructionError::UnknownOperator(s("foo")))
    );
    assert_eq!(parse("a INP\n ADD\n FOO 1\n").err(), Some(TryIntoLmcInstructionError::MissingOperand));
    assert_eq!(
        parse(" ADD #x\nx DAT y").err(),
        Some(TryIntoLmcInstructionError::InvalidOperand(s("y")))
    );
}

#[test]
fn second_line_with_leading_space_reads_its_first_word_as_mnemonic() {
    assert_eq!(
        parse("A INP\n B OUT\n HLT").err(),
        Some(TryIntoLmcInstructionError::UnknownOperator(s("b")))
    );
}

#[test]
fn operands_are_not_checked_against_the_table() {
    let program = parse(" LDA nowhere\n HLT").unwrap();
    assert_eq!(program.0[0], LmcInstruction::Lda(s("nowhere")));
    assert_eq!(table(&program, "nowhere"), None);
}

#[test]
fn parsing_is_repeatable() {
    let source = "a LDA #2\n ADD b\n STA b\n HLT\nb DAT -1";
    let first = parse(source).unwrap();
    let second = parse(source).unwrap();
    assert_eq!(first.0, second.0);
    for name in ["a", "b", "#2"] {
        assert_eq!(table(&first, name), table(&second, name));
    }
}
