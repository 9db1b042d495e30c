use lmc::error::LmcError;
use lmc::instruction::LmcInstruction;
use lmc::interpreter::{LmcInterpreter, LmcStatus};
use lmc::linker::{link, PostLinkerProgram};
use lmc::parser::parse;

type Cell = LmcInstruction<usize, i64>;

fn machine(source: &str) -> LmcInterpreter {
    LmcInterpreter::new(link(parse(source).unwrap()).unwrap())
}

fn raw(cells: Vec<Cell>) -> LmcInterpreter {
    LmcInterpreter::new(PostLinkerProgram(cells))
}

fn run(m: &mut LmcInterpreter, inputs: &[&str], limit: usize) -> (Vec<LmcStatus>, Vec<String>) {
    let mut statuses = Vec::new();
    let mut written = Vec::new();
    let mut next_input = 0;
    for _ in 0..limit {
        let line = if m.awaits_input() {
            next_input += 1;
            inputs[next_input - 1]
        } else {
            ""
        };
        match m.next(line).unwrap() {
            Some(status) => {
                if let Some(text) = status.output() {
                    written.push(text);
                }
                statuses.push(status);
            }
            None => return (statuses, written),
        }
    }
    panic!("no halt within {} steps", limit);
}

#[test]
fn starts_at_zero_with_zero() {
    let m = machine(" HLT");
    assert_eq!(m.program_counter(), 0);
    assert_eq!(m.accumulator(), 0);
    assert_eq!(m.program().0, vec![LmcInstruction::Hlt]);
}

#[test]
fn store_then_load_gives_the_stored_value_back() {
    let mut m = machine(" LDA #3\n STA x\n LDA #0\n LDA x\n HLT\nx DAT 0");
    let (statuses, _) = run(&mut m, &[], 10);
    assert_eq!(statuses.len(), 4);
    assert_eq!(statuses[0], LmcStatus { pc: 0, accumulator: 3, instruction: LmcInstruction::Lda(6) });
    assert_eq!(statuses[1], LmcStatus { pc: 1, accumulator: 3, instruction: LmcInstruction::Sta(5) });
    assert_eq!(statuses[2].accumulator, 0);
    assert_eq!(statuses[3], LmcStatus { pc: 3, accumulator: 3, instruction: LmcInstruction::Lda(5) });
    assert_eq!(m.program().0[5], LmcInstruction::Dat(3));
    assert_eq!(m.accumulator(), 3);
}

#[test]
fn add_and_sub() {
    let mut m = machine(" LDA a\n ADD b\n SUB c\n HLT\na DAT 10\nb DAT 32\nc DAT 50");
    let (statuses, _) = run(&mut m, &[], 10);
    let accumulators: Vec<i64> = statuses.iter().map(|s| s.accumulator).collect();
    assert_eq!(accumulators, vec![10, 42, -8]);
    let counters: Vec<usize> = statuses.iter().map(|s| s.pc).collect();
    assert_eq!(counters, vec![0, 1, 2]);
}

#[test]
fn bra_always_branches() {
    let mut m = machine(" BRA end\n LDA one\nend HLT\none DAT 1");
    let first = m.next("").unwrap().unwrap();
    assert_eq!(first, LmcStatus { pc: 0, accumulator: 0, instruction: LmcInstruction::Bra(2) });
    assert_eq!(m.program_counter(), 2);
    assert_eq!(m.next("").unwrap(), None);
}

fn counter_after_branch(mnemonic: &str, accumulator: i64) -> usize {
    let source = format!(" LDA v\n {} far\n HLT\n HLT\nfar HLT\nv DAT {}", mnemonic, accumulator);
    let mut m = machine(&source);
    m.next("").unwrap().unwrap();
    let status = m.next("").unwrap().unwrap();
    assert_eq!(status.pc, 1);
    assert_eq!(status.accumulator, accumulator);
    m.program_counter()
}

#[test]
fn brz_branches_only_on_zero() {
    assert_eq!(counter_after_branch("BRZ", 0), 4);
    assert_eq!(counter_after_branch("BRZ", 1), 2);
    assert_eq!(counter_after_branch("BRZ", -1), 2);
    assert_eq!(counter_after_branch("BRZ", i64::MAX), 2);
    assert_eq!(counter_after_branch("BRZ", i64::MIN), 2);
}

#[test]
fn brp_branches_on_zero_and_above() {
    assert_eq!(counter_after_branch("BRP", 0), 4);
    assert_eq!(counter_after_branch("BRP", 1), 4);
    assert_eq!(counter_after_branch("BRP", i64::MAX), 4);
    assert_eq!(counter_after_branch("BRP", -1), 2);
    assert_eq!(counter_after_branch("BRP", i64::MIN), 2);
}

#[test]
fn halt_produces_no_status_and_stays_halted() {
    let mut m = machine(" LDA #1\n HLT\n LDA #2");
    assert!(m.next("").unwrap().is_some());
    for _ in 0..5 {
        assert_eq!(m.next("ignored").unwrap(), None);
        assert_eq!(m.program_counter(), 1);
        assert_eq!(m.accumulator(), 1);
    }
}

#[test]
fn number_of_statuses_is_the_number_of_instructions_executed() {
    let mut m = machine("top LDA n\n BRZ end\n SUB #1\n STA n\n BRA top\nend HLT\nn DAT 3");
    let (statuses, _) = run(&mut m, &[], 100);
    assert_eq!(statuses.len(), 3 * 5 + 2);
    assert!(statuses.iter().all(|s| s.instruction != LmcInstruction::Hlt));
    assert_eq!(m.program().0[6], LmcInstruction::Dat(0));
}

#[test]
fn input_is_trimmed_and_read_as_a_literal() {
    for (line, value) in [("7", 7i64), (" 12 \n", 12), ("-3\r\n", -3), ("+0", 0)] {
        let mut m = machine(" INP\n HLT");
        assert!(m.awaits_input());
        let status = m.next(line).unwrap().unwrap();
        assert_eq!(status, LmcStatus { pc: 0, accumulator: value, instruction: LmcInstruction::Inp });
        assert!(!m.awaits_input());
    }
}

#[test]
fn malformed_input_fails_and_changes_nothing() {
    let mut m = machine(" INP\n HLT");
    assert_eq!(m.next(" seven \n"), Err(LmcError::MalformedInput("seven".to_string())));
    assert_eq!(m.next(""), Err(LmcError::MalformedInput(String::new())));
    assert_eq!(m.next("1.5"), Err(LmcError::MalformedInput("1.5".to_string())));
    assert_eq!(m.program_counter(), 0);
    assert_eq!(m.accumulator(), 0);
    assert!(m.next("8").unwrap().is_some());
    assert_eq!(m.accumulator(), 8);
}

#[test]
fn input_is_ignored_by_everything_but_inp() {
    let source = " LDA #4\n ADD #5\n OUT\n HLT";
    let mut a = machine(source);
    let mut b = machine(source);
    loop {
        let x = a.next("").unwrap();
        let y = b.next("not a number").unwrap();
        assert_eq!(x, y);
        if x.is_none() {
            break;
        }
    }
}

#[test]
fn out_writes_the_canonical_decimal_form() {
    let mut m = machine(" LDA a\n OUT\n LDA b\n OUT\n LDA #0\n OUT\n HLT\na DAT -0042\nb DAT +9223372036854775807");
    let (statuses, written) = run(&mut m, &[], 10);
    assert_eq!(written, vec!["-42", "9223372036854775807", "0"]);
    assert_eq!(statuses[0].output(), None);
    assert_eq!(statuses[1].output(), Some("-42".to_string()));
}

#[test]
fn echo_program_reads_adds_and_writes() {
    let mut m = machine(" INP\n STA a\n INP\n ADD a\n OUT\n HLT\na DAT 0");
    let (statuses, written) = run(&mut m, &["20", "22"], 10);
    assert_eq!(written, vec!["42"]);
    assert_eq!(statuses.len(), 5);
}

#[test]
fn executing_a_dat_is_a_type_mismatch() {
    let mut m = machine("x DAT 5\n HLT");
    assert_eq!(m.next(""), Err(LmcError::TypeMismatchAtAddress(0)));
    assert_eq!(m.program_counter(), 0);
}

#[test]
fn data_access_to_an_instruction_is_a_type_mismatch() {
    for source in ["a ADD a", "a SUB a", "a STA a", "a LDA a"] {
        let mut m = machine(source);
        assert_eq!(m.next(""), Err(LmcError::TypeMismatchAtAddress(0)));
        assert_eq!(m.program_counter(), 0);
        assert_eq!(m.accumulator(), 0);
    }
    let mut m = machine(" LDA end\nend HLT");
    assert_eq!(m.next(""), Err(LmcError::TypeMismatchAtAddress(1)));
}

#[test]
fn running_off_the_end_is_out_of_range() {
    let mut m = machine(" BRA end\nend OUT");
    assert!(m.next("").unwrap().is_some());
    assert!(m.next("").unwrap().is_some());
    assert_eq!(m.next(""), Err(LmcError::AddressOutOfRange(2)));
    let mut n = machine(" OUT");
    n.next("").unwrap();
    assert_eq!(n.next(""), Err(LmcError::AddressOutOfRange(1)));
    assert_eq!(raw(vec![]).next(""), Err(LmcError::AddressOutOfRange(0)));
}

#[test]
fn operand_beyond_the_program_is_out_of_range() {
    for cell in [LmcInstruction::Add(9), LmcInstruction::Sub(9), LmcInstruction::Sta(9), LmcInstruction::Lda(9)] {
        let mut m = raw(vec![cell, LmcInstruction::Hlt]);
        assert_eq!(m.next(""), Err(LmcError::AddressOutOfRange(9)));
        assert_eq!(m.program_counter(), 0);
    }
    let mut m = raw(vec![LmcInstruction::Bra(9)]);
    assert!(m.next("").unwrap().is_some());
    assert_eq!(m.next(""), Err(LmcError::AddressOutOfRange(9)));
}

#[test]
fn overflow_fails_and_changes_nothing() {
    let mut m = machine(" LDA big\n ADD #1\n HLT\nbig DAT 9223372036854775807");
    m.next("").unwrap();
    assert_eq!(m.next(""), Err(LmcError::ArithmeticOverflow(1)));
    assert_eq!(m.accumulator(), i64::MAX);
    assert_eq!(m.program_counter(), 1);
    let mut n = machine(" LDA small\n SUB #1\n HLT\nsmall DAT -9223372036854775808");
    n.next("").unwrap();
    assert_eq!(n.next(""), Err(LmcError::ArithmeticOverflow(1)));
    assert_eq!(n.accumulator(), i64::MIN);
}

#[test]
fn arithmetic_at_the_limits_succeeds() {
    let mut m = machine(" LDA big\n SUB big\n SUB big\n SUB #1\n HLT\nbig DAT 9223372036854775807");
    let (statuses, _) = run(&mut m, &[], 10);
    assert_eq!(statuses.last().unwrap().accumulator, i64::MIN);
}

#[test]
fn runs_of_a_program_without_input_are_repeatable() {
    let source = "top LDA n\n BRZ end\n SUB #1\n STA n\n OUT\n BRA top\nend HLT\nn DAT 4";
    let first = run(&mut machine(source), &[], 100);
    let second = run(&mut machine(source), &[], 100);
    assert_eq!(first, second);
    assert_eq!(first.1, vec!["3", "2", "1", "0"]);
}

#[test]
fn stored_data_is_not_reset() {
    let mut m = machine(" LDA #9\n STA x\n HLT\nx DAT 1");
    run(&mut m, &[], 10);
    let kept = m.program().clone();
    let mut again = LmcInterpreter::new(kept);
    assert_eq!(again.program().0[3], LmcInstruction::Dat(9));
    again.next("").unwrap();
    assert_eq!(again.accumulator(), 9);
}
