use bigman::compiler::{
    compile, decode_instructions, encode_machine_code, normalize, resolve_labels,
    substitute_symbols, CompileError,
};
use bigman::computer::Computer;
use bigman::instructions::Instruction;

fn image(prefix: &[i32]) -> [i32; 100] {
    let mut m = [0i32; 100];
    m[..prefix.len()].copy_from_slice(prefix);
    m
}

fn tokens(v: &[&str]) -> Vec<Vec<char>> {
    v.iter().map(|t| t.chars().collect()).collect()
}

#[test]
fn output_alone() {
    let r = compile("OUT").unwrap();
    assert_eq!(r.len(), 100);
    assert_eq!(r[0], 902);
    assert!(r[1..].iter().all(|w| *w == 0));
}

#[test]
fn halt_alone_is_all_zeros() {
    assert_eq!(compile("HLT"), Ok([0i32; 100]));
    assert_eq!(compile("HLT"), compile(""));
}

#[test]
fn data_line_before_code_overlays_first_word() {
    // Instructions are placed from address 0 in decode order, so `LDA 0`
    // lands at address 0 and the data value 5 overwrites it there.
    let src = "a DAT 5\nLDA a\nHLT";
    let lines = normalize(src);
    let res = resolve_labels(&lines).unwrap();
    assert_eq!(res.data_address("a"), Some(0));
    assert_eq!(res.initial_value(0), Some(5));
    let ts = substitute_symbols(&lines, &res);
    assert_eq!(ts, tokens(&["a", "DAT", "5", "LDA", "0", "HLT"]));
    assert_eq!(compile(src), Ok(image(&[5])));
}

#[test]
fn data_lines_after_code() {
    let src = "LDA a\nADD b\nOUT\nHLT\na DAT 5\nb DAT 7";
    assert_eq!(compile(src), Ok(image(&[504, 105, 902, 0, 5, 7])));
}

#[test]
fn data_line_without_value_is_zero() {
    let lines = normalize("x DAT");
    let res = resolve_labels(&lines).unwrap();
    assert_eq!(res.data_address("x"), Some(0));
    assert_eq!(res.initial_value(0), Some(0));
    assert_eq!(res.initial_value(1), None);
}

#[test]
fn undefined_label_operand_fails() {
    assert_eq!(compile("BRA undefined"), Err(CompileError::ParseError));
    assert_eq!(compile("ADD undefined"), Err(CompileError::ParseError));
    assert_eq!(compile("SUB nowhere\nHLT"), Err(CompileError::ParseError));
}

#[test]
fn same_source_same_image() {
    let src = "start INP\nSTA x\nLDA x\nBRZ end\nSUB one\nBRA start\nend OUT\nHLT\nx DAT\none DAT 1";
    let a = compile(src);
    let b = compile(src);
    assert!(a.is_ok());
    assert_eq!(a, b);
}

#[test]
fn stages_one_by_one_match_compile() {
    let src = "start INP\nBRP start\nOUT\nHLT\nk DAT -3";
    let lines = normalize(src);
    let res = resolve_labels(&lines).unwrap();
    let ts = substitute_symbols(&lines, &res);
    let ins = decode_instructions(&ts).unwrap();
    assert_eq!(
        ins,
        vec![Instruction::Input, Instruction::BranchIfPositive(0), Instruction::Output, Instruction::Halt]
    );
    let m = encode_machine_code(&ins, &res.initial_values);
    assert_eq!(m, image(&[901, 800, 902, 0, -3]));
    assert_eq!(compile(src), Ok(m));
}

#[test]
fn encoding_table() {
    let src = "ADD 5\nSUB 3\nSTA 7\nLDA 8\nBRA 9\nBRZ 10\nBRP 99\nINP\nOUT\nHLT";
    assert_eq!(compile(src), Ok(image(&[105, 203, 307, 508, 609, 710, 899, 901, 902, 0])));
}

#[test]
fn add_and_sub_operands_are_unbounded() {
    assert_eq!(compile("ADD -150"), Ok(image(&[-50])));
    assert_eq!(compile("SUB 1000"), Ok(image(&[1200])));
    assert_eq!(compile("ADD 2147483647"), Ok(image(&[i32::MIN + 99])));
    assert_eq!(compile("ADD +4"), Ok(image(&[104])));
}

#[test]
fn address_out_of_range_fails() {
    assert_eq!(compile("LDA 100"), Err(CompileError::ParseError));
    assert_eq!(compile("STA -1"), Err(CompileError::ParseError));
    assert_eq!(compile("ADD 2147483648"), Err(CompileError::ParseError));
}

#[test]
fn operand_missing_at_end_fails() {
    assert_eq!(compile("ADD"), Err(CompileError::OperandUnderflow));
    assert_eq!(compile("OUT\nBRA"), Err(CompileError::OperandUnderflow));
}

#[test]
fn bad_data_value_fails() {
    assert_eq!(compile("x DAT five"), Err(CompileError::ParseError));
}

#[test]
fn more_lines_than_cells_fails() {
    let src = vec!["OUT"; 101].join("\n");
    assert_eq!(compile(&src), Err(CompileError::TooManyLines));
    let src = vec!["OUT"; 100].join("\n");
    assert_eq!(compile(&src), Ok([902i32; 100]));
}

#[test]
fn more_instructions_than_cells_gives_zero_image() {
    let line = vec!["OUT"; 11].join(" ");
    let src = vec![line.as_str(); 10].join("\n");
    assert_eq!(compile(&src), Ok([0i32; 100]));
}

#[test]
fn forward_reference_to_instruction_label() {
    let src = "BRA end\nOUT\nend HLT";
    let lines = normalize(src);
    let res = resolve_labels(&lines).unwrap();
    assert_eq!(res.cell_address("end"), Some(2));
    assert_eq!(res.cell_address("BRA"), None);
    assert_eq!(compile(src), Ok(image(&[602, 902, 0])));
}

#[test]
fn data_label_wins_over_instruction_label() {
    let src = "v OUT\nLDA v\nv DAT 4";
    let lines = normalize(src);
    let res = resolve_labels(&lines).unwrap();
    assert_eq!(res.cell_address("v"), Some(0));
    assert_eq!(res.data_address("v"), Some(2));
    let ts = substitute_symbols(&lines, &res);
    assert_eq!(ts, tokens(&["OUT", "LDA", "2", "DAT", "4"]));
}

#[test]
fn later_label_definition_wins() {
    let lines = normalize("x DAT 1\nx DAT 2");
    let res = resolve_labels(&lines).unwrap();
    assert_eq!(res.data_address("x"), Some(1));
}

#[test]
fn whitespace_and_line_endings() {
    assert_eq!(compile("  OUT\r\n\tINP  \n\nHLT"), Ok(image(&[902, 901])));
    let lines = normalize("a  b\tc d\n");
    assert_eq!(lines.len(), 2);
    assert_eq!(lines[0], tokens(&["a", "b", "c", "d"]));
    assert!(lines[1].is_empty());
}

#[test]
fn unknown_tokens_are_skipped() {
    assert_eq!(compile("foo OUT bar\nbaz"), Ok(image(&[902])));
}

#[test]
fn decode_errors() {
    assert_eq!(decode_instructions(&tokens(&["LDA", "x"])), Err(CompileError::ParseError));
    assert_eq!(decode_instructions(&tokens(&["INP", "LDA"])), Err(CompileError::OperandUnderflow));
    assert_eq!(decode_instructions(&tokens(&["ADD", "ADD", "OUT"])), Err(CompileError::ParseError));
    assert_eq!(
        decode_instructions(&tokens(&["BRZ", "+7", "5", "OUT"])),
        Ok(vec![Instruction::BranchIfZero(7), Instruction::Output])
    );
}

#[test]
fn computer_starts_empty_and_loads_program() {
    let mut c = Computer::new();
    assert_eq!(c.memory(), [0i32; 100]);
    let m = compile("INP\nOUT\nHLT").unwrap();
    c.load_program(m);
    assert_eq!(c.memory(), m);
    assert_eq!(c.memory()[1], 902);
}
