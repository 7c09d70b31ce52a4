use asmvm::parser::{
    parse_asm, get_aop, get_brop, ArithOpcode, BranchOpcode, DecodeError, DecodeErrorKind, Op,
    RegOrNum, Register,
};

fn decode(src: &str) -> Vec<Op> {
    parse_asm(src).expect("program should decode")
}

fn decode_err(src: &str) -> DecodeError {
    parse_asm(src).expect_err("program should fail to decode")
}

#[test]
fn decode_mov_immediate() {
    assert_eq!(decode("mov x1, #7"), vec![Op::Mov(Register::X1, RegOrNum::Num(7))]);
}

#[test]
fn decode_mov_register() {
    assert_eq!(decode("mov x1, x2"), vec![Op::Mov(Register::X1, RegOrNum::Reg(Register::X2))]);
}

#[test]
fn decode_cmp() {
    assert_eq!(decode("cmp x3, x4"), vec![Op::Cmp(Register::X3, Register::X4)]);
}

#[test]
fn decode_arith_all_opcodes() {
    let ops = decode("add x5, x6, x7\nsub x5, x6, x7\nmul x5, x6, x7\ndiv x5, x6, x7");
    assert_eq!(
        ops,
        vec![
            Op::Arith(ArithOpcode::Add, Register::X5, Register::X6, Register::X7),
            Op::Arith(ArithOpcode::Sub, Register::X5, Register::X6, Register::X7),
            Op::Arith(ArithOpcode::Mul, Register::X5, Register::X6, Register::X7),
            Op::Arith(ArithOpcode::Div, Register::X5, Register::X6, Register::X7),
        ]
    );
}

#[test]
fn decode_branch_all_predicates() {
    let ops = decode("b.eq #0\nb.lt #1\nb.gt #2");
    assert_eq!(
        ops,
        vec![
            Op::Branch(BranchOpcode::Beq, 0),
            Op::Branch(BranchOpcode::Blt, 1),
            Op::Branch(BranchOpcode::Bgt, 2),
        ]
    );
}

#[test]
fn comma_spacing_is_optional() {
    // Scenario: the second line has no spaces around its commas and must
    // still decode.
    let ops = decode("add x0, x1, x2\nmul x0,x1,x2");
    assert_eq!(
        ops,
        vec![
            Op::Arith(ArithOpcode::Add, Register::X0, Register::X1, Register::X2),
            Op::Arith(ArithOpcode::Mul, Register::X0, Register::X1, Register::X2),
        ]
    );
}

#[test]
fn missing_space_after_mnemonic_is_malformed() {
    // Scenario: "add" matches as the mnemonic, but the mandatory whitespace
    // before the first operand is absent.
    let e = decode_err("addx0, x1, x2");
    assert_eq!(e, DecodeError { line: 0, kind: DecodeErrorKind::MalformedOperand, col: 3 });
}

#[test]
fn unknown_mnemonic() {
    let e = decode_err("foo x0, x1");
    assert_eq!(e, DecodeError { line: 0, kind: DecodeErrorKind::UnknownMnemonic, col: 0 });
}

#[test]
fn invalid_register_name() {
    let e = decode_err("mov y0, #1");
    assert_eq!(e, DecodeError { line: 0, kind: DecodeErrorKind::InvalidRegister, col: 4 });
}

#[test]
fn register_ordinal_above_thirty_is_not_a_name() {
    // "x31" is not a reserved name; the longest match is "x3", after which
    // the stray "1" is no comma.
    let e = decode_err("mov x31, #1");
    assert_eq!(e, DecodeError { line: 0, kind: DecodeErrorKind::MalformedOperand, col: 6 });
}

#[test]
fn register_longest_match_wins() {
    // "x10" must not decode as "x1" followed by a stray "0".
    assert_eq!(decode("mov x10, x1"), vec![Op::Mov(Register::X10, RegOrNum::Reg(Register::X1))]);
    assert_eq!(decode("cmp x30, x0"), vec![Op::Cmp(Register::X30, Register::X0)]);
}

#[test]
fn trailing_input_is_rejected() {
    let e = decode_err("mov x0, #1 junk");
    assert_eq!(e, DecodeError { line: 0, kind: DecodeErrorKind::TrailingInput, col: 11 });
}

#[test]
fn trailing_whitespace_is_fine() {
    assert_eq!(decode("  mov x0, #1   "), vec![Op::Mov(Register::X0, RegOrNum::Num(1))]);
}

#[test]
fn blank_lines_are_skipped() {
    let ops = decode("\n   \nmov x0, #1\n\n");
    assert_eq!(ops, vec![Op::Mov(Register::X0, RegOrNum::Num(1))]);
}

#[test]
fn error_line_index_counts_blank_lines() {
    let e = decode_err("\nfoo");
    assert_eq!(e, DecodeError { line: 1, kind: DecodeErrorKind::UnknownMnemonic, col: 0 });
}

#[test]
fn immediate_at_maximum_decodes() {
    assert_eq!(
        decode("mov x0, #18446744073709551615"),
        vec![Op::Mov(Register::X0, RegOrNum::Num(u64::MAX))]
    );
}

#[test]
fn immediate_beyond_maximum_is_malformed() {
    let e = decode_err("mov x0, #18446744073709551616");
    assert_eq!(e, DecodeError { line: 0, kind: DecodeErrorKind::MalformedOperand, col: 9 });
}

#[test]
fn empty_input_decodes_to_empty_program() {
    assert_eq!(decode(""), vec![]);
}

#[test]
fn mov_operand_needs_hash_or_register() {
    let e = decode_err("mov x0, 5");
    assert_eq!(e, DecodeError { line: 0, kind: DecodeErrorKind::MalformedOperand, col: 8 });
}

#[test]
fn missing_comma_is_malformed() {
    let e = decode_err("cmp x0 x1");
    assert_eq!(e, DecodeError { line: 0, kind: DecodeErrorKind::MalformedOperand, col: 7 });
}

#[test]
fn branch_operand_needs_hash() {
    let e = decode_err("b.eq 4");
    assert_eq!(e, DecodeError { line: 0, kind: DecodeErrorKind::MalformedOperand, col: 5 });
}

#[test]
fn branch_operand_needs_digits() {
    let e = decode_err("b.lt #");
    assert_eq!(e, DecodeError { line: 0, kind: DecodeErrorKind::MalformedOperand, col: 6 });
}

#[test]
fn carriage_returns_are_whitespace() {
    let ops = decode("mov x0, #1\r\nmov x1, #2\r\n");
    assert_eq!(
        ops,
        vec![
            Op::Mov(Register::X0, RegOrNum::Num(1)),
            Op::Mov(Register::X1, RegOrNum::Num(2)),
        ]
    );
}

#[test]
fn decoding_stops_at_first_failure() {
    let e = decode_err("mov x0, #1\nbogus\nmov x1, #2");
    assert_eq!(e, DecodeError { line: 1, kind: DecodeErrorKind::UnknownMnemonic, col: 0 });
}

#[test]
fn get_aop_maps_the_four_mnemonics() {
    assert_eq!(get_aop("add"), Some(ArithOpcode::Add));
    assert_eq!(get_aop("sub"), Some(ArithOpcode::Sub));
    assert_eq!(get_aop("mul"), Some(ArithOpcode::Mul));
    assert_eq!(get_aop("div"), Some(ArithOpcode::Div));
    assert_eq!(get_aop("mov"), None);
    assert_eq!(get_aop(""), None);
}

#[test]
fn get_brop_maps_the_three_mnemonics() {
    assert_eq!(get_brop("b.eq"), Some(BranchOpcode::Beq));
    assert_eq!(get_brop("b.lt"), Some(BranchOpcode::Blt));
    assert_eq!(get_brop("b.gt"), Some(BranchOpcode::Bgt));
    assert_eq!(get_brop("b.ne"), None);
}

fn round_trip(op: Op) {
    let text: String = asmvm::parser::op_text(&op).into_iter().collect();
    assert_eq!(parse_asm(&text), Ok(vec![op]), "canonical text {:?}", text);
}

#[test]
fn serialize_then_decode_is_identity() {
    round_trip(Op::Mov(Register::X0, RegOrNum::Num(0)));
    round_trip(Op::Mov(Register::X9, RegOrNum::Num(u64::MAX)));
    round_trip(Op::Mov(Register::X10, RegOrNum::Reg(Register::X30)));
    round_trip(Op::Cmp(Register::X29, Register::X2));
    round_trip(Op::Arith(ArithOpcode::Add, Register::X1, Register::X2, Register::X3));
    round_trip(Op::Arith(ArithOpcode::Sub, Register::X11, Register::X20, Register::X19));
    round_trip(Op::Arith(ArithOpcode::Mul, Register::X0, Register::X0, Register::X0));
    round_trip(Op::Arith(ArithOpcode::Div, Register::X30, Register::X29, Register::X28));
    round_trip(Op::Branch(BranchOpcode::Beq, 0));
    round_trip(Op::Branch(BranchOpcode::Blt, 10));
    round_trip(Op::Branch(BranchOpcode::Bgt, u64::MAX));
}

#[test]
fn serializer_emits_canonical_text() {
    let text: String = asmvm::parser::op_text(&Op::Mov(Register::X10, RegOrNum::Num(42)))
        .into_iter()
        .collect();
    assert_eq!(text, "mov x10, #42");
    let text: String = asmvm::parser::op_text(&Op::Arith(
        ArithOpcode::Div,
        Register::X2,
        Register::X0,
        Register::X1,
    ))
    .into_iter()
    .collect();
    assert_eq!(text, "div x2, x0, x1");
    let text: String = asmvm::parser::op_text(&Op::Branch(BranchOpcode::Bgt, 7))
        .into_iter()
        .collect();
    assert_eq!(text, "b.gt #7");
}
