//! Decoder: turns lines of source text into typed instructions.
//!
//! Each line is decoded independently. The grammar per mnemonic is
//!   `mov Rd, (Rs | #imm)` / `cmp Ra, Rb` /
//!   `add|sub|mul|div Rd, Ra, Rb` / `b.eq|b.lt|b.gt #target`,
//! with a comma (optional whitespace around it) between operands, mandatory
//! whitespace after the mnemonic, and only whitespace allowed after the last
//! operand. Blank lines produce no instruction. The spec functions in this
//! module state that grammar over sequences of characters; every executable
//! decoding function is proved to return exactly what they say.

use vstd::prelude::*;
use vstd::string::StrSliceExecFns;

verus! {

/// Symbolic name of one of the 31 general-purpose registers.
#[derive(Debug, Clone, Copy, PartialEq, Eq, Structural)]
pub enum Register {
    X0,
    X1,
    X2,
    X3,
    X4,
    X5,
    X6,
    X7,
    X8,
    X9,
    X10,
    X11,
    X12,
    X13,
    X14,
    X15,
    X16,
    X17,
    X18,
    X19,
    X20,
    X21,
    X22,
    X23,
    X24,
    X25,
    X26,
    X27,
    X28,
    X29,
    X30,
}

/// The four arithmetic operations.
#[derive(Debug, Clone, Copy, PartialEq, Eq, Structural)]
pub enum ArithOpcode {
    Add,
    Sub,
    Mul,
    Div,
}

/// The three conditional-branch predicates.
#[derive(Debug, Clone, Copy, PartialEq, Eq, Structural)]
pub enum BranchOpcode {
    Beq,
    Blt,
    Bgt,
}

/// Second operand of a move: a register or an unsigned 64-bit literal.
#[derive(Debug, Clone, Copy, PartialEq, Eq, Structural)]
pub enum RegOrNum {
    Reg(Register),
    Num(u64),
}

/// One decoded instruction.
#[derive(Debug, Clone, Copy, PartialEq, Eq, Structural)]
pub enum Op {
    Mov(Register, RegOrNum),
    Cmp(Register, Register),
    Arith(ArithOpcode, Register, Register, Register),
    Branch(BranchOpcode, u64),
}

/// The four ways a line can fail to decode.
#[derive(Debug, Clone, Copy, PartialEq, Eq, Structural)]
pub enum DecodeErrorKind {
    UnknownMnemonic,
    MalformedOperand,
    InvalidRegister,
    TrailingInput,
}

/// A decode failure: the failure kind, the index of the offending line
/// (counting every input line, blank ones included) and the character
/// position within that line at which decoding failed.
#[derive(Debug, Clone, Copy, PartialEq, Eq, Structural)]
pub struct DecodeError {
    pub line: usize,
    pub kind: DecodeErrorKind,
    pub col: usize,
}

/// Ordinal of a register within the bank, in `0..31`.
pub open spec fn reg_index(r: Register) -> int {
    match r {
        Register::X0 => 0,
        Register::X1 => 1,
        Register::X2 => 2,
        Register::X3 => 3,
        Register::X4 => 4,
        Register::X5 => 5,
        Register::X6 => 6,
        Register::X7 => 7,
        Register::X8 => 8,
        Register::X9 => 9,
        Register::X10 => 10,
        Register::X11 => 11,
        Register::X12 => 12,
        Register::X13 => 13,
        Register::X14 => 14,
        Register::X15 => 15,
        Register::X16 => 16,
        Register::X17 => 17,
        Register::X18 => 18,
        Register::X19 => 19,
        Register::X20 => 20,
        Register::X21 => 21,
        Register::X22 => 22,
        Register::X23 => 23,
        Register::X24 => 24,
        Register::X25 => 25,
        Register::X26 => 26,
        Register::X27 => 27,
        Register::X28 => 28,
        Register::X29 => 29,
        Register::X30 => 30,
    }
}

/// The register with the given ordinal; ordinals at or above 31 map to `X0`.
pub open spec fn reg_from_ordinal(n: int) -> Register {
    if n == 0 {
        Register::X0
    } else if n == 1 {
        Register::X1
    } else if n == 2 {
        Register::X2
    } else if n == 3 {
        Register::X3
    } else if n == 4 {
        Register::X4
    } else if n == 5 {
        Register::X5
    } else if n == 6 {
        Register::X6
    } else if n == 7 {
        Register::X7
    } else if n == 8 {
        Register::X8
    } else if n == 9 {
        Register::X9
    } else if n == 10 {
        Register::X10
    } else if n == 11 {
        Register::X11
    } else if n == 12 {
        Register::X12
    } else if n == 13 {
        Register::X13
    } else if n == 14 {
        Register::X14
    } else if n == 15 {
        Register::X15
    } else if n == 16 {
        Register::X16
    } else if n == 17 {
        Register::X17
    } else if n == 18 {
        Register::X18
    } else if n == 19 {
        Register::X19
    } else if n == 20 {
        Register::X20
    } else if n == 21 {
        Register::X21
    } else if n == 22 {
        Register::X22
    } else if n == 23 {
        Register::X23
    } else if n == 24 {
        Register::X24
    } else if n == 25 {
        Register::X25
    } else if n == 26 {
        Register::X26
    } else if n == 27 {
        Register::X27
    } else if n == 28 {
        Register::X28
    } else if n == 29 {
        Register::X29
    } else if n == 30 {
        Register::X30
    } else {
        Register::X0
    }
}

impl Register {
    /// Ordinal of this register within the bank.
    pub fn index(&self) -> (i: usize)
        ensures
            i as int == reg_index(*self),
            i < 31,
    {
        match self {
            Register::X0 => 0,
            Register::X1 => 1,
            Register::X2 => 2,
            Register::X3 => 3,
            Register::X4 => 4,
            Register::X5 => 5,
            Register::X6 => 6,
            Register::X7 => 7,
            Register::X8 => 8,
            Register::X9 => 9,
            Register::X10 => 10,
            Register::X11 => 11,
            Register::X12 => 12,
            Register::X13 => 13,
            Register::X14 => 14,
            Register::X15 => 15,
            Register::X16 => 16,
            Register::X17 => 17,
            Register::X18 => 18,
            Register::X19 => 19,
            Register::X20 => 20,
            Register::X21 => 21,
            Register::X22 => 22,
            Register::X23 => 23,
            Register::X24 => 24,
            Register::X25 => 25,
            Register::X26 => 26,
            Register::X27 => 27,
            Register::X28 => 28,
            Register::X29 => 29,
            Register::X30 => 30,
        }
    }

    /// The register with the given ordinal.
    pub fn from_index(n: usize) -> (r: Register)
        requires
            n < 31,
        ensures
            r == reg_from_ordinal(n as int),
    {
        match n {
            0 => Register::X0,
            1 => Register::X1,
            2 => Register::X2,
            3 => Register::X3,
            4 => Register::X4,
            5 => Register::X5,
            6 => Register::X6,
            7 => Register::X7,
            8 => Register::X8,
            9 => Register::X9,
            10 => Register::X10,
            11 => Register::X11,
            12 => Register::X12,
            13 => Register::X13,
            14 => Register::X14,
            15 => Register::X15,
            16 => Register::X16,
            17 => Register::X17,
            18 => Register::X18,
            19 => Register::X19,
            20 => Register::X20,
            21 => Register::X21,
            22 => Register::X22,
            23 => Register::X23,
            24 => Register::X24,
            25 => Register::X25,
            26 => Register::X26,
            27 => Register::X27,
            28 => Register::X28,
            29 => Register::X29,
            _ => Register::X30,
        }
    }
}

/// Whitespace characters tolerated inside a line.
pub open spec fn is_space_char(c: char) -> bool {
    c == ' ' || c == '\t' || c == '\r' || c == '\n'
}

/// Decimal digit characters.
pub open spec fn is_digit_char(c: char) -> bool {
    48 <= c as u32 && c as u32 <= 57
}

/// Numeric value of a decimal digit character.
pub open spec fn digit_val(c: char) -> int {
    c as u32 - 48
}

/// The first position at or after `i` that does not hold whitespace, or the
/// end of the line.
pub open spec fn skip_spaces(s: Seq<char>, i: int) -> int
    decreases s.len() - i,
{
    if 0 <= i < s.len() && is_space_char(s[i]) {
        skip_spaces(s, i + 1)
    } else {
        i
    }
}

/// The token `t` occurs in `s` at position `i`.
pub open spec fn match_at(s: Seq<char>, i: int, t: Seq<char>) -> bool {
    &&& 0 <= i
    &&& i + t.len() <= s.len()
    &&& forall|j: int| 0 <= j < t.len() ==> s[i + j] == #[trigger] t[j]
}

/// The first position at or after `i` that does not hold a decimal digit, or
/// the end of the line.
pub open spec fn digit_run_end(s: Seq<char>, i: int) -> int
    decreases s.len() - i,
{
    if 0 <= i < s.len() && is_digit_char(s[i]) {
        digit_run_end(s, i + 1)
    } else {
        i
    }
}

pub proof fn lemma_digit_run_end_bounds(s: Seq<char>, i: int)
    requires
        0 <= i <= s.len(),
    ensures
        i <= digit_run_end(s, i) <= s.len(),
        forall|k: int| i <= k < digit_run_end(s, i) ==> is_digit_char(#[trigger] s[k]),
    decreases s.len() - i,
{
    if i < s.len() && is_digit_char(s[i]) {
        lemma_digit_run_end_bounds(s, i + 1);
    }
}

/// The value of the decimal numeral written in `s` between `i` and `e`.
pub open spec fn digits_value(s: Seq<char>, i: int, e: int) -> int
    decreases e - i,
{
    if i < e {
        digits_value(s, i, e - 1) * 10 + digit_val(s[e - 1])
    } else {
        0
    }
}

pub proof fn lemma_digits_value_monotonic(s: Seq<char>, i: int, e1: int, e2: int)
    requires
        i <= e1 <= e2,
        forall|k: int| i <= k < e2 ==> is_digit_char(#[trigger] s[k]),
    ensures
        0 <= digits_value(s, i, e1) <= digits_value(s, i, e2),
    decreases e2 - i,
{
    if i < e2 {
        if e1 == e2 {
            lemma_digits_value_monotonic(s, i, e2 - 1, e2 - 1);
        } else {
            lemma_digits_value_monotonic(s, i, e1, e2 - 1);
        }
    }
}

/// The decimal numeral starting at `i`: its value and the position after its
/// last digit. Fails when no digit stands at `i`, or when the value does not
/// fit in an unsigned 64-bit integer.
pub open spec fn spec_parse_number(s: Seq<char>, i: int) -> Result<
    (u64, int),
    (DecodeErrorKind, int),
> {
    if 0 <= i < s.len() && is_digit_char(s[i]) {
        let e = digit_run_end(s, i);
        if digits_value(s, i, e) <= u64::MAX {
            Ok((digits_value(s, i, e) as u64, e))
        } else {
            Err((DecodeErrorKind::MalformedOperand, i))
        }
    } else {
        Err((DecodeErrorKind::MalformedOperand, i))
    }
}

/// The register name starting at `i`, by longest match among the 31 reserved
/// names, and the position after it. Fails when no reserved name occurs.
pub open spec fn spec_parse_reg(s: Seq<char>, i: int) -> Result<
    (Register, int),
    (DecodeErrorKind, int),
> {
    if 0 <= i < s.len() && s[i] == 'x' && i + 1 < s.len() && is_digit_char(s[i + 1]) {
        if i + 2 < s.len() && is_digit_char(s[i + 2]) && digit_val(s[i + 1]) >= 1 && digit_val(
            s[i + 1],
        ) * 10 + digit_val(s[i + 2]) <= 30 {
            Ok((reg_from_ordinal(digit_val(s[i + 1]) * 10 + digit_val(s[i + 2])), i + 3))
        } else {
            Ok((reg_from_ordinal(digit_val(s[i + 1])), i + 2))
        }
    } else {
        Err((DecodeErrorKind::InvalidRegister, i))
    }
}

/// View of an executable decoding step's result, with the position widened.
pub open spec fn pos_result_view<T>(r: Result<(T, usize), (DecodeErrorKind, usize)>) -> Result<
    (T, int),
    (DecodeErrorKind, int),
> {
    match r {
        Ok((x, p)) => Ok((x, p as int)),
        Err((k, p)) => Err((k, p as int)),
    }
}

fn is_space(c: char) -> (r: bool)
    ensures
        r == is_space_char(c),
{
    c == ' ' || c == '\t' || c == '\r' || c == '\n'
}

fn is_digit(c: char) -> (r: bool)
    ensures
        r == is_digit_char(c),
{
    let u: u32 = c as u32;
    48 <= u && u <= 57
}

fn digit_value(c: char) -> (d: u8)
    requires
        is_digit_char(c),
    ensures
        d as int == digit_val(c),
        d <= 9,
{
    let u: u32 = c as u32;
    (u - 48) as u8
}

fn skip_ws(line: &Vec<char>, pos: usize) -> (r: usize)
    requires
        pos <= line@.len(),
    ensures
        r as int == skip_spaces(line@, pos as int),
        pos <= r <= line@.len(),
        r < line@.len() ==> !is_space_char(line@[r as int]),
{
    let mut i: usize = pos;
    while i < line.len() && is_space(line[i])
        invariant
            pos <= i <= line@.len(),
            skip_spaces(line@, pos as int) == skip_spaces(line@, i as int),
        decreases line@.len() - i,
    {
        i = i + 1;
    }
    i
}

fn match_token(line: &Vec<char>, pos: usize, tok: &str) -> (r: bool)
    requires
        pos <= line@.len(),
    ensures
        r == match_at(line@, pos as int, tok@),
{
    let tn = tok.unicode_len();
    if line.len() - pos < tn {
        return false;
    }
    let mut k: usize = 0;
    while k < tn
        invariant
            k <= tn,
            tn == tok@.len(),
            line@.len() <= usize::MAX,
            pos + tn <= line@.len(),
            forall|j: int| 0 <= j < k ==> line@[pos + j] == #[trigger] tok@[j],
        decreases tn - k,
    {
        if line[pos + k] != tok.get_char(k) {
            assert(!match_at(line@, pos as int, tok@));
            return false;
        }
        k = k + 1;
    }
    true
}

fn parse_number(line: &Vec<char>, pos: usize) -> (r: Result<(u64, usize), (DecodeErrorKind, usize)>)
    requires
        pos <= line@.len(),
    ensures
        pos_result_view(r) == spec_parse_number(line@, pos as int),
        r matches Ok((n, p)) ==> pos <= p <= line@.len(),
{
    if !(pos < line.len() && is_digit(line[pos])) {
        return Err((DecodeErrorKind::MalformedOperand, pos));
    }
    proof {
        lemma_digit_run_end_bounds(line@, pos as int);
    }
    let mut cur: usize = pos;
    let mut acc: u64 = 0;
    while cur < line.len() && is_digit(line[cur])
        invariant
            pos < line@.len(),
            is_digit_char(line@[pos as int]),
            pos <= cur <= line@.len(),
            digit_run_end(line@, pos as int) == digit_run_end(line@, cur as int),
            acc as int == digits_value(line@, pos as int, cur as int),
            forall|k: int|
                pos <= k < digit_run_end(line@, pos as int) ==> is_digit_char(#[trigger] line@[k]),
            cur <= digit_run_end(line@, pos as int) <= line@.len(),
        decreases line@.len() - cur,
    {
        proof {
            lemma_digit_run_end_bounds(line@, cur + 1);
        }
        let d = digit_value(line[cur]);
        let next = match acc.checked_mul(10) {
            Some(x) => x.checked_add(d as u64),
            None => None,
        };
        match next {
            Some(v) => {
                acc = v;
            },
            None => {
                proof {
                    assert(digits_value(line@, pos as int, cur + 1) > u64::MAX);
                    lemma_digits_value_monotonic(
                        line@,
                        pos as int,
                        cur + 1,
                        digit_run_end(line@, pos as int),
                    );
                }
                return Err((DecodeErrorKind::MalformedOperand, pos));
            },
        }
        cur = cur + 1;
    }
    Ok((acc, cur))
}

fn parse_reg(line: &Vec<char>, pos: usize) -> (r: Result<
    (Register, usize),
    (DecodeErrorKind, usize),
>)
    requires
        pos <= line@.len(),
    ensures
        pos_result_view(r) == spec_parse_reg(line@, pos as int),
        r matches Ok((x, p)) ==> pos <= p <= line@.len(),
{
    if !(pos < line.len() && line[pos] == 'x') {
        return Err((DecodeErrorKind::InvalidRegister, pos));
    }
    if !(pos + 1 < line.len() && is_digit(line[pos + 1])) {
        return Err((DecodeErrorKind::InvalidRegister, pos));
    }
    let d1 = digit_value(line[pos + 1]);
    if pos + 2 < line.len() && is_digit(line[pos + 2]) && d1 >= 1 {
        let d2 = digit_value(line[pos + 2]);
        let n: usize = (d1 as usize) * 10 + (d2 as usize);
        if n <= 30 {
            return Ok((Register::from_index(n), pos + 3));
        }
    }
    Ok((Register::from_index(d1 as usize), pos + 2))
}

/// At least one whitespace character, then any further whitespace: the
/// mandatory separation between a mnemonic and its first operand.
pub open spec fn spec_mandatory_space(s: Seq<char>, i: int) -> Result<int, (DecodeErrorKind, int)> {
    if 0 <= i < s.len() && is_space_char(s[i]) {
        Ok(skip_spaces(s, i))
    } else {
        Err((DecodeErrorKind::MalformedOperand, i))
    }
}

/// A comma between operands, with optional whitespace on both sides.
pub open spec fn spec_comma(s: Seq<char>, i: int) -> Result<int, (DecodeErrorKind, int)> {
    let j = skip_spaces(s, i);
    if 0 <= j < s.len() && s[j] == ',' {
        Ok(skip_spaces(s, j + 1))
    } else {
        Err((DecodeErrorKind::MalformedOperand, j))
    }
}

/// The operands of `mov`, starting right after the mnemonic: a destination
/// register, a comma, then either `#` and a decimal immediate or a second
/// register, told apart by one character of lookahead.
pub open spec fn spec_parse_mov(s: Seq<char>, i: int) -> Result<(Op, int), (DecodeErrorKind, int)> {
    match spec_mandatory_space(s, i) {
        Err(e) => Err(e),
        Ok(j) => match spec_parse_reg(s, j) {
            Err(e) => Err(e),
            Ok((rd, j2)) => match spec_comma(s, j2) {
                Err(e) => Err(e),
                Ok(j3) => if 0 <= j3 < s.len() && s[j3] == '#' {
                    match spec_parse_number(s, j3 + 1) {
                        Err(e) => Err(e),
                        Ok((n, j4)) => Ok((Op::Mov(rd, RegOrNum::Num(n)), j4)),
                    }
                } else if 0 <= j3 < s.len() && s[j3] == 'x' {
                    match spec_parse_reg(s, j3) {
                        Err(e) => Err(e),
                        Ok((rs, j4)) => Ok((Op::Mov(rd, RegOrNum::Reg(rs)), j4)),
                    }
                } else {
                    Err((DecodeErrorKind::MalformedOperand, j3))
                },
            },
        },
    }
}

/// The operands of `cmp`: two registers separated by a comma.
pub open spec fn spec_parse_cmp(s: Seq<char>, i: int) -> Result<(Op, int), (DecodeErrorKind, int)> {
    match spec_mandatory_space(s, i) {
        Err(e) => Err(e),
        Ok(j) => match spec_parse_reg(s, j) {
            Err(e) => Err(e),
            Ok((r1, j2)) => match spec_comma(s, j2) {
                Err(e) => Err(e),
                Ok(j3) => match spec_parse_reg(s, j3) {
                    Err(e) => Err(e),
                    Ok((r2, j4)) => Ok((Op::Cmp(r1, r2), j4)),
                },
            },
        },
    }
}

/// The operands of an arithmetic mnemonic: three registers separated by
/// commas — destination first, then the two sources.
pub open spec fn spec_parse_arith(opcode: ArithOpcode, s: Seq<char>, i: int) -> Result<
    (Op, int),
    (DecodeErrorKind, int),
> {
    match spec_mandatory_space(s, i) {
        Err(e) => Err(e),
        Ok(j) => match spec_parse_reg(s, j) {
            Err(e) => Err(e),
            Ok((rd, j2)) => match spec_comma(s, j2) {
                Err(e) => Err(e),
                Ok(j3) => match spec_parse_reg(s, j3) {
                    Err(e) => Err(e),
                    Ok((ra, j4)) => match spec_comma(s, j4) {
                        Err(e) => Err(e),
                        Ok(j5) => match spec_parse_reg(s, j5) {
                            Err(e) => Err(e),
                            Ok((rb, j6)) => Ok((Op::Arith(opcode, rd, ra, rb), j6)),
                        },
                    },
                },
            },
        },
    }
}

/// The operand of a branch mnemonic: `#` then a decimal line index.
pub open spec fn spec_parse_branch(opcode: BranchOpcode, s: Seq<char>, i: int) -> Result<
    (Op, int),
    (DecodeErrorKind, int),
> {
    match spec_mandatory_space(s, i) {
        Err(e) => Err(e),
        Ok(j) => if 0 <= j < s.len() && s[j] == '#' {
            match spec_parse_number(s, j + 1) {
                Err(e) => Err(e),
                Ok((n, j2)) => Ok((Op::Branch(opcode, n), j2)),
            }
        } else {
            Err((DecodeErrorKind::MalformedOperand, j))
        },
    }
}

/// What one line of source text decodes to: no instruction for a blank line,
/// one instruction, or a failure with its kind and character position. The
/// line's leading whitespace is skipped, the mnemonic selects the operand
/// grammar, and after the operands only whitespace may remain.
pub open spec fn decode_line(s: Seq<char>) -> Result<Option<Op>, (DecodeErrorKind, int)> {
    let i = skip_spaces(s, 0);
    if i >= s.len() {
        Ok(None)
    } else {
        let parsed = if match_at(s, i, "mov"@) {
            spec_parse_mov(s, i + "mov"@.len())
        } else if match_at(s, i, "cmp"@) {
            spec_parse_cmp(s, i + "cmp"@.len())
        } else if match_at(s, i, "add"@) {
            spec_parse_arith(ArithOpcode::Add, s, i + "add"@.len())
        } else if match_at(s, i, "sub"@) {
            spec_parse_arith(ArithOpcode::Sub, s, i + "sub"@.len())
        } else if match_at(s, i, "mul"@) {
            spec_parse_arith(ArithOpcode::Mul, s, i + "mul"@.len())
        } else if match_at(s, i, "div"@) {
            spec_parse_arith(ArithOpcode::Div, s, i + "div"@.len())
        } else if match_at(s, i, "b.eq"@) {
            spec_parse_branch(BranchOpcode::Beq, s, i + "b.eq"@.len())
        } else if match_at(s, i, "b.lt"@) {
            spec_parse_branch(BranchOpcode::Blt, s, i + "b.lt"@.len())
        } else if match_at(s, i, "b.gt"@) {
            spec_parse_branch(BranchOpcode::Bgt, s, i + "b.gt"@.len())
        } else {
            Err((DecodeErrorKind::UnknownMnemonic, i))
        };
        match parsed {
            Err(e) => Err(e),
            Ok((op, j)) => {
                let t = skip_spaces(s, j);
                if t < s.len() {
                    Err((DecodeErrorKind::TrailingInput, t))
                } else {
                    Ok(Some(op))
                }
            },
        }
    }
}

/// View of an executable position result, with the position widened.
pub open spec fn pos_view(r: Result<usize, (DecodeErrorKind, usize)>) -> Result<
    int,
    (DecodeErrorKind, int),
> {
    match r {
        Ok(p) => Ok(p as int),
        Err((k, p)) => Err((k, p as int)),
    }
}

fn mandatory_space(line: &Vec<char>, pos: usize) -> (r: Result<usize, (DecodeErrorKind, usize)>)
    requires
        pos <= line@.len(),
    ensures
        pos_view(r) == spec_mandatory_space(line@, pos as int),
        r matches Ok(p) ==> pos <= p <= line@.len(),
{
    if pos < line.len() && is_space(line[pos]) {
        Ok(skip_ws(line, pos))
    } else {
        Err((DecodeErrorKind::MalformedOperand, pos))
    }
}

fn expect_comma(line: &Vec<char>, pos: usize) -> (r: Result<usize, (DecodeErrorKind, usize)>)
    requires
        pos <= line@.len(),
    ensures
        pos_view(r) == spec_comma(line@, pos as int),
        r matches Ok(p) ==> pos <= p <= line@.len(),
{
    let j = skip_ws(line, pos);
    if j < line.len() && line[j] == ',' {
        Ok(skip_ws(line, j + 1))
    } else {
        Err((DecodeErrorKind::MalformedOperand, j))
    }
}

/// Decode the operands of `mov`, starting right after the mnemonic.
pub fn parse_mov(line: &Vec<char>, pos: usize) -> (r: Result<
    (Op, usize),
    (DecodeErrorKind, usize),
>)
    requires
        pos <= line@.len(),
    ensures
        pos_result_view(r) == spec_parse_mov(line@, pos as int),
        r matches Ok((op, p)) ==> p <= line@.len(),
{
    let j = match mandatory_space(line, pos) {
        Ok(j) => j,
        Err(e) => {
            return Err(e);
        },
    };
    let (rd, j2) = match parse_reg(line, j) {
        Ok(x) => x,
        Err(e) => {
            return Err(e);
        },
    };
    let j3 = match expect_comma(line, j2) {
        Ok(j) => j,
        Err(e) => {
            return Err(e);
        },
    };
    if j3 < line.len() && line[j3] == '#' {
        match parse_number(line, j3 + 1) {
            Ok((n, j4)) => Ok((Op::Mov(rd, RegOrNum::Num(n)), j4)),
            Err(e) => Err(e),
        }
    } else if j3 < line.len() && line[j3] == 'x' {
        match parse_reg(line, j3) {
            Ok((rs, j4)) => Ok((Op::Mov(rd, RegOrNum::Reg(rs)), j4)),
            Err(e) => Err(e),
        }
    } else {
        Err((DecodeErrorKind::MalformedOperand, j3))
    }
}

/// Decode the operands of `cmp`, starting right after the mnemonic.
pub fn parse_cmp(line: &Vec<char>, pos: usize) -> (r: Result<
    (Op, usize),
    (DecodeErrorKind, usize),
>)
    requires
        pos <= line@.len(),
    ensures
        pos_result_view(r) == spec_parse_cmp(line@, pos as int),
        r matches Ok((op, p)) ==> p <= line@.len(),
{
    let j = match mandatory_space(line, pos) {
        Ok(j) => j,
        Err(e) => {
            return Err(e);
        },
    };
    let (r1, j2) = match parse_reg(line, j) {
        Ok(x) => x,
        Err(e) => {
            return Err(e);
        },
    };
    let j3 = match expect_comma(line, j2) {
        Ok(j) => j,
        Err(e) => {
            return Err(e);
        },
    };
    match parse_reg(line, j3) {
        Ok((r2, j4)) => Ok((Op::Cmp(r1, r2), j4)),
        Err(e) => Err(e),
    }
}

/// Decode the operands of an arithmetic mnemonic, starting right after it.
pub fn parse_arith(opcode: ArithOpcode, line: &Vec<char>, pos: usize) -> (r: Result<
    (Op, usize),
    (DecodeErrorKind, usize),
>)
    requires
        pos <= line@.len(),
    ensures
        pos_result_view(r) == spec_parse_arith(opcode, line@, pos as int),
        r matches Ok((op, p)) ==> p <= line@.len(),
{
    let j = match mandatory_space(line, pos) {
        Ok(j) => j,
        Err(e) => {
            return Err(e);
        },
    };
    let (rd, j2) = match parse_reg(line, j) {
        Ok(x) => x,
        Err(e) => {
            return Err(e);
        },
    };
    let j3 = match expect_comma(line, j2) {
        Ok(j) => j,
        Err(e) => {
            return Err(e);
        },
    };
    let (ra, j4) = match parse_reg(line, j3) {
        Ok(x) => x,
        Err(e) => {
            return Err(e);
        },
    };
    let j5 = match expect_comma(line, j4) {
        Ok(j) => j,
        Err(e) => {
            return Err(e);
        },
    };
    match parse_reg(line, j5) {
        Ok((rb, j6)) => Ok((Op::Arith(opcode, rd, ra, rb), j6)),
        Err(e) => Err(e),
    }
}

/// Decode the operand of a branch mnemonic, starting right after it.
pub fn parse_branch(opcode: BranchOpcode, line: &Vec<char>, pos: usize) -> (r: Result<
    (Op, usize),
    (DecodeErrorKind, usize),
>)
    requires
        pos <= line@.len(),
    ensures
        pos_result_view(r) == spec_parse_branch(opcode, line@, pos as int),
        r matches Ok((op, p)) ==> p <= line@.len(),
{
    let j = match mandatory_space(line, pos) {
        Ok(j) => j,
        Err(e) => {
            return Err(e);
        },
    };
    if j < line.len() && line[j] == '#' {
        match parse_number(line, j + 1) {
            Ok((n, j2)) => Ok((Op::Branch(opcode, n), j2)),
            Err(e) => Err(e),
        }
    } else {
        Err((DecodeErrorKind::MalformedOperand, j))
    }
}

/// View of an executable line result, with the position widened.
pub open spec fn line_result_view(r: Result<Option<Op>, (DecodeErrorKind, usize)>) -> Result<
    Option<Op>,
    (DecodeErrorKind, int),
> {
    match r {
        Ok(o) => Ok(o),
        Err((k, p)) => Err((k, p as int)),
    }
}

/// Decode one line: no instruction for a blank line, one instruction, or the
/// failure kind and the character position at which decoding failed.
pub fn parse_line(line: &Vec<char>) -> (r: Result<Option<Op>, (DecodeErrorKind, usize)>)
    ensures
        line_result_view(r) == decode_line(line@),
{
    proof {
        reveal_strlit("mov");
        reveal_strlit("cmp");
        reveal_strlit("add");
        reveal_strlit("sub");
        reveal_strlit("mul");
        reveal_strlit("div");
        reveal_strlit("b.eq");
        reveal_strlit("b.lt");
        reveal_strlit("b.gt");
    }
    let i = skip_ws(line, 0);
    if i == line.len() {
        return Ok(None);
    }
    let parsed = if match_token(line, i, "mov") {
        parse_mov(line, i + 3)
    } else if match_token(line, i, "cmp") {
        parse_cmp(line, i + 3)
    } else if match_token(line, i, "add") {
        parse_arith(ArithOpcode::Add, line, i + 3)
    } else if match_token(line, i, "sub") {
        parse_arith(ArithOpcode::Sub, line, i + 3)
    } else if match_token(line, i, "mul") {
        parse_arith(ArithOpcode::Mul, line, i + 3)
    } else if match_token(line, i, "div") {
        parse_arith(ArithOpcode::Div, line, i + 3)
    } else if match_token(line, i, "b.eq") {
        parse_branch(BranchOpcode::Beq, line, i + 4)
    } else if match_token(line, i, "b.lt") {
        parse_branch(BranchOpcode::Blt, line, i + 4)
    } else if match_token(line, i, "b.gt") {
        parse_branch(BranchOpcode::Bgt, line, i + 4)
    } else {
        return Err((DecodeErrorKind::UnknownMnemonic, i));
    };
    match parsed {
        Err(e) => Err(e),
        Ok((op, j)) => {
            let t = skip_ws(line, j);
            if t < line.len() {
                Err((DecodeErrorKind::TrailingInput, t))
            } else {
                Ok(Some(op))
            }
        },
    }
}

/// The position of the first line break at or after `i`, or the end of the
/// input.
pub open spec fn line_break(s: Seq<char>, i: int) -> int
    decreases s.len() - i,
{
    if 0 <= i < s.len() && s[i] != '\n' {
        line_break(s, i + 1)
    } else {
        i
    }
}

pub proof fn lemma_line_break_bounds(s: Seq<char>, i: int)
    requires
        0 <= i <= s.len(),
    ensures
        i <= line_break(s, i) <= s.len(),
    decreases s.len() - i,
{
    if i < s.len() && s[i] != '\n' {
        lemma_line_break_bounds(s, i + 1);
    }
}

/// The lines of the input from position `i` on. Line breaks separate lines;
/// a line break at the very end closes the last line rather than opening an
/// empty one.
pub open spec fn split_lines_from(s: Seq<char>, i: int) -> Seq<Seq<char>>
    decreases s.len() - i,
    via split_lines_from_decreases
{
    if !(0 <= i < s.len()) {
        Seq::empty()
    } else {
        let e = line_break(s, i);
        if e >= s.len() {
            seq![s.subrange(i, s.len() as int)]
        } else {
            seq![s.subrange(i, e)] + split_lines_from(s, e + 1)
        }
    }
}

#[via_fn]
proof fn split_lines_from_decreases(s: Seq<char>, i: int) {
    if 0 <= i < s.len() {
        lemma_line_break_bounds(s, i);
    }
}

fn split_lines_exec(chars: &Vec<char>) -> (lines: Vec<Vec<char>>)
    ensures
        lines@.map_values(|l: Vec<char>| l@) == split_lines_from(chars@, 0),
{
    let n = chars.len();
    let mut lines: Vec<Vec<char>> = Vec::new();
    let mut i: usize = 0;
    while i < n
        invariant
            i <= n,
            n == chars@.len(),
            lines@.map_values(|l: Vec<char>| l@) + split_lines_from(chars@, i as int)
                == split_lines_from(chars@, 0),
        decreases n - i,
    {
        let mut e: usize = i;
        while e < n && chars[e] != '\n'
            invariant
                i <= e <= n,
                n == chars@.len(),
                line_break(chars@, i as int) == line_break(chars@, e as int),
            decreases n - e,
        {
            e = e + 1;
        }
        let mut cur: Vec<char> = Vec::new();
        let mut k: usize = i;
        while k < e
            invariant
                i <= k <= e <= n,
                n == chars@.len(),
                cur@ == chars@.subrange(i as int, k as int),
            decreases e - k,
        {
            cur.push(chars[k]);
            proof {
                assert(cur@ =~= chars@.subrange(i as int, k + 1));
            }
            k = k + 1;
        }
        let ghost m0 = lines@.map_values(|l: Vec<char>| l@);
        let ghost next: int = if e < n {
            e + 1
        } else {
            n as int
        };
        proof {
            if e < n {
                assert(split_lines_from(chars@, i as int) == seq![cur@] + split_lines_from(
                    chars@,
                    next,
                ));
            } else {
                assert(seq![cur@] + split_lines_from(chars@, next) =~= seq![cur@]);
                assert(split_lines_from(chars@, i as int) == seq![cur@] + split_lines_from(
                    chars@,
                    next,
                ));
            }
        }
        lines.push(cur);
        proof {
            assert(lines@.map_values(|l: Vec<char>| l@) =~= m0 + seq![cur@]);
            assert((m0 + seq![cur@]) + split_lines_from(chars@, next) =~= m0 + (seq![cur@]
                + split_lines_from(chars@, next)));
        }
        if e < n {
            i = e + 1;
        } else {
            i = n;
        }
    }
    proof {
        assert(lines@.map_values(|l: Vec<char>| l@) + split_lines_from(chars@, n as int)
            =~= lines@.map_values(|l: Vec<char>| l@));
    }
    lines
}

fn str_to_chars(s: &str) -> (v: Vec<char>)
    ensures
        v@ == s@,
{
    let n = s.unicode_len();
    let mut v: Vec<char> = Vec::new();
    let mut i: usize = 0;
    while i < n
        invariant
            i <= n,
            n == s@.len(),
            v@.len() == i,
            forall|k: int| 0 <= k < i ==> v@[k] == s@[k],
        decreases n - i,
    {
        v.push(s.get_char(i));
        i = i + 1;
    }
    proof {
        assert(v@ =~= s@);
    }
    v
}

/// The instructions of the given lines from index `i` on, in source order
/// with blank lines omitted; or the first failure, with the index of its
/// line, its kind and its character position.
pub open spec fn decode_from(lines: Seq<Seq<char>>, i: int) -> Result<
    Seq<Op>,
    (int, DecodeErrorKind, int),
>
    decreases lines.len() - i,
{
    if !(0 <= i < lines.len()) {
        Ok(Seq::empty())
    } else {
        match decode_line(lines[i]) {
            Err((k, p)) => Err((i, k, p)),
            Ok(None) => decode_from(lines, i + 1),
            Ok(Some(op)) => match decode_from(lines, i + 1) {
                Ok(rest) => Ok(seq![op] + rest),
                Err(e) => Err(e),
            },
        }
    }
}

/// What a whole source text decodes to: one instruction per non-blank line,
/// in source order, or the first line's failure.
pub open spec fn spec_decode_program(s: Seq<char>) -> Result<Seq<Op>, (int, DecodeErrorKind, int)> {
    decode_from(split_lines_from(s, 0), 0)
}

pub open spec fn prepend_ops(pre: Seq<Op>, r: Result<Seq<Op>, (int, DecodeErrorKind, int)>) -> Result<
    Seq<Op>,
    (int, DecodeErrorKind, int),
> {
    match r {
        Ok(rest) => Ok(pre + rest),
        Err(e) => Err(e),
    }
}

/// View of a whole decode's result, with line index and position widened.
pub open spec fn parse_result_view(r: Result<Vec<Op>, DecodeError>) -> Result<
    Seq<Op>,
    (int, DecodeErrorKind, int),
> {
    match r {
        Ok(v) => Ok(v@),
        Err(e) => Err((e.line as int, e.kind, e.col as int)),
    }
}

/// Decode a whole source text into a program: one instruction per non-blank
/// line, in source order. Decoding stops at the first failing line; no
/// partial program is returned.
pub fn parse_asm(input: &str) -> (r: Result<Vec<Op>, DecodeError>)
    ensures
        parse_result_view(r) == spec_decode_program(input@),
{
    let chars = str_to_chars(input);
    let lines = split_lines_exec(&chars);
    let ghost ls: Seq<Seq<char>> = lines@.map_values(|l: Vec<char>| l@);
    let mut ops: Vec<Op> = Vec::new();
    let mut i: usize = 0;
    while i < lines.len()
        invariant
            i <= lines@.len(),
            ls == lines@.map_values(|l: Vec<char>| l@),
            ls == split_lines_from(input@, 0),
            prepend_ops(ops@, decode_from(ls, i as int)) == decode_from(ls, 0),
        decreases lines@.len() - i,
    {
        let ghost ops0 = ops@;
        match parse_line(&lines[i]) {
            Ok(Some(op)) => {
                ops.push(op);
                proof {
                    assert(ls[i as int] == lines@[i as int]@);
                    assert(ops@ =~= ops0 + seq![op]);
                    match decode_from(ls, i + 1) {
                        Ok(rest) => {
                            assert(ops0 + (seq![op] + rest) =~= (ops0 + seq![op]) + rest);
                        },
                        Err(e) => {},
                    }
                }
            },
            Ok(None) => {
                proof {
                    assert(ls[i as int] == lines@[i as int]@);
                }
            },
            Err((k, p)) => {
                proof {
                    assert(ls[i as int] == lines@[i as int]@);
                    assert(decode_from(ls, i as int) == Err::<Seq<Op>, (int, DecodeErrorKind, int)>(
                        (i as int, k, p as int),
                    ));
                }
                return Err(DecodeError { line: i, kind: k, col: p });
            },
        }
        i = i + 1;
    }
    proof {
        assert(ops@ + Seq::<Op>::empty() =~= ops@);
    }
    Ok(ops)
}

/// The arithmetic opcode a mnemonic selects, for exactly the four
/// arithmetic mnemonics.
pub open spec fn spec_get_aop(s: Seq<char>) -> Option<ArithOpcode> {
    if s == "add"@ {
        Some(ArithOpcode::Add)
    } else if s == "sub"@ {
        Some(ArithOpcode::Sub)
    } else if s == "mul"@ {
        Some(ArithOpcode::Mul)
    } else if s == "div"@ {
        Some(ArithOpcode::Div)
    } else {
        None
    }
}

/// The branch opcode a mnemonic selects, for exactly the three branch
/// mnemonics.
pub open spec fn spec_get_brop(s: Seq<char>) -> Option<BranchOpcode> {
    if s == "b.eq"@ {
        Some(BranchOpcode::Beq)
    } else if s == "b.lt"@ {
        Some(BranchOpcode::Blt)
    } else if s == "b.gt"@ {
        Some(BranchOpcode::Bgt)
    } else {
        None
    }
}

fn str_eq_whole(a: &str, b: &str) -> (r: bool)
    ensures
        r == (a@ == b@),
{
    let n = a.unicode_len();
    if n != b.unicode_len() {
        return false;
    }
    let mut i: usize = 0;
    while i < n
        invariant
            i <= n,
            n == a@.len(),
            n == b@.len(),
            forall|k: int| 0 <= k < i ==> a@[k] == b@[k],
        decreases n - i,
    {
        if a.get_char(i) != b.get_char(i) {
            return false;
        }
        i = i + 1;
    }
    proof {
        assert(a@ =~= b@);
    }
    true
}

/// The arithmetic opcode selected by a mnemonic, if it is one of the four.
pub fn get_aop(op: &str) -> (r: Option<ArithOpcode>)
    ensures
        r == spec_get_aop(op@),
{
    if str_eq_whole(op, "add") {
        Some(ArithOpcode::Add)
    } else if str_eq_whole(op, "sub") {
        Some(ArithOpcode::Sub)
    } else if str_eq_whole(op, "mul") {
        Some(ArithOpcode::Mul)
    } else if str_eq_whole(op, "div") {
        Some(ArithOpcode::Div)
    } else {
        None
    }
}

/// The branch opcode selected by a mnemonic, if it is one of the three.
pub fn get_brop(op: &str) -> (r: Option<BranchOpcode>)
    ensures
        r == spec_get_brop(op@),
{
    if str_eq_whole(op, "b.eq") {
        Some(BranchOpcode::Beq)
    } else if str_eq_whole(op, "b.lt") {
        Some(BranchOpcode::Blt)
    } else if str_eq_whole(op, "b.gt") {
        Some(BranchOpcode::Bgt)
    } else {
        None
    }
}

/// The character of a decimal digit.
pub open spec fn digit_char(d: int) -> char {
    if d == 0 {
        '0'
    } else if d == 1 {
        '1'
    } else if d == 2 {
        '2'
    } else if d == 3 {
        '3'
    } else if d == 4 {
        '4'
    } else if d == 5 {
        '5'
    } else if d == 6 {
        '6'
    } else if d == 7 {
        '7'
    } else if d == 8 {
        '8'
    } else {
        '9'
    }
}

/// The canonical decimal numeral of an unsigned value, most significant
/// digit first, with no leading zeros.
pub open spec fn num_chars(n: int) -> Seq<char>
    decreases n,
{
    if n < 10 {
        seq![digit_char(n)]
    } else {
        num_chars(n / 10) + seq![digit_char(n % 10)]
    }
}

pub proof fn lemma_num_chars_digits(n: int)
    requires
        0 <= n,
    ensures
        num_chars(n).len() >= 1,
        forall|k: int|
            0 <= k < num_chars(n).len() ==> is_digit_char(#[trigger] num_chars(n)[k]),
        digits_value(num_chars(n), 0, num_chars(n).len() as int) == n,
    decreases n,
{
    if n < 10 {
        assert(digit_val(digit_char(n)) == n);
        assert(is_digit_char(digit_char(n)));
        assert(digits_value(num_chars(n), 0, 0) == 0);
        assert(num_chars(n)[0] == digit_char(n));
        assert(digits_value(num_chars(n), 0, 1) == digits_value(num_chars(n), 0, 0) * 10
            + digit_val(num_chars(n)[0]));
    } else {
        lemma_num_chars_digits(n / 10);
        let t = num_chars(n / 10);
        let whole = num_chars(n);
        let ln = t.len() as int;
        assert(whole == t + seq![digit_char(n % 10)]);
        assert(whole.len() == ln + 1);
        assert(whole[ln] == digit_char(n % 10));
        assert(is_digit_char(digit_char(n % 10)));
        assert forall|k: int| 0 <= k < whole.len() implies is_digit_char(#[trigger] whole[k]) by {
            if k < ln {
                assert(whole[k] == t[k]);
            }
        }
        assert forall|k: int| 0 <= k < ln implies whole[0 + k] == #[trigger] t[k] by {
            assert(whole[k] == t[k]);
        }
        lemma_digits_value_embed(whole, 0, t, ln);
        assert(digit_val(digit_char(n % 10)) == n % 10);
        assert(digits_value(whole, 0, ln + 1) == digits_value(whole, 0, ln) * 10 + digit_val(
            whole[ln],
        ));
        assert(n / 10 * 10 + n % 10 == n);
    }
}

/// A numeral's value read through an embedding: when the characters of `t`
/// up to `len` stand in `s` from position `i` on, both spell the same value.
pub proof fn lemma_digits_value_embed(s: Seq<char>, i: int, t: Seq<char>, len: int)
    requires
        0 <= i,
        0 <= len <= t.len(),
        i + len <= s.len(),
        forall|k: int| 0 <= k < len ==> s[i + k] == #[trigger] t[k],
    ensures
        digits_value(s, i, i + len) == digits_value(t, 0, len),
    decreases len,
{
    if len > 0 {
        lemma_digits_value_embed(s, i, t, len - 1);
    }
}

pub proof fn lemma_digit_run_end_exact(s: Seq<char>, i: int, e: int)
    requires
        0 <= i <= e <= s.len(),
        forall|k: int| i <= k < e ==> is_digit_char(#[trigger] s[k]),
        e < s.len() ==> !is_digit_char(s[e]),
    ensures
        digit_run_end(s, i) == e,
    decreases e - i,
{
    if i < e {
        lemma_digit_run_end_exact(s, i + 1, e);
    }
}

/// Round trip for numerals: decoding the canonical numeral of any unsigned
/// 64-bit value, embedded at position `i` with no digit right after it,
/// yields the value back.
pub proof fn lemma_parse_number_round_trip(s: Seq<char>, i: int, n: u64)
    requires
        0 <= i,
        i + num_chars(n as int).len() <= s.len(),
        forall|k: int|
            0 <= k < num_chars(n as int).len() ==> s[i + k] == #[trigger] num_chars(n as int)[k],
        i + num_chars(n as int).len() < s.len() ==> !is_digit_char(
            s[i + num_chars(n as int).len()],
        ),
    ensures
        spec_parse_number(s, i) == Ok::<(u64, int), (DecodeErrorKind, int)>(
            (n, i + num_chars(n as int).len()),
        ),
{
    let t = num_chars(n as int);
    lemma_num_chars_digits(n as int);
    assert forall|k: int| i <= k < i + t.len() implies is_digit_char(#[trigger] s[k]) by {
        assert(s[i + (k - i)] == t[k - i]);
    }
    lemma_digit_run_end_exact(s, i, i + t.len());
    lemma_digits_value_embed(s, i, t, t.len() as int);
    assert(s[i + 0] == t[0]);
}

/// The canonical name of a register: `x` followed by its decimal ordinal.
pub open spec fn reg_name(r: Register) -> Seq<char> {
    seq!['x'] + num_chars(reg_index(r))
}

pub proof fn lemma_reg_ordinal_inverse(r: Register)
    ensures
        0 <= reg_index(r) <= 30,
        reg_from_ordinal(reg_index(r)) == r,
{
}

/// Round trip for register names: decoding the canonical name of any
/// register, embedded at position `i` with no digit right after it, yields
/// the register back.
pub proof fn lemma_parse_reg_round_trip(s: Seq<char>, i: int, r: Register)
    requires
        0 <= i,
        i + reg_name(r).len() <= s.len(),
        forall|k: int| 0 <= k < reg_name(r).len() ==> s[i + k] == #[trigger] reg_name(r)[k],
        i + reg_name(r).len() < s.len() ==> !is_digit_char(s[i + reg_name(r).len()]),
    ensures
        spec_parse_reg(s, i) == Ok::<(Register, int), (DecodeErrorKind, int)>(
            (r, i + reg_name(r).len()),
        ),
{
    let idx = reg_index(r);
    lemma_reg_ordinal_inverse(r);
    lemma_num_chars_digits(idx);
    assert(s[i + 0] == reg_name(r)[0]);
    assert(reg_name(r)[0] == 'x');
    if idx < 10 {
        assert(num_chars(idx) == seq![digit_char(idx)]);
        assert(reg_name(r).len() == 2);
        assert(s[i + 1] == reg_name(r)[1]);
        assert(reg_name(r)[1] == digit_char(idx));
        assert(digit_val(s[i + 1]) == idx);
        assert(is_digit_char(s[i + 1]));
        assert(i + 2 < s.len() ==> !is_digit_char(s[i + 2]));
    } else {
        let hi = idx / 10;
        let lo = idx % 10;
        assert(hi >= 1 && hi <= 3 && 0 <= lo <= 9);
        assert(num_chars(hi) == seq![digit_char(hi)]);
        assert(num_chars(idx) == num_chars(hi) + seq![digit_char(lo)]);
        assert(reg_name(r).len() == 3);
        assert(s[i + 1] == reg_name(r)[1]);
        assert(s[i + 2] == reg_name(r)[2]);
        assert(reg_name(r)[1] == digit_char(hi));
        assert(reg_name(r)[2] == digit_char(lo));
        assert(digit_val(s[i + 1]) == hi);
        assert(digit_val(s[i + 2]) == lo);
        assert(is_digit_char(s[i + 1]));
        assert(is_digit_char(s[i + 2]));
        assert(hi * 10 + lo == idx);
    }
}

/// The canonical mnemonic of an arithmetic opcode.
pub open spec fn arith_mnemonic(op: ArithOpcode) -> Seq<char> {
    match op {
        ArithOpcode::Add => "add"@,
        ArithOpcode::Sub => "sub"@,
        ArithOpcode::Mul => "mul"@,
        ArithOpcode::Div => "div"@,
    }
}

/// The canonical mnemonic of a branch opcode.
pub open spec fn branch_mnemonic(op: BranchOpcode) -> Seq<char> {
    match op {
        BranchOpcode::Beq => "b.eq"@,
        BranchOpcode::Blt => "b.lt"@,
        BranchOpcode::Bgt => "b.gt"@,
    }
}

/// The canonical text of one instruction: the mnemonic, one space, and the
/// operands separated by `", "`, with immediates and branch targets written
/// as `#` plus their decimal numeral.
pub open spec fn canon_op_text(op: Op) -> Seq<char> {
    match op {
        Op::Mov(d, RegOrNum::Num(n)) => "mov "@ + reg_name(d) + ", #"@ + num_chars(n as int),
        Op::Mov(d, RegOrNum::Reg(rs)) => "mov "@ + reg_name(d) + ", "@ + reg_name(rs),
        Op::Cmp(a, b) => "cmp "@ + reg_name(a) + ", "@ + reg_name(b),
        Op::Arith(aop, d, a, b) => arith_mnemonic(aop) + " "@ + reg_name(d) + ", "@ + reg_name(a)
            + ", "@ + reg_name(b),
        Op::Branch(bop, t) => branch_mnemonic(bop) + " #"@ + num_chars(t as int),
    }
}

proof fn lemma_canon_cmp(a: Register, b: Register)
    ensures
        decode_line(canon_op_text(Op::Cmp(a, b))) == Ok::<Option<Op>, (DecodeErrorKind, int)>(
            Some(Op::Cmp(a, b)),
        ),
{
    reveal_strlit("cmp ");
    reveal_strlit(", ");
    reveal_strlit("mov");
    reveal_strlit("cmp");
    let na = reg_name(a);
    let nb = reg_name(b);
    let la = na.len() as int;
    let lb = nb.len() as int;
    let s = canon_op_text(Op::Cmp(a, b));
    let p1 = "cmp "@ + na;
    let p2 = p1 + ", "@;
    assert(s == p2 + nb);
    assert(s.len() == 6 + la + lb);
    assert forall|k: int| 0 <= k < 4 implies s[k] == "cmp "@[k] by {
        assert(s[k] == p2[k]);
        assert(p2[k] == p1[k]);
        assert(p1[k] == "cmp "@[k]);
    }
    assert forall|k: int| 0 <= k < la implies s[4 + k] == #[trigger] na[k] by {
        assert(s[4 + k] == p2[4 + k]);
        assert(p2[4 + k] == p1[4 + k]);
        assert(p1[4 + k] == na[k]);
    }
    assert(s[4 + la] == ',') by {
        assert(s[4 + la] == p2[4 + la]);
        assert(p2[4 + la] == ", "@[0]);
    }
    assert(s[5 + la] == ' ') by {
        assert(s[5 + la] == p2[5 + la]);
        assert(p2[5 + la] == ", "@[1]);
    }
    assert forall|k: int| 0 <= k < lb implies s[6 + la + k] == #[trigger] nb[k] by {
        assert(s[6 + la + k] == nb[6 + la + k - p2.len()]);
    }
    assert(na[0] == 'x');
    assert(nb[0] == 'x');
    assert(s[4int + 0] == na[0]);
    assert(s[6 + la + 0] == nb[0]);
    // dispatch: the line starts with "cmp", not "mov"
    assert(skip_spaces(s, 0) == 0);
    assert(!match_at(s, 0, "mov"@)) by {
        if match_at(s, 0, "mov"@) {
            assert(s[0int + 0] == "mov"@[0]);
        }
    }
    assert(match_at(s, 0, "cmp"@));
    // the operands: register, comma, register
    assert(skip_spaces(s, 4) == 4);
    assert(skip_spaces(s, 3) == 4);
    assert(spec_mandatory_space(s, 3) == Ok::<int, (DecodeErrorKind, int)>(4));
    lemma_parse_reg_round_trip(s, 4, a);
    assert(skip_spaces(s, 4 + la) == 4 + la);
    assert(skip_spaces(s, 6 + la) == 6 + la);
    assert(skip_spaces(s, 5 + la) == 6 + la);
    assert(spec_comma(s, 4 + la) == Ok::<int, (DecodeErrorKind, int)>(6 + la));
    lemma_parse_reg_round_trip(s, 6 + la, b);
    assert(spec_parse_cmp(s, 3) == Ok::<(Op, int), (DecodeErrorKind, int)>(
        (Op::Cmp(a, b), s.len() as int),
    ));
    assert(skip_spaces(s, s.len() as int) == s.len() as int);
}

proof fn lemma_canon_mov_num(d: Register, n: u64)
    ensures
        decode_line(canon_op_text(Op::Mov(d, RegOrNum::Num(n)))) == Ok::<
            Option<Op>,
            (DecodeErrorKind, int),
        >(Some(Op::Mov(d, RegOrNum::Num(n)))),
{
    reveal_strlit("mov ");
    reveal_strlit(", #");
    reveal_strlit("mov");
    let nd = reg_name(d);
    let nn = num_chars(n as int);
    let ld = nd.len() as int;
    let ln = nn.len() as int;
    lemma_num_chars_digits(n as int);
    let s = canon_op_text(Op::Mov(d, RegOrNum::Num(n)));
    let p1 = "mov "@ + nd;
    let p2 = p1 + ", #"@;
    assert(s == p2 + nn);
    assert(s.len() == 7 + ld + ln);
    assert forall|k: int| 0 <= k < 4 implies s[k] == "mov "@[k] by {
        assert(s[k] == p2[k]);
        assert(p2[k] == p1[k]);
        assert(p1[k] == "mov "@[k]);
    }
    assert forall|k: int| 0 <= k < ld implies s[4 + k] == #[trigger] nd[k] by {
        assert(s[4 + k] == p2[4 + k]);
        assert(p2[4 + k] == p1[4 + k]);
        assert(p1[4 + k] == nd[k]);
    }
    assert(s[4 + ld] == ',') by {
        assert(s[4 + ld] == p2[4 + ld]);
        assert(p2[4 + ld] == ", #"@[0]);
    }
    assert(s[5 + ld] == ' ') by {
        assert(s[5 + ld] == p2[5 + ld]);
        assert(p2[5 + ld] == ", #"@[1]);
    }
    assert(s[6 + ld] == '#') by {
        assert(s[6 + ld] == p2[6 + ld]);
        assert(p2[6 + ld] == ", #"@[2]);
    }
    assert forall|k: int| 0 <= k < ln implies s[7 + ld + k] == #[trigger] nn[k] by {
        assert(s[7 + ld + k] == nn[7 + ld + k - p2.len()]);
    }
    assert(nd[0] == 'x');
    assert(s[4int + 0] == nd[0]);
    assert(skip_spaces(s, 0) == 0);
    assert(match_at(s, 0, "mov"@));
    assert(skip_spaces(s, 4) == 4);
    assert(skip_spaces(s, 3) == 4);
    assert(spec_mandatory_space(s, 3) == Ok::<int, (DecodeErrorKind, int)>(4));
    lemma_parse_reg_round_trip(s, 4, d);
    assert(skip_spaces(s, 4 + ld) == 4 + ld);
    assert(skip_spaces(s, 6 + ld) == 6 + ld);
    assert(skip_spaces(s, 5 + ld) == 6 + ld);
    assert(spec_comma(s, 4 + ld) == Ok::<int, (DecodeErrorKind, int)>(6 + ld));
    lemma_parse_number_round_trip(s, 7 + ld, n);
    assert(spec_parse_mov(s, 3) == Ok::<(Op, int), (DecodeErrorKind, int)>(
        (Op::Mov(d, RegOrNum::Num(n)), s.len() as int),
    ));
    assert(skip_spaces(s, s.len() as int) == s.len() as int);
}

proof fn lemma_canon_mov_reg(d: Register, rs: Register)
    ensures
        decode_line(canon_op_text(Op::Mov(d, RegOrNum::Reg(rs)))) == Ok::<
            Option<Op>,
            (DecodeErrorKind, int),
        >(Some(Op::Mov(d, RegOrNum::Reg(rs)))),
{
    reveal_strlit("mov ");
    reveal_strlit(", ");
    reveal_strlit("mov");
    let nd = reg_name(d);
    let ns = reg_name(rs);
    let ld = nd.len() as int;
    let ls = ns.len() as int;
    let s = canon_op_text(Op::Mov(d, RegOrNum::Reg(rs)));
    let p1 = "mov "@ + nd;
    let p2 = p1 + ", "@;
    assert(s == p2 + ns);
    assert(s.len() == 6 + ld + ls);
    assert forall|k: int| 0 <= k < 4 implies s[k] == "mov "@[k] by {
        assert(s[k] == p2[k]);
        assert(p2[k] == p1[k]);
        assert(p1[k] == "mov "@[k]);
    }
    assert forall|k: int| 0 <= k < ld implies s[4 + k] == #[trigger] nd[k] by {
        assert(s[4 + k] == p2[4 + k]);
        assert(p2[4 + k] == p1[4 + k]);
        assert(p1[4 + k] == nd[k]);
    }
    assert(s[4 + ld] == ',') by {
        assert(s[4 + ld] == p2[4 + ld]);
        assert(p2[4 + ld] == ", "@[0]);
    }
    assert(s[5 + ld] == ' ') by {
        assert(s[5 + ld] == p2[5 + ld]);
        assert(p2[5 + ld] == ", "@[1]);
    }
    assert forall|k: int| 0 <= k < ls implies s[6 + ld + k] == #[trigger] ns[k] by {
        assert(s[6 + ld + k] == ns[6 + ld + k - p2.len()]);
    }
    assert(nd[0] == 'x');
    assert(ns[0] == 'x');
    assert(s[4int + 0] == nd[0]);
    assert(s[6 + ld + 0] == ns[0]);
    assert(skip_spaces(s, 0) == 0);
    assert(match_at(s, 0, "mov"@));
    assert(skip_spaces(s, 4) == 4);
    assert(skip_spaces(s, 3) == 4);
    assert(spec_mandatory_space(s, 3) == Ok::<int, (DecodeErrorKind, int)>(4));
    lemma_parse_reg_round_trip(s, 4, d);
    assert(skip_spaces(s, 4 + ld) == 4 + ld);
    assert(skip_spaces(s, 6 + ld) == 6 + ld);
    assert(skip_spaces(s, 5 + ld) == 6 + ld);
    assert(spec_comma(s, 4 + ld) == Ok::<int, (DecodeErrorKind, int)>(6 + ld));
    lemma_parse_reg_round_trip(s, 6 + ld, rs);
    assert(spec_parse_mov(s, 3) == Ok::<(Op, int), (DecodeErrorKind, int)>(
        (Op::Mov(d, RegOrNum::Reg(rs)), s.len() as int),
    ));
    assert(skip_spaces(s, s.len() as int) == s.len() as int);
}

proof fn lemma_canon_arith(aop: ArithOpcode, d: Register, a: Register, b: Register)
    ensures
        decode_line(canon_op_text(Op::Arith(aop, d, a, b))) == Ok::<
            Option<Op>,
            (DecodeErrorKind, int),
        >(Some(Op::Arith(aop, d, a, b))),
{
    reveal_strlit(" ");
    reveal_strlit(", ");
    reveal_strlit("mov");
    reveal_strlit("cmp");
    reveal_strlit("add");
    reveal_strlit("sub");
    reveal_strlit("mul");
    reveal_strlit("div");
    let mn = arith_mnemonic(aop);
    let nd = reg_name(d);
    let na = reg_name(a);
    let nb = reg_name(b);
    let ld = nd.len() as int;
    let la = na.len() as int;
    let lb = nb.len() as int;
    let s = canon_op_text(Op::Arith(aop, d, a, b));
    let p1 = mn + " "@;
    let p2 = p1 + nd;
    let p3 = p2 + ", "@;
    let p4 = p3 + na;
    let p5 = p4 + ", "@;
    assert(s == p5 + nb);
    assert(mn.len() == 3);
    assert(s.len() == 8 + ld + la + lb);
    assert forall|k: int| 0 <= k < 3 implies s[k] == #[trigger] mn[k] by {
        assert(s[k] == p5[k]);
        assert(p5[k] == p4[k]);
        assert(p4[k] == p3[k]);
        assert(p3[k] == p2[k]);
        assert(p2[k] == p1[k]);
        assert(p1[k] == mn[k]);
    }
    assert(s[3] == ' ') by {
        assert(s[3] == p5[3]);
        assert(p5[3] == p4[3]);
        assert(p4[3] == p3[3]);
        assert(p3[3] == p2[3]);
        assert(p2[3] == p1[3]);
        assert(p1[3] == " "@[0]);
    }
    assert forall|k: int| 0 <= k < ld implies s[4 + k] == #[trigger] nd[k] by {
        assert(s[4 + k] == p5[4 + k]);
        assert(p5[4 + k] == p4[4 + k]);
        assert(p4[4 + k] == p3[4 + k]);
        assert(p3[4 + k] == p2[4 + k]);
        assert(p2[4 + k] == nd[k]);
    }
    assert(s[4 + ld] == ',') by {
        assert(s[4 + ld] == p5[4 + ld]);
        assert(p5[4 + ld] == p4[4 + ld]);
        assert(p4[4 + ld] == p3[4 + ld]);
        assert(p3[4 + ld] == ", "@[0]);
    }
    assert(s[5 + ld] == ' ') by {
        assert(s[5 + ld] == p5[5 + ld]);
        assert(p5[5 + ld] == p4[5 + ld]);
        assert(p4[5 + ld] == p3[5 + ld]);
        assert(p3[5 + ld] == ", "@[1]);
    }
    assert forall|k: int| 0 <= k < la implies s[6 + ld + k] == #[trigger] na[k] by {
        assert(s[6 + ld + k] == p5[6 + ld + k]);
        assert(p5[6 + ld + k] == p4[6 + ld + k]);
        assert(p4[6 + ld + k] == na[6 + ld + k - p3.len()]);
    }
    assert(s[6 + ld + la] == ',') by {
        assert(s[6 + ld + la] == p5[6 + ld + la]);
        assert(p5[6 + ld + la] == ", "@[0]);
    }
    assert(s[7 + ld + la] == ' ') by {
        assert(s[7 + ld + la] == p5[7 + ld + la]);
        assert(p5[7 + ld + la] == ", "@[1]);
    }
    assert forall|k: int| 0 <= k < lb implies s[8 + ld + la + k] == #[trigger] nb[k] by {
        assert(s[8 + ld + la + k] == nb[8 + ld + la + k - p5.len()]);
    }
    assert(nd[0] == 'x');
    assert(na[0] == 'x');
    assert(nb[0] == 'x');
    assert(s[4int + 0] == nd[0]);
    assert(s[6 + ld + 0] == na[0]);
    assert(s[8 + ld + la + 0] == nb[0]);
    assert(s[0int + 0] == mn[0]);
    assert(s[0int + 1] == mn[1]);
    assert(skip_spaces(s, 0) == 0);
    assert(!match_at(s, 0, "mov"@)) by {
        if match_at(s, 0, "mov"@) {
            assert(s[0int + 0] == "mov"@[0]);
            assert(s[0int + 1] == "mov"@[1]);
        }
    }
    assert(!match_at(s, 0, "cmp"@)) by {
        if match_at(s, 0, "cmp"@) {
            assert(s[0int + 0] == "cmp"@[0]);
        }
    }
    match aop {
        ArithOpcode::Add => {
            assert(match_at(s, 0, "add"@));
        },
        ArithOpcode::Sub => {
            assert(!match_at(s, 0, "add"@)) by {
                if match_at(s, 0, "add"@) {
                    assert(s[0int + 0] == "add"@[0]);
                }
            }
            assert(match_at(s, 0, "sub"@));
        },
        ArithOpcode::Mul => {
            assert(!match_at(s, 0, "add"@)) by {
                if match_at(s, 0, "add"@) {
                    assert(s[0int + 0] == "add"@[0]);
                }
            }
            assert(!match_at(s, 0, "sub"@)) by {
                if match_at(s, 0, "sub"@) {
                    assert(s[0int + 0] == "sub"@[0]);
                }
            }
            assert(match_at(s, 0, "mul"@));
        },
        ArithOpcode::Div => {
            assert(!match_at(s, 0, "add"@)) by {
                if match_at(s, 0, "add"@) {
                    assert(s[0int + 0] == "add"@[0]);
                }
            }
            assert(!match_at(s, 0, "sub"@)) by {
                if match_at(s, 0, "sub"@) {
                    assert(s[0int + 0] == "sub"@[0]);
                }
            }
            assert(!match_at(s, 0, "mul"@)) by {
                if match_at(s, 0, "mul"@) {
                    assert(s[0int + 1] == "mul"@[1]);
                }
            }
            assert(match_at(s, 0, "div"@));
        },
    }
    assert(skip_spaces(s, 4) == 4);
    assert(skip_spaces(s, 3) == 4);
    assert(spec_mandatory_space(s, 3) == Ok::<int, (DecodeErrorKind, int)>(4));
    lemma_parse_reg_round_trip(s, 4, d);
    assert(skip_spaces(s, 4 + ld) == 4 + ld);
    assert(skip_spaces(s, 6 + ld) == 6 + ld);
    assert(skip_spaces(s, 5 + ld) == 6 + ld);
    assert(spec_comma(s, 4 + ld) == Ok::<int, (DecodeErrorKind, int)>(6 + ld));
    lemma_parse_reg_round_trip(s, 6 + ld, a);
    assert(skip_spaces(s, 6 + ld + la) == 6 + ld + la);
    assert(skip_spaces(s, 8 + ld + la) == 8 + ld + la);
    assert(skip_spaces(s, 7 + ld + la) == 8 + ld + la);
    assert(spec_comma(s, 6 + ld + la) == Ok::<int, (DecodeErrorKind, int)>(8 + ld + la));
    lemma_parse_reg_round_trip(s, 8 + ld + la, b);
    assert(spec_parse_arith(aop, s, 3) == Ok::<(Op, int), (DecodeErrorKind, int)>(
        (Op::Arith(aop, d, a, b), s.len() as int),
    ));
    assert(skip_spaces(s, s.len() as int) == s.len() as int);
}

proof fn lemma_canon_branch(bop: BranchOpcode, t: u64)
    ensures
        decode_line(canon_op_text(Op::Branch(bop, t))) == Ok::<
            Option<Op>,
            (DecodeErrorKind, int),
        >(Some(Op::Branch(bop, t))),
{
    reveal_strlit(" #");
    reveal_strlit("mov");
    reveal_strlit("cmp");
    reveal_strlit("add");
    reveal_strlit("sub");
    reveal_strlit("mul");
    reveal_strlit("div");
    reveal_strlit("b.eq");
    reveal_strlit("b.lt");
    reveal_strlit("b.gt");
    let mn = branch_mnemonic(bop);
    let nn = num_chars(t as int);
    let ln = nn.len() as int;
    lemma_num_chars_digits(t as int);
    let s = canon_op_text(Op::Branch(bop, t));
    let p1 = mn + " #"@;
    assert(s == p1 + nn);
    assert(mn.len() == 4);
    assert(s.len() == 6 + ln);
    assert forall|k: int| 0 <= k < 4 implies s[k] == #[trigger] mn[k] by {
        assert(s[k] == p1[k]);
        assert(p1[k] == mn[k]);
    }
    assert(s[4] == ' ') by {
        assert(s[4] == p1[4]);
        assert(p1[4] == " #"@[0]);
    }
    assert(s[5] == '#') by {
        assert(s[5] == p1[5]);
        assert(p1[5] == " #"@[1]);
    }
    assert forall|k: int| 0 <= k < ln implies s[6 + k] == #[trigger] nn[k] by {
        assert(s[6 + k] == nn[6 + k - p1.len()]);
    }
    assert(s[0int + 0] == mn[0]);
    assert(s[0int + 2] == mn[2]);
    assert(skip_spaces(s, 0) == 0);
    assert(!match_at(s, 0, "mov"@)) by {
        if match_at(s, 0, "mov"@) {
            assert(s[0int + 0] == "mov"@[0]);
        }
    }
    assert(!match_at(s, 0, "cmp"@)) by {
        if match_at(s, 0, "cmp"@) {
            assert(s[0int + 0] == "cmp"@[0]);
        }
    }
    assert(!match_at(s, 0, "add"@)) by {
        if match_at(s, 0, "add"@) {
            assert(s[0int + 0] == "add"@[0]);
        }
    }
    assert(!match_at(s, 0, "sub"@)) by {
        if match_at(s, 0, "sub"@) {
            assert(s[0int + 0] == "sub"@[0]);
        }
    }
    assert(!match_at(s, 0, "mul"@)) by {
        if match_at(s, 0, "mul"@) {
            assert(s[0int + 0] == "mul"@[0]);
        }
    }
    assert(!match_at(s, 0, "div"@)) by {
        if match_at(s, 0, "div"@) {
            assert(s[0int + 0] == "div"@[0]);
        }
    }
    match bop {
        BranchOpcode::Beq => {
            assert(match_at(s, 0, "b.eq"@));
        },
        BranchOpcode::Blt => {
            assert(!match_at(s, 0, "b.eq"@)) by {
                if match_at(s, 0, "b.eq"@) {
                    assert(s[0int + 2] == "b.eq"@[2]);
                }
            }
            assert(match_at(s, 0, "b.lt"@));
        },
        BranchOpcode::Bgt => {
            assert(!match_at(s, 0, "b.eq"@)) by {
                if match_at(s, 0, "b.eq"@) {
                    assert(s[0int + 2] == "b.eq"@[2]);
                }
            }
            assert(!match_at(s, 0, "b.lt"@)) by {
                if match_at(s, 0, "b.lt"@) {
                    assert(s[0int + 2] == "b.lt"@[2]);
                }
            }
            assert(match_at(s, 0, "b.gt"@));
        },
    }
    assert(skip_spaces(s, 5) == 5);
    assert(skip_spaces(s, 4) == 5);
    assert(spec_mandatory_space(s, 4) == Ok::<int, (DecodeErrorKind, int)>(5));
    lemma_parse_number_round_trip(s, 6, t);
    assert(spec_parse_branch(bop, s, 4) == Ok::<(Op, int), (DecodeErrorKind, int)>(
        (Op::Branch(bop, t), s.len() as int),
    ));
    assert(skip_spaces(s, s.len() as int) == s.len() as int);
}

fn digit_to_char(d: u8) -> (c: char)
    requires
        d <= 9,
    ensures
        c == digit_char(d as int),
{
    match d {
        0 => '0',
        1 => '1',
        2 => '2',
        3 => '3',
        4 => '4',
        5 => '5',
        6 => '6',
        7 => '7',
        8 => '8',
        _ => '9',
    }
}

fn push_digits(n: u64, out: &mut Vec<char>)
    ensures
        final(out)@ == old(out)@ + num_chars(n as int),
    decreases n,
{
    let d: u8 = (n % 10) as u8;
    let c = digit_to_char(d);
    if n < 10 {
        out.push(c);
        proof {
            assert(final(out)@ =~= old(out)@ + num_chars(n as int));
        }
    } else {
        push_digits(n / 10, out);
        out.push(c);
        proof {
            assert(num_chars(n as int) == num_chars(n as int / 10) + seq![
                digit_char(n as int % 10),
            ]);
            assert(final(out)@ =~= old(out)@ + num_chars(n as int));
        }
    }
}

fn push_reg_name(r: &Register, out: &mut Vec<char>)
    ensures
        final(out)@ == old(out)@ + reg_name(*r),
{
    out.push('x');
    let i = r.index();
    push_digits(i as u64, out);
    proof {
        assert(final(out)@ =~= old(out)@ + reg_name(*r));
    }
}

fn push_token(tok: &str, out: &mut Vec<char>)
    ensures
        final(out)@ == old(out)@ + tok@,
{
    let n = tok.unicode_len();
    let mut k: usize = 0;
    while k < n
        invariant
            k <= n,
            n == tok@.len(),
            out@ == old(out)@ + tok@.subrange(0, k as int),
        decreases n - k,
    {
        out.push(tok.get_char(k));
        proof {
            assert(out@ =~= old(out)@ + tok@.subrange(0, k + 1));
        }
        k = k + 1;
    }
    proof {
        assert(old(out)@ + tok@.subrange(0, n as int) =~= old(out)@ + tok@);
    }
}

/// Serialize one instruction into its canonical text.
pub fn op_text(op: &Op) -> (r: Vec<char>)
    ensures
        r@ == canon_op_text(*op),
{
    let mut out: Vec<char> = Vec::new();
    match op {
        Op::Mov(d, RegOrNum::Num(n)) => {
            push_token("mov ", &mut out);
            push_reg_name(d, &mut out);
            push_token(", #", &mut out);
            push_digits(*n, &mut out);
            proof {
                assert(out@ =~= canon_op_text(*op));
            }
        },
        Op::Mov(d, RegOrNum::Reg(rs)) => {
            push_token("mov ", &mut out);
            push_reg_name(d, &mut out);
            push_token(", ", &mut out);
            push_reg_name(rs, &mut out);
            proof {
                assert(out@ =~= canon_op_text(*op));
            }
        },
        Op::Cmp(a, b) => {
            push_token("cmp ", &mut out);
            push_reg_name(a, &mut out);
            push_token(", ", &mut out);
            push_reg_name(b, &mut out);
            proof {
                assert(out@ =~= canon_op_text(*op));
            }
        },
        Op::Arith(aop, d, a, b) => {
            match aop {
                ArithOpcode::Add => push_token("add", &mut out),
                ArithOpcode::Sub => push_token("sub", &mut out),
                ArithOpcode::Mul => push_token("mul", &mut out),
                ArithOpcode::Div => push_token("div", &mut out),
            }
            proof {
                assert(out@ == Seq::<char>::empty() + arith_mnemonic(*aop));
            }
            push_token(" ", &mut out);
            push_reg_name(d, &mut out);
            push_token(", ", &mut out);
            push_reg_name(a, &mut out);
            push_token(", ", &mut out);
            push_reg_name(b, &mut out);
            proof {
                assert(out@ =~= canon_op_text(*op));
            }
        },
        Op::Branch(bop, t) => {
            match bop {
                BranchOpcode::Beq => push_token("b.eq", &mut out),
                BranchOpcode::Blt => push_token("b.lt", &mut out),
                BranchOpcode::Bgt => push_token("b.gt", &mut out),
            }
            proof {
                assert(out@ == Seq::<char>::empty() + branch_mnemonic(*bop));
            }
            push_token(" #", &mut out);
            push_digits(*t, &mut out);
            proof {
                assert(out@ =~= canon_op_text(*op));
            }
        },
    }
    out
}

/// Round trip: the canonical text of any instruction decodes back to
/// exactly that instruction.
pub proof fn lemma_decode_canonical_round_trip(op: Op)
    ensures
        decode_line(canon_op_text(op)) == Ok::<Option<Op>, (DecodeErrorKind, int)>(Some(op)),
{
    match op {
        Op::Mov(d, RegOrNum::Num(n)) => lemma_canon_mov_num(d, n),
        Op::Mov(d, RegOrNum::Reg(rs)) => lemma_canon_mov_reg(d, rs),
        Op::Cmp(a, b) => lemma_canon_cmp(a, b),
        Op::Arith(aop, d, a, b) => lemma_canon_arith(aop, d, a, b),
        Op::Branch(bop, t) => lemma_canon_branch(bop, t),
    }
}

} // verus!
