use asmvm::eval::{run, Condition, Context, RunOutcome, RuntimeFault};
use asmvm::parser::{parse_asm, Register};

const STEPS: u64 = 1_000_000;

fn exec(src: &str) -> Context {
    let ops = parse_asm(src).expect("program should decode");
    match run(&ops, STEPS) {
        RunOutcome::Halted(ctx) => ctx,
        RunOutcome::Faulted(f) => panic!("unexpected fault: {:?}", f),
        RunOutcome::Pending => panic!("unexpected step-budget exhaustion"),
    }
}

fn exec_fault(src: &str) -> RuntimeFault {
    let ops = parse_asm(src).expect("program should decode");
    match run(&ops, STEPS) {
        RunOutcome::Faulted(f) => f,
        RunOutcome::Halted(_) => panic!("expected a fault, got a normal halt"),
        RunOutcome::Pending => panic!("unexpected step-budget exhaustion"),
    }
}

fn assert_regs_zero_except(ctx: &Context, except: &[(Register, u64)]) {
    for i in 0..31 {
        let r = Register::from_index(i);
        let expected = except
            .iter()
            .find(|(er, _)| *er == r)
            .map(|(_, v)| *v)
            .unwrap_or(0);
        assert_eq!(ctx.get_reg(&r), expected, "register ordinal {}", i);
    }
}

#[test]
fn scenario_addition() {
    // mov / mov / add: x2 ends at 8, nothing else is touched, and the flag
    // stays Eq because no comparison ran.
    let ctx = exec("mov x0, #5\nmov x1, #3\nadd x2, x0, x1");
    assert_eq!(ctx.get_reg(&Register::X2), 8);
    assert_regs_zero_except(&ctx, &[(Register::X0, 5), (Register::X1, 3), (Register::X2, 8)]);
    assert_eq!(ctx.cond, Condition::Eq);
}

#[test]
fn scenario_taken_branch_skips_a_line() {
    // The comparison of two equal values sets Eq, so the branch to line 4 is
    // taken and skips "mov x2, #1"; only "mov x2, #2" writes x2.
    let ctx = exec("mov x0, #5\nmov x1, #5\ncmp x0, x1\nb.eq #4\nmov x2, #1\nmov x2, #2");
    assert_eq!(ctx.get_reg(&Register::X2), 2);
    assert_eq!(ctx.get_reg(&Register::X0), 5);
    assert_eq!(ctx.get_reg(&Register::X1), 5);
    assert_eq!(ctx.cond, Condition::Eq);
}

#[test]
fn scenario_branch_target_beyond_program_faults() {
    // A taken branch whose target lies beyond the one-line program must
    // surface the invalid counter, not halt silently.
    assert_eq!(exec_fault("b.eq #5"), RuntimeFault::InvalidProgramCounter);
}

#[test]
fn branch_target_at_program_length_faults() {
    assert_eq!(exec_fault("b.eq #1"), RuntimeFault::InvalidProgramCounter);
}

#[test]
fn division_by_zero_faults() {
    assert_eq!(exec_fault("mov x0, #5\ndiv x2, x0, x1"), RuntimeFault::DivisionByZero);
}

#[test]
fn addition_overflow_faults() {
    let f = exec_fault("mov x0, #18446744073709551615\nmov x1, #1\nadd x2, x0, x1");
    assert_eq!(f, RuntimeFault::ArithmeticOverflow);
}

#[test]
fn subtraction_underflow_faults() {
    let f = exec_fault("mov x0, #3\nmov x1, #5\nsub x2, x0, x1");
    assert_eq!(f, RuntimeFault::ArithmeticOverflow);
}

#[test]
fn multiplication_overflow_faults() {
    let f = exec_fault("mov x0, #4294967296\nmul x2, x0, x0");
    assert_eq!(f, RuntimeFault::ArithmeticOverflow);
}

#[test]
fn fault_preserves_no_partial_write() {
    // The failing instruction writes nothing; earlier effects stand, which
    // the caller observes only through the fault report here.
    assert_eq!(exec_fault("mov x0, #1\nmov x1, #2\nsub x2, x0, x1"),
        RuntimeFault::ArithmeticOverflow);
}

#[test]
fn arithmetic_exact_results() {
    let ctx = exec(
        "mov x0, #20\nmov x1, #6\nadd x2, x0, x1\nsub x3, x0, x1\nmul x4, x0, x1\ndiv x5, x0, x1",
    );
    assert_eq!(ctx.get_reg(&Register::X2), 26);
    assert_eq!(ctx.get_reg(&Register::X3), 14);
    assert_eq!(ctx.get_reg(&Register::X4), 120);
    assert_eq!(ctx.get_reg(&Register::X5), 3);
}

#[test]
fn division_truncates_toward_zero() {
    let ctx = exec("mov x0, #7\nmov x1, #2\ndiv x2, x0, x1");
    assert_eq!(ctx.get_reg(&Register::X2), 3);
}

#[test]
fn compare_sets_eq_lt_gt() {
    let eq = exec("mov x0, #4\nmov x1, #4\ncmp x0, x1");
    assert_eq!(eq.cond, Condition::Eq);
    let lt = exec("mov x0, #3\nmov x1, #4\ncmp x0, x1");
    assert_eq!(lt.cond, Condition::Lt);
    let gt = exec("mov x0, #5\nmov x1, #4\ncmp x0, x1");
    assert_eq!(gt.cond, Condition::Gt);
}

#[test]
fn flag_starts_eq_and_only_cmp_changes_it() {
    let ctx = exec("mov x0, #1\nadd x1, x0, x0");
    assert_eq!(ctx.cond, Condition::Eq);
}

#[test]
fn branch_not_taken_falls_through() {
    // The flag is Eq, so b.gt is not taken and the following move runs.
    let ctx = exec("cmp x0, x1\nb.gt #0\nmov x2, #9");
    assert_eq!(ctx.get_reg(&Register::X2), 9);
}

#[test]
fn branch_lt_taken() {
    let ctx = exec("mov x0, #1\nmov x1, #2\ncmp x0, x1\nb.lt #5\nmov x2, #1\nmov x3, #7");
    assert_eq!(ctx.get_reg(&Register::X2), 0);
    assert_eq!(ctx.get_reg(&Register::X3), 7);
}

#[test]
fn branch_gt_taken() {
    let ctx = exec("mov x0, #9\nmov x1, #2\ncmp x0, x1\nb.gt #5\nmov x2, #1\nmov x3, #7");
    assert_eq!(ctx.get_reg(&Register::X2), 0);
    assert_eq!(ctx.get_reg(&Register::X3), 7);
}

#[test]
fn backward_branch_loops_until_flag_changes() {
    // Counts x0 up from 0 to 3: while the last comparison was Lt the branch
    // at line 5 jumps back to the comparison; once it is Eq, line 3 exits.
    let src = "mov x1, #3\n\
               mov x2, #1\n\
               cmp x0, x1\n\
               b.eq #6\n\
               add x0, x0, x2\n\
               b.lt #2\n\
               mov x3, #1";
    let ctx = exec(src);
    assert_eq!(ctx.get_reg(&Register::X0), 3);
    assert_eq!(ctx.get_reg(&Register::X3), 1);
    assert_eq!(ctx.cond, Condition::Eq);
}

#[test]
fn infinite_loop_exhausts_step_budget() {
    // The flag starts Eq, so this single instruction branches to itself
    // forever; a bounded run reports that the budget ran out.
    let ops = parse_asm("b.eq #0").expect("program should decode");
    assert!(matches!(run(&ops, 10), RunOutcome::Pending));
}

#[test]
fn empty_program_halts_immediately() {
    let ctx = exec("");
    assert_regs_zero_except(&ctx, &[]);
    assert_eq!(ctx.cond, Condition::Eq);
}

#[test]
fn mov_copies_between_registers() {
    let ctx = exec("mov x1, #9\nmov x2, x1");
    assert_eq!(ctx.get_reg(&Register::X1), 9);
    assert_eq!(ctx.get_reg(&Register::X2), 9);
}

#[test]
fn registers_start_at_zero() {
    let ctx = exec("add x2, x0, x1");
    assert_eq!(ctx.get_reg(&Register::X2), 0);
}
