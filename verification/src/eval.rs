//! Execution engine: interprets a decoded program against machine state.

use vstd::prelude::*;

use crate::parser::ArithOpcode;
use crate::parser::BranchOpcode;
use crate::parser::Op;
use crate::parser::RegOrNum;
use crate::parser::Register;
use crate::parser::reg_index;

verus! {

/// Tri-state outcome of the last comparison, consumed by branches.
#[derive(Debug, Clone, Copy, PartialEq, Eq, Structural)]
pub enum Condition {
    Eq,
    Lt,
    Gt,
}

/// An abnormal terminal outcome of execution.
#[derive(Debug, Clone, Copy, PartialEq, Eq, Structural)]
pub enum RuntimeFault {
    InvalidProgramCounter,
    DivisionByZero,
    ArithmeticOverflow,
}

/// Mathematical model of the machine state: the values of the 31 registers,
/// by ordinal, and the comparison flag.
#[verifier::ext_equal]
pub struct MachineState {
    pub regs: Seq<u64>,
    pub cond: Condition,
}

/// The machine state every run starts from: all registers zero, flag `Eq`.
pub open spec fn init_state() -> MachineState {
    MachineState { regs: Seq::new(31, |i: int| 0u64), cond: Condition::Eq }
}

/// The comparison flag that `cmp` sets for an (unsigned) pair of values:
/// `Eq` when they are equal, `Lt` when the first is smaller, `Gt` otherwise.
pub open spec fn compare_vals(a: u64, b: u64) -> Condition {
    if a == b {
        Condition::Eq
    } else if a < b {
        Condition::Lt
    } else {
        Condition::Gt
    }
}

/// The value a move's second operand stands for: the literal itself, or the
/// current value of the named register.
pub open spec fn operand_value(m: MachineState, src: RegOrNum) -> u64 {
    match src {
        RegOrNum::Num(n) => n,
        RegOrNum::Reg(r) => m.regs[reg_index(r)],
    }
}

/// The exact unsigned 64-bit result of an arithmetic operation, or the fault
/// it raises: division by zero, and any result outside `0 ..= u64::MAX`
/// (never a wrapped or truncated value).
pub open spec fn arith_result(op: ArithOpcode, a: u64, b: u64) -> Result<u64, RuntimeFault> {
    match op {
        ArithOpcode::Add => if a + b <= u64::MAX {
            Ok((a + b) as u64)
        } else {
            Err(RuntimeFault::ArithmeticOverflow)
        },
        ArithOpcode::Sub => if a >= b {
            Ok((a - b) as u64)
        } else {
            Err(RuntimeFault::ArithmeticOverflow)
        },
        ArithOpcode::Mul => if a * b <= u64::MAX {
            Ok((a * b) as u64)
        } else {
            Err(RuntimeFault::ArithmeticOverflow)
        },
        ArithOpcode::Div => if b == 0 {
            Err(RuntimeFault::DivisionByZero)
        } else {
            Ok((a as int / b as int) as u64)
        },
    }
}

/// Whether a branch with the given predicate is taken under the given flag.
pub open spec fn branch_predicate(c: Condition, op: BranchOpcode) -> bool {
    match op {
        BranchOpcode::Beq => c == Condition::Eq,
        BranchOpcode::Blt => c == Condition::Lt,
        BranchOpcode::Bgt => c == Condition::Gt,
    }
}

/// Outcome of executing a single instruction: the next machine state and
/// counter, or a runtime fault.
pub enum StepResult {
    Next(MachineState, nat),
    Fault(RuntimeFault),
}

/// The transition the instruction at counter `pc` makes from state `m`.
///
/// A move overwrites its destination; a comparison sets the flag; an
/// arithmetic instruction writes its exact result or faults; a taken branch
/// jumps to its literal target, faulting when the target is at or beyond the
/// program length, and every other case falls through to `pc + 1`.
pub open spec fn step(prog: Seq<Op>, m: MachineState, pc: nat) -> StepResult
    recommends
        pc < prog.len(),
{
    match prog[pc as int] {
        Op::Mov(dst, src) => StepResult::Next(
            MachineState { regs: m.regs.update(reg_index(dst), operand_value(m, src)), cond: m.cond },
            pc + 1,
        ),
        Op::Cmp(a, b) => StepResult::Next(
            MachineState { regs: m.regs, cond: compare_vals(m.regs[reg_index(a)], m.regs[reg_index(b)]) },
            pc + 1,
        ),
        Op::Arith(op, dst, a, b) => match arith_result(op, m.regs[reg_index(a)], m.regs[reg_index(b)]) {
            Ok(v) => StepResult::Next(
                MachineState { regs: m.regs.update(reg_index(dst), v), cond: m.cond },
                pc + 1,
            ),
            Err(f) => StepResult::Fault(f),
        },
        Op::Branch(op, target) => if branch_predicate(m.cond, op) {
            if (target as nat) < prog.len() {
                StepResult::Next(m, target as nat)
            } else {
                StepResult::Fault(RuntimeFault::InvalidProgramCounter)
            }
        } else {
            StepResult::Next(m, pc + 1)
        },
    }
}

/// Outcome of executing at most `fuel` further instructions: a normal halt
/// (with the final state and counter), a fault, or still running.
pub enum RunResult {
    Halted(MachineState, nat),
    Faulted(RuntimeFault),
    Pending,
}

/// The machine run to completion from state `m` and counter `pc`, for at
/// most `fuel` steps. The machine halts exactly when the counter reaches the
/// program length; execution of a program is `run_spec` at counter 0 from
/// `init_state()`, for any fuel large enough to make the outcome not
/// `Pending`.
pub open spec fn run_spec(prog: Seq<Op>, m: MachineState, pc: nat, fuel: nat) -> RunResult
    decreases fuel,
{
    if pc == prog.len() {
        RunResult::Halted(m, pc)
    } else if pc > prog.len() {
        RunResult::Faulted(RuntimeFault::InvalidProgramCounter)
    } else if fuel == 0 {
        RunResult::Pending
    } else {
        match step(prog, m, pc) {
            StepResult::Next(m2, pc2) => run_spec(prog, m2, pc2, (fuel - 1) as nat),
            StepResult::Fault(f) => RunResult::Faulted(f),
        }
    }
}

/// The register bank plus the comparison flag.
#[derive(Debug)]
pub struct Context {
    regs: Vec<u64>,
    pub cond: Condition,
}

impl View for Context {
    type V = MachineState;

    closed spec fn view(&self) -> MachineState {
        MachineState { regs: self.regs@, cond: self.cond }
    }
}

impl Context {
    /// The register bank holds exactly one slot per register name.
    pub open spec fn wf(self) -> bool {
        self@.regs.len() == 31
    }

    /// A fresh machine state: all registers zero, flag `Eq`.
    pub fn new() -> (c: Context)
        ensures
            c.wf(),
            c@ == init_state(),
    {
        let mut regs: Vec<u64> = Vec::new();
        let mut i: usize = 0;
        while i < 31
            invariant
                i <= 31,
                regs@.len() == i,
                forall|k: int| 0 <= k < i ==> regs@[k] == 0u64,
            decreases 31 - i,
        {
            regs.push(0);
            i = i + 1;
        }
        let c = Context { regs, cond: Condition::Eq };
        proof {
            assert(c@.regs =~= init_state().regs);
            assert(c@ =~= init_state());
        }
        c
    }

    /// Current value of the named register.
    pub fn get_reg(&self, r: &Register) -> (v: u64)
        requires
            self.wf(),
        ensures
            v == self@.regs[reg_index(*r)],
    {
        self.regs[r.index()]
    }

    /// Overwrite the named register; every other register and the flag keep
    /// their values.
    pub fn set_reg(&mut self, r: &Register, val: u64)
        requires
            old(self).wf(),
        ensures
            final(self).wf(),
            final(self)@ == (MachineState {
                regs: old(self)@.regs.update(reg_index(*r), val),
                cond: old(self)@.cond,
            }),
    {
        let i = r.index();
        self.regs.set(i, val);
    }
}

/// Execute one move: resolve the source operand and overwrite the
/// destination register; the flag does not change.
pub fn eval_mov(ctx: &mut Context, dst: &Register, src: &RegOrNum)
    requires
        old(ctx).wf(),
    ensures
        final(ctx).wf(),
        final(ctx)@ == (MachineState {
            regs: old(ctx)@.regs.update(reg_index(*dst), operand_value(old(ctx)@, *src)),
            cond: old(ctx)@.cond,
        }),
{
    match src {
        RegOrNum::Num(n) => {
            ctx.set_reg(dst, *n);
        },
        RegOrNum::Reg(r) => {
            let n = ctx.get_reg(r);
            ctx.set_reg(dst, n);
        },
    }
}

/// Execute one comparison: set the flag to the unsigned ordering of the two
/// register values; no register changes.
pub fn eval_cmp(ctx: &mut Context, reg1: &Register, reg2: &Register)
    requires
        old(ctx).wf(),
    ensures
        final(ctx).wf(),
        final(ctx)@ == (MachineState {
            regs: old(ctx)@.regs,
            cond: compare_vals(
                old(ctx)@.regs[reg_index(*reg1)],
                old(ctx)@.regs[reg_index(*reg2)],
            ),
        }),
{
    let r1 = ctx.get_reg(reg1);
    let r2 = ctx.get_reg(reg2);
    if r1 == r2 {
        ctx.cond = Condition::Eq;
    } else if r1 < r2 {
        ctx.cond = Condition::Lt;
    } else {
        ctx.cond = Condition::Gt;
    }
}

/// Execute one arithmetic instruction: write the exact result to the
/// destination, or report the fault and leave the state unchanged.
pub fn eval_arith(
    ctx: &mut Context,
    opcode: &ArithOpcode,
    dst: &Register,
    reg2: &Register,
    reg3: &Register,
) -> (r: Result<(), RuntimeFault>)
    requires
        old(ctx).wf(),
    ensures
        final(ctx).wf(),
        match arith_result(*opcode, old(ctx)@.regs[reg_index(*reg2)], old(ctx)@.regs[reg_index(*reg3)]) {
            Ok(v) => r == Ok::<(), RuntimeFault>(()) && final(ctx)@ == (MachineState {
                regs: old(ctx)@.regs.update(reg_index(*dst), v),
                cond: old(ctx)@.cond,
            }),
            Err(f) => r == Err::<(), RuntimeFault>(f) && final(ctx)@ == old(ctx)@,
        },
{
    let r1 = ctx.get_reg(reg2);
    let r2 = ctx.get_reg(reg3);

    match opcode {
        ArithOpcode::Add => match r1.checked_add(r2) {
            Some(n) => {
                ctx.set_reg(dst, n);
                Ok(())
            },
            None => Err(RuntimeFault::ArithmeticOverflow),
        },
        ArithOpcode::Sub => match r1.checked_sub(r2) {
            Some(n) => {
                ctx.set_reg(dst, n);
                Ok(())
            },
            None => Err(RuntimeFault::ArithmeticOverflow),
        },
        ArithOpcode::Mul => match r1.checked_mul(r2) {
            Some(n) => {
                ctx.set_reg(dst, n);
                Ok(())
            },
            None => Err(RuntimeFault::ArithmeticOverflow),
        },
        ArithOpcode::Div => if r2 == 0 {
            Err(RuntimeFault::DivisionByZero)
        } else {
            let n = r1 / r2;
            ctx.set_reg(dst, n);
            Ok(())
        },
    }
}

/// Whether a branch with the given predicate is taken under the current flag.
pub fn eval_branch(ctx: &Context, opcode: &BranchOpcode) -> (b: bool)
    ensures
        b == branch_predicate(ctx@.cond, *opcode),
{
    match opcode {
        BranchOpcode::Beq => matches!(ctx.cond, Condition::Eq),
        BranchOpcode::Blt => matches!(ctx.cond, Condition::Lt),
        BranchOpcode::Bgt => matches!(ctx.cond, Condition::Gt),
    }
}

/// Terminal outcome of `run`: a normal halt with the final machine state, a
/// runtime fault, or the step budget ran out before either.
#[derive(Debug)]
pub enum RunOutcome {
    Halted(Context),
    Faulted(RuntimeFault),
    Pending,
}

/// Run a program from a fresh machine state, executing at most `max_steps`
/// instructions.
///
/// Returns the final machine state when the counter reaches the program
/// length, the first runtime fault otherwise, and `Pending` only when the
/// step budget ran out first: exactly what the specification-level machine
/// `run_spec` computes from `init_state()` at counter 0 with fuel
/// `max_steps`. By `lemma_run_spec_fuel_monotonic`, a halt or fault reported
/// for one budget is the outcome for every larger budget as well.
pub fn run(ops: &Vec<Op>, max_steps: u64) -> (r: RunOutcome)
    ensures
        match run_spec(ops@, init_state(), 0, max_steps as nat) {
            RunResult::Halted(m, p) => r matches RunOutcome::Halted(ctx) && ctx.wf() && ctx@ == m
                && p == ops@.len(),
            RunResult::Faulted(f) => r == RunOutcome::Faulted(f),
            RunResult::Pending => r matches RunOutcome::Pending,
        },
{
    let mut ctx = Context::new();
    let mut pc: usize = 0;
    let mut steps: u64 = 0;
    loop
        invariant
            ctx.wf(),
            pc <= ops@.len(),
            steps <= max_steps,
            run_spec(ops@, init_state(), 0, max_steps as nat)
                == run_spec(ops@, ctx@, pc as nat, (max_steps - steps) as nat),
        decreases max_steps - steps,
    {
        if pc == ops.len() {
            return RunOutcome::Halted(ctx);
        }
        if steps == max_steps {
            return RunOutcome::Pending;
        }
        let ghost m0 = ctx@;
        let ghost pc0 = pc as nat;
        let op = ops[pc];
        match op {
            Op::Mov(dst, src) => {
                eval_mov(&mut ctx, &dst, &src);
                pc = pc + 1;
            },
            Op::Cmp(a, b) => {
                eval_cmp(&mut ctx, &a, &b);
                pc = pc + 1;
            },
            Op::Arith(aop, dst, a, b) => {
                match eval_arith(&mut ctx, &aop, &dst, &a, &b) {
                    Ok(()) => {
                        pc = pc + 1;
                    },
                    Err(f) => {
                        proof {
                            assert(step(ops@, m0, pc0) == StepResult::Fault(f));
                            assert(run_spec(ops@, m0, pc0, (max_steps - steps) as nat)
                                == RunResult::Faulted(f));
                        }
                        return RunOutcome::Faulted(f);
                    },
                }
            },
            Op::Branch(bop, target) => {
                if eval_branch(&ctx, &bop) {
                    if target < ops.len() as u64 {
                        pc = target as usize;
                    } else {
                        proof {
                            assert(step(ops@, m0, pc0)
                                == StepResult::Fault(RuntimeFault::InvalidProgramCounter));
                            assert(run_spec(ops@, m0, pc0, (max_steps - steps) as nat)
                                == RunResult::Faulted(RuntimeFault::InvalidProgramCounter));
                        }
                        return RunOutcome::Faulted(RuntimeFault::InvalidProgramCounter);
                    }
                } else {
                    pc = pc + 1;
                }
            },
        }
        proof {
            assert(step(ops@, m0, pc0) == StepResult::Next(ctx@, pc as nat));
            assert(run_spec(ops@, m0, pc0, (max_steps - steps) as nat)
                == run_spec(ops@, ctx@, pc as nat, (max_steps - (steps + 1)) as nat));
        }
        steps = steps + 1;
    }
}

/// Once the fuel suffices for the machine to halt or fault, every larger
/// fuel gives the same outcome: a run's result is deterministic, and a
/// reported fault is reproducible.
pub proof fn lemma_run_spec_fuel_monotonic(
    prog: Seq<Op>,
    m: MachineState,
    pc: nat,
    fuel1: nat,
    fuel2: nat,
)
    requires
        fuel1 <= fuel2,
        !(run_spec(prog, m, pc, fuel1) matches RunResult::Pending),
    ensures
        run_spec(prog, m, pc, fuel2) == run_spec(prog, m, pc, fuel1),
    decreases fuel1,
{
    if pc == prog.len() || pc > prog.len() {
    } else {
        match step(prog, m, pc) {
            StepResult::Next(m2, pc2) => {
                lemma_run_spec_fuel_monotonic(prog, m2, pc2, (fuel1 - 1) as nat, (fuel2 - 1) as nat);
            },
            StepResult::Fault(f) => {},
        }
    }
}

/// A comparison's outcome agrees with the unsigned ordering of the two
/// values, and exactly one of the three conditions holds for any pair.
pub proof fn lemma_compare_trichotomy(a: u64, b: u64)
    ensures
        compare_vals(a, b) == Condition::Eq <==> a == b,
        compare_vals(a, b) == Condition::Lt <==> a < b,
        compare_vals(a, b) == Condition::Gt <==> a > b,
{
}

/// The machine halts only with the counter equal to the program length.
pub proof fn lemma_halt_at_program_length(
    prog: Seq<Op>,
    m: MachineState,
    pc: nat,
    fuel: nat,
    h: MachineState,
    p: nat,
)
    requires
        run_spec(prog, m, pc, fuel) == RunResult::Halted(h, p),
    ensures
        p == prog.len(),
    decreases fuel,
{
    if pc == prog.len() || pc > prog.len() || fuel == 0 {
    } else {
        match step(prog, m, pc) {
            StepResult::Next(m2, pc2) => {
                lemma_halt_at_program_length(prog, m2, pc2, (fuel - 1) as nat, h, p);
            },
            StepResult::Fault(f) => {},
        }
    }
}

/// A non-faulting step from a running state advances the counter by exactly
/// one, except that a taken branch moves it exactly to the branch's literal
/// target.
pub proof fn lemma_counter_advance(
    prog: Seq<Op>,
    m: MachineState,
    pc: nat,
    m2: MachineState,
    pc2: nat,
)
    requires
        pc < prog.len(),
        step(prog, m, pc) == StepResult::Next(m2, pc2),
    ensures
        match prog[pc as int] {
            Op::Branch(op, target) => if branch_predicate(m.cond, op) {
                pc2 == target
            } else {
                pc2 == pc + 1
            },
            _ => pc2 == pc + 1,
        },
{
}

/// As long as no taken branch targets an earlier instruction, one step never
/// moves the counter backwards.
pub proof fn lemma_counter_monotonic(
    prog: Seq<Op>,
    m: MachineState,
    pc: nat,
    m2: MachineState,
    pc2: nat,
)
    requires
        pc < prog.len(),
        step(prog, m, pc) == StepResult::Next(m2, pc2),
        match prog[pc as int] {
            Op::Branch(op, target) => branch_predicate(m.cond, op) ==> target >= pc,
            _ => true,
        },
    ensures
        pc2 >= pc,
{
}

/// An arithmetic instruction faults exactly on division by zero and on any
/// result outside the unsigned 64-bit range, and otherwise returns the exact
/// mathematical result — never a wrapped or truncated value.
pub proof fn lemma_arith_exact(op: ArithOpcode, a: u64, b: u64)
    ensures
        arith_result(op, a, b) == Err::<u64, RuntimeFault>(RuntimeFault::DivisionByZero) <==> (op
            == ArithOpcode::Div && b == 0),
        arith_result(op, a, b) == Err::<u64, RuntimeFault>(RuntimeFault::ArithmeticOverflow) <==> (
        match op {
            ArithOpcode::Add => a + b > u64::MAX,
            ArithOpcode::Sub => a < b,
            ArithOpcode::Mul => a * b > u64::MAX,
            ArithOpcode::Div => false,
        }),
        forall|v: u64| arith_result(op, a, b) == Ok::<u64, RuntimeFault>(v) ==> (match op {
            ArithOpcode::Add => v == a + b,
            ArithOpcode::Sub => v == a - b,
            ArithOpcode::Mul => v == a * b,
            ArithOpcode::Div => b != 0 && v == a as int / b as int,
        }),
{
}

} // verus!

