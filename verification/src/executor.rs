//! The executor: runs a parsed program one instruction at a time.
//!
//! Each step is split in two phases. `calculate_update` computes, without
//! mutating anything, a pure description of the instruction's effect (an
//! [`ExecUpdate`]); `commit` then applies it atomically — either the full
//! effect becomes visible or the executor is unchanged. Every
//! `SNAPSHOT_INTERVAL` committed instructions the register file is
//! snapshotted, which lets [`Executor::revert`] rewind to the nearest
//! prior snapshot and replay forward.
//!
//! The whole step is specified by the spec function [`step`], a function
//! of the executor's mathematical state alone: determinism is by
//! construction.

pub mod memory;

use std::collections::HashMap;

use vstd::prelude::*;

use crate::executor::memory::{store_spec, MemV, Memory, MemoryError};
use crate::parse::{fetch, prog_wf, Instruction, ProgV, Program, Register};

verus! {

broadcast use vstd::std_specs::hash::group_hash_axioms;

/// A register snapshot is taken every `SNAPSHOT_INTERVAL` committed
/// instructions, to bound the replay work a revert has to do.
pub const SNAPSHOT_INTERVAL: usize = 1000;

/// A snapshot of the register file and program counter at one point in
/// time. Register `x0` is hardwired to zero: writes to it are elided, so
/// it always reads as zero.
#[derive(Debug, Default, Clone, Copy, PartialEq, Eq, Structural)]
pub struct RegisterSnapshot {
    pc: i32,
    x0: i32,
    ra: i32,
    sp: i32,
    gp: i32,
    tp: i32,
    t0: i32,
    t1: i32,
    t2: i32,
    t3: i32,
    t4: i32,
    t5: i32,
    t6: i32,
    a0: i32,
    a1: i32,
    a2: i32,
    a3: i32,
    a4: i32,
    a5: i32,
    a6: i32,
    a7: i32,
    s0: i32,
    s1: i32,
    s2: i32,
    s3: i32,
    s4: i32,
    s5: i32,
    s6: i32,
    s7: i32,
    s8: i32,
    s9: i32,
    s10: i32,
    s11: i32,
}

/// The value of register `r` in snapshot `s`; `x0` reads as zero.
pub closed spec fn reg_read(s: RegisterSnapshot, r: Register) -> i32 {
    match r {
        Register::x0 => 0,
        Register::ra => s.ra,
        Register::sp => s.sp,
        Register::gp => s.gp,
        Register::tp => s.tp,
        Register::t0 => s.t0,
        Register::t1 => s.t1,
        Register::t2 => s.t2,
        Register::t3 => s.t3,
        Register::t4 => s.t4,
        Register::t5 => s.t5,
        Register::t6 => s.t6,
        Register::a0 => s.a0,
        Register::a1 => s.a1,
        Register::a2 => s.a2,
        Register::a3 => s.a3,
        Register::a4 => s.a4,
        Register::a5 => s.a5,
        Register::a6 => s.a6,
        Register::a7 => s.a7,
        Register::s0 => s.s0,
        Register::s1 => s.s1,
        Register::s2 => s.s2,
        Register::s3 => s.s3,
        Register::s4 => s.s4,
        Register::s5 => s.s5,
        Register::s6 => s.s6,
        Register::s7 => s.s7,
        Register::s8 => s.s8,
        Register::s9 => s.s9,
        Register::s10 => s.s10,
        Register::s11 => s.s11,
    }
}

/// Snapshot `s` with register `r` set to `v`; a write to `x0` is elided.
pub closed spec fn reg_write(s: RegisterSnapshot, r: Register, v: i32) -> RegisterSnapshot {
    match r {
        Register::x0 => s,
        Register::ra => RegisterSnapshot { ra: v, ..s },
        Register::sp => RegisterSnapshot { sp: v, ..s },
        Register::gp => RegisterSnapshot { gp: v, ..s },
        Register::tp => RegisterSnapshot { tp: v, ..s },
        Register::t0 => RegisterSnapshot { t0: v, ..s },
        Register::t1 => RegisterSnapshot { t1: v, ..s },
        Register::t2 => RegisterSnapshot { t2: v, ..s },
        Register::t3 => RegisterSnapshot { t3: v, ..s },
        Register::t4 => RegisterSnapshot { t4: v, ..s },
        Register::t5 => RegisterSnapshot { t5: v, ..s },
        Register::t6 => RegisterSnapshot { t6: v, ..s },
        Register::a0 => RegisterSnapshot { a0: v, ..s },
        Register::a1 => RegisterSnapshot { a1: v, ..s },
        Register::a2 => RegisterSnapshot { a2: v, ..s },
        Register::a3 => RegisterSnapshot { a3: v, ..s },
        Register::a4 => RegisterSnapshot { a4: v, ..s },
        Register::a5 => RegisterSnapshot { a5: v, ..s },
        Register::a6 => RegisterSnapshot { a6: v, ..s },
        Register::a7 => RegisterSnapshot { a7: v, ..s },
        Register::s0 => RegisterSnapshot { s0: v, ..s },
        Register::s1 => RegisterSnapshot { s1: v, ..s },
        Register::s2 => RegisterSnapshot { s2: v, ..s },
        Register::s3 => RegisterSnapshot { s3: v, ..s },
        Register::s4 => RegisterSnapshot { s4: v, ..s },
        Register::s5 => RegisterSnapshot { s5: v, ..s },
        Register::s6 => RegisterSnapshot { s6: v, ..s },
        Register::s7 => RegisterSnapshot { s7: v, ..s },
        Register::s8 => RegisterSnapshot { s8: v, ..s },
        Register::s9 => RegisterSnapshot { s9: v, ..s },
        Register::s10 => RegisterSnapshot { s10: v, ..s },
        Register::s11 => RegisterSnapshot { s11: v, ..s },
    }
}

/// The snapshot `s` with its program counter set to `pc`.
pub closed spec fn with_pc(s: RegisterSnapshot, pc: i32) -> RegisterSnapshot {
    RegisterSnapshot { pc, ..s }
}

/// The program counter stored in a snapshot.
pub closed spec fn snap_pc(s: RegisterSnapshot) -> i32 {
    s.pc
}

/// The initial register file: everything zero except `sp`, which starts
/// halfway up the address space.
pub closed spec fn init_regs() -> RegisterSnapshot {
    RegisterSnapshot {
        pc: 0,
        x0: 0,
        ra: 0,
        sp: 0x4000_0000,
        gp: 0,
        tp: 0,
        t0: 0,
        t1: 0,
        t2: 0,
        t3: 0,
        t4: 0,
        t5: 0,
        t6: 0,
        a0: 0,
        a1: 0,
        a2: 0,
        a3: 0,
        a4: 0,
        a5: 0,
        a6: 0,
        a7: 0,
        s0: 0,
        s1: 0,
        s2: 0,
        s3: 0,
        s4: 0,
        s5: 0,
        s6: 0,
        s7: 0,
        s8: 0,
        s9: 0,
        s10: 0,
        s11: 0,
    }
}

/// The callee-saved registers, in comparison order.
pub open spec fn callee_saved() -> Seq<Register> {
    seq![
        Register::sp,
        Register::s0,
        Register::s1,
        Register::s2,
        Register::s3,
        Register::s4,
        Register::s5,
        Register::s6,
        Register::s7,
        Register::s8,
        Register::s9,
        Register::s10,
        Register::s11,
    ]
}

/// `seq![r]` when `r` differs between the two snapshots, else empty.
pub open spec fn diff_one(a: RegisterSnapshot, b: RegisterSnapshot, r: Register) -> Seq<Register> {
    if reg_read(a, r) != reg_read(b, r) {
        seq![r]
    } else {
        Seq::empty()
    }
}

/// The registers from `regs` whose values differ between `a` and `b`,
/// in order.
pub open spec fn diff_list(
    a: RegisterSnapshot,
    b: RegisterSnapshot,
    regs: Seq<Register>,
) -> Seq<Register>
    decreases regs.len(),
{
    if regs.len() == 0 {
        Seq::empty()
    } else {
        diff_one(a, b, regs.first()) + diff_list(a, b, regs.drop_first())
    }
}

/// The callee-saved registers whose values differ between `a` and `b`,
/// in [`callee_saved`] order.
pub open spec fn callee_diff(a: RegisterSnapshot, b: RegisterSnapshot) -> Seq<Register> {
    diff_list(a, b, callee_saved())
}

/// The executable list of callee-saved registers, in comparison order.
fn callee_saved_list() -> (r: Vec<Register>)
    ensures
        r@ == callee_saved(),
{
    let v: Vec<Register> = vec![
        Register::sp,
        Register::s0,
        Register::s1,
        Register::s2,
        Register::s3,
        Register::s4,
        Register::s5,
        Register::s6,
        Register::s7,
        Register::s8,
        Register::s9,
        Register::s10,
        Register::s11,
    ];
    proof {
        assert(v@ =~= callee_saved());
    }
    v
}

impl RegisterSnapshot {
    /// The program counter recorded in this snapshot.
    pub fn pc(&self) -> (r: i32)
        ensures
            r == snap_pc(*self),
    {
        self.pc
    }

    /// The value of register `reg`; `x0` reads as zero.
    pub fn get(&self, reg: Register) -> (r: i32)
        ensures
            r == reg_read(*self, reg),
    {
        match reg {
            Register::x0 => 0,
            Register::ra => self.ra,
            Register::sp => self.sp,
            Register::gp => self.gp,
            Register::tp => self.tp,
            Register::t0 => self.t0,
            Register::t1 => self.t1,
            Register::t2 => self.t2,
            Register::t3 => self.t3,
            Register::t4 => self.t4,
            Register::t5 => self.t5,
            Register::t6 => self.t6,
            Register::a0 => self.a0,
            Register::a1 => self.a1,
            Register::a2 => self.a2,
            Register::a3 => self.a3,
            Register::a4 => self.a4,
            Register::a5 => self.a5,
            Register::a6 => self.a6,
            Register::a7 => self.a7,
            Register::s0 => self.s0,
            Register::s1 => self.s1,
            Register::s2 => self.s2,
            Register::s3 => self.s3,
            Register::s4 => self.s4,
            Register::s5 => self.s5,
            Register::s6 => self.s6,
            Register::s7 => self.s7,
            Register::s8 => self.s8,
            Register::s9 => self.s9,
            Register::s10 => self.s10,
            Register::s11 => self.s11,
        }
    }

    /// Sets register `reg` to `val`; a write to `x0` is elided, keeping
    /// `x0` hardwired to zero.
    pub fn set(&mut self, reg: Register, val: i32)
        ensures
            *final(self) == reg_write(*old(self), reg, val),
    {
        match reg {
            Register::x0 => {},
            Register::ra => self.ra = val,
            Register::sp => self.sp = val,
            Register::gp => self.gp = val,
            Register::tp => self.tp = val,
            Register::t0 => self.t0 = val,
            Register::t1 => self.t1 = val,
            Register::t2 => self.t2 = val,
            Register::t3 => self.t3 = val,
            Register::t4 => self.t4 = val,
            Register::t5 => self.t5 = val,
            Register::t6 => self.t6 = val,
            Register::a0 => self.a0 = val,
            Register::a1 => self.a1 = val,
            Register::a2 => self.a2 = val,
            Register::a3 => self.a3 = val,
            Register::a4 => self.a4 = val,
            Register::a5 => self.a5 = val,
            Register::a6 => self.a6 = val,
            Register::a7 => self.a7 = val,
            Register::s0 => self.s0 = val,
            Register::s1 => self.s1 = val,
            Register::s2 => self.s2 = val,
            Register::s3 => self.s3 = val,
            Register::s4 => self.s4 = val,
            Register::s5 => self.s5 = val,
            Register::s6 => self.s6 = val,
            Register::s7 => self.s7 = val,
            Register::s8 => self.s8 = val,
            Register::s9 => self.s9 = val,
            Register::s10 => self.s10 = val,
            Register::s11 => self.s11 = val,
        }
    }

    /// Compares the callee-saved registers (`sp`, `s0..s11`) of two
    /// snapshots. Returns `Some` with the registers that differ, in
    /// [`callee_saved`] order, or `None` when they all agree.
    pub fn check(&self, other: &RegisterSnapshot) -> (r: Option<Vec<Register>>)
        ensures
            match r {
                Some(v) => v@ == callee_diff(*self, *other) && v@.len() > 0,
                None => callee_diff(*self, *other).len() == 0,
            },
    {
        let order = callee_saved_list();
        let n = order.len();
        let mut different: Vec<Register> = Vec::new();
        let mut i: usize = 0;
        proof {
            assert(callee_saved().skip(0) =~= callee_saved());
            assert(different@ + diff_list(*self, *other, callee_saved()) =~= callee_diff(
                *self,
                *other,
            ));
        }
        while i < n
            invariant
                i <= n,
                n == callee_saved().len(),
                order@ == callee_saved(),
                different@ + diff_list(*self, *other, callee_saved().skip(i as int)) == callee_diff(
                    *self,
                    *other,
                ),
            decreases n - i,
        {
            let reg = order[i];
            proof {
                let rest = callee_saved().skip(i as int);
                assert(rest.first() == callee_saved()[i as int]);
                assert(rest.drop_first() =~= callee_saved().skip(i + 1));
                assert(diff_list(*self, *other, rest) == diff_one(*self, *other, reg) + diff_list(
                    *self,
                    *other,
                    callee_saved().skip(i + 1),
                ));
            }
            if self.get(reg) != other.get(reg) {
                different.push(reg);
            }
            proof {
                assert(different@ + diff_list(*self, *other, callee_saved().skip(i + 1))
                    =~= callee_diff(*self, *other));
            }
            i = i + 1;
        }
        proof {
            assert(callee_saved().skip(n as int) =~= Seq::<Register>::empty());
            assert(different@ =~= callee_diff(*self, *other));
        }
        if different.is_empty() {
            None
        } else {
            Some(different)
        }
    }
}

/// What to do when 32-bit arithmetic overflows.
#[derive(Debug, Clone, Copy, PartialEq, Eq, Structural)]
pub enum OverflowBehaviour {
    /// Two's-complement wrap-around.
    Wrap,
    /// Clamp to the `i32` extremes.
    Saturate,
    /// Fail the instruction with an [`OverflowError`].
    Trap,
}

/// Whether a setting is allowed, allowed with a warning, or denied.
#[derive(Debug, Clone, Copy, PartialEq, Eq, Structural)]
pub enum ConfigLevel {
    Allow,
    Warn,
    Deny,
}

impl ConfigLevel {
    pub fn is_allowed(&self) -> (r: bool)
        ensures
            r == (*self is Allow),
    {
        matches!(self, ConfigLevel::Allow)
    }

    pub fn is_warning(&self) -> (r: bool)
        ensures
            r == (*self is Warn),
    {
        matches!(self, ConfigLevel::Warn)
    }

    pub fn is_forbidden(&self) -> (r: bool)
        ensures
            r == (*self is Deny),
    {
        matches!(self, ConfigLevel::Deny)
    }
}

/// Executor configuration.
#[derive(Debug, Clone, Copy, PartialEq, Eq, Structural)]
pub struct Config {
    /// What to do when arithmetic overflows.
    pub overflow_mode: OverflowBehaviour,
    /// What to do when an instruction writes to `x0`.
    pub write_to_x0: ConfigLevel,
}

/// A shadow-stack frame, recorded when a call-site instruction executes.
#[derive(Debug, Clone, Copy, PartialEq, Eq, Structural)]
pub struct FnCallEnter {
    /// The register state immediately before the call, with the
    /// return-address register already holding the return address.
    pub snapshot: RegisterSnapshot,
    /// How many instructions had been executed when the call was made.
    pub executed: usize,
    /// The register in which the return address was saved.
    pub ra_register: Register,
}

/// A shadow-stack operation carried by an update.
#[derive(Debug, Clone, Copy, PartialEq, Eq, Structural)]
pub enum StackOp {
    /// Push a frame; the register is where the return address is saved.
    PushStack(Register),
    /// Pop a frame; the register is where the return address was read.
    PopStack(Register),
}

impl StackOp {
    /// The reverse operation: a push becomes a pop and a pop a push, on
    /// the same register.
    pub fn reverse(&self) -> (r: StackOp)
        ensures
            r == match *self {
                StackOp::PushStack(reg) => StackOp::PopStack(reg),
                StackOp::PopStack(reg) => StackOp::PushStack(reg),
            },
    {
        match self {
            StackOp::PushStack(reg) => StackOp::PopStack(*reg),
            StackOp::PopStack(reg) => StackOp::PushStack(*reg),
        }
    }
}

/// The single-location change an instruction makes.
#[derive(Debug, Clone, Copy, PartialEq, Eq, Structural)]
pub enum Diff {
    /// A memory write, checked for alignment at commit time.
    Memory { addr: i32, val: i32, op: crate::parse::StoreOp },
    /// A register write, checked against the `x0` policy when computed.
    Register { reg: Register, val: i32 },
}

/// The next PC and the optional location change of one instruction.
#[derive(Debug, Clone, Copy, PartialEq, Eq, Structural)]
pub struct ProcessorUpdate {
    pub nextpc: i32,
    pub diff: Option<Diff>,
}

/// An arithmetic overflow under the `Trap` policy.
#[derive(Debug, Clone, Copy, PartialEq, Eq, Structural)]
pub enum OverflowError {
    Add { base: i32, adding: i32 },
    Sub { base: i32, adding: i32 },
    ShiftLeft { base: i32, shamt: u32 },
    ShiftRight { base: i32, shamt: u32 },
}

/// One violation of the calling convention, detected at a return site.
#[derive(Debug, Clone, Copy, PartialEq, Eq, Structural)]
pub enum CallingConventionError {
    /// A callee-saved register was modified and not restored.
    ModifiedRegister { reg: Register, pre: i32, post: i32 },
    /// The return address was saved in `save` but the return went
    /// through `other`.
    ReturnViaOtherReg { save: Register, other: Register },
}

/// The kinds of execution error.
#[derive(Debug, Clone, PartialEq, Eq)]
pub enum ExecErrorInner {
    /// An attempt to write to the hardwired-zero register under `Deny`
    /// (or, as a warning, under `Warn`).
    WriteToX0 { val: i32 },
    /// A failed memory access.
    Memory(MemoryError),
    /// A breakpoint; never raised by the core, reserved for front-ends.
    /// Execution may continue after it.
    BreakPoint,
    /// The PC is outside the program: execution has finished.
    Finished,
    /// A revert was requested at the origin.
    StartReached,
    /// Arithmetic overflow under the `Trap` policy.
    Overflow(OverflowError),
    /// One or more calling-convention violations at a single return; a
    /// return with no pending call reports an empty list.
    CallingConventionViolation(Vec<CallingConventionError>),
}

/// An execution error: the kind plus the PC where it happened.
#[derive(Debug, Clone, PartialEq, Eq)]
pub struct ExecError {
    /// The PC at which the error happened.
    pub pc: i32,
    pub error: ExecErrorInner,
}

/// Mathematical view of [`ExecErrorInner`].
pub ghost enum ErrInnerV {
    WriteToX0 { val: i32 },
    Memory(MemoryError),
    BreakPoint,
    Finished,
    StartReached,
    Overflow(OverflowError),
    CallingConventionViolation(Seq<CallingConventionError>),
}

impl View for ExecErrorInner {
    type V = ErrInnerV;

    open spec fn view(&self) -> ErrInnerV {
        match *self {
            ExecErrorInner::WriteToX0 { val } => ErrInnerV::WriteToX0 { val },
            ExecErrorInner::Memory(e) => ErrInnerV::Memory(e),
            ExecErrorInner::BreakPoint => ErrInnerV::BreakPoint,
            ExecErrorInner::Finished => ErrInnerV::Finished,
            ExecErrorInner::StartReached => ErrInnerV::StartReached,
            ExecErrorInner::Overflow(e) => ErrInnerV::Overflow(e),
            ExecErrorInner::CallingConventionViolation(v) => ErrInnerV::CallingConventionViolation(
                v@,
            ),
        }
    }
}

/// Mathematical view of [`ExecError`].
#[verifier::ext_equal]
pub ghost struct ErrV {
    pub pc: i32,
    pub inner: ErrInnerV,
}

impl View for ExecError {
    type V = ErrV;

    open spec fn view(&self) -> ErrV {
        ErrV { pc: self.pc, inner: self.error@ }
    }
}

/// A pure description of the effect of one instruction: next PC, the
/// location change, the shadow-stack operation, and any non-fatal
/// warnings. Produced by `calculate_update` without mutating anything.
#[derive(Debug, PartialEq, Eq)]
pub struct ExecUpdate {
    /// The PC of the instruction described.
    pc: i32,
    processor_update: ProcessorUpdate,
    stackop: Option<StackOp>,
    /// Non-fatal warnings (`Warn`-level writes to `x0`), delivered
    /// alongside a successful update.
    warnings: Vec<ExecError>,
}

/// Mathematical view of [`ExecUpdate`].
#[verifier::ext_equal]
pub ghost struct UpdateV {
    pub pc: i32,
    pub nextpc: i32,
    pub diff: Option<Diff>,
    pub stackop: Option<StackOp>,
    pub warnings: Seq<ErrV>,
}

impl View for ExecUpdate {
    type V = UpdateV;

    closed spec fn view(&self) -> UpdateV {
        UpdateV {
            pc: self.pc,
            nextpc: self.processor_update.nextpc,
            diff: self.processor_update.diff,
            stackop: self.stackop,
            warnings: self.warnings@.map_values(|e: ExecError| e@),
        }
    }
}

impl ExecUpdate {
    /// The PC of the instruction this update describes.
    pub fn pc(&self) -> (r: i32)
        ensures
            r == self@.pc,
    {
        self.pc
    }

    /// The next PC and location change of this update.
    pub fn processor_update(&self) -> (r: &ProcessorUpdate)
        ensures
            r.nextpc == self@.nextpc,
            r.diff == self@.diff,
    {
        &self.processor_update
    }

    /// The shadow-stack operation of this update, if any.
    pub fn stackop(&self) -> (r: Option<StackOp>)
        ensures
            r == self@.stackop,
    {
        self.stackop
    }

    /// The non-fatal warnings attached to this update.
    pub fn warnings(&self) -> (r: &Vec<ExecError>)
        ensures
            r@.map_values(|e: ExecError| e@) == self@.warnings,
    {
        &self.warnings
    }
}

pub type ExecResult<T> = Result<T, ExecError>;

/// Mathematical state of an [`Executor`]: everything [`step`] reads or
/// writes.
#[verifier::ext_equal]
pub ghost struct State {
    pub config: Config,
    pub pc: i32,
    pub executed: usize,
    pub prog: ProgV,
    pub regs: RegisterSnapshot,
    pub mem: MemV,
    pub snapshots: Map<usize, RegisterSnapshot>,
    pub stack: Seq<FnCallEnter>,
}

/// The top-level executor state.
#[derive(Debug, Clone)]
pub struct Executor {
    pub config: Config,
    /// The PC of the next instruction to execute.
    pc: i32,
    /// The number of instructions committed so far; uniquely identifies
    /// points in the execution.
    executed: usize,
    program: Program,
    pub regfile: RegisterSnapshot,
    /// Snapshots for time travel, keyed by the executed-count right
    /// before the snapshotted state changed.
    snapshots: HashMap<usize, RegisterSnapshot>,
    pub memory: Memory,
    /// The call shadow stack: one frame per pending call, recording the
    /// register state right before the call was made.
    stack: Vec<FnCallEnter>,
}

impl View for Executor {
    type V = State;

    closed spec fn view(&self) -> State {
        State {
            config: self.config,
            pc: self.pc,
            executed: self.executed,
            prog: self.program@,
            regs: self.regfile,
            mem: self.memory@,
            snapshots: self.snapshots@,
            stack: self.stack@,
        }
    }
}

// ---------------------------------------------------------------------
// Arithmetic under the overflow policy
// ---------------------------------------------------------------------

/// The unsigned reinterpretation of a 32-bit value.
pub open spec fn u32_of(x: i32) -> u32 {
    if x >= 0 {
        x as u32
    } else {
        (x + 0x1_0000_0000) as u32
    }
}

/// 32-bit addition under the overflow policy.
pub open spec fn add_spec(mode: OverflowBehaviour, a: i32, b: i32) -> Result<i32, OverflowError> {
    match mode {
        OverflowBehaviour::Wrap => Ok(vstd::wrapping::i32_specs::wrapping_add(a, b)),
        OverflowBehaviour::Saturate => Ok(
            if a + b > i32::MAX {
                i32::MAX
            } else if a + b < i32::MIN {
                i32::MIN
            } else {
                (a + b) as i32
            },
        ),
        OverflowBehaviour::Trap => if i32::MIN <= a + b <= i32::MAX {
            Ok((a + b) as i32)
        } else {
            Err(OverflowError::Add { base: a, adding: b })
        },
    }
}

/// 32-bit negation under the overflow policy; only `i32::MIN` can
/// overflow.
pub open spec fn neg_spec(mode: OverflowBehaviour, base: i32, x: i32) -> Result<
    i32,
    OverflowError,
> {
    if x == i32::MIN {
        match mode {
            OverflowBehaviour::Wrap => Ok(i32::MIN),
            OverflowBehaviour::Saturate => Ok(i32::MAX),
            OverflowBehaviour::Trap => Err(OverflowError::Sub { base, adding: x }),
        }
    } else {
        Ok((-x) as i32)
    }
}

/// Left shift under the overflow policy: the count is taken mod 32, and
/// a count of 32 or more is an overflow under `Trap`.
pub open spec fn shl_spec(mode: OverflowBehaviour, a: i32, shamt: u32) -> Result<
    i32,
    OverflowError,
> {
    if shamt >= 32 && mode is Trap {
        Err(OverflowError::ShiftLeft { base: a, shamt })
    } else {
        Ok(vstd::wrapping::i32_specs::wrapping_shl(a, shamt))
    }
}

/// Logical (zero-filling) right shift under the overflow policy.
pub open spec fn shr_logical_spec(mode: OverflowBehaviour, a: i32, shamt: u32) -> Result<
    i32,
    OverflowError,
> {
    if shamt >= 32 && mode is Trap {
        Err(OverflowError::ShiftRight { base: a, shamt })
    } else {
        Ok(
            crate::executor::memory::to_signed32(
                vstd::wrapping::u32_specs::wrapping_shr(u32_of(a), shamt) as int,
            ),
        )
    }
}

/// Arithmetic (sign-preserving) right shift under the overflow policy.
pub open spec fn shr_arith_spec(mode: OverflowBehaviour, a: i32, shamt: u32) -> Result<
    i32,
    OverflowError,
> {
    if shamt >= 32 && mode is Trap {
        Err(OverflowError::ShiftRight { base: a, shamt })
    } else {
        Ok(vstd::wrapping::i32_specs::wrapping_shr(a, shamt))
    }
}

// ---------------------------------------------------------------------
// The stateless update computation, as a spec function
// ---------------------------------------------------------------------

/// The PC a label resolves to: 4 times its instruction index.
pub open spec fn label_pc(p: ProgV, l: Seq<char>) -> i32 {
    (4 * p.labels[l]) as i32
}

/// The core effect of one instruction: next PC, location change, and
/// shadow-stack operation — before the `x0`-write policy is applied.
pub open spec fn calc_core(s: State, ins: Instruction) -> Result<
    (ProcessorUpdate, Option<StackOp>),
    ErrInnerV,
> {
    let mode = s.config.overflow_mode;
    let regs = s.regs;
    let pc = s.pc;
    let nextpc = (pc + 4) as i32;
    match ins {
        Instruction::addi { rd, r1, imm } => match add_spec(mode, reg_read(regs, r1), imm) {
            Ok(v) => Ok(reg_update(nextpc, rd, v)),
            Err(e) => Err(ErrInnerV::Overflow(e)),
        },
        Instruction::slti { rd, r1, imm } => Ok(
            reg_update(
                nextpc,
                rd,
                if reg_read(regs, r1) < imm {
                    1
                } else {
                    0
                },
            ),
        ),
        Instruction::sltiu { rd, r1, imm } => Ok(
            reg_update(
                nextpc,
                rd,
                if u32_of(reg_read(regs, r1)) < u32_of(imm) {
                    1
                } else {
                    0
                },
            ),
        ),
        Instruction::xori { rd, r1, imm } => Ok(reg_update(nextpc, rd, reg_read(regs, r1) ^ imm)),
        Instruction::ori { rd, r1, imm } => Ok(reg_update(nextpc, rd, reg_read(regs, r1) | imm)),
        Instruction::andi { rd, r1, imm } => Ok(reg_update(nextpc, rd, reg_read(regs, r1) & imm)),
        Instruction::slli { rd, r1, imm } => match shl_spec(mode, reg_read(regs, r1), u32_of(imm)) {
            Ok(v) => Ok(reg_update(nextpc, rd, v)),
            Err(e) => Err(ErrInnerV::Overflow(e)),
        },
        Instruction::srli { rd, r1, imm } => match shr_logical_spec(
            mode,
            reg_read(regs, r1),
            u32_of(imm),
        ) {
            Ok(v) => Ok(reg_update(nextpc, rd, v)),
            Err(e) => Err(ErrInnerV::Overflow(e)),
        },
        Instruction::srai { rd, r1, imm } => match shr_arith_spec(
            mode,
            reg_read(regs, r1),
            u32_of(imm),
        ) {
            Ok(v) => Ok(reg_update(nextpc, rd, v)),
            Err(e) => Err(ErrInnerV::Overflow(e)),
        },
        Instruction::add { rd, r1, r2 } => match add_spec(
            mode,
            reg_read(regs, r1),
            reg_read(regs, r2),
        ) {
            Ok(v) => Ok(reg_update(nextpc, rd, v)),
            Err(e) => Err(ErrInnerV::Overflow(e)),
        },
        Instruction::sub { rd, r1, r2 } => match neg_spec(mode, reg_read(regs, r1), reg_read(regs, r2)) {
            Ok(n) => match add_spec(mode, reg_read(regs, r1), n) {
                Ok(v) => Ok(reg_update(nextpc, rd, v)),
                Err(e) => Err(ErrInnerV::Overflow(e)),
            },
            Err(e) => Err(ErrInnerV::Overflow(e)),
        },
        Instruction::sll { rd, r1, r2 } => match shl_spec(
            mode,
            reg_read(regs, r1),
            u32_of(reg_read(regs, r2)),
        ) {
            Ok(v) => Ok(reg_update(nextpc, rd, v)),
            Err(e) => Err(ErrInnerV::Overflow(e)),
        },
        Instruction::slt { rd, r1, r2 } => Ok(
            reg_update(
                nextpc,
                rd,
                if reg_read(regs, r1) < reg_read(regs, r2) {
                    1
                } else {
                    0
                },
            ),
        ),
        Instruction::sltu { rd, r1, r2 } => Ok(
            reg_update(
                nextpc,
                rd,
                if u32_of(reg_read(regs, r1)) < u32_of(reg_read(regs, r2)) {
                    1
                } else {
                    0
                },
            ),
        ),
        Instruction::xor { rd, r1, r2 } => Ok(
            reg_update(nextpc, rd, reg_read(regs, r1) ^ reg_read(regs, r2)),
        ),
        Instruction::srl { rd, r1, r2 } => match shr_logical_spec(
            mode,
            reg_read(regs, r1),
            u32_of(reg_read(regs, r2)),
        ) {
            Ok(v) => Ok(reg_update(nextpc, rd, v)),
            Err(e) => Err(ErrInnerV::Overflow(e)),
        },
        Instruction::sra { rd, r1, r2 } => match shr_arith_spec(
            mode,
            reg_read(regs, r1),
            u32_of(reg_read(regs, r2)),
        ) {
            Ok(v) => Ok(reg_update(nextpc, rd, v)),
            Err(e) => Err(ErrInnerV::Overflow(e)),
        },
        Instruction::or { rd, r1, r2 } => Ok(
            reg_update(nextpc, rd, reg_read(regs, r1) | reg_read(regs, r2)),
        ),
        Instruction::and { rd, r1, r2 } => Ok(
            reg_update(nextpc, rd, reg_read(regs, r1) & reg_read(regs, r2)),
        ),
        Instruction::load { rd, offset, r1, op } => match add_spec(
            mode,
            offset,
            reg_read(regs, r1),
        ) {
            Ok(addr) => match crate::executor::memory::load_spec(s.mem, addr, op) {
                Ok(v) => Ok(reg_update(nextpc, rd, v)),
                Err(e) => Err(ErrInnerV::Memory(e)),
            },
            Err(e) => Err(ErrInnerV::Overflow(e)),
        },
        Instruction::store { r2, offset, r1, op } => match add_spec(
            mode,
            offset,
            reg_read(regs, r1),
        ) {
            Ok(addr) => Ok(
                (
                    ProcessorUpdate {
                        nextpc,
                        diff: Some(Diff::Memory { addr, val: reg_read(regs, r2), op }),
                    },
                    None,
                ),
            ),
            Err(e) => Err(ErrInnerV::Overflow(e)),
        },
        Instruction::beq { r1, r2, label } => Ok(
            branch_update(s, reg_read(regs, r1) == reg_read(regs, r2), label@),
        ),
        Instruction::bne { r1, r2, label } => Ok(
            branch_update(s, reg_read(regs, r1) != reg_read(regs, r2), label@),
        ),
        Instruction::blt { r1, r2, label } => Ok(
            branch_update(s, reg_read(regs, r1) < reg_read(regs, r2), label@),
        ),
        Instruction::bge { r1, r2, label } => Ok(
            branch_update(s, reg_read(regs, r1) >= reg_read(regs, r2), label@),
        ),
        Instruction::bltu { r1, r2, label } => Ok(
            branch_update(s, u32_of(reg_read(regs, r1)) < u32_of(reg_read(regs, r2)), label@),
        ),
        Instruction::bgeu { r1, r2, label } => Ok(
            branch_update(s, u32_of(reg_read(regs, r1)) >= u32_of(reg_read(regs, r2)), label@),
        ),
        Instruction::bgt { r1, r2, label } => Ok(
            branch_update(s, reg_read(regs, r1) > reg_read(regs, r2), label@),
        ),
        Instruction::ble { r1, r2, label } => Ok(
            branch_update(s, reg_read(regs, r1) <= reg_read(regs, r2), label@),
        ),
        Instruction::bgtu { r1, r2, label } => Ok(
            branch_update(s, u32_of(reg_read(regs, r1)) > u32_of(reg_read(regs, r2)), label@),
        ),
        Instruction::bleu { r1, r2, label } => Ok(
            branch_update(s, u32_of(reg_read(regs, r1)) <= u32_of(reg_read(regs, r2)), label@),
        ),
        Instruction::lui { rd, imm } => Ok(
            reg_update(nextpc, rd, vstd::wrapping::i32_specs::wrapping_shl(imm, 12)),
        ),
        Instruction::li { rd, imm } => Ok(reg_update(nextpc, rd, imm)),
        Instruction::beqz { r1, label } => Ok(branch_update(s, reg_read(regs, r1) == 0, label@)),
        Instruction::bnez { r1, label } => Ok(branch_update(s, reg_read(regs, r1) != 0, label@)),
        Instruction::bltz { r1, label } => Ok(branch_update(s, reg_read(regs, r1) < 0, label@)),
        Instruction::bgez { r1, label } => Ok(branch_update(s, reg_read(regs, r1) >= 0, label@)),
        Instruction::bgtz { r1, label } => Ok(branch_update(s, reg_read(regs, r1) > 0, label@)),
        Instruction::blez { r1, label } => Ok(branch_update(s, reg_read(regs, r1) <= 0, label@)),
        Instruction::mv { rd, r1 } => Ok(reg_update(nextpc, rd, reg_read(regs, r1))),
        Instruction::not { rd, r1 } => Ok(reg_update(nextpc, rd, !reg_read(regs, r1))),
        Instruction::neg { rd, r1 } => match neg_spec(mode, 0, reg_read(regs, r1)) {
            Ok(v) => Ok(reg_update(nextpc, rd, v)),
            Err(e) => Err(ErrInnerV::Overflow(e)),
        },
        Instruction::call { label } => Ok(
            (
                ProcessorUpdate {
                    nextpc: label_pc(s.prog, label@),
                    diff: Some(Diff::Register { reg: Register::ra, val: nextpc }),
                },
                Some(StackOp::PushStack(Register::ra)),
            ),
        ),
        Instruction::jal { rd, label } => Ok(
            (
                ProcessorUpdate {
                    nextpc: label_pc(s.prog, label@),
                    diff: Some(Diff::Register { reg: rd, val: nextpc }),
                },
                Some(StackOp::PushStack(rd)),
            ),
        ),
        Instruction::jalr { rd, offset, r1 } => match add_spec(mode, reg_read(regs, r1), offset) {
            Ok(target) => Ok(
                (
                    ProcessorUpdate {
                        nextpc: target,
                        diff: Some(Diff::Register { reg: rd, val: nextpc }),
                    },
                    Some(StackOp::PushStack(rd)),
                ),
            ),
            Err(e) => Err(ErrInnerV::Overflow(e)),
        },
        Instruction::j { label } => Ok(
            (ProcessorUpdate { nextpc: label_pc(s.prog, label@), diff: None }, None),
        ),
        Instruction::jr { rs } => Ok(
            (
                ProcessorUpdate { nextpc: reg_read(regs, rs), diff: None },
                Some(StackOp::PopStack(rs)),
            ),
        ),
        Instruction::ret {  } => Ok(
            (
                ProcessorUpdate { nextpc: reg_read(regs, Register::ra), diff: None },
                Some(StackOp::PopStack(Register::ra)),
            ),
        ),
    }
}

/// Advance the PC and write `val` to `rd`.
pub open spec fn reg_update(nextpc: i32, rd: Register, val: i32) -> (
    ProcessorUpdate,
    Option<StackOp>,
) {
    (ProcessorUpdate { nextpc, diff: Some(Diff::Register { reg: rd, val }) }, None)
}

/// A taken branch jumps to the label; an untaken one falls through.
pub open spec fn branch_update(s: State, taken: bool, label: Seq<char>) -> (
    ProcessorUpdate,
    Option<StackOp>,
) {
    if taken {
        (ProcessorUpdate { nextpc: label_pc(s.prog, label), diff: None }, None)
    } else {
        (ProcessorUpdate { nextpc: (s.pc + 4) as i32, diff: None }, None)
    }
}

/// The full stateless update for one instruction: [`calc_core`], then
/// the `x0`-write policy (`Allow` passes silently, `Warn` attaches a
/// warning, `Deny` fails).
pub open spec fn calc_spec(s: State, ins: Instruction) -> Result<UpdateV, ErrInnerV> {
    match calc_core(s, ins) {
        Err(e) => Err(e),
        Ok((pu, sop)) => {
            let plain = UpdateV {
                pc: s.pc,
                nextpc: pu.nextpc,
                diff: pu.diff,
                stackop: sop,
                warnings: Seq::empty(),
            };
            match pu.diff {
                Some(Diff::Register { reg, val }) => {
                    if reg == Register::x0 {
                        match s.config.write_to_x0 {
                            ConfigLevel::Allow => Ok(plain),
                            ConfigLevel::Warn => Ok(
                                UpdateV {
                                    warnings: seq![
                                        ErrV {
                                            pc: s.pc,
                                            inner: ErrInnerV::WriteToX0 { val },
                                        },
                                    ],
                                    ..plain
                                },
                            ),
                            ConfigLevel::Deny => Err(ErrInnerV::WriteToX0 { val }),
                        }
                    } else {
                        Ok(plain)
                    }
                },
                _ => Ok(plain),
            }
        },
    }
}

// ---------------------------------------------------------------------
// Commit, as a spec function
// ---------------------------------------------------------------------

/// `seq![ModifiedRegister]` for `r` when it differs between the current
/// registers and the frame snapshot, else empty.
pub open spec fn modified_one(
    cur: RegisterSnapshot,
    snap: RegisterSnapshot,
    r: Register,
) -> Seq<CallingConventionError> {
    if reg_read(cur, r) != reg_read(snap, r) {
        seq![
            CallingConventionError::ModifiedRegister {
                reg: r,
                pre: reg_read(snap, r),
                post: reg_read(cur, r),
            },
        ]
    } else {
        Seq::empty()
    }
}

/// The violations for the registers of `regs` that differ between the
/// current registers and the frame snapshot, in order.
pub open spec fn modified_sublist(
    cur: RegisterSnapshot,
    snap: RegisterSnapshot,
    regs: Seq<Register>,
) -> Seq<CallingConventionError>
    decreases regs.len(),
{
    if regs.len() == 0 {
        Seq::empty()
    } else {
        modified_one(cur, snap, regs.first()) + modified_sublist(cur, snap, regs.drop_first())
    }
}

/// Every callee-saved register the callee modified without restoring,
/// with its values before the call and at the return.
pub open spec fn modified_list(cur: RegisterSnapshot, snap: RegisterSnapshot) -> Seq<
    CallingConventionError,
> {
    modified_sublist(cur, snap, callee_saved())
}

/// The violations a return through `reg` raises against the top frame:
/// a return-register mismatch first, then each modified callee-saved
/// register.
pub open spec fn pop_violations(s: State, reg: Register) -> Seq<CallingConventionError> {
    let frame = s.stack.last();
    (if frame.ra_register != reg {
        seq![
            CallingConventionError::ReturnViaOtherReg { save: frame.ra_register, other: reg },
        ]
    } else {
        Seq::empty()
    }) + modified_list(s.regs, frame.snapshot)
}

/// What committing update `u` in state `s` yields: either the next state
/// or an error, in which case the state is unchanged.
///
/// In order: the calling-convention check for a pop, the location change
/// (a memory store may still fail on alignment), the periodic register
/// snapshot keyed by the pre-commit executed-count, the push of a shadow
/// frame recording the pre-commit registers (with the return-address
/// register already updated), and finally the PC advance. Nothing is
/// changed unless every fallible part succeeds.
pub open spec fn commit_spec(s: State, u: UpdateV) -> Result<State, ErrV> {
    let popped: Result<Seq<FnCallEnter>, ErrV> = match u.stackop {
        Some(StackOp::PopStack(reg)) => {
            if s.stack.len() == 0 {
                Err(
                    ErrV {
                        pc: s.pc,
                        inner: ErrInnerV::CallingConventionViolation(Seq::empty()),
                    },
                )
            } else {
                let viol = pop_violations(s, reg);
                if viol.len() > 0 {
                    Err(ErrV { pc: s.pc, inner: ErrInnerV::CallingConventionViolation(viol) })
                } else {
                    Ok(s.stack.drop_last())
                }
            }
        },
        _ => Ok(s.stack),
    };
    match popped {
        Err(e) => Err(e),
        Ok(stack1) => {
            let applied: Result<(RegisterSnapshot, MemV), ErrV> = match u.diff {
                None => Ok((s.regs, s.mem)),
                Some(Diff::Register { reg, val }) => Ok((reg_write(s.regs, reg, val), s.mem)),
                Some(Diff::Memory { addr, val, op }) => match store_spec(s.mem, addr, val, op) {
                    Ok(m2) => Ok((s.regs, m2)),
                    Err(me) => Err(ErrV { pc: s.pc, inner: ErrInnerV::Memory(me) }),
                },
            };
            match applied {
                Err(e) => Err(e),
                Ok((regs1, mem1)) => {
                    let pre = with_pc(s.regs, s.pc);
                    let snaps1 = if s.executed % SNAPSHOT_INTERVAL == 0 {
                        s.snapshots.insert(s.executed, pre)
                    } else {
                        s.snapshots
                    };
                    let stack2 = match u.stackop {
                        Some(StackOp::PushStack(reg)) => stack1.push(
                            FnCallEnter {
                                snapshot: reg_write(pre, reg, reg_read(regs1, reg)),
                                executed: s.executed,
                                ra_register: reg,
                            },
                        ),
                        _ => stack1,
                    };
                    Ok(
                        State {
                            pc: u.nextpc,
                            executed: (s.executed + 1) as usize,
                            regs: with_pc(regs1, u.nextpc),
                            mem: mem1,
                            snapshots: snaps1,
                            stack: stack2,
                            ..s
                        },
                    )
                },
            }
        },
    }
}

/// One full execution step from state `s`: fetch, compute the update,
/// commit. `Finished` when the PC is outside the program (or the
/// executed-count would overflow the machine word).
pub open spec fn step(s: State) -> Result<(State, UpdateV), ErrV> {
    if s.executed == usize::MAX {
        Err(ErrV { pc: s.pc, inner: ErrInnerV::Finished })
    } else {
        match fetch(s.prog, s.pc) {
            None => Err(ErrV { pc: s.pc, inner: ErrInnerV::Finished }),
            Some(ins) => match calc_spec(s, ins) {
                Err(e) => Err(ErrV { pc: s.pc, inner: e }),
                Ok(u) => match commit_spec(s, u) {
                    Err(e) => Err(e),
                    Ok(s2) => Ok((s2, u)),
                },
            },
        }
    }
}

/// Running `n` steps from `s`, when all of them succeed.
pub open spec fn run_n(s: State, n: nat) -> Option<State>
    decreases n,
{
    if n == 0 {
        Some(s)
    } else {
        match run_n(s, (n - 1) as nat) {
            Some(s1) => match step(s1) {
                Ok((s2, _)) => Some(s2),
                Err(_) => None,
            },
            None => None,
        }
    }
}

/// The state a fresh executor starts in: PC 0, nothing executed, all
/// registers zero but `sp`, default configuration, one snapshot at key 0
/// and one shadow frame for the program entry.
pub open spec fn init_state(p: ProgV) -> State {
    State {
        config: Config {
            overflow_mode: OverflowBehaviour::Trap,
            write_to_x0: ConfigLevel::Warn,
        },
        pc: 0,
        executed: 0,
        prog: p,
        regs: init_regs(),
        mem: MemV {
            config: crate::executor::memory::Config { default_value: None, allow_unaligned: false },
            bytes: Map::empty(),
        },
        snapshots: Map::empty().insert(0usize, init_regs()),
        stack: seq![
            FnCallEnter { snapshot: init_regs(), executed: 0, ra_register: Register::ra },
        ],
    }
}

/// The state invariant every executor maintains: the program is
/// well-formed and a snapshot exists at every multiple of the snapshot
/// interval that has been passed.
pub open spec fn state_inv(s: State) -> bool {
    &&& prog_wf(s.prog)
    &&& forall|k: usize|
        k % SNAPSHOT_INTERVAL == 0 && k < s.executed ==> s.snapshots.contains_key(k)
}

// ---------------------------------------------------------------------
// Reverse execution, as spec functions
// ---------------------------------------------------------------------

/// How much of the shadow stack a revert to `base` keeps: the program
/// entry frame, plus every following frame recorded strictly before
/// `base` (frames from `base` on are re-pushed by the replay), stopping
/// at the first frame that is not kept.
pub open spec fn trunc_len(stack: Seq<FnCallEnter>, base: usize, i: int) -> int
    decreases stack.len() - i,
{
    if i < 0 || i >= stack.len() {
        i
    } else if i == 0 || stack[i].executed < base {
        trunc_len(stack, base, i + 1)
    } else {
        i
    }
}

/// The state a revert restores before replaying: registers and PC from
/// the snapshot at `base`, the executed-count reset to `base`, and the
/// shadow stack truncated. Memory and recorded snapshots are kept:
/// memory is not reverted (stores are not undone by this mechanism).
pub open spec fn revert_prep(s: State) -> State {
    let target = (s.executed - 1) as usize;
    let base = (target - (target % SNAPSHOT_INTERVAL)) as usize;
    let snap = s.snapshots[base];
    State {
        pc: snap_pc(snap),
        regs: snap,
        executed: base,
        stack: s.stack.take(trunc_len(s.stack, base, 0)),
        ..s
    }
}

// ---------------------------------------------------------------------
// Executable conversions
// ---------------------------------------------------------------------

/// The unsigned reinterpretation of a 32-bit value, executably.
fn to_unsigned(x: i32) -> (r: u32)
    ensures
        r == u32_of(x),
{
    crate::executor::memory::to_unsigned_exec(x)
}

/// Reinterprets a value in `[0, 2^32)` as a 32-bit signed integer,
/// executably.
fn to_signed(w: u32) -> (r: i32)
    ensures
        r == crate::executor::memory::to_signed32(w as int),
{
    crate::executor::memory::to_signed_exec(w)
}

impl Executor {
    /// The executor invariant: the program is well-formed and the
    /// snapshot map covers every interval multiple reached so far. Every
    /// operation of the executor preserves it.
    pub closed spec fn inv(self) -> bool {
        &&& self.program.wf()
        &&& state_inv(self@)
    }

    /// A fresh executor for `program`: PC 0, nothing executed, all
    /// registers zero except `sp`, empty memory, default configuration,
    /// one snapshot at key 0 and one entry shadow frame.
    pub fn new(program: Program) -> (r: Executor)
        requires
            program.wf(),
        ensures
            r@ == init_state(program@),
            r.inv(),
    {
        proof {
            program.lemma_wf();
        }
        let regfile = RegisterSnapshot {
            pc: 0,
            x0: 0,
            ra: 0,
            sp: 0x4000_0000,
            gp: 0,
            tp: 0,
            t0: 0,
            t1: 0,
            t2: 0,
            t3: 0,
            t4: 0,
            t5: 0,
            t6: 0,
            a0: 0,
            a1: 0,
            a2: 0,
            a3: 0,
            a4: 0,
            a5: 0,
            a6: 0,
            a7: 0,
            s0: 0,
            s1: 0,
            s2: 0,
            s3: 0,
            s4: 0,
            s5: 0,
            s6: 0,
            s7: 0,
            s8: 0,
            s9: 0,
            s10: 0,
            s11: 0,
        };
        let mut snapshots: HashMap<usize, RegisterSnapshot> = HashMap::new();
        snapshots.insert(0, regfile);
        let mut stack: Vec<FnCallEnter> = Vec::new();
        stack.push(FnCallEnter { snapshot: regfile, executed: 0, ra_register: Register::ra });
        let r = Executor {
            config: Config {
                overflow_mode: OverflowBehaviour::Trap,
                write_to_x0: ConfigLevel::Warn,
            },
            pc: 0,
            executed: 0,
            program,
            regfile,
            snapshots,
            memory: Memory::new(
                crate::executor::memory::Config { default_value: None, allow_unaligned: false },
            ),
            stack,
        };
        proof {
            assert(stack@ =~= init_state(r.program@).stack);
            assert(r@ =~= init_state(r.program@));
        }
        r
    }

    /// The instruction the executor is about to execute, or `None` when
    /// the PC is outside the program.
    pub fn current(&self) -> (r: Option<Instruction>)
        ensures
            match fetch(self@.prog, self@.pc) {
                Some(ins) => r == Some(ins),
                None => r is None,
            },
    {
        match self.program.at(self.pc) {
            Some(ins) => Some(ins.clone()),
            None => None,
        }
    }

    /// The shadow stack: one frame per pending call, the entry frame
    /// first.
    pub fn stack(&self) -> (r: &Vec<FnCallEnter>)
        ensures
            r@ == self@.stack,
    {
        &self.stack
    }

    /// How many instructions have been committed so far.
    pub fn executed(&self) -> (r: usize)
        ensures
            r == self@.executed,
    {
        self.executed
    }

    /// Sets a register from outside (the debugger): writes to `x0` are
    /// refused with `WriteToX0` at the given `pc`.
    pub fn set(&mut self, reg: Register, val: i32, pc: i32) -> (r: ExecResult<()>)
        ensures
            reg == Register::x0 ==> r == Err::<(), ExecError>(
                ExecError { pc, error: ExecErrorInner::WriteToX0 { val } },
            ) && final(self)@ == old(self)@,
            reg != Register::x0 ==> r is Ok && final(self)@ == (State {
                regs: reg_write(old(self)@.regs, reg, val),
                ..old(self)@
            }),
            old(self).inv() ==> final(self).inv(),
    {
        if let Register::x0 = reg {
            Err(ExecError { pc, error: ExecErrorInner::WriteToX0 { val } })
        } else {
            self.regfile.set(reg, val);
            proof {
                assert(final(self)@ =~= (State {
                    regs: reg_write(old(self)@.regs, reg, val),
                    ..old(self)@
                }));
            }
            Ok(())
        }
    }

    /// 32-bit addition under the configured overflow policy.
    fn add(&self, fst: i32, snd: i32) -> (r: Result<i32, ExecErrorInner>)
        ensures
            match add_spec(self.config.overflow_mode, fst, snd) {
                Ok(v) => r == Ok::<i32, ExecErrorInner>(v),
                Err(e) => r == Err::<i32, ExecErrorInner>(ExecErrorInner::Overflow(e)),
            },
    {
        match self.config.overflow_mode {
            OverflowBehaviour::Wrap => Ok(fst.wrapping_add(snd)),
            OverflowBehaviour::Saturate => match fst.checked_add(snd) {
                Some(v) => Ok(v),
                None => Ok(
                    if snd >= 0 {
                        i32::MAX
                    } else {
                        i32::MIN
                    },
                ),
            },
            OverflowBehaviour::Trap => match fst.checked_add(snd) {
                Some(v) => Ok(v),
                None => Err(
                    ExecErrorInner::Overflow(OverflowError::Add { base: fst, adding: snd }),
                ),
            },
        }
    }

    /// 32-bit negation under the configured overflow policy; `base` is
    /// reported as the minuend if the negation traps.
    fn negate(&self, base: i32, x: i32) -> (r: Result<i32, ExecErrorInner>)
        ensures
            match neg_spec(self.config.overflow_mode, base, x) {
                Ok(v) => r == Ok::<i32, ExecErrorInner>(v),
                Err(e) => r == Err::<i32, ExecErrorInner>(ExecErrorInner::Overflow(e)),
            },
    {
        if x == i32::MIN {
            match self.config.overflow_mode {
                OverflowBehaviour::Wrap => Ok(i32::MIN),
                OverflowBehaviour::Saturate => Ok(i32::MAX),
                OverflowBehaviour::Trap => Err(
                    ExecErrorInner::Overflow(OverflowError::Sub { base, adding: x }),
                ),
            }
        } else {
            Ok(-x)
        }
    }

    /// Left shift under the configured overflow policy.
    fn shift_left(&self, fst: i32, shamt: u32) -> (r: Result<i32, ExecErrorInner>)
        ensures
            match shl_spec(self.config.overflow_mode, fst, shamt) {
                Ok(v) => r == Ok::<i32, ExecErrorInner>(v),
                Err(e) => r == Err::<i32, ExecErrorInner>(ExecErrorInner::Overflow(e)),
            },
    {
        if shamt >= 32 && matches!(self.config.overflow_mode, OverflowBehaviour::Trap) {
            Err(ExecErrorInner::Overflow(OverflowError::ShiftLeft { base: fst, shamt }))
        } else {
            Ok(fst.wrapping_shl(shamt))
        }
    }

    /// Logical (zero-filling) right shift under the configured overflow
    /// policy.
    fn shift_right_logical(&self, fst: i32, shamt: u32) -> (r: Result<i32, ExecErrorInner>)
        ensures
            match shr_logical_spec(self.config.overflow_mode, fst, shamt) {
                Ok(v) => r == Ok::<i32, ExecErrorInner>(v),
                Err(e) => r == Err::<i32, ExecErrorInner>(ExecErrorInner::Overflow(e)),
            },
    {
        if shamt >= 32 && matches!(self.config.overflow_mode, OverflowBehaviour::Trap) {
            Err(ExecErrorInner::Overflow(OverflowError::ShiftRight { base: fst, shamt }))
        } else {
            Ok(to_signed(to_unsigned(fst).wrapping_shr(shamt)))
        }
    }

    /// Arithmetic (sign-preserving) right shift under the configured
    /// overflow policy.
    fn shift_right_arithmetic(&self, fst: i32, shamt: u32) -> (r: Result<i32, ExecErrorInner>)
        ensures
            match shr_arith_spec(self.config.overflow_mode, fst, shamt) {
                Ok(v) => r == Ok::<i32, ExecErrorInner>(v),
                Err(e) => r == Err::<i32, ExecErrorInner>(ExecErrorInner::Overflow(e)),
            },
    {
        if shamt >= 32 && matches!(self.config.overflow_mode, OverflowBehaviour::Trap) {
            Err(ExecErrorInner::Overflow(OverflowError::ShiftRight { base: fst, shamt }))
        } else {
            Ok(fst.wrapping_shr(shamt))
        }
    }

    /// Resolves `label`, which the program is known to define.
    fn resolve_label(&self, label: &String) -> (r: i32)
        requires
            self.inv(),
            self@.prog.labels.contains_key(label@),
        ensures
            r == label_pc(self@.prog, label@),
    {
        match self.program.label(label.as_str()) {
            Some(pc) => pc,
            None => vstd::pervasive::unreached(),
        }
    }

    /// The PC of the instruction after the current one.
    fn next_pc(&self) -> (r: i32)
        requires
            self.inv(),
            fetch(self@.prog, self@.pc) is Some,
        ensures
            r == self@.pc + 4,
    {
        proof {
            lemma_fetch_pc_bounds(self@.prog, self@.pc);
        }
        self.pc + 4
    }

    /// Computes the update for a branch: jump to `label` when `taken`,
    /// else fall through.
    fn branch_pu(&self, taken: bool, label: &String) -> (r: ProcessorUpdate)
        requires
            self.inv(),
            self@.prog.labels.contains_key(label@),
            fetch(self@.prog, self@.pc) is Some,
        ensures
            (r, None::<StackOp>) == branch_update(self@, taken, label@),
    {
        if taken {
            ProcessorUpdate { nextpc: self.resolve_label(label), diff: None }
        } else {
            ProcessorUpdate { nextpc: self.next_pc(), diff: None }
        }
    }

    /// The core effect of the register-immediate instructions.
    fn core_reg_imm(&self, ins: &Instruction) -> (r: Result<
        (ProcessorUpdate, Option<StackOp>),
        ExecErrorInner,
    >)
        requires
            self.inv(),
            fetch(self@.prog, self@.pc) == Some(*ins),
            (*ins matches Instruction::addi { .. }) || (*ins matches Instruction::slti { .. }) || (*ins matches Instruction::sltiu { .. }) || (*ins matches Instruction::xori { .. }) || (*ins matches Instruction::ori { .. }) || (*ins matches Instruction::andi { .. }) || (*ins matches Instruction::slli { .. }) || (*ins matches Instruction::srli { .. }) || (*ins matches Instruction::srai { .. }),
        ensures
            match calc_core(self@, *ins) {
                Ok(ps) => r matches Ok(x) && x == ps,
                Err(e) => r matches Err(re) && re@ == e,
            },
    {
        proof {
            lemma_fetch_pc_bounds(self@.prog, self@.pc);
            lemma_fetch_label_defined(self@.prog, self@.pc, *ins);
        }
        let regs = &self.regfile;
        let pu_sop: (ProcessorUpdate, Option<StackOp>) = match ins {
            Instruction::addi { rd, r1, imm } => {
                let v = match self.add(regs.get(*r1), *imm) {
                    Ok(v) => v,
                    Err(e) => {
                        return Err(e);
                    },
                };
                (ProcessorUpdate {
                    nextpc: self.next_pc(),
                    diff: Some(Diff::Register { reg: *rd, val: v }),
                }, None)
            },
            Instruction::slti { rd, r1, imm } => {
                let v: i32 = if regs.get(*r1) < *imm {
                    1
                } else {
                    0
                };
                (ProcessorUpdate {
                    nextpc: self.next_pc(),
                    diff: Some(Diff::Register { reg: *rd, val: v }),
                }, None)
            },
            Instruction::sltiu { rd, r1, imm } => {
                let v: i32 = if to_unsigned(regs.get(*r1)) < to_unsigned(*imm) {
                    1
                } else {
                    0
                };
                (ProcessorUpdate {
                    nextpc: self.next_pc(),
                    diff: Some(Diff::Register { reg: *rd, val: v }),
                }, None)
            },
            Instruction::xori { rd, r1, imm } => {
                let v = regs.get(*r1) ^ *imm;
                (ProcessorUpdate {
                    nextpc: self.next_pc(),
                    diff: Some(Diff::Register { reg: *rd, val: v }),
                }, None)
            },
            Instruction::ori { rd, r1, imm } => {
                let v = regs.get(*r1) | *imm;
                (ProcessorUpdate {
                    nextpc: self.next_pc(),
                    diff: Some(Diff::Register { reg: *rd, val: v }),
                }, None)
            },
            Instruction::andi { rd, r1, imm } => {
                let v = regs.get(*r1) & *imm;
                (ProcessorUpdate {
                    nextpc: self.next_pc(),
                    diff: Some(Diff::Register { reg: *rd, val: v }),
                }, None)
            },
            Instruction::slli { rd, r1, imm } => {
                let v = match self.shift_left(regs.get(*r1), to_unsigned(*imm)) {
                    Ok(v) => v,
                    Err(e) => {
                        return Err(e);
                    },
                };
                (ProcessorUpdate {
                    nextpc: self.next_pc(),
                    diff: Some(Diff::Register { reg: *rd, val: v }),
                }, None)
            },
            Instruction::srli { rd, r1, imm } => {
                let v = match self.shift_right_logical(regs.get(*r1), to_unsigned(*imm)) {
                    Ok(v) => v,
                    Err(e) => {
                        return Err(e);
                    },
                };
                (ProcessorUpdate {
                    nextpc: self.next_pc(),
                    diff: Some(Diff::Register { reg: *rd, val: v }),
                }, None)
            },
            Instruction::srai { rd, r1, imm } => {
                let v = match self.shift_right_arithmetic(regs.get(*r1), to_unsigned(*imm)) {
                    Ok(v) => v,
                    Err(e) => {
                        return Err(e);
                    },
                };
                (ProcessorUpdate {
                    nextpc: self.next_pc(),
                    diff: Some(Diff::Register { reg: *rd, val: v }),
                }, None)
            },
            _ => vstd::pervasive::unreached(),
        };
        Ok(pu_sop)
    }

    /// The core effect of the register-register instructions.
    fn core_reg_reg(&self, ins: &Instruction) -> (r: Result<
        (ProcessorUpdate, Option<StackOp>),
        ExecErrorInner,
    >)
        requires
            self.inv(),
            fetch(self@.prog, self@.pc) == Some(*ins),
            (*ins matches Instruction::add { .. }) || (*ins matches Instruction::sub { .. }) || (*ins matches Instruction::sll { .. }) || (*ins matches Instruction::slt { .. }) || (*ins matches Instruction::sltu { .. }) || (*ins matches Instruction::xor { .. }) || (*ins matches Instruction::srl { .. }) || (*ins matches Instruction::sra { .. }) || (*ins matches Instruction::or { .. }) || (*ins matches Instruction::and { .. }),
        ensures
            match calc_core(self@, *ins) {
                Ok(ps) => r matches Ok(x) && x == ps,
                Err(e) => r matches Err(re) && re@ == e,
            },
    {
        proof {
            lemma_fetch_pc_bounds(self@.prog, self@.pc);
            lemma_fetch_label_defined(self@.prog, self@.pc, *ins);
        }
        let regs = &self.regfile;
        let pu_sop: (ProcessorUpdate, Option<StackOp>) = match ins {
            Instruction::add { rd, r1, r2 } => {
                let v = match self.add(regs.get(*r1), regs.get(*r2)) {
                    Ok(v) => v,
                    Err(e) => {
                        return Err(e);
                    },
                };
                (ProcessorUpdate {
                    nextpc: self.next_pc(),
                    diff: Some(Diff::Register { reg: *rd, val: v }),
                }, None)
            },
            Instruction::sub { rd, r1, r2 } => {
                let n = match self.negate(regs.get(*r1), regs.get(*r2)) {
                    Ok(n) => n,
                    Err(e) => {
                        return Err(e);
                    },
                };
                let v = match self.add(regs.get(*r1), n) {
                    Ok(v) => v,
                    Err(e) => {
                        return Err(e);
                    },
                };
                (ProcessorUpdate {
                    nextpc: self.next_pc(),
                    diff: Some(Diff::Register { reg: *rd, val: v }),
                }, None)
            },
            Instruction::sll { rd, r1, r2 } => {
                let v = match self.shift_left(regs.get(*r1), to_unsigned(regs.get(*r2))) {
                    Ok(v) => v,
                    Err(e) => {
                        return Err(e);
                    },
                };
                (ProcessorUpdate {
                    nextpc: self.next_pc(),
                    diff: Some(Diff::Register { reg: *rd, val: v }),
                }, None)
            },
            Instruction::slt { rd, r1, r2 } => {
                let v: i32 = if regs.get(*r1) < regs.get(*r2) {
                    1
                } else {
                    0
                };
                (ProcessorUpdate {
                    nextpc: self.next_pc(),
                    diff: Some(Diff::Register { reg: *rd, val: v }),
                }, None)
            },
            Instruction::sltu { rd, r1, r2 } => {
                let v: i32 = if to_unsigned(regs.get(*r1)) < to_unsigned(regs.get(*r2)) {
                    1
                } else {
                    0
                };
                (ProcessorUpdate {
                    nextpc: self.next_pc(),
                    diff: Some(Diff::Register { reg: *rd, val: v }),
                }, None)
            },
            Instruction::xor { rd, r1, r2 } => {
                let v = regs.get(*r1) ^ regs.get(*r2);
                (ProcessorUpdate {
                    nextpc: self.next_pc(),
                    diff: Some(Diff::Register { reg: *rd, val: v }),
                }, None)
            },
            Instruction::srl { rd, r1, r2 } => {
                let v = match self.shift_right_logical(regs.get(*r1), to_unsigned(regs.get(*r2))) {
                    Ok(v) => v,
                    Err(e) => {
                        return Err(e);
                    },
                };
                (ProcessorUpdate {
                    nextpc: self.next_pc(),
                    diff: Some(Diff::Register { reg: *rd, val: v }),
                }, None)
            },
            Instruction::sra { rd, r1, r2 } => {
                let v = match self.shift_right_arithmetic(
                    regs.get(*r1),
                    to_unsigned(regs.get(*r2)),
                ) {
                    Ok(v) => v,
                    Err(e) => {
                        return Err(e);
                    },
                };
                (ProcessorUpdate {
                    nextpc: self.next_pc(),
                    diff: Some(Diff::Register { reg: *rd, val: v }),
                }, None)
            },
            Instruction::or { rd, r1, r2 } => {
                let v = regs.get(*r1) | regs.get(*r2);
                (ProcessorUpdate {
                    nextpc: self.next_pc(),
                    diff: Some(Diff::Register { reg: *rd, val: v }),
                }, None)
            },
            Instruction::and { rd, r1, r2 } => {
                let v = regs.get(*r1) & regs.get(*r2);
                (ProcessorUpdate {
                    nextpc: self.next_pc(),
                    diff: Some(Diff::Register { reg: *rd, val: v }),
                }, None)
            },
            _ => vstd::pervasive::unreached(),
        };
        Ok(pu_sop)
    }

    /// The core effect of the loads and stores.
    fn core_mem_op(&self, ins: &Instruction) -> (r: Result<
        (ProcessorUpdate, Option<StackOp>),
        ExecErrorInner,
    >)
        requires
            self.inv(),
            fetch(self@.prog, self@.pc) == Some(*ins),
            (*ins matches Instruction::load { .. }) || (*ins matches Instruction::store { .. }),
        ensures
            match calc_core(self@, *ins) {
                Ok(ps) => r matches Ok(x) && x == ps,
                Err(e) => r matches Err(re) && re@ == e,
            },
    {
        proof {
            lemma_fetch_pc_bounds(self@.prog, self@.pc);
            lemma_fetch_label_defined(self@.prog, self@.pc, *ins);
        }
        let regs = &self.regfile;
        let pu_sop: (ProcessorUpdate, Option<StackOp>) = match ins {
            Instruction::load { rd, offset, r1, op } => {
                let addr = match self.add(*offset, regs.get(*r1)) {
                    Ok(a) => a,
                    Err(e) => {
                        return Err(e);
                    },
                };
                let v = match self.memory.load(addr, *op) {
                    Ok(v) => v,
                    Err(me) => {
                        return Err(ExecErrorInner::Memory(me));
                    },
                };
                (ProcessorUpdate {
                    nextpc: self.next_pc(),
                    diff: Some(Diff::Register { reg: *rd, val: v }),
                }, None)
            },
            Instruction::store { r2, offset, r1, op } => {
                let addr = match self.add(*offset, regs.get(*r1)) {
                    Ok(a) => a,
                    Err(e) => {
                        return Err(e);
                    },
                };
                (ProcessorUpdate {
                    nextpc: self.next_pc(),
                    diff: Some(Diff::Memory { addr, val: regs.get(*r2), op: *op }),
                }, None)
            },
            _ => vstd::pervasive::unreached(),
        };
        Ok(pu_sop)
    }

    /// The core effect of the branches.
    fn core_branch(&self, ins: &Instruction) -> (r: Result<
        (ProcessorUpdate, Option<StackOp>),
        ExecErrorInner,
    >)
        requires
            self.inv(),
            fetch(self@.prog, self@.pc) == Some(*ins),
            (*ins matches Instruction::beq { .. }) || (*ins matches Instruction::bne { .. }) || (*ins matches Instruction::blt { .. }) || (*ins matches Instruction::bge { .. }) || (*ins matches Instruction::bltu { .. }) || (*ins matches Instruction::bgeu { .. }) || (*ins matches Instruction::bgt { .. }) || (*ins matches Instruction::ble { .. }) || (*ins matches Instruction::bgtu { .. }) || (*ins matches Instruction::bleu { .. }) || (*ins matches Instruction::beqz { .. }) || (*ins matches Instruction::bnez { .. }) || (*ins matches Instruction::bltz { .. }) || (*ins matches Instruction::bgez { .. }) || (*ins matches Instruction::bgtz { .. }) || (*ins matches Instruction::blez { .. }),
        ensures
            match calc_core(self@, *ins) {
                Ok(ps) => r matches Ok(x) && x == ps,
                Err(e) => r matches Err(re) && re@ == e,
            },
    {
        proof {
            lemma_fetch_pc_bounds(self@.prog, self@.pc);
            lemma_fetch_label_defined(self@.prog, self@.pc, *ins);
        }
        let regs = &self.regfile;
        let pu_sop: (ProcessorUpdate, Option<StackOp>) = match ins {
            Instruction::beq { r1, r2, label } => (
                self.branch_pu(regs.get(*r1) == regs.get(*r2), label),
                None,
            ),
            Instruction::bne { r1, r2, label } => (
                self.branch_pu(regs.get(*r1) != regs.get(*r2), label),
                None,
            ),
            Instruction::blt { r1, r2, label } => (
                self.branch_pu(regs.get(*r1) < regs.get(*r2), label),
                None,
            ),
            Instruction::bge { r1, r2, label } => (
                self.branch_pu(regs.get(*r1) >= regs.get(*r2), label),
                None,
            ),
            Instruction::bltu { r1, r2, label } => (
                self.branch_pu(to_unsigned(regs.get(*r1)) < to_unsigned(regs.get(*r2)), label),
                None,
            ),
            Instruction::bgeu { r1, r2, label } => (
                self.branch_pu(to_unsigned(regs.get(*r1)) >= to_unsigned(regs.get(*r2)), label),
                None,
            ),
            Instruction::bgt { r1, r2, label } => (
                self.branch_pu(regs.get(*r1) > regs.get(*r2), label),
                None,
            ),
            Instruction::ble { r1, r2, label } => (
                self.branch_pu(regs.get(*r1) <= regs.get(*r2), label),
                None,
            ),
            Instruction::bgtu { r1, r2, label } => (
                self.branch_pu(to_unsigned(regs.get(*r1)) > to_unsigned(regs.get(*r2)), label),
                None,
            ),
            Instruction::bleu { r1, r2, label } => (
                self.branch_pu(to_unsigned(regs.get(*r1)) <= to_unsigned(regs.get(*r2)), label),
                None,
            ),
            Instruction::beqz { r1, label } => (self.branch_pu(regs.get(*r1) == 0, label), None),
            Instruction::bnez { r1, label } => (self.branch_pu(regs.get(*r1) != 0, label), None),
            Instruction::bltz { r1, label } => (self.branch_pu(regs.get(*r1) < 0, label), None),
            Instruction::bgez { r1, label } => (self.branch_pu(regs.get(*r1) >= 0, label), None),
            Instruction::bgtz { r1, label } => (self.branch_pu(regs.get(*r1) > 0, label), None),
            Instruction::blez { r1, label } => (self.branch_pu(regs.get(*r1) <= 0, label), None),
            _ => vstd::pervasive::unreached(),
        };
        Ok(pu_sop)
    }

    /// The core effect of the load-immediate and unary instructions.
    fn core_value(&self, ins: &Instruction) -> (r: Result<
        (ProcessorUpdate, Option<StackOp>),
        ExecErrorInner,
    >)
        requires
            self.inv(),
            fetch(self@.prog, self@.pc) == Some(*ins),
            (*ins matches Instruction::lui { .. }) || (*ins matches Instruction::li { .. }) || (*ins matches Instruction::mv { .. }) || (*ins matches Instruction::not { .. }) || (*ins matches Instruction::neg { .. }),
        ensures
            match calc_core(self@, *ins) {
                Ok(ps) => r matches Ok(x) && x == ps,
                Err(e) => r matches Err(re) && re@ == e,
            },
    {
        proof {
            lemma_fetch_pc_bounds(self@.prog, self@.pc);
            lemma_fetch_label_defined(self@.prog, self@.pc, *ins);
        }
        let regs = &self.regfile;
        let pu_sop: (ProcessorUpdate, Option<StackOp>) = match ins {
            Instruction::lui { rd, imm } => {
                let v = imm.wrapping_shl(12);
                (ProcessorUpdate {
                    nextpc: self.next_pc(),
                    diff: Some(Diff::Register { reg: *rd, val: v }),
                }, None)
            },
            Instruction::li { rd, imm } => (
                ProcessorUpdate {
                    nextpc: self.next_pc(),
                    diff: Some(Diff::Register { reg: *rd, val: *imm }),
                },
                None,
            ),
            Instruction::mv { rd, r1 } => (
                ProcessorUpdate {
                    nextpc: self.next_pc(),
                    diff: Some(Diff::Register { reg: *rd, val: regs.get(*r1) }),
                },
                None,
            ),
            Instruction::not { rd, r1 } => {
                let v = !regs.get(*r1);
                (ProcessorUpdate {
                    nextpc: self.next_pc(),
                    diff: Some(Diff::Register { reg: *rd, val: v }),
                }, None)
            },
            Instruction::neg { rd, r1 } => {
                let v = match self.negate(0, regs.get(*r1)) {
                    Ok(v) => v,
                    Err(e) => {
                        return Err(e);
                    },
                };
                (ProcessorUpdate {
                    nextpc: self.next_pc(),
                    diff: Some(Diff::Register { reg: *rd, val: v }),
                }, None)
            },
            _ => vstd::pervasive::unreached(),
        };
        Ok(pu_sop)
    }

    /// The core effect of the calls, jumps and returns.
    fn core_jump(&self, ins: &Instruction) -> (r: Result<
        (ProcessorUpdate, Option<StackOp>),
        ExecErrorInner,
    >)
        requires
            self.inv(),
            fetch(self@.prog, self@.pc) == Some(*ins),
            (*ins matches Instruction::call { .. }) || (*ins matches Instruction::jal { .. }) || (*ins matches Instruction::jalr { .. }) || (*ins matches Instruction::j { .. }) || (*ins matches Instruction::jr { .. }) || (*ins matches Instruction::ret { .. }),
        ensures
            match calc_core(self@, *ins) {
                Ok(ps) => r matches Ok(x) && x == ps,
                Err(e) => r matches Err(re) && re@ == e,
            },
    {
        proof {
            lemma_fetch_pc_bounds(self@.prog, self@.pc);
            lemma_fetch_label_defined(self@.prog, self@.pc, *ins);
        }
        let regs = &self.regfile;
        let pu_sop: (ProcessorUpdate, Option<StackOp>) = match ins {
            Instruction::call { label } => (
                ProcessorUpdate {
                    nextpc: self.resolve_label(label),
                    diff: Some(Diff::Register { reg: Register::ra, val: self.next_pc() }),
                },
                Some(StackOp::PushStack(Register::ra)),
            ),
            Instruction::jal { rd, label } => (
                ProcessorUpdate {
                    nextpc: self.resolve_label(label),
                    diff: Some(Diff::Register { reg: *rd, val: self.next_pc() }),
                },
                Some(StackOp::PushStack(*rd)),
            ),
            Instruction::jalr { rd, offset, r1 } => {
                let target = match self.add(regs.get(*r1), *offset) {
                    Ok(t) => t,
                    Err(e) => {
                        return Err(e);
                    },
                };
                (ProcessorUpdate {
                    nextpc: target,
                    diff: Some(Diff::Register { reg: *rd, val: self.next_pc() }),
                }, Some(StackOp::PushStack(*rd)))
            },
            Instruction::j { label } => (
                ProcessorUpdate { nextpc: self.resolve_label(label), diff: None },
                None,
            ),
            Instruction::jr { rs } => (
                ProcessorUpdate { nextpc: regs.get(*rs), diff: None },
                Some(StackOp::PopStack(*rs)),
            ),
            Instruction::ret {  } => (
                ProcessorUpdate { nextpc: regs.get(Register::ra), diff: None },
                Some(StackOp::PopStack(Register::ra)),
            ),
            _ => vstd::pervasive::unreached(),
        };
        Ok(pu_sop)
    }

    /// The core effect of the instruction — [`calc_core`], executably.
    fn calc_core_exec(&self, ins: &Instruction) -> (r: Result<
        (ProcessorUpdate, Option<StackOp>),
        ExecErrorInner,
    >)
        requires
            self.inv(),
            fetch(self@.prog, self@.pc) == Some(*ins),
        ensures
            match calc_core(self@, *ins) {
                Ok(ps) => r matches Ok(x) && x == ps,
                Err(e) => r matches Err(re) && re@ == e,
            },
    {
        match ins {
            Instruction::addi { .. } | Instruction::slti { .. } | Instruction::sltiu { .. } | Instruction::xori { .. } | Instruction::ori { .. } | Instruction::andi { .. } | Instruction::slli { .. } | Instruction::srli { .. } | Instruction::srai { .. } => self.core_reg_imm(ins),
            Instruction::add { .. } | Instruction::sub { .. } | Instruction::sll { .. } | Instruction::slt { .. } | Instruction::sltu { .. } | Instruction::xor { .. } | Instruction::srl { .. } | Instruction::sra { .. } | Instruction::or { .. } | Instruction::and { .. } => self.core_reg_reg(ins),
            Instruction::load { .. } | Instruction::store { .. } => self.core_mem_op(ins),
            Instruction::beq { .. } | Instruction::bne { .. } | Instruction::blt { .. } | Instruction::bge { .. } | Instruction::bltu { .. } | Instruction::bgeu { .. } | Instruction::bgt { .. } | Instruction::ble { .. } | Instruction::bgtu { .. } | Instruction::bleu { .. } | Instruction::beqz { .. } | Instruction::bnez { .. } | Instruction::bltz { .. } | Instruction::bgez { .. } | Instruction::bgtz { .. } | Instruction::blez { .. } => self.core_branch(ins),
            Instruction::lui { .. } | Instruction::li { .. } | Instruction::mv { .. } | Instruction::not { .. } | Instruction::neg { .. } => self.core_value(ins),
            Instruction::call { .. } | Instruction::jal { .. } | Instruction::jalr { .. } | Instruction::j { .. } | Instruction::jr { .. } | Instruction::ret { .. } => self.core_jump(ins),
        }
    }


    /// The stateless update computation: given the instruction at the
    /// current PC, produces the [`ExecUpdate`] describing its effect —
    /// without mutating anything. Exactly [`calc_spec`].
    fn calculate_update(&self, ins: &Instruction) -> (r: Result<ExecUpdate, ExecErrorInner>)
        requires
            self.inv(),
            fetch(self@.prog, self@.pc) == Some(*ins),
        ensures
            match calc_spec(self@, *ins) {
                Ok(u) => r matches Ok(ru) && ru@ == u,
                Err(e) => r matches Err(re) && re@ == e,
            },
    {
        let pu_sop = match self.calc_core_exec(ins) {
            Ok(x) => x,
            Err(e) => {
                return Err(e);
            },
        };
        let (pu, sop) = pu_sop;
        let mut warnings: Vec<ExecError> = Vec::new();
        if let Some(Diff::Register { reg, val }) = pu.diff {
            if reg == Register::x0 {
                match self.config.write_to_x0 {
                    ConfigLevel::Allow => {},
                    ConfigLevel::Warn => {
                        warnings.push(
                            ExecError { pc: self.pc, error: ExecErrorInner::WriteToX0 { val } },
                        );
                    },
                    ConfigLevel::Deny => {
                        return Err(ExecErrorInner::WriteToX0 { val });
                    },
                }
            }
        }
        let upd = ExecUpdate { pc: self.pc, processor_update: pu, stackop: sop, warnings };
        proof {
            match calc_spec(self@, *ins) {
                Ok(u) => {
                    assert(upd@.warnings =~= u.warnings);
                    assert(upd@ =~= u);
                },
                Err(_) => {
                    assert(false);
                },
            }
        }
        Ok(upd)
    }

    /// Applies an [`ExecUpdate`] atomically, per [`commit_spec`]: either
    /// the full effect becomes visible, or an error is returned and the
    /// executor is unchanged.
    fn commit(&mut self, update: &ExecUpdate) -> (r: ExecResult<()>)
        requires
            old(self).inv(),
            old(self)@.executed < usize::MAX,
        ensures
            final(self).inv(),
            match commit_spec(old(self)@, update@) {
                Ok(s2) => r is Ok && final(self)@ == s2,
                Err(e) => r matches Err(re) && re@ == e && final(self)@ == old(self)@,
            },
    {
        // Calling-convention check for a return; nothing is mutated yet.
        if let Some(StackOp::PopStack(reg)) = update.stackop {
            if self.stack.len() == 0 {
                return Err(
                    ExecError {
                        pc: self.pc,
                        error: ExecErrorInner::CallingConventionViolation(Vec::new()),
                    },
                );
            }
            let frame: FnCallEnter = self.stack[self.stack.len() - 1];
            let mut violations: Vec<CallingConventionError> = Vec::new();
            if frame.ra_register != reg {
                violations.push(
                    CallingConventionError::ReturnViaOtherReg {
                        save: frame.ra_register,
                        other: reg,
                    },
                );
            }
            let ghost head = violations@;
            let order = callee_saved_list();
            let n = order.len();
            let mut i: usize = 0;
            proof {
                assert(callee_saved().skip(0) =~= callee_saved());
                assert(head + modified_sublist(self.regfile, frame.snapshot, callee_saved())
                    =~= pop_violations(self@, reg));
            }
            while i < n
                invariant
                    i <= n,
                    n == callee_saved().len(),
                    order@ == callee_saved(),
                    violations@ + modified_sublist(
                        self.regfile,
                        frame.snapshot,
                        callee_saved().skip(i as int),
                    ) == pop_violations(self@, reg),
                decreases n - i,
            {
                let r = order[i];
                proof {
                    let rest = callee_saved().skip(i as int);
                    assert(rest.first() == callee_saved()[i as int]);
                    assert(rest.drop_first() =~= callee_saved().skip(i + 1));
                }
                let pre = frame.snapshot.get(r);
                let post = self.regfile.get(r);
                if pre != post {
                    violations.push(CallingConventionError::ModifiedRegister { reg: r, pre, post });
                }
                proof {
                    assert(violations@ + modified_sublist(
                        self.regfile,
                        frame.snapshot,
                        callee_saved().skip(i + 1),
                    ) =~= pop_violations(self@, reg));
                }
                i = i + 1;
            }
            proof {
                assert(callee_saved().skip(n as int) =~= Seq::<Register>::empty());
                assert(violations@ =~= pop_violations(self@, reg));
            }
            if violations.len() > 0 {
                return Err(
                    ExecError {
                        pc: self.pc,
                        error: ExecErrorInner::CallingConventionViolation(violations),
                    },
                );
            }
        }
        // The memory write is the only other fallible part; do it before
        // any other mutation so a failure leaves the executor unchanged.
        if let Some(Diff::Memory { addr, val, op }) = update.processor_update.diff {
            match self.memory.store(addr, val, op) {
                Ok(_) => {},
                Err(e) => {
                    proof {
                        assert(final(self)@ =~= old(self)@);
                    }
                    return Err(ExecError { pc: self.pc, error: ExecErrorInner::Memory(e) });
                },
            }
        }
        // From here on nothing can fail.
        let mut pre = self.regfile;
        pre.pc = self.pc;
        if let Some(StackOp::PopStack(_)) = update.stackop {
            let _ = self.stack.pop();
        }
        if let Some(Diff::Register { reg, val }) = update.processor_update.diff {
            self.regfile.set(reg, val);
        }
        if self.executed % SNAPSHOT_INTERVAL == 0 {
            self.snapshots.insert(self.executed, pre);
        }
        if let Some(StackOp::PushStack(reg)) = update.stackop {
            let post_val = self.regfile.get(reg);
            let mut snap = pre;
            snap.set(reg, post_val);
            self.stack.push(
                FnCallEnter { snapshot: snap, executed: self.executed, ra_register: reg },
            );
        }
        self.pc = update.processor_update.nextpc;
        self.regfile.pc = update.processor_update.nextpc;
        self.executed = self.executed + 1;
        proof {
            match commit_spec(old(self)@, update@) {
                Ok(s2) => {
                    assert(self@ =~= s2);
                },
                Err(_) => {
                    assert(false);
                },
            }
            assert(state_inv(self@)) by {
                assert forall|k: usize|
                    k % SNAPSHOT_INTERVAL == 0 && k < self@.executed implies self@
                    .snapshots.contains_key(k) by {
                    if k < old(self)@.executed {
                        assert(old(self)@.snapshots.contains_key(k));
                    } else {
                        assert(k == old(self)@.executed);
                    }
                }
            }
        }
        Ok(())
    }

    /// Executes the instruction at the current PC: fetch, compute the
    /// update, commit. On success the update is returned; on error the
    /// executor is unchanged ([`step`] of the executor's state).
    pub fn execute(&mut self) -> (r: ExecResult<ExecUpdate>)
        requires
            old(self).inv(),
        ensures
            final(self).inv(),
            match step(old(self)@) {
                Ok((s2, u)) => r matches Ok(ru) && ru@ == u && final(self)@ == s2,
                Err(e) => r matches Err(re) && re@ == e && final(self)@ == old(self)@,
            },
    {
        if self.executed == usize::MAX {
            return Err(ExecError { pc: self.pc, error: ExecErrorInner::Finished });
        }
        let update = match self.program.at(self.pc) {
            Some(ins) => match self.calculate_update(ins) {
                Ok(u) => u,
                Err(e) => {
                    return Err(ExecError { pc: self.pc, error: e });
                },
            },
            None => {
                return Err(ExecError { pc: self.pc, error: ExecErrorInner::Finished });
            },
        };
        match self.commit(&update) {
            Ok(_) => Ok(update),
            Err(e) => Err(e),
        }
    }

    /// Runs until the program finishes (`Ok`) or a real error surfaces;
    /// the `Finished` pseudo-error is converted to success.
    pub fn run(&mut self) -> (r: ExecResult<()>)
        requires
            old(self).inv(),
        ensures
            final(self).inv(),
            exists|n: nat| run_n(old(self)@, n) == Some(final(self)@),
            match r {
                Ok(()) => step(final(self)@) matches Err(e) && e.inner is Finished,
                Err(e) => step(final(self)@) == Err::<(State, UpdateV), ErrV>(e@) && !(e@.inner
                    is Finished),
            },
    {
        let ghost s0 = self@;
        let ghost mut n: nat = 0;
        proof {
            assert(run_n(s0, 0) == Some(self@));
        }
        loop
            invariant
                self.inv(),
                s0 == old(self)@,
                run_n(s0, n) == Some(self@),
            decreases usize::MAX - self.executed,
        {
            match self.execute() {
                Ok(_) => {
                    proof {
                        n = n + 1;
                        assert(run_n(s0, n) == Some(self@));
                    }
                },
                Err(e) => {
                    if matches!(e.error, ExecErrorInner::Finished) {
                        return Ok(());
                    }
                    return Err(e);
                },
            }
        }
    }

    /// Reverts one instruction: restores the registers and PC from the
    /// nearest snapshot at or below `executed - 1`, truncates the shadow
    /// stack, and replays forward to `executed - 1`. Memory is not
    /// reverted. Returns the forward update at the restored state (the
    /// update of the instruction that was just undone), so a front-end
    /// can render a reversal diff; `StartReached` at the origin.
    pub fn revert(&mut self) -> (r: ExecResult<ExecUpdate>)
        requires
            old(self).inv(),
        ensures
            final(self).inv(),
            old(self)@.executed == 0 ==> (r matches Err(e) && e@ == (ErrV {
                pc: old(self)@.pc,
                inner: ErrInnerV::StartReached,
            }) && final(self)@ == old(self)@),
            old(self)@.executed > 0 ==> {
                let p = revert_prep(old(self)@);
                let target = old(self)@.executed - 1;
                match r {
                    Ok(u) => {
                        &&& run_n(p, (target - p.executed) as nat) == Some(final(self)@)
                        &&& final(self)@.executed == target
                        &&& match fetch(final(self)@.prog, final(self)@.pc) {
                            Some(ins) => calc_spec(final(self)@, ins) == Ok::<
                                UpdateV,
                                ErrInnerV,
                            >(u@),
                            None => false,
                        }
                    },
                    Err(e) => exists|k: nat|
                        k <= target - p.executed && run_n(p, k) == Some(final(self)@),
                }
            },
    {
        if self.executed == 0 {
            return Err(ExecError { pc: self.pc, error: ExecErrorInner::StartReached });
        }
        let target = self.executed - 1;
        let base = target - (target % SNAPSHOT_INTERVAL);
        proof {
            assert(base % SNAPSHOT_INTERVAL == 0) by {
                assert(target == SNAPSHOT_INTERVAL * (target / SNAPSHOT_INTERVAL) + (target
                    % SNAPSHOT_INTERVAL));
            }
            assert(self@.snapshots.contains_key(base));
        }
        // Restore the registers, PC and executed-count from the snapshot.
        let snap: RegisterSnapshot = match self.snapshots.get(&base) {
            Some(s) => *s,
            None => vstd::pervasive::unreached(),
        };
        self.regfile = snap;
        self.pc = snap.pc;
        self.executed = base;
        // Keep the entry frame and every frame from before `base`; the
        // replay re-pushes the frames of calls made at or after `base`.
        let mut keep: usize = 0;
        while keep < self.stack.len() && (keep == 0 || self.stack[keep].executed < base)
            invariant
                keep <= self.stack@.len(),
                trunc_len(self.stack@, base, 0) == trunc_len(self.stack@, base, keep as int),
            decreases self.stack@.len() - keep,
        {
            keep = keep + 1;
        }
        proof {
            assert(trunc_len(self.stack@, base, keep as int) == keep);
        }
        self.stack.truncate(keep);
        proof {
            assert(self@ =~= revert_prep(old(self)@));
        }
        // Replay up to the target; each replayed step was committed
        // before, so for programs whose loads are not disturbed by later
        // stores it reproduces the recorded history.
        let ghost p = self@;
        let ghost mut k: nat = 0;
        while self.executed < target
            invariant
                self.inv(),
                p == revert_prep(old(self)@),
                target < old(self)@.executed,
                run_n(p, k) == Some(self@),
                self@.executed == p.executed + k,
                self@.executed <= target,
            decreases target - self.executed,
        {
            match self.execute() {
                Ok(_) => {
                    proof {
                        k = k + 1;
                    }
                },
                Err(e) => {
                    return Err(e);
                },
            }
        }
        // Recompute the forward update of the instruction that was
        // undone, so the caller can derive a reversal diff.
        let upd = match self.program.at(self.pc) {
            Some(ins) => match self.calculate_update(ins) {
                Ok(u) => u,
                Err(e) => {
                    return Err(ExecError { pc: self.pc, error: e });
                },
            },
            None => {
                return Err(ExecError { pc: self.pc, error: ExecErrorInner::Finished });
            },
        };
        Ok(upd)
    }
}

/// A fetchable PC is nonnegative, 4-aligned, and at least 4 below
/// `4 * program length`, which itself fits in an `i32`.
pub proof fn lemma_fetch_pc_bounds(p: ProgV, pc: i32)
    requires
        prog_wf(p),
        fetch(p, pc) is Some,
    ensures
        0 <= pc,
        pc + 4 <= 4 * p.code.len() < 0x8000_0000,
{
    assert(pc == 4 * (pc / 4) + (pc % 4));
}

/// In a well-formed program, the label a fetched instruction refers to
/// is defined.
pub proof fn lemma_fetch_label_defined(p: ProgV, pc: i32, ins: Instruction)
    requires
        prog_wf(p),
        fetch(p, pc) == Some(ins),
    ensures
        match crate::parse::instr_label(ins) {
            Some(l) => p.labels.contains_key(l),
            None => true,
        },
{
    assert(p.code[pc as int / 4] == ins);
}

// ---------------------------------------------------------------------
// Laws
// ---------------------------------------------------------------------

/// Determinism: a step — and hence any number of steps — is a function
/// of the executor's state alone. Two executors in equal states produce
/// equal updates, equal errors, and equal successor states.
pub proof fn lemma_determinism(s1: State, s2: State, n: nat)
    requires
        s1 == s2,
    ensures
        step(s1) == step(s2),
        run_n(s1, n) == run_n(s2, n),
{
}

/// Register `x0` is hardwired to zero: a write to it changes nothing,
/// and it reads as zero afterwards.
pub proof fn lemma_x0_hardwired(regs: RegisterSnapshot, v: i32)
    ensures
        reg_write(regs, Register::x0, v) == regs,
        reg_read(reg_write(regs, Register::x0, v), Register::x0) == 0,
{
}

/// The entries of [`modified_list`] are exactly the registers of
/// [`callee_diff`], each with its value in the frame snapshot (`pre`)
/// and in the current registers (`post`).
pub proof fn lemma_modified_matches_diff(
    cur: RegisterSnapshot,
    snap: RegisterSnapshot,
    regs: Seq<Register>,
)
    ensures
        modified_sublist(cur, snap, regs).len() == diff_list(cur, snap, regs).len(),
        forall|i: int|
            0 <= i < diff_list(cur, snap, regs).len() ==> #[trigger] modified_sublist(
                cur,
                snap,
                regs,
            )[i] == (CallingConventionError::ModifiedRegister {
                reg: diff_list(cur, snap, regs)[i],
                pre: reg_read(snap, diff_list(cur, snap, regs)[i]),
                post: reg_read(cur, diff_list(cur, snap, regs)[i]),
            }),
    decreases regs.len(),
{
    if regs.len() > 0 {
        lemma_modified_matches_diff(cur, snap, regs.drop_first());
        let hd = regs.first();
        let mrest = modified_sublist(cur, snap, regs.drop_first());
        let drest = diff_list(cur, snap, regs.drop_first());
        assert forall|i: int|
            0 <= i < diff_list(cur, snap, regs).len() implies #[trigger] modified_sublist(
            cur,
            snap,
            regs,
        )[i] == (CallingConventionError::ModifiedRegister {
            reg: diff_list(cur, snap, regs)[i],
            pre: reg_read(snap, diff_list(cur, snap, regs)[i]),
            post: reg_read(cur, diff_list(cur, snap, regs)[i]),
        }) by {
            if reg_read(cur, hd) != reg_read(snap, hd) {
                if i > 0 {
                    assert(modified_sublist(cur, snap, regs)[i] == mrest[i - 1]);
                    assert(diff_list(cur, snap, regs)[i] == drest[i - 1]);
                }
            } else {
                assert(modified_sublist(cur, snap, regs)[i] == mrest[i]);
                assert(diff_list(cur, snap, regs)[i] == drest[i]);
            }
        }
    }
}

/// Callee-saved enforcement: a return through the saved register whose
/// callee changed some of `sp`, `s0..s11` fails the commit with a
/// `CallingConventionViolation` naming exactly the changed registers,
/// each with its value from before the call and at the return. The
/// executor is unchanged ([`commit_spec`] returns the error).
pub proof fn lemma_callee_saved_enforced(s: State, u: UpdateV, reg: Register)
    requires
        u.stackop == Some(StackOp::PopStack(reg)),
        s.stack.len() > 0,
        s.stack.last().ra_register == reg,
        callee_diff(s.regs, s.stack.last().snapshot).len() > 0,
    ensures
        commit_spec(s, u) == Err::<State, ErrV>(
            ErrV {
                pc: s.pc,
                inner: ErrInnerV::CallingConventionViolation(
                    modified_list(s.regs, s.stack.last().snapshot),
                ),
            },
        ),
        modified_list(s.regs, s.stack.last().snapshot).len() == callee_diff(
            s.regs,
            s.stack.last().snapshot,
        ).len(),
        forall|i: int|
            0 <= i < callee_diff(s.regs, s.stack.last().snapshot).len()
                ==> #[trigger] modified_list(s.regs, s.stack.last().snapshot)[i] == (
            CallingConventionError::ModifiedRegister {
                reg: callee_diff(s.regs, s.stack.last().snapshot)[i],
                pre: reg_read(s.stack.last().snapshot, callee_diff(s.regs, s.stack.last().snapshot)[i]),
                post: reg_read(s.regs, callee_diff(s.regs, s.stack.last().snapshot)[i]),
            }),
{
    let snap = s.stack.last().snapshot;
    lemma_modified_matches_diff(s.regs, snap, callee_saved());
    assert(pop_violations(s, reg) =~= modified_list(s.regs, snap));
    assert(pop_violations(s, reg).len() > 0);
}

/// Return-register discipline: a return through a different register
/// than the one the call saved the return address in fails the commit
/// with a violation list that opens with `ReturnViaOtherReg` naming the
/// saved and the used register.
pub proof fn lemma_return_register_mismatch(s: State, u: UpdateV, reg: Register)
    requires
        u.stackop == Some(StackOp::PopStack(reg)),
        s.stack.len() > 0,
        s.stack.last().ra_register != reg,
    ensures
        commit_spec(s, u) == Err::<State, ErrV>(
            ErrV {
                pc: s.pc,
                inner: ErrInnerV::CallingConventionViolation(
                    seq![
                        CallingConventionError::ReturnViaOtherReg {
                            save: s.stack.last().ra_register,
                            other: reg,
                        },
                    ] + modified_list(s.regs, s.stack.last().snapshot),
                ),
            },
        ),
        pop_violations(s, reg)[0] == (CallingConventionError::ReturnViaOtherReg {
            save: s.stack.last().ra_register,
            other: reg,
        }),
{
    assert(pop_violations(s, reg).len() > 0);
}

/// What one successful step does to the bookkeeping fields.
pub proof fn lemma_step_shape(s: State, s2: State, u: UpdateV)
    requires
        step(s) == Ok::<(State, UpdateV), ErrV>((s2, u)),
    ensures
        s2.executed == s.executed + 1,
        s2.prog == s.prog,
        s2.config == s.config,
        s2.mem.config == s.mem.config,
        snap_pc(s2.regs) == s2.pc,
        s2.snapshots == if s.executed % SNAPSHOT_INTERVAL == 0 {
            s.snapshots.insert(s.executed, with_pc(s.regs, s.pc))
        } else {
            s.snapshots
        },
        (s2.stack.len() >= 1 && s.stack.len() >= 1) ==> s2.stack[0] == s.stack[0],
{
    let c = commit_spec(s, u);
    assert(c == Ok::<State, ErrV>(s2));
}

/// `run_n` restricted to a prefix.
pub proof fn lemma_run_n_prefix(s0: State, n: nat, k: nat)
    requires
        k <= n,
        run_n(s0, n) is Some,
    ensures
        run_n(s0, k) is Some,
    decreases n - k,
{
    if k < n {
        lemma_run_n_unfold(s0, n);
        lemma_run_n_prefix(s0, (n - 1) as nat, k);
    }
}

/// Unfolding helper: a successful `n`-step run has a successful
/// `n - 1`-step prefix whose last step succeeds.
pub proof fn lemma_run_n_unfold(s0: State, n: nat)
    requires
        n > 0,
        run_n(s0, n) is Some,
    ensures
        run_n(s0, (n - 1) as nat) is Some,
        step(run_n(s0, (n - 1) as nat)->Some_0) is Ok,
        run_n(s0, n)->Some_0 == step(run_n(s0, (n - 1) as nat)->Some_0)->Ok_0.0,
{
}

/// Along a run, the executed-count advances by exactly one per step.
pub proof fn lemma_run_executed(s0: State, n: nat)
    requires
        run_n(s0, n) is Some,
    ensures
        run_n(s0, n)->Some_0.executed == s0.executed + n,
        run_n(s0, n)->Some_0.prog == s0.prog,
        run_n(s0, n)->Some_0.config == s0.config,
        run_n(s0, n)->Some_0.mem.config == s0.mem.config,
    decreases n,
{
    if n > 0 {
        lemma_run_n_unfold(s0, n);
        lemma_run_executed(s0, (n - 1) as nat);
        let prev = run_n(s0, (n - 1) as nat)->Some_0;
        lemma_step_shape(prev, run_n(s0, n)->Some_0, step(prev)->Ok_0.1);
    }
}

/// Along a run from a state whose register file carries its own PC,
/// every state's register file carries its PC.
pub proof fn lemma_run_pc_synced(s0: State, n: nat)
    requires
        run_n(s0, n) is Some,
        snap_pc(s0.regs) == s0.pc,
    ensures
        snap_pc(run_n(s0, n)->Some_0.regs) == run_n(s0, n)->Some_0.pc,
    decreases n,
{
    if n > 0 {
        lemma_run_n_unfold(s0, n);
        lemma_run_pc_synced(s0, (n - 1) as nat);
        let prev = run_n(s0, (n - 1) as nat)->Some_0;
        lemma_step_shape(prev, run_n(s0, n)->Some_0, step(prev)->Ok_0.1);
    }
}

/// Snapshot correctness: after a fresh executor for program `p` has run
/// `n` steps, the snapshot recorded at every interval multiple `k` it
/// has passed (and at 0) is exactly the register file — PC included —
/// that a fresh executor has after running `k` steps.
pub proof fn lemma_snapshot_correctness(p: ProgV, n: nat, k: usize)
    requires
        run_n(init_state(p), n) is Some,
        k % SNAPSHOT_INTERVAL == 0,
        k < n || k == 0,
    ensures
        run_n(init_state(p), k as nat) is Some,
        run_n(init_state(p), n)->Some_0.snapshots.contains_key(k),
        run_n(init_state(p), n)->Some_0.snapshots[k] == run_n(init_state(p), k as nat)->Some_0.regs,
    decreases n,
{
    let s0 = init_state(p);
    lemma_run_n_prefix(s0, n, k as nat);
    if n == 0 {
        assert(k == 0);
        assert(s0.snapshots[0] == init_regs());
    } else {
        lemma_run_n_unfold(s0, n);
        let prev = run_n(s0, (n - 1) as nat)->Some_0;
        let cur = run_n(s0, n)->Some_0;
        lemma_step_shape(prev, cur, step(prev)->Ok_0.1);
        lemma_run_executed(s0, (n - 1) as nat);
        lemma_run_pc_synced(s0, (n - 1) as nat);
        if k < n - 1 || k == 0 {
            lemma_snapshot_correctness(p, (n - 1) as nat, k);
        } else {
            // k == n - 1, a multiple the last step just snapshotted.
            assert(prev.executed == k);
            assert(with_pc(prev.regs, prev.pc) == prev.regs);
            assert(cur.snapshots[k] == prev.regs);
        }
    }
}

/// Whether the instruction the state is about to execute reads data
/// memory (only loads do; stores are computed from registers alone).
pub open spec fn step_no_load(s: State) -> bool {
    match fetch(s.prog, s.pc) {
        Some(ins) => !(ins matches Instruction::load { .. }),
        None => true,
    }
}

/// Two states that agree on everything an instruction other than a load
/// reads or checks: they may differ in memory contents and in the
/// recorded snapshots.
pub open spec fn similar(a: State, b: State) -> bool {
    &&& a.config == b.config
    &&& a.pc == b.pc
    &&& a.executed == b.executed
    &&& a.prog == b.prog
    &&& a.regs == b.regs
    &&& a.stack == b.stack
    &&& a.mem.config == b.mem.config
}

/// The update computation reads memory only through loads: on any other
/// instruction, similar states compute the same update.
#[verifier::rlimit(100)]
proof fn lemma_calc_similar(a: State, b: State, ins: Instruction)
    requires
        similar(a, b),
        !(ins matches Instruction::load { .. }),
    ensures
        calc_spec(a, ins) == calc_spec(b, ins),
{
    match ins {
        Instruction::addi { .. } => {
            assert(calc_spec(a, ins) == calc_spec(b, ins));
        },
        Instruction::slti { .. } => {
            assert(calc_spec(a, ins) == calc_spec(b, ins));
        },
        Instruction::sltiu { .. } => {
            assert(calc_spec(a, ins) == calc_spec(b, ins));
        },
        Instruction::xori { .. } => {
            assert(calc_spec(a, ins) == calc_spec(b, ins));
        },
        Instruction::ori { .. } => {
            assert(calc_spec(a, ins) == calc_spec(b, ins));
        },
        Instruction::andi { .. } => {
            assert(calc_spec(a, ins) == calc_spec(b, ins));
        },
        Instruction::slli { .. } => {
            assert(calc_spec(a, ins) == calc_spec(b, ins));
        },
        Instruction::srli { .. } => {
            assert(calc_spec(a, ins) == calc_spec(b, ins));
        },
        Instruction::srai { .. } => {
            assert(calc_spec(a, ins) == calc_spec(b, ins));
        },
        Instruction::add { .. } => {
            assert(calc_spec(a, ins) == calc_spec(b, ins));
        },
        Instruction::sub { .. } => {
            assert(calc_spec(a, ins) == calc_spec(b, ins));
        },
        Instruction::sll { .. } => {
            assert(calc_spec(a, ins) == calc_spec(b, ins));
        },
        Instruction::slt { .. } => {
            assert(calc_spec(a, ins) == calc_spec(b, ins));
        },
        Instruction::sltu { .. } => {
            assert(calc_spec(a, ins) == calc_spec(b, ins));
        },
        Instruction::xor { .. } => {
            assert(calc_spec(a, ins) == calc_spec(b, ins));
        },
        Instruction::srl { .. } => {
            assert(calc_spec(a, ins) == calc_spec(b, ins));
        },
        Instruction::sra { .. } => {
            assert(calc_spec(a, ins) == calc_spec(b, ins));
        },
        Instruction::or { .. } => {
            assert(calc_spec(a, ins) == calc_spec(b, ins));
        },
        Instruction::and { .. } => {
            assert(calc_spec(a, ins) == calc_spec(b, ins));
        },
        Instruction::store { .. } => {
            assert(calc_spec(a, ins) == calc_spec(b, ins));
        },
        Instruction::beq { .. } => {
            assert(calc_spec(a, ins) == calc_spec(b, ins));
        },
        Instruction::bne { .. } => {
            assert(calc_spec(a, ins) == calc_spec(b, ins));
        },
        Instruction::blt { .. } => {
            assert(calc_spec(a, ins) == calc_spec(b, ins));
        },
        Instruction::bge { .. } => {
            assert(calc_spec(a, ins) == calc_spec(b, ins));
        },
        Instruction::bltu { .. } => {
            assert(calc_spec(a, ins) == calc_spec(b, ins));
        },
        Instruction::bgeu { .. } => {
            assert(calc_spec(a, ins) == calc_spec(b, ins));
        },
        Instruction::bgt { .. } => {
            assert(calc_spec(a, ins) == calc_spec(b, ins));
        },
        Instruction::ble { .. } => {
            assert(calc_spec(a, ins) == calc_spec(b, ins));
        },
        Instruction::bgtu { .. } => {
            assert(calc_spec(a, ins) == calc_spec(b, ins));
        },
        Instruction::bleu { .. } => {
            assert(calc_spec(a, ins) == calc_spec(b, ins));
        },
        Instruction::lui { .. } => {
            assert(calc_spec(a, ins) == calc_spec(b, ins));
        },
        Instruction::li { .. } => {
            assert(calc_spec(a, ins) == calc_spec(b, ins));
        },
        Instruction::beqz { .. } => {
            assert(calc_spec(a, ins) == calc_spec(b, ins));
        },
        Instruction::bnez { .. } => {
            assert(calc_spec(a, ins) == calc_spec(b, ins));
        },
        Instruction::bltz { .. } => {
            assert(calc_spec(a, ins) == calc_spec(b, ins));
        },
        Instruction::bgez { .. } => {
            assert(calc_spec(a, ins) == calc_spec(b, ins));
        },
        Instruction::bgtz { .. } => {
            assert(calc_spec(a, ins) == calc_spec(b, ins));
        },
        Instruction::blez { .. } => {
            assert(calc_spec(a, ins) == calc_spec(b, ins));
        },
        Instruction::mv { .. } => {
            assert(calc_spec(a, ins) == calc_spec(b, ins));
        },
        Instruction::not { .. } => {
            assert(calc_spec(a, ins) == calc_spec(b, ins));
        },
        Instruction::neg { .. } => {
            assert(calc_spec(a, ins) == calc_spec(b, ins));
        },
        Instruction::call { .. } => {
            assert(calc_spec(a, ins) == calc_spec(b, ins));
        },
        Instruction::jal { .. } => {
            assert(calc_spec(a, ins) == calc_spec(b, ins));
        },
        Instruction::jalr { .. } => {
            assert(calc_spec(a, ins) == calc_spec(b, ins));
        },
        Instruction::j { .. } => {
            assert(calc_spec(a, ins) == calc_spec(b, ins));
        },
        Instruction::jr { .. } => {
            assert(calc_spec(a, ins) == calc_spec(b, ins));
        },
        Instruction::ret { .. } => {
            assert(calc_spec(a, ins) == calc_spec(b, ins));
        },
        Instruction::load { .. } => {
            assert(false);
        },
    }
}

/// One step of two similar states, away from a load: the same update
/// comes out, and the successors are similar again.
proof fn lemma_step_similar(a: State, b: State, a2: State, u: UpdateV)
    requires
        similar(a, b),
        step_no_load(a),
        step(a) == Ok::<(State, UpdateV), ErrV>((a2, u)),
    ensures
        step(b) matches Ok((b2, u2)) && u2 == u && similar(a2, b2),
{
    let ins = fetch(a.prog, a.pc)->Some_0;
    lemma_calc_similar(a, b, ins);
    assert(commit_spec(a, u) == Ok::<State, ErrV>(a2));
    match u.stackop {
        Some(StackOp::PopStack(reg)) => {
            assert(pop_violations(b, reg) == pop_violations(a, reg));
        },
        _ => {},
    }
    match u.diff {
        Some(Diff::Memory { addr, val, op }) => {
            assert(store_spec(b.mem, addr, val, op) is Ok);
        },
        _ => {},
    }
    assert(step(b) matches Ok((b2, u2)) && u2 == u && similar(a2, b2));
}

/// Inserting a key with the value it already has changes nothing.
proof fn lemma_insert_same<K, V>(m: Map<K, V>, k: K, v: V)
    requires
        m.contains_key(k),
        m[k] == v,
    ensures
        m.insert(k, v) == m,
{
    assert(m.insert(k, v) =~= m);
}

/// Replaying a load-free run from a similar state reproduces it: each
/// replayed state is similar to the recorded one, and (for a replay
/// that stays within the first snapshot interval and starts with its
/// own registers snapshotted at 0) the snapshot map does not change.
proof fn lemma_replay_similar(a0: State, b0: State, k: nat)
    requires
        similar(a0, b0),
        run_n(a0, k) is Some,
        forall|j: nat| j < k ==> step_no_load(#[trigger] run_n(a0, j)->Some_0),
        b0.executed == 0,
        k <= SNAPSHOT_INTERVAL,
        snap_pc(b0.regs) == b0.pc,
        b0.snapshots.contains_key(0usize),
        b0.snapshots[0usize] == b0.regs,
    ensures
        run_n(b0, k) is Some,
        similar(run_n(a0, k)->Some_0, run_n(b0, k)->Some_0),
        run_n(b0, k)->Some_0.snapshots == b0.snapshots,
    decreases k,
{
    if k > 0 {
        lemma_replay_similar(a0, b0, (k - 1) as nat);
        lemma_run_n_unfold(a0, k);
        let pa = run_n(a0, (k - 1) as nat)->Some_0;
        let pb = run_n(b0, (k - 1) as nat)->Some_0;
        assert(step_no_load(pa));
        lemma_step_similar(pa, pb, run_n(a0, k)->Some_0, step(pa)->Ok_0.1);
        let sb = step(pb)->Ok_0.0;
        lemma_step_shape(pb, sb, step(pb)->Ok_0.1);
        lemma_run_executed(b0, (k - 1) as nat);
        if pb.executed % SNAPSHOT_INTERVAL == 0 {
            assert(pb.executed == 0);
            assert(pb == b0);
            assert(with_pc(b0.regs, b0.pc) == b0.regs);
            lemma_insert_same(pb.snapshots, 0usize, b0.regs);
        }
    }
}

/// Shape of a run that stays within the first snapshot interval and
/// never empties the shadow stack: every state along it keeps the
/// initial snapshot map (one entry, the initial registers at key 0) and
/// the entry frame at the bottom of the stack.
pub proof fn lemma_quiet_state(p: ProgV, n: nat, j: nat)
    requires
        n <= SNAPSHOT_INTERVAL,
        run_n(init_state(p), n) is Some,
        forall|k: nat| k <= n ==> (#[trigger] run_n(init_state(p), k))->Some_0.stack.len() >= 1,
        j <= n,
    ensures
        run_n(init_state(p), j) is Some,
        run_n(init_state(p), j)->Some_0.snapshots == init_state(p).snapshots,
        run_n(init_state(p), j)->Some_0.stack[0] == init_state(p).stack[0],
        run_n(init_state(p), j)->Some_0.executed == j,
        run_n(init_state(p), j)->Some_0.config == init_state(p).config,
        run_n(init_state(p), j)->Some_0.prog == p,
        run_n(init_state(p), j)->Some_0.mem.config == init_state(p).mem.config,
    decreases j,
{
    let s0 = init_state(p);
    lemma_run_n_prefix(s0, n, j);
    lemma_run_executed(s0, j);
    if j > 0 {
        lemma_quiet_state(p, n, (j - 1) as nat);
        lemma_run_n_unfold(s0, j);
        lemma_run_n_prefix(s0, n, (j - 1) as nat);
        let prev = run_n(s0, (j - 1) as nat)->Some_0;
        let cur = run_n(s0, j)->Some_0;
        lemma_step_shape(prev, cur, step(prev)->Ok_0.1);
        lemma_run_executed(s0, (j - 1) as nat);
        lemma_run_pc_synced(s0, (j - 1) as nat);
        if prev.executed % SNAPSHOT_INTERVAL == 0 {
            assert(prev.executed == 0);
            assert(with_pc(prev.regs, prev.pc) == prev.regs);
            assert(prev.regs == init_regs());
            lemma_insert_same(prev.snapshots, 0usize, init_regs());
        }
        assert(prev.stack.len() >= 1);
        assert(cur.stack.len() >= 1);
    }
}

/// The state a revert produces, as a function of the state it starts
/// from: restore from the snapshot, truncate the stack, replay.
pub open spec fn revert_model(s: State) -> Option<State> {
    if s.executed == 0 {
        None
    } else {
        let prep = revert_prep(s);
        run_n(prep, (s.executed - 1 - prep.executed) as nat)
    }
}

/// `k` reverts in a row.
pub open spec fn revert_iter(s: State, k: nat) -> Option<State>
    decreases k,
{
    if k == 0 {
        Some(s)
    } else {
        match revert_iter(s, (k - 1) as nat) {
            Some(t) => revert_model(t),
            None => None,
        }
    }
}

/// Each link of the revert chain: after `j` reverts of the state that
/// `n` steps reached, the executor is similar to the state after
/// `n - j` steps — equal registers, PC, executed-count and shadow
/// stack — and still holds the initial snapshot.
proof fn lemma_revert_chain(p: ProgV, n: nat, j: nat)
    requires
        n <= SNAPSHOT_INTERVAL,
        run_n(init_state(p), n) is Some,
        forall|k: nat| k < n ==> step_no_load(#[trigger] run_n(init_state(p), k)->Some_0),
        forall|k: nat| k <= n ==> (#[trigger] run_n(init_state(p), k))->Some_0.stack.len() >= 1,
        j <= n,
    ensures
        revert_iter(run_n(init_state(p), n)->Some_0, j) matches Some(t) && similar(
            run_n(init_state(p), (n - j) as nat)->Some_0,
            t,
        ) && t.snapshots == init_state(p).snapshots,
    decreases j,
{
    let s0 = init_state(p);
    let sn = run_n(s0, n)->Some_0;
    lemma_quiet_state(p, n, n);
    if j == 0 {
    } else {
        lemma_revert_chain(p, n, (j - 1) as nat);
        let t = revert_iter(sn, (j - 1) as nat)->Some_0;
        let m = (n - j + 1) as nat;
        lemma_quiet_state(p, n, m);
        lemma_quiet_state(p, n, (m - 1) as nat);
        let sm = run_n(s0, m)->Some_0;
        assert(t.executed == m);
        // The revert restores from the snapshot at 0 and keeps only the
        // entry frame; that is exactly the initial state but for memory.
        let target = (m - 1) as usize;
        assert(target % SNAPSHOT_INTERVAL == target);
        assert(t.snapshots[0usize] == init_regs());
        let prep = revert_prep(t);
        assert(trunc_len(t.stack, 0, 1) == 1);
        assert(trunc_len(t.stack, 0, 0) == 1);
        assert(t.stack.take(1) =~= seq![t.stack[0]]);
        assert(t.stack[0] == s0.stack[0]);
        assert(prep.stack =~= s0.stack);
        assert(snap_pc(init_regs()) == 0);
        assert(similar(s0, prep));
        lemma_run_n_prefix(s0, n, (m - 1) as nat);
        lemma_replay_similar(s0, prep, (m - 1) as nat);
    }
}

/// Revert round-trip: let a fresh executor run `n` steps of a program
/// that stays within one snapshot interval, reads no data memory, and
/// never empties its shadow stack. Then `n` reverts undo the run
/// completely: registers, PC, shadow stack and executed-count are back
/// to their initial values. (A program that loads an address stored to
/// later in the run is the known exception: memory is not reverted, so
/// the replay behind a revert would read the newer byte.)
pub proof fn lemma_revert_round_trip(p: ProgV, n: nat)
    requires
        n <= SNAPSHOT_INTERVAL,
        run_n(init_state(p), n) is Some,
        forall|k: nat| k < n ==> step_no_load(#[trigger] run_n(init_state(p), k)->Some_0),
        forall|k: nat| k <= n ==> (#[trigger] run_n(init_state(p), k))->Some_0.stack.len() >= 1,
    ensures
        revert_iter(run_n(init_state(p), n)->Some_0, n) matches Some(t) && t.regs == init_regs()
            && t.pc == 0 && t.executed == 0 && t.stack == init_state(p).stack,
{
    lemma_revert_chain(p, n, n);
}

} // verus!
