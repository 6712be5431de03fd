use std::collections::HashMap;

use riscv::executor::memory::MemoryError;
use riscv::executor::{
    CallingConventionError, ConfigLevel, ExecErrorInner, Executor, OverflowBehaviour, StackOp,
};
use riscv::parse::{Instruction, LoadOp, Program, Register};

fn executor_for(source: &str) -> Executor {
    Executor::new(Program::parse(source).unwrap())
}

#[test]
fn mem() {
    let mut exec = executor_for("li a0, 0x100\nli a1, 0xaabbccdd\nsw a1, 0(a0)\n");
    exec.run().unwrap();
    assert_eq!(
        exec.memory.mem,
        HashMap::from([(0x100, 0xdd), (0x101, 0xcc), (0x102, 0xbb), (0x103, 0xaa)])
    );
}

#[test]
fn quicksort() {
    let mut program = executor_for(
        "li a0, 0x100
li a1, 0x100
li a2, 0x120
li a3, 4
sw a3, 0(a0)
li a3, 3
sw a3, 4(a0)
li a3, 2
sw a3, 8(a0)
li a3, 1
sw a3, 0xc(a0)
// call quicksort
j done

// # a0: int* p
// # a1: start
// # a2: end
// quicksort:
//     bge a1, a2, end # end if start >= end
//     addi sp, sp, -28
//     sw ra, 0(sp)  # save ra
//     call partition
//     mv s0, a0 # s0 stores q
//     addi s1, s0, 1  # q + 1
//     addi s2, s0, -1 # q - 1
//     lw a0, 4(sp)
//     lw a1, 8(sp)
//     mv a2, s2
//     call quicksort
//     lw ra, 0(sp)
//     addi sp, sp, 28
//     end:
//         ret

done:
",
    );
    program.memory.config.default_value = Some(69);
    program.run().unwrap();
    println!("{:#?}", program.memory)
}

/// S1: after a word store, memory holds the little-endian bytes and the
/// registers and the executed-count are as expected.
#[test]
fn scenario_word_store_load() {
    let mut exec = executor_for("li a0, 0x100\nli a1, 0xaabbccdd\nsw a1, 0(a0)\n");
    exec.run().unwrap();
    assert_eq!(
        exec.memory.mem,
        HashMap::from([(0x100, 0xdd), (0x101, 0xcc), (0x102, 0xbb), (0x103, 0xaa)])
    );
    assert_eq!(exec.regfile.get(Register::a0), 0x100);
    assert_eq!(exec.regfile.get(Register::a1), 0xaabbccdd_u32 as i32);
    assert_eq!(exec.executed(), 3);
}

/// S2: an unaligned word store fails (leaving everything untouched)
/// unless unaligned accesses are enabled.
#[test]
fn scenario_unaligned_store() {
    let mut exec = executor_for("sw a0, 1(zero)\n");
    let err = exec.run().unwrap_err();
    assert_eq!(err.pc, 0);
    assert_eq!(
        err.error,
        ExecErrorInner::Memory(MemoryError::Unaligned { addr: 1, width: 4 })
    );
    assert!(exec.memory.mem.is_empty());
    assert_eq!(exec.regfile.get(Register::a0), 0);
    assert_eq!(exec.executed(), 0);

    let mut exec = executor_for("sw a0, 1(zero)\n");
    exec.memory.config.allow_unaligned = true;
    exec.run().unwrap();
    assert_eq!(exec.executed(), 1);
}

/// S3: signed versus unsigned half-word loads.
#[test]
fn scenario_half_loads() {
    let mut exec = executor_for("li a0, 0x40\nli a1, 0xabcd\nsw a1, 0(a0)\n");
    exec.run().unwrap();
    assert_eq!(exec.memory.load(0x40, LoadOp::Lh).unwrap(), 0xffffabcd_u32 as i32);
    assert_eq!(exec.memory.load(0x40, LoadOp::Lhu).unwrap(), 0x0000abcd);
}

/// S4: `addi` at `i32::MAX` traps, wraps, or saturates per the policy.
#[test]
fn scenario_overflow_policies() {
    let mut exec = executor_for("addi a1, a0, 1\n");
    exec.set(Register::a0, i32::MAX, 0).unwrap();
    let err = exec.execute().unwrap_err();
    assert_eq!(
        err.error,
        ExecErrorInner::Overflow(riscv::executor::OverflowError::Add {
            base: i32::MAX,
            adding: 1
        })
    );
    assert_eq!(exec.executed(), 0);

    let mut exec = executor_for("addi a1, a0, 1\n");
    exec.config.overflow_mode = OverflowBehaviour::Wrap;
    exec.set(Register::a0, i32::MAX, 0).unwrap();
    exec.execute().unwrap();
    assert_eq!(exec.regfile.get(Register::a1), i32::MIN);

    let mut exec = executor_for("addi a1, a0, 1\n");
    exec.config.overflow_mode = OverflowBehaviour::Saturate;
    exec.set(Register::a0, i32::MAX, 0).unwrap();
    exec.execute().unwrap();
    assert_eq!(exec.regfile.get(Register::a1), i32::MAX);
}

/// S5: a callee that clobbers `s0` and returns trips the calling
/// convention check, naming exactly the modified register.
#[test]
fn scenario_calling_convention() {
    let mut exec = executor_for("call sub\nj done\nsub:\nli s0, 5\nret\ndone:\n");
    let err = exec.run().unwrap_err();
    assert_eq!(err.pc, 12);
    assert_eq!(
        err.error,
        ExecErrorInner::CallingConventionViolation(vec![
            CallingConventionError::ModifiedRegister { reg: Register::s0, pre: 0, post: 5 }
        ])
    );
}

/// P6: returning through a different register than the one the call
/// saved the return address in.
#[test]
fn scenario_return_via_other_register() {
    let mut exec = executor_for("call sub\nj done\nsub:\njr t0\ndone:\n");
    let err = exec.run().unwrap_err();
    assert_eq!(
        err.error,
        ExecErrorInner::CallingConventionViolation(vec![
            CallingConventionError::ReturnViaOtherReg { save: Register::ra, other: Register::t0 }
        ])
    );
}

/// S6: run 1500 instructions of a deterministic loop, then revert them
/// one at a time back to the origin.
#[test]
fn scenario_revert_round_trip() {
    let source = "li t0, 2000\nloop:\naddi t1, t1, 1\nbne t1, t0, loop\n";
    let mut exec = executor_for(source);
    for _ in 0..1500 {
        exec.execute().unwrap();
    }
    assert_eq!(exec.executed(), 1500);

    // One revert equals the state after 1499 instructions.
    let mut reference = executor_for(source);
    for _ in 0..1499 {
        reference.execute().unwrap();
    }
    exec.revert().unwrap();
    assert_eq!(exec.executed(), 1499);
    assert_eq!(exec.regfile, reference.regfile);
    assert_eq!(exec.stack(), reference.stack());

    // 499 more land exactly on the snapshot boundary at 1000.
    let mut reference = executor_for(source);
    for _ in 0..1000 {
        reference.execute().unwrap();
    }
    for _ in 0..499 {
        exec.revert().unwrap();
    }
    assert_eq!(exec.executed(), 1000);
    assert_eq!(exec.regfile, reference.regfile);
    assert_eq!(exec.stack(), reference.stack());

    // The rest restore step by step back to the origin.
    for _ in 0..1000 {
        exec.revert().unwrap();
    }
    let fresh = executor_for(source);
    assert_eq!(exec.executed(), 0);
    assert_eq!(exec.regfile, fresh.regfile);
    assert_eq!(exec.stack(), fresh.stack());
    assert_eq!(exec.regfile.pc(), 0);

    // Reverting at the origin reports it.
    let err = exec.revert().unwrap_err();
    assert_eq!(err.error, ExecErrorInner::StartReached);
}

/// P1: two fresh executors on the same program produce identical update
/// sequences and identical states.
#[test]
fn determinism() {
    let source = "li t0, 50\nloop:\naddi t1, t1, 3\nslli t2, t1, 2\nbne t1, t0, loop\n";
    let mut a = executor_for(source);
    let mut b = executor_for(source);
    for _ in 0..60 {
        let ua = a.execute().unwrap();
        let ub = b.execute().unwrap();
        assert_eq!(ua, ub);
        assert_eq!(a.regfile, b.regfile);
        assert_eq!(a.executed(), b.executed());
    }
}

/// P9: under `Allow`, a write to `x0` is accepted but reads back as 0.
#[test]
fn x0_reads_as_zero() {
    let mut exec = executor_for("li x0, 7\nmv a0, x0\n");
    exec.config.write_to_x0 = ConfigLevel::Allow;
    exec.run().unwrap();
    assert_eq!(exec.regfile.get(Register::x0), 0);
    assert_eq!(exec.regfile.get(Register::a0), 0);
}

/// Under `Warn` (the default), a write to `x0` succeeds with a warning
/// attached to the update; under `Deny` it fails.
#[test]
fn x0_policy_levels() {
    let mut exec = executor_for("li x0, 7\n");
    let update = exec.execute().unwrap();
    assert_eq!(update.warnings().len(), 1);
    assert_eq!(update.warnings()[0].error, ExecErrorInner::WriteToX0 { val: 7 });

    let mut exec = executor_for("li x0, 7\n");
    exec.config.write_to_x0 = ConfigLevel::Deny;
    let err = exec.execute().unwrap_err();
    assert_eq!(err.error, ExecErrorInner::WriteToX0 { val: 7 });
    assert_eq!(exec.executed(), 0);
}

/// `set` writes any register but refuses the hardwired zero.
#[test]
fn set_register() {
    let mut exec = executor_for("ret\n");
    exec.set(Register::a5, 99, 0).unwrap();
    assert_eq!(exec.regfile.get(Register::a5), 99);
    let err = exec.set(Register::x0, 3, 0).unwrap_err();
    assert_eq!(err.error, ExecErrorInner::WriteToX0 { val: 3 });
}

/// Stepping past the end reports `Finished`; `run` converts it into
/// success.
#[test]
fn finished_is_recoverable() {
    let mut exec = executor_for("mv a0, a1\n");
    exec.execute().unwrap();
    let err = exec.execute().unwrap_err();
    assert_eq!(err.error, ExecErrorInner::Finished);
    assert_eq!(err.pc, 4);

    let mut exec = executor_for("mv a0, a1\n");
    exec.run().unwrap();
    assert_eq!(exec.executed(), 1);
}

/// `current` is the instruction about to execute, and none past the end.
#[test]
fn current_instruction() {
    let mut exec = executor_for("li a0, 1\n");
    assert_eq!(
        exec.current(),
        Some(Instruction::li { rd: Register::a0, imm: 1 })
    );
    exec.run().unwrap();
    assert_eq!(exec.current(), None);
}

/// An uninitialized load during execution surfaces the failing address.
#[test]
fn uninitialized_load_fails() {
    let mut exec = executor_for("lw a0, 0x20(zero)\n");
    let err = exec.run().unwrap_err();
    assert_eq!(
        err.error,
        ExecErrorInner::Memory(MemoryError::Uninitialized { addr: 0x20 })
    );
}

/// `sub` and shift instructions follow the configured overflow policy.
#[test]
fn shift_and_sub_policies() {
    // A shift count of 32 or more traps under the default policy.
    let mut exec = executor_for("li a0, 1\nslli a1, a0, 32\n");
    let err = exec.run().unwrap_err();
    assert_eq!(
        err.error,
        ExecErrorInner::Overflow(riscv::executor::OverflowError::ShiftLeft { base: 1, shamt: 32 })
    );

    // Under `Wrap` the count is taken mod 32.
    let mut exec = executor_for("li a0, 1\nslli a1, a0, 33\n");
    exec.config.overflow_mode = OverflowBehaviour::Wrap;
    exec.run().unwrap();
    assert_eq!(exec.regfile.get(Register::a1), 2);

    // Negating i32::MIN inside `sub` traps.
    let mut exec = executor_for("li a0, 0x80000000\nsub a1, zero, a0\n");
    let err = exec.run().unwrap_err();
    assert!(matches!(
        err.error,
        ExecErrorInner::Overflow(riscv::executor::OverflowError::Sub { .. })
    ));
}

/// The logical and arithmetic right shifts differ on negative values.
#[test]
fn right_shifts() {
    let mut exec = executor_for("li a0, 0x80000000\nsrli a1, a0, 31\nsrai a2, a0, 31\n");
    exec.run().unwrap();
    assert_eq!(exec.regfile.get(Register::a1), 1);
    assert_eq!(exec.regfile.get(Register::a2), -1);
}

/// `sltu` compares unsigned reinterpretations.
#[test]
fn unsigned_compare() {
    let mut exec = executor_for("li a0, 0xffffffff\nli a1, 1\nsltu a2, a1, a0\nsltu a3, a0, a1\n");
    exec.run().unwrap();
    assert_eq!(exec.regfile.get(Register::a2), 1);
    assert_eq!(exec.regfile.get(Register::a3), 0);
}

/// `StackOp::reverse` swaps pushes and pops, keeping the register.
#[test]
fn stackop_reverse() {
    assert_eq!(
        StackOp::PushStack(Register::ra).reverse(),
        StackOp::PopStack(Register::ra)
    );
    assert_eq!(
        StackOp::PopStack(Register::t3).reverse(),
        StackOp::PushStack(Register::t3)
    );
}

/// The `ConfigLevel` predicates pick out exactly their own level.
#[test]
fn config_levels() {
    assert!(ConfigLevel::Allow.is_allowed());
    assert!(!ConfigLevel::Allow.is_warning());
    assert!(ConfigLevel::Warn.is_warning());
    assert!(!ConfigLevel::Warn.is_forbidden());
    assert!(ConfigLevel::Deny.is_forbidden());
    assert!(!ConfigLevel::Deny.is_allowed());
}

/// `RegisterSnapshot::check` reports exactly the callee-saved registers
/// that differ, in order.
#[test]
fn snapshot_check() {
    let mut exec = executor_for("ret\n");
    let before = exec.regfile;
    assert_eq!(exec.regfile.check(&before), None);
    exec.set(Register::s3, 1, 0).unwrap();
    exec.set(Register::sp, 2, 0).unwrap();
    exec.set(Register::t0, 3, 0).unwrap();
    assert_eq!(
        exec.regfile.check(&before),
        Some(vec![Register::sp, Register::s3])
    );
}

/// Branches compare as signed or unsigned and fall through when not
/// taken.
#[test]
fn branch_behaviour() {
    // a0 = -1 is less than a1 = 1 signed, but greater unsigned.
    let source = "li a0, 0xffffffff\nli a1, 1\nblt a0, a1, signed_lt\nj done\nsigned_lt:\nli t0, 1\nbltu a0, a1, unsigned_lt\nli t1, 2\nj done\nunsigned_lt:\nli t1, 1\ndone:\n";
    let mut exec = executor_for(source);
    exec.run().unwrap();
    assert_eq!(exec.regfile.get(Register::t0), 1);
    assert_eq!(exec.regfile.get(Register::t1), 2);
}

/// A sampler of immediate and register arithmetic with exact results.
#[test]
fn arithmetic_sampler() {
    let source = "li a0, 12\nxori a1, a0, 0xa\nori a2, a0, 0x3\nandi a3, a0, 0x6\nlui a4, 1\nnot a5, a0\nneg a6, a0\nslti a7, a0, 13\n";
    let mut exec = executor_for(source);
    exec.run().unwrap();
    assert_eq!(exec.regfile.get(Register::a1), 12 ^ 0xa);
    assert_eq!(exec.regfile.get(Register::a2), 12 | 0x3);
    assert_eq!(exec.regfile.get(Register::a3), 12 & 0x6);
    assert_eq!(exec.regfile.get(Register::a4), 1 << 12);
    assert_eq!(exec.regfile.get(Register::a5), !12);
    assert_eq!(exec.regfile.get(Register::a6), -12);
    assert_eq!(exec.regfile.get(Register::a7), 1);
}

/// A call saves the return address and leaves a frame on the shadow
/// stack until the matching return pops it.
#[test]
fn call_and_return() {
    let mut exec = executor_for("call f\nj done\nf:\nli a0, 7\nret\ndone:\n");
    assert_eq!(exec.stack().len(), 1);
    exec.execute().unwrap();
    assert_eq!(exec.stack().len(), 2);
    assert_eq!(exec.regfile.get(Register::ra), 4);
    exec.run().unwrap();
    assert_eq!(exec.stack().len(), 1);
    assert_eq!(exec.regfile.get(Register::a0), 7);
}
