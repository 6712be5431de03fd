use riscv::parse::{Instruction, Program, Register};

#[test]
fn parse_empty() {
    let program = Program::parse("").unwrap();
    assert_eq!(program.instructions().len(), 0);
    assert_eq!(program.label_entries().len(), 0);
}

#[test]
fn labels() {
    let program = Program::parse("checka:\nloopa:\ncheckb:\nloopb:\n").unwrap();
    assert_eq!(program.instructions().len(), 0);
    // Every label resolves to the instruction index that follows it; at
    // the end of an empty program that is index 0 for all of them.
    assert_eq!(
        program.label_entries(),
        &vec![
            ("checka".to_string(), 0),
            ("loopa".to_string(), 0),
            ("checkb".to_string(), 0),
            ("loopb".to_string(), 0),
        ]
    );
}

#[test]
fn repeate_label() {
    assert!(Program::parse("repeated:\nrepeated:\nbeqz zero, repeated\n").is_err());
}

#[test]
fn missing_label() {
    assert!(Program::parse("\n            bne t1, x4, missing\n        ").is_err());
}

#[test]
fn end_comments() {
    Program::parse("label:\nj label\n// blah blah\n").unwrap();
}

#[test]
fn mixed() {
    let program = Program::parse(
        "addi zero, sp, 1\naddi zero, sp, 2\nlabel:\nbeqz a0, label\n",
    )
    .unwrap();
    assert_eq!(
        program.instructions(),
        &vec![
            Instruction::addi { rd: Register::x0, r1: Register::sp, imm: 1 },
            Instruction::addi { rd: Register::x0, r1: Register::sp, imm: 2 },
            Instruction::beqz { r1: Register::a0, label: "label".to_string() },
        ]
    );
    assert_eq!(program.label_entries(), &vec![("label".to_string(), 2)]);
}

#[test]
fn label_resolution_is_pc() {
    let program = Program::parse("start:\nmv a0, a1\nend:\nj start\n").unwrap();
    assert_eq!(program.label("start").unwrap(), 0);
    assert_eq!(program.label("end").unwrap(), 4);
    assert_eq!(program.label("absent"), None);
}

#[test]
fn negative_immediates_and_operands() {
    let program = Program::parse("addi sp, sp, -28\nlw ra, -4(sp)\nsw ra, 0(sp)\n").unwrap();
    assert_eq!(
        program.instructions(),
        &vec![
            Instruction::addi { rd: Register::sp, r1: Register::sp, imm: -28 },
            Instruction::load {
                rd: Register::ra,
                offset: -4,
                r1: Register::sp,
                op: riscv::parse::LoadOp::Lw,
            },
            Instruction::store {
                r2: Register::ra,
                offset: 0,
                r1: Register::sp,
                op: riscv::parse::StoreOp::Sw,
            },
        ]
    );
}

#[test]
fn jump_shorthands() {
    let program = Program::parse("f:\njal f\njal t0, f\njalr t1\njalr t2, 8(t3)\njr ra\nret\n")
        .unwrap();
    assert_eq!(
        program.instructions(),
        &vec![
            Instruction::jal { rd: Register::ra, label: "f".to_string() },
            Instruction::jal { rd: Register::t0, label: "f".to_string() },
            Instruction::jalr { rd: Register::ra, offset: 0, r1: Register::t1 },
            Instruction::jalr { rd: Register::t2, offset: 8, r1: Register::t3 },
            Instruction::jr { rs: Register::ra },
            Instruction::ret {},
        ]
    );
}

#[test]
fn unknown_instruction_is_an_error() {
    assert!(Program::parse("frobnicate a0, a1\n").is_err());
}
