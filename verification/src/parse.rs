//! Parsed form of the assembly language: registers, instructions, and the
//! validated [`Program`] that the executor consumes.
//!
//! A program is an immutable sequence of instructions plus a mapping from
//! label name to instruction index. The logical program counter is
//! `4 * instruction_index`; label resolution yields the PC of the labeled
//! instruction.

use vstd::prelude::*;

use crate::lex::{
    lex_measure, lexer_advanced, str_eq, Lexer, Span, Token, TokenError, TokenInner,
};

verus! {

/// The 32 architectural registers, by ABI name.
#[derive(Debug, Clone, Copy, PartialEq, Eq, Structural)]
pub enum Register {
    x0, ra, sp, gp, tp,
    t0, t1, t2, t3, t4, t5, t6,
    a0, a1, a2, a3, a4, a5, a6, a7,
    s0, s1, s2, s3, s4, s5, s6, s7, s8, s9, s10, s11,
}

/// Which register a name denotes: each register is reachable by its ABI
/// name or its numeric `x` alias, and `zero` is a synonym of `x0`.
pub open spec fn reg_of_name(s: Seq<char>) -> Option<Register> {
    if s == "x0"@ || s == "zero"@ {
        Some(Register::x0)
    } else if s == "ra"@ || s == "x1"@ {
        Some(Register::ra)
    } else if s == "sp"@ || s == "x2"@ {
        Some(Register::sp)
    } else if s == "gp"@ || s == "x3"@ {
        Some(Register::gp)
    } else if s == "tp"@ || s == "x4"@ {
        Some(Register::tp)
    } else if s == "t0"@ || s == "x5"@ {
        Some(Register::t0)
    } else if s == "t1"@ || s == "x6"@ {
        Some(Register::t1)
    } else if s == "t2"@ || s == "x7"@ {
        Some(Register::t2)
    } else if s == "t3"@ || s == "x28"@ {
        Some(Register::t3)
    } else if s == "t4"@ || s == "x29"@ {
        Some(Register::t4)
    } else if s == "t5"@ || s == "x30"@ {
        Some(Register::t5)
    } else if s == "t6"@ || s == "x31"@ {
        Some(Register::t6)
    } else if s == "a0"@ || s == "x10"@ {
        Some(Register::a0)
    } else if s == "a1"@ || s == "x11"@ {
        Some(Register::a1)
    } else if s == "a2"@ || s == "x12"@ {
        Some(Register::a2)
    } else if s == "a3"@ || s == "x13"@ {
        Some(Register::a3)
    } else if s == "a4"@ || s == "x14"@ {
        Some(Register::a4)
    } else if s == "a5"@ || s == "x15"@ {
        Some(Register::a5)
    } else if s == "a6"@ || s == "x16"@ {
        Some(Register::a6)
    } else if s == "a7"@ || s == "x17"@ {
        Some(Register::a7)
    } else if s == "s0"@ || s == "x8"@ {
        Some(Register::s0)
    } else if s == "s1"@ || s == "x9"@ {
        Some(Register::s1)
    } else if s == "s2"@ || s == "x18"@ {
        Some(Register::s2)
    } else if s == "s3"@ || s == "x19"@ {
        Some(Register::s3)
    } else if s == "s4"@ || s == "x20"@ {
        Some(Register::s4)
    } else if s == "s5"@ || s == "x21"@ {
        Some(Register::s5)
    } else if s == "s6"@ || s == "x22"@ {
        Some(Register::s6)
    } else if s == "s7"@ || s == "x23"@ {
        Some(Register::s7)
    } else if s == "s8"@ || s == "x24"@ {
        Some(Register::s8)
    } else if s == "s9"@ || s == "x25"@ {
        Some(Register::s9)
    } else if s == "s10"@ || s == "x26"@ {
        Some(Register::s10)
    } else if s == "s11"@ || s == "x27"@ {
        Some(Register::s11)
    } else {
        None
    }
}

impl Register {
    /// Parses a register name (`ra`, `x1`, `zero`, ...).
    pub fn from_text(s: &str) -> (r: Option<Register>)
        ensures
            r == reg_of_name(s@),
    {
        if str_eq(s, "x0") || str_eq(s, "zero") {
            Some(Register::x0)
        } else if str_eq(s, "ra") || str_eq(s, "x1") {
            Some(Register::ra)
        } else if str_eq(s, "sp") || str_eq(s, "x2") {
            Some(Register::sp)
        } else if str_eq(s, "gp") || str_eq(s, "x3") {
            Some(Register::gp)
        } else if str_eq(s, "tp") || str_eq(s, "x4") {
            Some(Register::tp)
        } else if str_eq(s, "t0") || str_eq(s, "x5") {
            Some(Register::t0)
        } else if str_eq(s, "t1") || str_eq(s, "x6") {
            Some(Register::t1)
        } else if str_eq(s, "t2") || str_eq(s, "x7") {
            Some(Register::t2)
        } else if str_eq(s, "t3") || str_eq(s, "x28") {
            Some(Register::t3)
        } else if str_eq(s, "t4") || str_eq(s, "x29") {
            Some(Register::t4)
        } else if str_eq(s, "t5") || str_eq(s, "x30") {
            Some(Register::t5)
        } else if str_eq(s, "t6") || str_eq(s, "x31") {
            Some(Register::t6)
        } else if str_eq(s, "a0") || str_eq(s, "x10") {
            Some(Register::a0)
        } else if str_eq(s, "a1") || str_eq(s, "x11") {
            Some(Register::a1)
        } else if str_eq(s, "a2") || str_eq(s, "x12") {
            Some(Register::a2)
        } else if str_eq(s, "a3") || str_eq(s, "x13") {
            Some(Register::a3)
        } else if str_eq(s, "a4") || str_eq(s, "x14") {
            Some(Register::a4)
        } else if str_eq(s, "a5") || str_eq(s, "x15") {
            Some(Register::a5)
        } else if str_eq(s, "a6") || str_eq(s, "x16") {
            Some(Register::a6)
        } else if str_eq(s, "a7") || str_eq(s, "x17") {
            Some(Register::a7)
        } else if str_eq(s, "s0") || str_eq(s, "x8") {
            Some(Register::s0)
        } else if str_eq(s, "s1") || str_eq(s, "x9") {
            Some(Register::s1)
        } else if str_eq(s, "s2") || str_eq(s, "x18") {
            Some(Register::s2)
        } else if str_eq(s, "s3") || str_eq(s, "x19") {
            Some(Register::s3)
        } else if str_eq(s, "s4") || str_eq(s, "x20") {
            Some(Register::s4)
        } else if str_eq(s, "s5") || str_eq(s, "x21") {
            Some(Register::s5)
        } else if str_eq(s, "s6") || str_eq(s, "x22") {
            Some(Register::s6)
        } else if str_eq(s, "s7") || str_eq(s, "x23") {
            Some(Register::s7)
        } else if str_eq(s, "s8") || str_eq(s, "x24") {
            Some(Register::s8)
        } else if str_eq(s, "s9") || str_eq(s, "x25") {
            Some(Register::s9)
        } else if str_eq(s, "s10") || str_eq(s, "x26") {
            Some(Register::s10)
        } else if str_eq(s, "s11") || str_eq(s, "x27") {
            Some(Register::s11)
        } else {
            None
        }
    }
}

/// Why a token could not be read as a register.
#[derive(Debug, Clone, PartialEq, Eq)]
pub enum RegisterParseError {
    /// The token was not an identifier.
    InvalidToken(String),
    /// The identifier is not a register name; carries the offending name.
    ParseError(String),
}

/// The width of a store instruction.
#[derive(Debug, Clone, Copy, PartialEq, Eq, Structural)]
pub enum StoreOp {
    Sw,
    Sh,
    Sb,
}

/// The width and extension mode of a load instruction.
#[derive(Debug, Clone, Copy, PartialEq, Eq, Structural)]
pub enum LoadOp {
    Lw,
    Lh,
    Lhu,
    Lb,
    Lbu,
}

/// One decoded instruction. Branch and jump targets are kept as label
/// names; the program's label table resolves them to instruction indices.
#[derive(Debug, PartialEq, Eq)]
pub enum Instruction {
    // Register-immediate
    addi  { rd: Register, r1: Register, imm: i32 },
    slti  { rd: Register, r1: Register, imm: i32 },
    sltiu { rd: Register, r1: Register, imm: i32 },
    xori  { rd: Register, r1: Register, imm: i32 },
    ori   { rd: Register, r1: Register, imm: i32 },
    andi  { rd: Register, r1: Register, imm: i32 },
    slli  { rd: Register, r1: Register, imm: i32 },
    srli  { rd: Register, r1: Register, imm: i32 },
    srai  { rd: Register, r1: Register, imm: i32 },

    // Register-register
    add  { rd: Register, r1: Register, r2: Register },
    sub  { rd: Register, r1: Register, r2: Register },
    sll  { rd: Register, r1: Register, r2: Register },
    slt  { rd: Register, r1: Register, r2: Register },
    sltu { rd: Register, r1: Register, r2: Register },
    xor  { rd: Register, r1: Register, r2: Register },
    srl  { rd: Register, r1: Register, r2: Register },
    sra  { rd: Register, r1: Register, r2: Register },
    or   { rd: Register, r1: Register, r2: Register },
    and  { rd: Register, r1: Register, r2: Register },

    // Memory
    load  { rd: Register, offset: i32, r1: Register, op: LoadOp },
    store { r2: Register, offset: i32, r1: Register, op: StoreOp },

    // Branches
    beq  { r1: Register, r2: Register, label: String },
    bne  { r1: Register, r2: Register, label: String },
    blt  { r1: Register, r2: Register, label: String },
    bge  { r1: Register, r2: Register, label: String },
    bltu { r1: Register, r2: Register, label: String },
    bgeu { r1: Register, r2: Register, label: String },
    bgt  { r1: Register, r2: Register, label: String },
    ble  { r1: Register, r2: Register, label: String },
    bgtu { r1: Register, r2: Register, label: String },
    bleu { r1: Register, r2: Register, label: String },

    // Load-immediate
    lui { rd: Register, imm: i32 },
    li  { rd: Register, imm: i32 },

    // Branches against zero
    beqz { r1: Register, label: String },
    bnez { r1: Register, label: String },
    bltz { r1: Register, label: String },
    bgez { r1: Register, label: String },
    bgtz { r1: Register, label: String },
    blez { r1: Register, label: String },

    // Unaries
    mv  { rd: Register, r1: Register },
    not { rd: Register, r1: Register },
    neg { rd: Register, r1: Register },

    // Calling and jumping
    call { label: String },
    jal  { rd: Register, label: String },
    jalr { rd: Register, offset: i32, r1: Register },
    j    { label: String },
    jr   { rs: Register },
    ret  {},
}

impl Clone for Instruction {
    fn clone(&self) -> (r: Self)
        ensures
            r == *self,
    {
        match self {
            Instruction::addi { rd, r1, imm } => Instruction::addi { rd: *rd, r1: *r1, imm: *imm },
            Instruction::slti { rd, r1, imm } => Instruction::slti { rd: *rd, r1: *r1, imm: *imm },
            Instruction::sltiu { rd, r1, imm } => Instruction::sltiu { rd: *rd, r1: *r1, imm: *imm },
            Instruction::xori { rd, r1, imm } => Instruction::xori { rd: *rd, r1: *r1, imm: *imm },
            Instruction::ori { rd, r1, imm } => Instruction::ori { rd: *rd, r1: *r1, imm: *imm },
            Instruction::andi { rd, r1, imm } => Instruction::andi { rd: *rd, r1: *r1, imm: *imm },
            Instruction::slli { rd, r1, imm } => Instruction::slli { rd: *rd, r1: *r1, imm: *imm },
            Instruction::srli { rd, r1, imm } => Instruction::srli { rd: *rd, r1: *r1, imm: *imm },
            Instruction::srai { rd, r1, imm } => Instruction::srai { rd: *rd, r1: *r1, imm: *imm },
            Instruction::add { rd, r1, r2 } => Instruction::add { rd: *rd, r1: *r1, r2: *r2 },
            Instruction::sub { rd, r1, r2 } => Instruction::sub { rd: *rd, r1: *r1, r2: *r2 },
            Instruction::sll { rd, r1, r2 } => Instruction::sll { rd: *rd, r1: *r1, r2: *r2 },
            Instruction::slt { rd, r1, r2 } => Instruction::slt { rd: *rd, r1: *r1, r2: *r2 },
            Instruction::sltu { rd, r1, r2 } => Instruction::sltu { rd: *rd, r1: *r1, r2: *r2 },
            Instruction::xor { rd, r1, r2 } => Instruction::xor { rd: *rd, r1: *r1, r2: *r2 },
            Instruction::srl { rd, r1, r2 } => Instruction::srl { rd: *rd, r1: *r1, r2: *r2 },
            Instruction::sra { rd, r1, r2 } => Instruction::sra { rd: *rd, r1: *r1, r2: *r2 },
            Instruction::or { rd, r1, r2 } => Instruction::or { rd: *rd, r1: *r1, r2: *r2 },
            Instruction::and { rd, r1, r2 } => Instruction::and { rd: *rd, r1: *r1, r2: *r2 },
            Instruction::load { rd, offset, r1, op } => Instruction::load {
                rd: *rd,
                offset: *offset,
                r1: *r1,
                op: *op,
            },
            Instruction::store { r2, offset, r1, op } => Instruction::store {
                r2: *r2,
                offset: *offset,
                r1: *r1,
                op: *op,
            },
            Instruction::beq { r1, r2, label } => Instruction::beq {
                r1: *r1,
                r2: *r2,
                label: label.clone(),
            },
            Instruction::bne { r1, r2, label } => Instruction::bne {
                r1: *r1,
                r2: *r2,
                label: label.clone(),
            },
            Instruction::blt { r1, r2, label } => Instruction::blt {
                r1: *r1,
                r2: *r2,
                label: label.clone(),
            },
            Instruction::bge { r1, r2, label } => Instruction::bge {
                r1: *r1,
                r2: *r2,
                label: label.clone(),
            },
            Instruction::bltu { r1, r2, label } => Instruction::bltu {
                r1: *r1,
                r2: *r2,
                label: label.clone(),
            },
            Instruction::bgeu { r1, r2, label } => Instruction::bgeu {
                r1: *r1,
                r2: *r2,
                label: label.clone(),
            },
            Instruction::bgt { r1, r2, label } => Instruction::bgt {
                r1: *r1,
                r2: *r2,
                label: label.clone(),
            },
            Instruction::ble { r1, r2, label } => Instruction::ble {
                r1: *r1,
                r2: *r2,
                label: label.clone(),
            },
            Instruction::bgtu { r1, r2, label } => Instruction::bgtu {
                r1: *r1,
                r2: *r2,
                label: label.clone(),
            },
            Instruction::bleu { r1, r2, label } => Instruction::bleu {
                r1: *r1,
                r2: *r2,
                label: label.clone(),
            },
            Instruction::lui { rd, imm } => Instruction::lui { rd: *rd, imm: *imm },
            Instruction::li { rd, imm } => Instruction::li { rd: *rd, imm: *imm },
            Instruction::beqz { r1, label } => Instruction::beqz { r1: *r1, label: label.clone() },
            Instruction::bnez { r1, label } => Instruction::bnez { r1: *r1, label: label.clone() },
            Instruction::bltz { r1, label } => Instruction::bltz { r1: *r1, label: label.clone() },
            Instruction::bgez { r1, label } => Instruction::bgez { r1: *r1, label: label.clone() },
            Instruction::bgtz { r1, label } => Instruction::bgtz { r1: *r1, label: label.clone() },
            Instruction::blez { r1, label } => Instruction::blez { r1: *r1, label: label.clone() },
            Instruction::mv { rd, r1 } => Instruction::mv { rd: *rd, r1: *r1 },
            Instruction::not { rd, r1 } => Instruction::not { rd: *rd, r1: *r1 },
            Instruction::neg { rd, r1 } => Instruction::neg { rd: *rd, r1: *r1 },
            Instruction::call { label } => Instruction::call { label: label.clone() },
            Instruction::jal { rd, label } => Instruction::jal { rd: *rd, label: label.clone() },
            Instruction::jalr { rd, offset, r1 } => Instruction::jalr {
                rd: *rd,
                offset: *offset,
                r1: *r1,
            },
            Instruction::j { label } => Instruction::j { label: label.clone() },
            Instruction::jr { rs } => Instruction::jr { rs: *rs },
            Instruction::ret {} => Instruction::ret {},
        }
    }
}

/// The label an instruction refers to, if any.
pub open spec fn instr_label(ins: Instruction) -> Option<Seq<char>> {
    match ins {
        Instruction::beq { label, .. } => Some(label@),
        Instruction::bne { label, .. } => Some(label@),
        Instruction::blt { label, .. } => Some(label@),
        Instruction::bge { label, .. } => Some(label@),
        Instruction::bltu { label, .. } => Some(label@),
        Instruction::bgeu { label, .. } => Some(label@),
        Instruction::bgt { label, .. } => Some(label@),
        Instruction::ble { label, .. } => Some(label@),
        Instruction::bgtu { label, .. } => Some(label@),
        Instruction::bleu { label, .. } => Some(label@),
        Instruction::beqz { label, .. } => Some(label@),
        Instruction::bnez { label, .. } => Some(label@),
        Instruction::bltz { label, .. } => Some(label@),
        Instruction::bgez { label, .. } => Some(label@),
        Instruction::bgtz { label, .. } => Some(label@),
        Instruction::blez { label, .. } => Some(label@),
        Instruction::call { label } => Some(label@),
        Instruction::jal { label, .. } => Some(label@),
        Instruction::j { label } => Some(label@),
        _ => None,
    }
}

/// Mathematical view of a [`Program`]: the instruction sequence and the
/// label table as a map from name to instruction index.
#[verifier::ext_equal]
pub ghost struct ProgV {
    pub code: Seq<Instruction>,
    pub labels: Map<Seq<char>, usize>,
}

/// The label table as a map: a later entry wins, though a well-formed
/// program has distinct label names.
pub open spec fn labels_map(entries: Seq<(String, usize)>) -> Map<Seq<char>, usize>
    decreases entries.len(),
{
    if entries.len() == 0 {
        Map::empty()
    } else {
        labels_map(entries.drop_last()).insert(entries.last().0@, entries.last().1)
    }
}

pub proof fn lemma_labels_map(entries: Seq<(String, usize)>)
    ensures
        forall|k: Seq<char>|
            labels_map(entries).contains_key(k) <==> (exists|i: int|
                0 <= i < entries.len() && (#[trigger] entries[i]).0@ == k),
        forall|i: int|
            0 <= i < entries.len() && (forall|j: int|
                i < j < entries.len() ==> (#[trigger] entries[j]).0@ != entries[i].0@)
                ==> labels_map(entries)[(#[trigger] entries[i]).0@] == entries[i].1,
    decreases entries.len(),
{
    if entries.len() > 0 {
        let prev = entries.drop_last();
        lemma_labels_map(prev);
        assert(forall|i: int| 0 <= i < prev.len() ==> #[trigger] entries[i] == prev[i]);
        assert forall|k: Seq<char>|
            labels_map(entries).contains_key(k) <==> (exists|i: int|
                0 <= i < entries.len() && (#[trigger] entries[i]).0@ == k) by {
            if labels_map(entries).contains_key(k) {
                if entries.last().0@ == k {
                    assert((entries[entries.len() - 1]).0@ == k);
                } else {
                    assert(labels_map(prev).contains_key(k));
                    let i = choose|i: int| 0 <= i < prev.len() && (#[trigger] prev[i]).0@ == k;
                    assert((entries[i]).0@ == k);
                }
            }
            if exists|i: int| 0 <= i < entries.len() && (#[trigger] entries[i]).0@ == k {
                let i = choose|i: int| 0 <= i < entries.len() && (#[trigger] entries[i]).0@ == k;
                if i < entries.len() - 1 {
                    assert((prev[i]).0@ == k);
                    assert(labels_map(prev).contains_key(k));
                }
                assert(labels_map(entries).contains_key(k));
            }
        }
        assert forall|i: int|
            0 <= i < entries.len() && (forall|j: int|
                i < j < entries.len() ==> (#[trigger] entries[j]).0@ != entries[i].0@)
            implies labels_map(entries)[(entries[i]).0@] == entries[i].1 by {
            if i == entries.len() - 1 {
                assert(labels_map(entries)[entries[i].0@] == entries[i].1);
            } else {
                assert(entries[entries.len() - 1].0@ != entries[i].0@);
                assert(forall|j: int|
                    i < j < prev.len() ==> (#[trigger] prev[j]).0@ != prev[i].0@);
                assert(labels_map(prev)[prev[i].0@] == prev[i].1);
            }
        }
    }
}

/// A validated, immutable program: decoded instructions plus the label
/// table. `labels` maps each label name to the index of the instruction
/// that follows it (which may be one past the end of the program).
#[derive(Debug, Clone, PartialEq, Eq)]
pub struct Program {
    labels: Vec<(String, usize)>,
    code: Vec<Instruction>,
}

impl View for Program {
    type V = ProgV;

    closed spec fn view(&self) -> ProgV {
        ProgV { code: self.code@, labels: labels_map(self.labels@) }
    }
}

/// The instruction fetched at a byte-addressed PC: the PC must be a
/// multiple of 4 and within `[0, 4 * len)`; otherwise nothing is fetched
/// and execution is finished.
pub open spec fn fetch(p: ProgV, pc: i32) -> Option<Instruction> {
    if pc >= 0 && pc % 4 == 0 && pc / 4 < p.code.len() {
        Some(p.code[pc as int / 4])
    } else {
        None
    }
}

/// Well-formedness of a program's view: the program is small enough for
/// every PC to fit in an `i32`, label targets lie within the program (or
/// one past its end), and every label an instruction refers to is
/// defined.
pub open spec fn prog_wf(p: ProgV) -> bool {
    &&& p.code.len() < 0x2000_0000
    &&& forall|k: Seq<char>| p.labels.contains_key(k) ==> #[trigger] p.labels[k] <= p.code.len()
    &&& forall|i: int|
        0 <= i < p.code.len() ==> match instr_label(#[trigger] p.code[i]) {
            Some(l) => p.labels.contains_key(l),
            None => true,
        }
}

impl Program {
    /// Well-formedness: the view is well-formed ([`prog_wf`]) and label
    /// names are distinct.
    pub closed spec fn wf(self) -> bool {
        &&& prog_wf(self@)
        &&& forall|i: int, j: int|
            0 <= i < j < self.labels@.len() ==> (#[trigger] self.labels@[i]).0@ != (
            #[trigger] self.labels@[j]).0@
    }

    /// A well-formed program has a well-formed view.
    pub proof fn lemma_wf(self)
        requires
            self.wf(),
        ensures
            prog_wf(self@),
    {
    }

    /// The instruction at byte-addressed `pc`, or `None` when `pc` is
    /// misaligned or outside the program.
    pub fn at(&self, pc: i32) -> (r: Option<&Instruction>)
        ensures
            match r {
                Some(ins) => fetch(self@, pc) == Some(*ins),
                None => fetch(self@, pc) is None,
            },
    {
        if pc < 0 || pc % 4 != 0 {
            return None;
        }
        let idx = (pc / 4) as usize;
        if idx < self.code.len() {
            Some(&self.code[idx])
        } else {
            None
        }
    }

    /// Resolves a label to its PC, `4 * instruction_index`.
    pub fn label(&self, name: &str) -> (r: Option<i32>)
        requires
            self.wf(),
        ensures
            match r {
                Some(pc) => self@.labels.contains_key(name@) && pc == 4 * self@.labels[name@],
                None => !self@.labels.contains_key(name@),
            },
    {
        proof {
            lemma_labels_map(self.labels@);
        }
        let n = self.labels.len();
        let mut i: usize = 0;
        while i < n
            invariant
                i <= n,
                n == self.labels@.len(),
                self.wf(),
                forall|j: int| 0 <= j < i ==> (#[trigger] self.labels@[j]).0@ != name@,
            decreases n - i,
        {
            if str_eq(self.labels[i].0.as_str(), name) {
                let idx = self.labels[i].1;
                proof {
                    lemma_labels_map(self.labels@);
                    assert(self@.labels[name@] == idx);
                }
                return Some((idx * 4) as i32);
            }
            i = i + 1;
        }
        proof {
            lemma_labels_map(self.labels@);
        }
        None
    }

    /// The instruction sequence.
    pub fn instructions(&self) -> (r: &Vec<Instruction>)
        ensures
            r@ == self@.code,
    {
        &self.code
    }

    /// The label table, in definition order.
    pub fn label_entries(&self) -> (r: &Vec<(String, usize)>)
        ensures
            labels_map(r@) == self@.labels,
    {
        &self.labels
    }
}

// ---------------------------------------------------------------------
// Mnemonic families
// ---------------------------------------------------------------------

pub open spec fn is_reg_imm_name(s: Seq<char>) -> bool {
    ||| s == "addi"@
    ||| s == "slti"@
    ||| s == "sltiu"@
    ||| s == "xori"@
    ||| s == "ori"@
    ||| s == "andi"@
    ||| s == "slli"@
    ||| s == "srli"@
    ||| s == "srai"@
}

pub open spec fn is_reg_reg_name(s: Seq<char>) -> bool {
    ||| s == "add"@
    ||| s == "sub"@
    ||| s == "sll"@
    ||| s == "slt"@
    ||| s == "sltu"@
    ||| s == "xor"@
    ||| s == "srl"@
    ||| s == "sra"@
    ||| s == "or"@
    ||| s == "and"@
}

pub open spec fn is_branch_name(s: Seq<char>) -> bool {
    ||| s == "beq"@
    ||| s == "bne"@
    ||| s == "blt"@
    ||| s == "bge"@
    ||| s == "bltu"@
    ||| s == "bgeu"@
    ||| s == "bgt"@
    ||| s == "ble"@
    ||| s == "bgtu"@
    ||| s == "bleu"@
}

pub open spec fn is_branch_zero_name(s: Seq<char>) -> bool {
    ||| s == "beqz"@
    ||| s == "bnez"@
    ||| s == "bltz"@
    ||| s == "bgez"@
    ||| s == "bgtz"@
    ||| s == "blez"@
}

pub open spec fn is_unary_name(s: Seq<char>) -> bool {
    s == "mv"@ || s == "neg"@ || s == "not"@
}

pub open spec fn is_load_op_name(s: Seq<char>) -> bool {
    s == "lw"@ || s == "lh"@ || s == "lb"@ || s == "lhu"@ || s == "lbu"@
}

pub open spec fn is_store_op_name(s: Seq<char>) -> bool {
    s == "sw"@ || s == "sh"@ || s == "sb"@
}

pub open spec fn is_reg_load_name(s: Seq<char>) -> bool {
    s == "lui"@ || s == "li"@
}

fn is_reg_imm(instr: &str) -> (r: bool)
    ensures
        r == is_reg_imm_name(instr@),
{
    str_eq(instr, "addi") || str_eq(instr, "slti") || str_eq(instr, "sltiu") || str_eq(
        instr,
        "xori",
    ) || str_eq(instr, "ori") || str_eq(instr, "andi") || str_eq(instr, "slli") || str_eq(
        instr,
        "srli",
    ) || str_eq(instr, "srai")
}

fn is_reg_reg(instr: &str) -> (r: bool)
    ensures
        r == is_reg_reg_name(instr@),
{
    str_eq(instr, "add") || str_eq(instr, "sub") || str_eq(instr, "sll") || str_eq(instr, "slt")
        || str_eq(instr, "sltu") || str_eq(instr, "xor") || str_eq(instr, "srl") || str_eq(
        instr,
        "sra",
    ) || str_eq(instr, "or") || str_eq(instr, "and")
}

fn is_branch(instr: &str) -> (r: bool)
    ensures
        r == is_branch_name(instr@),
{
    str_eq(instr, "beq") || str_eq(instr, "bne") || str_eq(instr, "blt") || str_eq(instr, "bge")
        || str_eq(instr, "bltu") || str_eq(instr, "bgeu") || str_eq(instr, "bgt") || str_eq(
        instr,
        "ble",
    ) || str_eq(instr, "bgtu") || str_eq(instr, "bleu")
}

fn is_branch_zero(instr: &str) -> (r: bool)
    ensures
        r == is_branch_zero_name(instr@),
{
    str_eq(instr, "beqz") || str_eq(instr, "bnez") || str_eq(instr, "bltz") || str_eq(
        instr,
        "bgez",
    ) || str_eq(instr, "bgtz") || str_eq(instr, "blez")
}

fn is_unary(instr: &str) -> (r: bool)
    ensures
        r == is_unary_name(instr@),
{
    str_eq(instr, "mv") || str_eq(instr, "neg") || str_eq(instr, "not")
}

fn is_load_op(instr: &str) -> (r: bool)
    ensures
        r == is_load_op_name(instr@),
{
    str_eq(instr, "lw") || str_eq(instr, "lh") || str_eq(instr, "lb") || str_eq(instr, "lhu")
        || str_eq(instr, "lbu")
}

fn is_store_op(instr: &str) -> (r: bool)
    ensures
        r == is_store_op_name(instr@),
{
    str_eq(instr, "sw") || str_eq(instr, "sh") || str_eq(instr, "sb")
}

fn is_reg_load(instr: &str) -> (r: bool)
    ensures
        r == is_reg_load_name(instr@),
{
    str_eq(instr, "lui") || str_eq(instr, "li")
}

/// Which store op a mnemonic denotes.
pub open spec fn store_op_of_name(s: Seq<char>) -> Option<StoreOp> {
    if s == "sw"@ {
        Some(StoreOp::Sw)
    } else if s == "sh"@ {
        Some(StoreOp::Sh)
    } else if s == "sb"@ {
        Some(StoreOp::Sb)
    } else {
        None
    }
}

/// Which load op a mnemonic denotes.
pub open spec fn load_op_of_name(s: Seq<char>) -> Option<LoadOp> {
    if s == "lw"@ {
        Some(LoadOp::Lw)
    } else if s == "lh"@ {
        Some(LoadOp::Lh)
    } else if s == "lhu"@ {
        Some(LoadOp::Lhu)
    } else if s == "lb"@ {
        Some(LoadOp::Lb)
    } else if s == "lbu"@ {
        Some(LoadOp::Lbu)
    } else {
        None
    }
}

impl StoreOp {
    /// Parses a store mnemonic.
    pub fn from_text(s: &str) -> (r: Option<StoreOp>)
        ensures
            r == store_op_of_name(s@),
    {
        if str_eq(s, "sw") {
            Some(StoreOp::Sw)
        } else if str_eq(s, "sh") {
            Some(StoreOp::Sh)
        } else if str_eq(s, "sb") {
            Some(StoreOp::Sb)
        } else {
            None
        }
    }
}

impl LoadOp {
    /// Parses a load mnemonic.
    pub fn from_text(s: &str) -> (r: Option<LoadOp>)
        ensures
            r == load_op_of_name(s@),
    {
        if str_eq(s, "lw") {
            Some(LoadOp::Lw)
        } else if str_eq(s, "lh") {
            Some(LoadOp::Lh)
        } else if str_eq(s, "lhu") {
            Some(LoadOp::Lhu)
        } else if str_eq(s, "lb") {
            Some(LoadOp::Lb)
        } else if str_eq(s, "lbu") {
            Some(LoadOp::Lbu)
        } else {
            None
        }
    }
}

impl Register {
    /// Reads a register out of a token, which must be an identifier
    /// naming one.
    pub fn from_token(t: Token) -> (r: Result<Register, RegisterParseError>)
        ensures
            match t@.inner {
                crate::lex::TokV::Ident(s) => match reg_of_name(s) {
                    Some(rg) => r == Ok::<Register, RegisterParseError>(rg),
                    None => r matches Err(RegisterParseError::ParseError(n)) && n@ == s,
                },
                _ => r matches Err(RegisterParseError::InvalidToken(_)),
            },
    {
        match t.inner() {
            TokenInner::Ident(s) => match Register::from_text(s.as_str()) {
                Some(rg) => Ok(rg),
                None => Err(RegisterParseError::ParseError(s)),
            },
            _ => Err(RegisterParseError::InvalidToken(String::new())),
        }
    }
}

/// One item of assembly source: an instruction, or a label definition.
/// The label keeps its span so validation can point at it.
#[derive(Debug, PartialEq, Eq)]
pub enum Item {
    Instruction(Instruction),
    Label { name: String, span: Span },
}

impl Clone for Item {
    fn clone(&self) -> (r: Self)
        ensures
            r == *self,
    {
        match self {
            Item::Instruction(i) => Item::Instruction(i.clone()),
            Item::Label { name, span } => Item::Label { name: name.clone(), span: *span },
        }
    }
}

impl Item {
    /// The inner instruction; only for instruction items.
    pub fn get_instruction(&self) -> (r: &Instruction)
        requires
            self is Instruction,
        ensures
            *self == Item::Instruction(*r),
    {
        match self {
            Item::Instruction(i) => i,
            Item::Label { .. } => vstd::pervasive::unreached(),
        }
    }

    /// The label name; only for label items.
    pub fn get_label(self) -> (r: String)
        requires
            self is Label,
        ensures
            self matches Item::Label { name, span } && r == name,
    {
        match self {
            Item::Instruction(_) => vstd::pervasive::unreached(),
            Item::Label { name, .. } => name,
        }
    }
}

/// Why parsing failed.
#[derive(Debug, PartialEq, Eq)]
pub enum ParseError {
    /// A demanded token was missing or could not be lexed.
    Token(TokenError),
    /// A register name could not be read.
    Register(RegisterParseError),
    /// An identifier in instruction position is not a known mnemonic;
    /// carries the identifier.
    UnknownInstruction(String),
    /// Label validation failed; the list holds every problem found.
    Validation(Vec<ValidationError>),
    /// The program has too many instructions for its PCs to fit in an
    /// `i32`.
    ProgramTooLarge,
}

/// One problem found while validating labels.
#[derive(Debug, Clone, PartialEq, Eq)]
pub enum ValidationError {
    /// The label is defined more than once.
    DuplicateLabel { name: String },
    /// An instruction refers to a label that is never defined.
    UndefinedLabel { name: String },
}

/// Negates a parsed immediate when a leading minus was seen; the one
/// unrepresentable case, `-i32::MIN`, wraps to `i32::MIN`.
fn neg_imm(v: i32, neg: bool) -> (r: i32)
    ensures
        r == if neg {
            if v == i32::MIN {
                i32::MIN
            } else {
                (-v) as i32
            }
        } else {
            v
        },
{
    if neg {
        if v == i32::MIN {
            v
        } else {
            -v
        }
    } else {
        v
    }
}

// Argument parsers and the item parser. Every function advances the
// lexer only by whole tokens, never moves it backwards, and consumes at
// least one token when it succeeds.
impl Lexer {
    /// A register argument.
    fn reg_arg(&mut self) -> (r: Result<Register, ParseError>)
        requires
            old(self).wf(),
        ensures
            final(self).wf(),
            final(self)@.raw.src == old(self)@.raw.src,
            lex_measure(final(self)@) <= lex_measure(old(self)@),
            r is Ok ==> lex_measure(final(self)@) < lex_measure(old(self)@),
    {
        let t = match self.ident() {
            Ok(t) => t,
            Err(e) => {
                return Err(ParseError::Token(e));
            },
        };
        match Register::from_token(t) {
            Ok(rg) => Ok(rg),
            Err(e) => Err(ParseError::Register(e)),
        }
    }

    /// A comma separator.
    fn comma_arg(&mut self) -> (r: Result<(), ParseError>)
        requires
            old(self).wf(),
        ensures
            final(self).wf(),
            final(self)@.raw.src == old(self)@.raw.src,
            lex_measure(final(self)@) <= lex_measure(old(self)@),
            r is Ok ==> lex_measure(final(self)@) < lex_measure(old(self)@),
    {
        match self.comma() {
            Ok(_) => Ok(()),
            Err(e) => Err(ParseError::Token(e)),
        }
    }

    /// An immediate: an optional minus sign and a constant.
    fn imm_arg(&mut self) -> (r: Result<i32, ParseError>)
        requires
            old(self).wf(),
        ensures
            final(self).wf(),
            final(self)@.raw.src == old(self)@.raw.src,
            lex_measure(final(self)@) <= lex_measure(old(self)@),
            r is Ok ==> lex_measure(final(self)@) < lex_measure(old(self)@),
    {
        let neg = self.minus().is_ok();
        let t = match self.constant() {
            Ok(t) => t,
            Err(e) => {
                return Err(ParseError::Token(e));
            },
        };
        let (v, _) = t.unwrap_constant();
        Ok(neg_imm(v, neg))
    }

    /// A label argument: a plain identifier.
    fn label_arg(&mut self) -> (r: Result<String, ParseError>)
        requires
            old(self).wf(),
        ensures
            final(self).wf(),
            final(self)@.raw.src == old(self)@.raw.src,
            lex_measure(final(self)@) <= lex_measure(old(self)@),
            r is Ok ==> lex_measure(final(self)@) < lex_measure(old(self)@),
    {
        let t = match self.ident() {
            Ok(t) => t,
            Err(e) => {
                return Err(ParseError::Token(e));
            },
        };
        let (name, _) = t.unwrap_ident();
        Ok(name)
    }

    /// A memory operand, `offset(base)`.
    fn mem_operand(&mut self) -> (r: Result<(i32, Register), ParseError>)
        requires
            old(self).wf(),
        ensures
            final(self).wf(),
            final(self)@.raw.src == old(self)@.raw.src,
            lex_measure(final(self)@) <= lex_measure(old(self)@),
            r is Ok ==> lex_measure(final(self)@) < lex_measure(old(self)@),
    {
        let offset = match self.imm_arg() {
            Ok(v) => v,
            Err(e) => {
                return Err(e);
            },
        };
        match self.left_paren() {
            Ok(_) => {},
            Err(e) => {
                return Err(ParseError::Token(e));
            },
        }
        let r1 = match self.reg_arg() {
            Ok(rg) => rg,
            Err(e) => {
                return Err(e);
            },
        };
        match self.right_paren() {
            Ok(_) => {},
            Err(e) => {
                return Err(ParseError::Token(e));
            },
        }
        Ok((offset, r1))
    }

    /// A register-immediate instruction, after its mnemonic.
    fn item_reg_imm(&mut self, name: &str) -> (r: Result<Instruction, ParseError>)
        requires
            old(self).wf(),
            is_reg_imm_name(name@),
        ensures
            final(self).wf(),
            final(self)@.raw.src == old(self)@.raw.src,
            lex_measure(final(self)@) <= lex_measure(old(self)@),
            r is Ok ==> lex_measure(final(self)@) < lex_measure(old(self)@),
    {
        let rd = match self.reg_arg() {
            Ok(v) => v,
            Err(e) => {
                return Err(e);
            },
        };
        match self.comma_arg() {
            Ok(_) => {},
            Err(e) => {
                return Err(e);
            },
        }
        let r1 = match self.reg_arg() {
            Ok(v) => v,
            Err(e) => {
                return Err(e);
            },
        };
        match self.comma_arg() {
            Ok(_) => {},
            Err(e) => {
                return Err(e);
            },
        }
        let imm = match self.imm_arg() {
            Ok(v) => v,
            Err(e) => {
                return Err(e);
            },
        };
        if str_eq(name, "slti") {
            Ok(Instruction::slti { rd, r1, imm })
        } else if str_eq(name, "addi") {
            Ok(Instruction::addi { rd, r1, imm })
        } else if str_eq(name, "sltiu") {
            Ok(Instruction::sltiu { rd, r1, imm })
        } else if str_eq(name, "xori") {
            Ok(Instruction::xori { rd, r1, imm })
        } else if str_eq(name, "ori") {
            Ok(Instruction::ori { rd, r1, imm })
        } else if str_eq(name, "andi") {
            Ok(Instruction::andi { rd, r1, imm })
        } else if str_eq(name, "slli") {
            Ok(Instruction::slli { rd, r1, imm })
        } else if str_eq(name, "srli") {
            Ok(Instruction::srli { rd, r1, imm })
        } else if str_eq(name, "srai") {
            Ok(Instruction::srai { rd, r1, imm })
        } else {
            vstd::pervasive::unreached()
        }
    }

    /// A register-register instruction, after its mnemonic.
    fn item_reg_reg(&mut self, name: &str) -> (r: Result<Instruction, ParseError>)
        requires
            old(self).wf(),
            is_reg_reg_name(name@),
        ensures
            final(self).wf(),
            final(self)@.raw.src == old(self)@.raw.src,
            lex_measure(final(self)@) <= lex_measure(old(self)@),
            r is Ok ==> lex_measure(final(self)@) < lex_measure(old(self)@),
    {
        let rd = match self.reg_arg() {
            Ok(v) => v,
            Err(e) => {
                return Err(e);
            },
        };
        match self.comma_arg() {
            Ok(_) => {},
            Err(e) => {
                return Err(e);
            },
        }
        let r1 = match self.reg_arg() {
            Ok(v) => v,
            Err(e) => {
                return Err(e);
            },
        };
        match self.comma_arg() {
            Ok(_) => {},
            Err(e) => {
                return Err(e);
            },
        }
        let r2 = match self.reg_arg() {
            Ok(v) => v,
            Err(e) => {
                return Err(e);
            },
        };
        if str_eq(name, "add") {
            Ok(Instruction::add { rd, r1, r2 })
        } else if str_eq(name, "sub") {
            Ok(Instruction::sub { rd, r1, r2 })
        } else if str_eq(name, "sll") {
            Ok(Instruction::sll { rd, r1, r2 })
        } else if str_eq(name, "slt") {
            Ok(Instruction::slt { rd, r1, r2 })
        } else if str_eq(name, "sltu") {
            Ok(Instruction::sltu { rd, r1, r2 })
        } else if str_eq(name, "xor") {
            Ok(Instruction::xor { rd, r1, r2 })
        } else if str_eq(name, "srl") {
            Ok(Instruction::srl { rd, r1, r2 })
        } else if str_eq(name, "sra") {
            Ok(Instruction::sra { rd, r1, r2 })
        } else if str_eq(name, "or") {
            Ok(Instruction::or { rd, r1, r2 })
        } else if str_eq(name, "and") {
            Ok(Instruction::and { rd, r1, r2 })
        } else {
            vstd::pervasive::unreached()
        }
    }

    /// A branch instruction, after its mnemonic.
    fn item_branch(&mut self, name: &str) -> (r: Result<Instruction, ParseError>)
        requires
            old(self).wf(),
            is_branch_name(name@),
        ensures
            final(self).wf(),
            final(self)@.raw.src == old(self)@.raw.src,
            lex_measure(final(self)@) <= lex_measure(old(self)@),
            r is Ok ==> lex_measure(final(self)@) < lex_measure(old(self)@),
    {
        let r1 = match self.reg_arg() {
            Ok(v) => v,
            Err(e) => {
                return Err(e);
            },
        };
        match self.comma_arg() {
            Ok(_) => {},
            Err(e) => {
                return Err(e);
            },
        }
        let r2 = match self.reg_arg() {
            Ok(v) => v,
            Err(e) => {
                return Err(e);
            },
        };
        match self.comma_arg() {
            Ok(_) => {},
            Err(e) => {
                return Err(e);
            },
        }
        let label = match self.label_arg() {
            Ok(v) => v,
            Err(e) => {
                return Err(e);
            },
        };
        if str_eq(name, "beq") {
            Ok(Instruction::beq { r1, r2, label })
        } else if str_eq(name, "bne") {
            Ok(Instruction::bne { r1, r2, label })
        } else if str_eq(name, "blt") {
            Ok(Instruction::blt { r1, r2, label })
        } else if str_eq(name, "bge") {
            Ok(Instruction::bge { r1, r2, label })
        } else if str_eq(name, "bltu") {
            Ok(Instruction::bltu { r1, r2, label })
        } else if str_eq(name, "bgeu") {
            Ok(Instruction::bgeu { r1, r2, label })
        } else if str_eq(name, "bgt") {
            Ok(Instruction::bgt { r1, r2, label })
        } else if str_eq(name, "ble") {
            Ok(Instruction::ble { r1, r2, label })
        } else if str_eq(name, "bgtu") {
            Ok(Instruction::bgtu { r1, r2, label })
        } else if str_eq(name, "bleu") {
            Ok(Instruction::bleu { r1, r2, label })
        } else {
            vstd::pervasive::unreached()
        }
    }

    /// A branch-against-zero instruction, after its mnemonic.
    fn item_branch_zero(&mut self, name: &str) -> (r: Result<Instruction, ParseError>)
        requires
            old(self).wf(),
            is_branch_zero_name(name@),
        ensures
            final(self).wf(),
            final(self)@.raw.src == old(self)@.raw.src,
            lex_measure(final(self)@) <= lex_measure(old(self)@),
            r is Ok ==> lex_measure(final(self)@) < lex_measure(old(self)@),
    {
        let r1 = match self.reg_arg() {
            Ok(v) => v,
            Err(e) => {
                return Err(e);
            },
        };
        match self.comma_arg() {
            Ok(_) => {},
            Err(e) => {
                return Err(e);
            },
        }
        let label = match self.label_arg() {
            Ok(v) => v,
            Err(e) => {
                return Err(e);
            },
        };
        if str_eq(name, "beqz") {
            Ok(Instruction::beqz { r1, label })
        } else if str_eq(name, "bnez") {
            Ok(Instruction::bnez { r1, label })
        } else if str_eq(name, "bltz") {
            Ok(Instruction::bltz { r1, label })
        } else if str_eq(name, "bgez") {
            Ok(Instruction::bgez { r1, label })
        } else if str_eq(name, "bgtz") {
            Ok(Instruction::bgtz { r1, label })
        } else if str_eq(name, "blez") {
            Ok(Instruction::blez { r1, label })
        } else {
            vstd::pervasive::unreached()
        }
    }

    /// A load or store instruction, after its mnemonic.
    fn item_mem(&mut self, name: &str) -> (r: Result<Instruction, ParseError>)
        requires
            old(self).wf(),
            is_store_op_name(name@) || is_load_op_name(name@),
        ensures
            final(self).wf(),
            final(self)@.raw.src == old(self)@.raw.src,
            lex_measure(final(self)@) <= lex_measure(old(self)@),
            r is Ok ==> lex_measure(final(self)@) < lex_measure(old(self)@),
    {
        let reg = match self.reg_arg() {
            Ok(v) => v,
            Err(e) => {
                return Err(e);
            },
        };
        match self.comma_arg() {
            Ok(_) => {},
            Err(e) => {
                return Err(e);
            },
        }
        let operand = match self.mem_operand() {
            Ok(v) => v,
            Err(e) => {
                return Err(e);
            },
        };
        let (offset, r1) = operand;
        if is_store_op(name) {
            match StoreOp::from_text(name) {
                Some(op) => Ok(Instruction::store { r2: reg, offset, r1, op }),
                None => vstd::pervasive::unreached(),
            }
        } else {
            match LoadOp::from_text(name) {
                Some(op) => Ok(Instruction::load { rd: reg, offset, r1, op }),
                None => vstd::pervasive::unreached(),
            }
        }
    }

    /// A `lui` or `li` instruction, after its mnemonic.
    fn item_reg_load(&mut self, name: &str) -> (r: Result<Instruction, ParseError>)
        requires
            old(self).wf(),
            is_reg_load_name(name@),
        ensures
            final(self).wf(),
            final(self)@.raw.src == old(self)@.raw.src,
            lex_measure(final(self)@) <= lex_measure(old(self)@),
            r is Ok ==> lex_measure(final(self)@) < lex_measure(old(self)@),
    {
        let rd = match self.reg_arg() {
            Ok(v) => v,
            Err(e) => {
                return Err(e);
            },
        };
        match self.comma_arg() {
            Ok(_) => {},
            Err(e) => {
                return Err(e);
            },
        }
        let imm = match self.imm_arg() {
            Ok(v) => v,
            Err(e) => {
                return Err(e);
            },
        };
        if str_eq(name, "lui") {
            Ok(Instruction::lui { rd, imm })
        } else if str_eq(name, "li") {
            Ok(Instruction::li { rd, imm })
        } else {
            vstd::pervasive::unreached()
        }
    }

    /// A unary instruction, after its mnemonic.
    fn item_unary(&mut self, name: &str) -> (r: Result<Instruction, ParseError>)
        requires
            old(self).wf(),
            is_unary_name(name@),
        ensures
            final(self).wf(),
            final(self)@.raw.src == old(self)@.raw.src,
            lex_measure(final(self)@) <= lex_measure(old(self)@),
            r is Ok ==> lex_measure(final(self)@) < lex_measure(old(self)@),
    {
        let rd = match self.reg_arg() {
            Ok(v) => v,
            Err(e) => {
                return Err(e);
            },
        };
        match self.comma_arg() {
            Ok(_) => {},
            Err(e) => {
                return Err(e);
            },
        }
        let r1 = match self.reg_arg() {
            Ok(v) => v,
            Err(e) => {
                return Err(e);
            },
        };
        if str_eq(name, "mv") {
            Ok(Instruction::mv { rd, r1 })
        } else if str_eq(name, "not") {
            Ok(Instruction::not { rd, r1 })
        } else {
            Ok(Instruction::neg { rd, r1 })
        }
    }

    /// A call, jump or return, after its mnemonic. `jal label` without a
    /// register saves the return address in `ra`; `jalr rs` without an
    /// operand means `jalr ra, 0(rs)`.
    fn item_jump(&mut self, name: &str) -> (r: Result<Instruction, ParseError>)
        requires
            old(self).wf(),
        ensures
            final(self).wf(),
            final(self)@.raw.src == old(self)@.raw.src,
            lex_measure(final(self)@) <= lex_measure(old(self)@),
    {
        if str_eq(name, "call") {
            let label = match self.label_arg() {
                Ok(v) => v,
                Err(e) => {
                    return Err(e);
                },
            };
            Ok(Instruction::call { label })
        } else if str_eq(name, "jal") {
            let t = match self.ident() {
                Ok(t) => t,
                Err(e) => {
                    return Err(ParseError::Token(e));
                },
            };
            match Register::from_token(t.clone()) {
                Ok(rd) => {
                    match self.comma_arg() {
                        Ok(_) => {},
                        Err(e) => {
                            return Err(e);
                        },
                    }
                    let label = match self.label_arg() {
                        Ok(v) => v,
                        Err(e) => {
                            return Err(e);
                        },
                    };
                    Ok(Instruction::jal { rd, label })
                },
                Err(_) => {
                    let (label, _) = t.unwrap_ident();
                    Ok(Instruction::jal { rd: Register::ra, label })
                },
            }
        } else if str_eq(name, "jalr") {
            let reg = match self.reg_arg() {
                Ok(v) => v,
                Err(e) => {
                    return Err(e);
                },
            };
            if self.comma().is_ok() {
                let operand = match self.mem_operand() {
                    Ok(v) => v,
                    Err(e) => {
                        return Err(e);
                    },
                };
                let (offset, r1) = operand;
                Ok(Instruction::jalr { rd: reg, offset, r1 })
            } else {
                Ok(Instruction::jalr { rd: Register::ra, offset: 0, r1: reg })
            }
        } else if str_eq(name, "j") {
            let label = match self.label_arg() {
                Ok(v) => v,
                Err(e) => {
                    return Err(e);
                },
            };
            Ok(Instruction::j { label })
        } else if str_eq(name, "jr") {
            let rs = match self.reg_arg() {
                Ok(v) => v,
                Err(e) => {
                    return Err(e);
                },
            };
            Ok(Instruction::jr { rs })
        } else if str_eq(name, "ret") {
            Ok(Instruction::ret {  })
        } else {
            Err(ParseError::UnknownInstruction(String::from_str(name)))
        }
    }

    /// Parses one item: a label definition (`name:`) or an instruction.
    /// Assumes the stream is nonempty and does not start with a comment.
    fn item(&mut self) -> (r: Result<Item, ParseError>)
        requires
            old(self).wf(),
        ensures
            final(self).wf(),
            final(self)@.raw.src == old(self)@.raw.src,
            lex_measure(final(self)@) <= lex_measure(old(self)@),
            r is Ok ==> lex_measure(final(self)@) < lex_measure(old(self)@),
            r matches Ok(Item::Label { name, span }) ==> (old(self)@.peek matches Some(Ok(t))
                && t.inner == crate::lex::TokV::Ident(name@) && t.span == span),
    {
        let t = match self.ident() {
            Ok(t) => t,
            Err(e) => {
                return Err(ParseError::Token(e));
            },
        };
        let (name, span) = t.unwrap_ident();
        if self.colon().is_ok() {
            return Ok(Item::Label { name, span });
        }
        let ins = if is_reg_imm(name.as_str()) {
            self.item_reg_imm(name.as_str())
        } else if is_reg_reg(name.as_str()) {
            self.item_reg_reg(name.as_str())
        } else if is_branch(name.as_str()) {
            self.item_branch(name.as_str())
        } else if is_branch_zero(name.as_str()) {
            self.item_branch_zero(name.as_str())
        } else if is_unary(name.as_str()) {
            self.item_unary(name.as_str())
        } else if is_store_op(name.as_str()) || is_load_op(name.as_str()) {
            self.item_mem(name.as_str())
        } else if is_reg_load(name.as_str()) {
            self.item_reg_load(name.as_str())
        } else {
            self.item_jump(name.as_str())
        };
        match ins {
            Ok(i) => Ok(Item::Instruction(i)),
            Err(e) => Err(e),
        }
    }

    /// Parses the next item, skipping comments. `None` when the input is
    /// exhausted.
    pub fn parse_item(&mut self) -> (r: Option<Result<Item, ParseError>>)
        requires
            old(self).wf(),
        ensures
            final(self).wf(),
            final(self)@.raw.src == old(self)@.raw.src,
            lex_measure(final(self)@) <= lex_measure(old(self)@),
            r matches Some(Ok(_)) ==> lex_measure(final(self)@) < lex_measure(old(self)@),
            r is None ==> final(self)@.peek is None,
    {
        loop
            invariant
                self.wf(),
                self@.raw.src == old(self)@.raw.src,
                lex_measure(self@) <= lex_measure(old(self)@),
            decreases lex_measure(self@),
        {
            let is_comment = match self.peek() {
                Some(lr) => match lr {
                    Ok(t) => matches!(
                        t.inner,
                        TokenInner::HashComment(_) | TokenInner::SlashComment(_)
                    ),
                    Err(_) => false,
                },
                None => false,
            };
            if !is_comment {
                break ;
            }
            proof {
                crate::lex::lemma_lex_next_pos(self@.raw);
            }
            let _ = self.next();
        }
        match self.peek() {
            None => None,
            Some(_) => Some(self.item()),
        }
    }
}

// ---------------------------------------------------------------------
// Assembling items into a program
// ---------------------------------------------------------------------

/// The instructions of an item list, in order.
pub open spec fn instructions_of(items: Seq<Item>) -> Seq<Instruction>
    decreases items.len(),
{
    if items.len() == 0 {
        Seq::empty()
    } else {
        let rest = instructions_of(items.drop_last());
        match items.last() {
            Item::Instruction(i) => rest.push(i),
            Item::Label { .. } => rest,
        }
    }
}

/// The label table of an item list: each label, paired with the index of
/// the instruction that follows it.
pub open spec fn label_entries_of(items: Seq<Item>) -> Seq<(String, usize)>
    decreases items.len(),
{
    if items.len() == 0 {
        Seq::empty()
    } else {
        let rest = label_entries_of(items.drop_last());
        match items.last() {
            Item::Label { name, .. } => rest.push(
                (name, instructions_of(items.drop_last()).len() as usize),
            ),
            Item::Instruction(_) => rest,
        }
    }
}

/// Whether two entries define the same label name.
pub open spec fn entries_dup(entries: Seq<(String, usize)>) -> bool {
    exists|i: int, j: int|
        0 <= i < j < entries.len() && (#[trigger] entries[i]).0@ == (#[trigger] entries[j]).0@
}

/// Whether some instruction refers to a label that is not defined.
pub open spec fn undef_exists(code: Seq<Instruction>, lbls: Map<Seq<char>, usize>) -> bool {
    exists|i: int|
        0 <= i < code.len() && match instr_label(#[trigger] code[i]) {
            Some(l) => !lbls.contains_key(l),
            None => false,
        }
}

/// Every label entry points at most one past the instructions before it.
pub proof fn lemma_entries_bound(items: Seq<Item>)
    ensures
        forall|k: int|
            0 <= k < label_entries_of(items).len() ==> (#[trigger] label_entries_of(items)[k]).1
                <= instructions_of(items).len(),
    decreases items.len(),
{
    if items.len() > 0 {
        let prev = items.drop_last();
        lemma_entries_bound(prev);
        assert(instructions_of(items).len() >= instructions_of(prev).len());
        assert forall|k: int|
            0 <= k < label_entries_of(items).len() implies (#[trigger] label_entries_of(items)[k]).1
            <= instructions_of(items).len() by {
            match items.last() {
                Item::Label { name, .. } => {
                    assert(label_entries_of(items) == label_entries_of(prev).push(
                        (name, instructions_of(prev).len() as usize),
                    ));
                    if k < label_entries_of(prev).len() {
                        assert(label_entries_of(items)[k] == label_entries_of(prev)[k]);
                    }
                },
                Item::Instruction(_) => {
                    assert(label_entries_of(items) == label_entries_of(prev));
                },
            }
        }
    }
}

/// The label an instruction refers to, if any, executably.
fn instr_label_exec(ins: &Instruction) -> (r: Option<&String>)
    ensures
        match r {
            Some(l) => instr_label(*ins) == Some(l@),
            None => instr_label(*ins) is None,
        },
{
    match ins {
        Instruction::beq { label, .. } => Some(label),
        Instruction::bne { label, .. } => Some(label),
        Instruction::blt { label, .. } => Some(label),
        Instruction::bge { label, .. } => Some(label),
        Instruction::bltu { label, .. } => Some(label),
        Instruction::bgeu { label, .. } => Some(label),
        Instruction::bgt { label, .. } => Some(label),
        Instruction::ble { label, .. } => Some(label),
        Instruction::bgtu { label, .. } => Some(label),
        Instruction::bleu { label, .. } => Some(label),
        Instruction::beqz { label, .. } => Some(label),
        Instruction::bnez { label, .. } => Some(label),
        Instruction::bltz { label, .. } => Some(label),
        Instruction::bgez { label, .. } => Some(label),
        Instruction::bgtz { label, .. } => Some(label),
        Instruction::blez { label, .. } => Some(label),
        Instruction::call { label } => Some(label),
        Instruction::jal { label, .. } => Some(label),
        Instruction::j { label } => Some(label),
        _ => None,
    }
}

impl Program {
    /// Validates an item list and assembles it into a program: label
    /// names must be distinct, every referenced label must be defined,
    /// and the program must be small enough for its PCs to fit in an
    /// `i32`. All label problems are reported together.
    pub fn from_items(items: Vec<Item>) -> (r: Result<Program, ParseError>)
        ensures
            ({
                let code = instructions_of(items@);
                let entries = label_entries_of(items@);
                let lbls = labels_map(entries);
                match r {
                    Ok(prog) => {
                        &&& !entries_dup(entries)
                        &&& !undef_exists(code, lbls)
                        &&& code.len() < 0x2000_0000
                        &&& prog@.code == code
                        &&& prog@.labels == lbls
                        &&& prog.wf()
                    },
                    Err(e) => match e {
                        ParseError::Validation(issues) => issues@.len() > 0 && (entries_dup(
                            entries,
                        ) || undef_exists(code, lbls)),
                        ParseError::ProgramTooLarge => code.len() >= 0x2000_0000 && !entries_dup(
                            entries,
                        ) && !undef_exists(code, lbls),
                        _ => false,
                    },
                }
            }),
    {
        let n = items.len();
        let mut code: Vec<Instruction> = Vec::new();
        let mut labels: Vec<(String, usize)> = Vec::new();
        let mut idx: usize = 0;
        while idx < n
            invariant
                idx <= n,
                n == items@.len(),
                code@ == instructions_of(items@.take(idx as int)),
                labels@ == label_entries_of(items@.take(idx as int)),
            decreases n - idx,
        {
            proof {
                assert(items@.take(idx + 1).drop_last() =~= items@.take(idx as int));
                assert(items@.take(idx + 1).last() == items@[idx as int]);
            }
            match &items[idx] {
                Item::Instruction(ins) => {
                    code.push(ins.clone());
                },
                Item::Label { name, .. } => {
                    labels.push((name.clone(), code.len()));
                },
            }
            idx = idx + 1;
        }
        proof {
            assert(items@.take(n as int) =~= items@);
        }
        // Report duplicated label names.
        let mut issues: Vec<ValidationError> = Vec::new();
        let mut found_dup = false;
        let m = labels.len();
        let mut i: usize = 0;
        while i < m
            invariant
                i <= m,
                m == labels@.len(),
                found_dup == entries_dup(labels@.take(i as int)),
                issues@.len() > 0 <==> found_dup,
            decreases m - i,
        {
            let mut j: usize = 0;
            let mut dup_here = false;
            while j < i
                invariant
                    j <= i < m,
                    m == labels@.len(),
                    dup_here ==> exists|j0: int|
                        0 <= j0 < i && (#[trigger] labels@[j0]).0@ == labels@[i as int].0@,
                    !dup_here ==> forall|j0: int|
                        0 <= j0 < j ==> (#[trigger] labels@[j0]).0@ != labels@[i as int].0@,
                decreases i - j,
            {
                if str_eq(labels[j].0.as_str(), labels[i].0.as_str()) {
                    dup_here = true;
                }
                j = j + 1;
            }
            if dup_here {
                issues.push(ValidationError::DuplicateLabel { name: labels[i].0.clone() });
                found_dup = true;
            }
            proof {
                let pre = labels@.take(i as int);
                let cur = labels@.take(i + 1);
                assert(cur.drop_last() =~= pre);
                assert(forall|a: int| 0 <= a <= i ==> cur[a] == labels@[a]);
                if dup_here {
                    let j0 = choose|j0: int|
                        0 <= j0 < i && (#[trigger] labels@[j0]).0@ == labels@[i as int].0@;
                    assert((cur[j0]).0@ == (cur[i as int]).0@);
                    assert(entries_dup(cur));
                } else {
                    if entries_dup(cur) {
                        let (a, b) = choose|a: int, b: int|
                            0 <= a < b < cur.len() && (#[trigger] cur[a]).0@ == (
                            #[trigger] cur[b]).0@;
                        if b < i {
                            assert((pre[a]).0@ == (pre[b]).0@);
                            assert(entries_dup(pre));
                        } else {
                            assert((labels@[a]).0@ == labels@[i as int].0@);
                            assert(false);
                        }
                    }
                    if entries_dup(pre) {
                        let (a, b) = choose|a: int, b: int|
                            0 <= a < b < pre.len() && (#[trigger] pre[a]).0@ == (
                            #[trigger] pre[b]).0@;
                        assert((cur[a]).0@ == (cur[b]).0@);
                        assert(entries_dup(cur));
                    }
                }
            }
            i = i + 1;
        }
        proof {
            assert(labels@.take(m as int) =~= labels@);
            lemma_labels_map(labels@);
        }
        // Report references to labels that are never defined.
        let mut found_undef = false;
        let cn = code.len();
        let mut k: usize = 0;
        while k < cn
            invariant
                k <= cn,
                cn == code@.len(),
                m == labels@.len(),
                labels@ == label_entries_of(items@),
                code@ == instructions_of(items@),
                found_undef == undef_exists(code@.take(k as int), labels_map(labels@)),
                issues@.len() > 0 <==> (found_dup || found_undef),
                found_dup == entries_dup(labels@),
            decreases cn - k,
        {
            proof {
                assert(code@.take(k + 1).drop_last() =~= code@.take(k as int));
                assert(forall|a: int| 0 <= a < k + 1 ==> #[trigger] code@.take(k + 1)[a] == code@[a]);
            }
            let missing: Option<&String> = match instr_label_exec(&code[k]) {
                Some(l) => {
                    let mut found = false;
                    let mut li: usize = 0;
                    while li < m
                        invariant
                            li <= m,
                            m == labels@.len(),
                            found ==> exists|a: int|
                                0 <= a < m && (#[trigger] labels@[a]).0@ == l@,
                            !found ==> forall|a: int|
                                0 <= a < li ==> (#[trigger] labels@[a]).0@ != l@,
                        decreases m - li,
                    {
                        if str_eq(labels[li].0.as_str(), l.as_str()) {
                            found = true;
                        }
                        li = li + 1;
                    }
                    proof {
                        lemma_labels_map(labels@);
                    }
                    if found {
                        None
                    } else {
                        Some(l)
                    }
                },
                None => None,
            };
            let ghost this_undef = missing is Some;
            match missing {
                Some(l) => {
                    issues.push(ValidationError::UndefinedLabel { name: l.clone() });
                    found_undef = true;
                },
                None => {},
            }
            proof {
                let lbls = labels_map(labels@);
                let pre = code@.take(k as int);
                let cur = code@.take(k + 1);
                assert(cur[k as int] == code@[k as int]);
                if this_undef {
                    assert(match instr_label(cur[k as int]) {
                        Some(l) => !lbls.contains_key(l),
                        None => false,
                    });
                    assert(undef_exists(cur, lbls));
                } else {
                    if undef_exists(pre, lbls) {
                        let a = choose|a: int|
                            0 <= a < pre.len() && match instr_label(#[trigger] pre[a]) {
                                Some(l) => !lbls.contains_key(l),
                                None => false,
                            };
                        assert(cur[a] == pre[a]);
                        assert(undef_exists(cur, lbls));
                    }
                    if undef_exists(cur, lbls) {
                        let a = choose|a: int|
                            0 <= a < cur.len() && match instr_label(#[trigger] cur[a]) {
                                Some(l) => !lbls.contains_key(l),
                                None => false,
                            };
                        if a < k {
                            assert(pre[a] == cur[a]);
                            assert(undef_exists(pre, lbls));
                        } else {
                            assert(false);
                        }
                    }
                }
            }
            k = k + 1;
        }
        proof {
            assert(code@.take(cn as int) =~= code@);
        }
        if issues.len() > 0 {
            return Err(ParseError::Validation(issues));
        }
        if code.len() >= 0x2000_0000 {
            return Err(ParseError::ProgramTooLarge);
        }
        let prog = Program { labels, code };
        proof {
            lemma_labels_map(prog.labels@);
            lemma_entries_bound(items@);
            assert forall|key: Seq<char>| prog@.labels.contains_key(key) implies #[trigger] prog@
                .labels[key] <= prog@.code.len() by {
                let a = choose|a: int|
                    0 <= a < prog.labels@.len() && (#[trigger] prog.labels@[a]).0@ == key;
                assert(forall|b: int|
                    a < b < prog.labels@.len() ==> (#[trigger] prog.labels@[b]).0@
                        != prog.labels@[a].0@);
                assert(prog@.labels[key] == prog.labels@[a].1);
            }
        }
        Ok(prog)
    }

    /// Lexes and parses a source text into its items.
    fn parse_items(source: &str) -> (r: Result<Vec<Item>, ParseError>) {
        let mut lexer = Lexer::new(source);
        let mut items: Vec<Item> = Vec::new();
        loop
            invariant
                lexer.wf(),
            decreases lex_measure(lexer@),
        {
            match lexer.parse_item() {
                None => {
                    return Ok(items);
                },
                Some(Ok(item)) => {
                    items.push(item);
                },
                Some(Err(e)) => {
                    return Err(e);
                },
            }
        }
    }

    /// Parses a source text into a validated program: every label
    /// distinct and every referenced label defined ([`Program::wf`]).
    pub fn parse(source: &str) -> (r: Result<Program, ParseError>)
        ensures
            r matches Ok(prog) ==> prog.wf(),
    {
        let items = match Program::parse_items(source) {
            Ok(v) => v,
            Err(e) => {
                return Err(e);
            },
        };
        Program::from_items(items)
    }
}

} // verus!
