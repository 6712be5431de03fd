use std::collections::HashMap;

use riscv::executor::memory::{Config, Memory, MemoryError};
use riscv::parse::{LoadOp, StoreOp};

#[test]
fn loads() {
    let mut mem: Memory = Default::default();
    assert_eq!(
        Memory { config: Config { default_value: None, allow_unaligned: false }, mem: HashMap::new() },
        mem
    );
    assert!(mem.load(0x0, LoadOp::Lw).is_err());
    assert!(mem.load(0x0, LoadOp::Lh).is_err());
    assert!(mem.load(0x0, LoadOp::Lb).is_err());
    assert!(mem.load(0x0, LoadOp::Lhu).is_err());
    assert!(mem.load(0x0, LoadOp::Lbu).is_err());

    mem.store(0x40, 0x1234abcd, StoreOp::Sw).unwrap();

    assert_eq!(mem.load(0x40, LoadOp::Lw).unwrap(), 0x1234abcd);
    // out of bounds
    assert!(mem.load(0x41, LoadOp::Lw).is_err());

    assert_eq!(mem.load(0x40, LoadOp::Lh).unwrap(), 0xffffabcd_u32 as i32);
    assert!(mem.load(0x41, LoadOp::Lh).is_err());
    assert_eq!(mem.load(0x42, LoadOp::Lh).unwrap(), 0x00001234_u32 as i32);
    // out of bounds
    assert!(mem.load(0x43, LoadOp::Lh).is_err());

    assert_eq!(mem.load(0x40, LoadOp::Lb).unwrap(), 0xffffffcd_u32 as i32);
    assert_eq!(mem.load(0x41, LoadOp::Lb).unwrap(), 0xffffffab_u32 as i32);
    assert_eq!(mem.load(0x42, LoadOp::Lb).unwrap(), 0x00000034_u32 as i32);
    assert_eq!(mem.load(0x43, LoadOp::Lb).unwrap(), 0x00000012_u32 as i32);
    // out of bounds
    assert!(mem.load(0x44, LoadOp::Lb).is_err());

    assert_eq!(mem.load(0x40, LoadOp::Lhu).unwrap(), 0x0000abcd);
    assert!(mem.load(0x41, LoadOp::Lhu).is_err());
    assert_eq!(mem.load(0x42, LoadOp::Lhu).unwrap(), 0x00001234);
    // out of bounds
    assert!(mem.load(0x43, LoadOp::Lhu).is_err());

    assert_eq!(mem.load(0x40, LoadOp::Lbu).unwrap(), 0x000000cd);
    assert_eq!(mem.load(0x41, LoadOp::Lbu).unwrap(), 0x000000ab);
    assert_eq!(mem.load(0x42, LoadOp::Lbu).unwrap(), 0x00000034);
    assert_eq!(mem.load(0x43, LoadOp::Lbu).unwrap(), 0x00000012);
    // out of bounds
    assert!(mem.load(0x44, LoadOp::Lbu).is_err());

    // Unaligned access
    mem.config.allow_unaligned = true;
    mem.store(0x44, 0x1234abcd, StoreOp::Sw).unwrap();
    assert_eq!(mem.load(0x41, LoadOp::Lw).unwrap(), 0xcd1234ab_u32 as i32);
    assert_eq!(mem.load(0x41, LoadOp::Lh).unwrap(), 0x000034ab_u32 as i32);
    assert_eq!(mem.load(0x41, LoadOp::Lhu).unwrap(), 0x000034ab);

    // Default values
    mem.config.default_value = Some(0xaa);
    assert_eq!(mem.load(0x48, LoadOp::Lw).unwrap(), 0xaaaaaaaa_u32 as i32);
    assert_eq!(mem.load(0x48, LoadOp::Lh).unwrap(), 0xffffaaaa_u32 as i32);
    assert_eq!(mem.load(0x48, LoadOp::Lhu).unwrap(), 0xaaaa);
    assert_eq!(mem.load(0x48, LoadOp::Lb).unwrap(), 0xffffffaa_u32 as i32);
    assert_eq!(mem.load(0x48, LoadOp::Lbu).unwrap(), 0xaa);
}

#[test]
fn stores() {
    let mut mem: Memory = Default::default();

    assert_eq!(mem.mem, HashMap::new());

    mem.store(0x20, 0x1234abcd, StoreOp::Sw).unwrap();
    assert_eq!(
        mem.mem,
        HashMap::from([(0x20, 0xcd), (0x21, 0xab), (0x22, 0x34), (0x23, 0x12)])
    );
    // Truncates
    mem.store(0x22, 0x1234abcd, StoreOp::Sh).unwrap();
    assert_eq!(
        mem.mem,
        HashMap::from([(0x20, 0xcd), (0x21, 0xab), (0x22, 0xcd), (0x23, 0xab)])
    );
    mem.store(0x23, 0x1234abcd, StoreOp::Sb).unwrap();
    assert_eq!(
        mem.mem,
        HashMap::from([(0x20, 0xcd), (0x21, 0xab), (0x22, 0xcd), (0x23, 0xcd)])
    );

    // Unaligned
    assert!(mem.store(0x21, 0x1234abcd, StoreOp::Sw).is_err());
    assert!(mem.store(0x21, 0x1234abcd, StoreOp::Sh).is_err());
    mem.config.allow_unaligned = true;
    mem.store(0x21, 0x1234abcd, StoreOp::Sw).unwrap();
    assert_eq!(
        mem.mem,
        HashMap::from([(0x20, 0xcd), (0x21, 0xcd), (0x22, 0xab), (0x23, 0x34), (0x24, 0x12)])
    );
    mem.store(0x23, 0x1234abcd, StoreOp::Sh).unwrap();
    assert_eq!(
        mem.mem,
        HashMap::from([(0x20, 0xcd), (0x21, 0xcd), (0x22, 0xab), (0x23, 0xcd), (0x24, 0xab)])
    );
}

#[test]
fn store_failure_leaves_memory_alone() {
    let mut mem = Memory::new(Config::new(None, false));
    mem.store(0x10, 0x55, StoreOp::Sb).unwrap();
    let before = mem.mem.clone();
    assert_eq!(
        mem.store(0x11, 0x1234, StoreOp::Sh).unwrap_err(),
        MemoryError::Unaligned { addr: 0x11, width: 2 }
    );
    assert_eq!(mem.mem, before);
}

#[test]
fn uninitialized_names_first_missing_byte() {
    let mut mem = Memory::new(Config::new(None, false));
    // Bytes 0x40 and 0x41 initialized, 0x42 not: a word load fails at 0x42.
    mem.store(0x40, 0x1234, StoreOp::Sh).unwrap();
    assert_eq!(
        mem.load(0x40, LoadOp::Lw).unwrap_err(),
        MemoryError::Uninitialized { addr: 0x42 }
    );
    // A completely untouched address fails at its own first byte.
    assert_eq!(
        mem.load(0x80, LoadOp::Lhu).unwrap_err(),
        MemoryError::Uninitialized { addr: 0x80 }
    );
}

#[test]
fn word_round_trip_wraps_address_space() {
    let mut mem = Memory::new(Config::new(None, true));
    // The last byte of the address space: the word wraps around to 0..2.
    mem.store(i32::MAX, 0x0a0b0c0d, StoreOp::Sw).unwrap();
    assert_eq!(mem.load(i32::MAX, LoadOp::Lw).unwrap(), 0x0a0b0c0d);
    assert_eq!(mem.load(i32::MIN, LoadOp::Lbu).unwrap(), 0x0c);
}
