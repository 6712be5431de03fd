//! Byte-addressable sparse memory with explicit detection of
//! uninitialized reads and misaligned accesses.
//!
//! Bytes are stored little-endian in a map from 32-bit address to byte.
//! An address with no explicit store is *uninitialized*: reading it fails
//! unless a default byte is configured. Word accesses must be 4-aligned
//! and half-word accesses 2-aligned unless unaligned access is enabled.
//! Multi-byte accesses wrap around the 32-bit address space.

use std::collections::HashMap;

use vstd::prelude::*;

use crate::parse::{LoadOp, StoreOp};

verus! {

broadcast use vstd::std_specs::hash::group_hash_axioms;

/// Memory configuration.
#[derive(Debug, PartialEq, Eq, Default, Clone, Copy, Structural)]
pub struct Config {
    /// The value an uninitialized location reads as. `None` means reading
    /// an uninitialized location is an error. Defaults to `None`.
    pub default_value: Option<u8>,
    /// Whether unaligned accesses are allowed. Defaults to `false`.
    pub allow_unaligned: bool,
}

impl Config {
    pub fn new(default_value: Option<u8>, allow_unaligned: bool) -> (r: Self)
        ensures
            r == (Config { default_value, allow_unaligned }),
    {
        Config { default_value, allow_unaligned }
    }
}

/// A failed memory access.
#[derive(Debug, Clone, Copy, PartialEq, Eq, Structural)]
pub enum MemoryError {
    /// The access was not naturally aligned for its width (in bytes).
    Unaligned { addr: i32, width: u32 },
    /// The byte at `addr` was read but never stored, and no default byte
    /// is configured.
    Uninitialized { addr: i32 },
}

/// Mathematical view of a [`Memory`].
#[verifier::ext_equal]
pub ghost struct MemV {
    pub config: Config,
    pub bytes: Map<i32, u8>,
}

/// Byte-addressable memory that detects uninitialized reads and unaligned
/// accesses. See [`Config`].
#[derive(Debug, Default, PartialEq, Eq, Clone)]
pub struct Memory {
    pub config: Config,
    pub mem: HashMap<i32, u8>,
}

impl View for Memory {
    type V = MemV;

    open spec fn view(&self) -> MemV {
        MemV { config: self.config, bytes: self.mem@ }
    }
}

/// Address `a + k`, wrapping around the 32-bit address space.
pub open spec fn addr_off(a: i32, k: u32) -> i32 {
    vstd::wrapping::i32_specs::wrapping_add(a, k as i32)
}

/// What the byte at `a` reads as: the stored byte, else the configured
/// default, else nothing.
pub open spec fn byte_at(m: MemV, a: i32) -> Option<u8> {
    if m.bytes.contains_key(a) {
        Some(m.bytes[a])
    } else {
        m.config.default_value
    }
}

/// The byte at `a`, with uninitialized bytes reading as 0. Only used
/// below positions already known to be initialized.
pub open spec fn byte0(m: MemV, a: i32) -> u8 {
    match byte_at(m, a) {
        Some(b) => b,
        None => 0,
    }
}

/// Access width in bytes of a load.
pub open spec fn load_width(op: LoadOp) -> u32 {
    match op {
        LoadOp::Lw => 4,
        LoadOp::Lh => 2,
        LoadOp::Lhu => 2,
        LoadOp::Lb => 1,
        LoadOp::Lbu => 1,
    }
}

/// Access width in bytes of a store.
pub open spec fn store_width(op: StoreOp) -> u32 {
    match op {
        StoreOp::Sw => 4,
        StoreOp::Sh => 2,
        StoreOp::Sb => 1,
    }
}

/// Natural alignment: words on 4, half words on 2, bytes anywhere.
pub open spec fn aligned_for(a: i32, width: u32) -> bool {
    if width == 4 {
        a & 3 == 0
    } else if width == 2 {
        a & 1 == 0
    } else {
        true
    }
}

/// The first of the `n` bytes starting at `a` (ascending, `n <= 4`) that
/// reads as nothing, if any.
pub open spec fn first_uninit(m: MemV, a: i32, n: u32) -> Option<i32> {
    if n >= 1 && byte_at(m, a) is None {
        Some(a)
    } else if n >= 2 && byte_at(m, addr_off(a, 1)) is None {
        Some(addr_off(a, 1))
    } else if n >= 3 && byte_at(m, addr_off(a, 2)) is None {
        Some(addr_off(a, 2))
    } else if n >= 4 && byte_at(m, addr_off(a, 3)) is None {
        Some(addr_off(a, 3))
    } else {
        None
    }
}

/// The unsigned value assembled little-endian from the `n` bytes starting
/// at `a` (`n <= 4`): byte at `a + i` holds bits `[8i, 8i + 8)`.
pub open spec fn le_val(m: MemV, a: i32, n: u32) -> int {
    byte0(m, a) + (if n >= 2 {
        0x100 * byte0(m, addr_off(a, 1))
    } else {
        0
    }) + (if n >= 3 {
        0x1_0000 * byte0(m, addr_off(a, 2))
    } else {
        0
    }) + (if n >= 4 {
        0x100_0000 * byte0(m, addr_off(a, 3))
    } else {
        0
    })
}

/// Reinterprets a value in `[0, 2^32)` as a 32-bit signed integer.
pub open spec fn to_signed32(v: int) -> i32 {
    if v <= 0x7fff_ffff {
        v as i32
    } else {
        (v - 0x1_0000_0000) as i32
    }
}

/// The register value a load produces from the raw `width`-byte value:
/// `Lw` reinterprets, `Lh`/`Lb` sign-extend, `Lhu`/`Lbu` zero-extend.
pub open spec fn extend_loaded(op: LoadOp, v: int) -> i32 {
    match op {
        LoadOp::Lw => to_signed32(v),
        LoadOp::Lh => if v >= 0x8000 {
            (v - 0x1_0000) as i32
        } else {
            v as i32
        },
        LoadOp::Lhu => v as i32,
        LoadOp::Lb => if v >= 0x80 {
            (v - 0x100) as i32
        } else {
            v as i32
        },
        LoadOp::Lbu => v as i32,
    }
}

/// What a load returns: the alignment check runs first (when the op
/// requires one), then the bytes are fetched in ascending address order,
/// failing on the first uninitialized byte, and assembled little-endian.
pub open spec fn load_spec(m: MemV, addr: i32, op: LoadOp) -> Result<i32, MemoryError> {
    let w = load_width(op);
    if !m.config.allow_unaligned && !aligned_for(addr, w) {
        Err(MemoryError::Unaligned { addr, width: w })
    } else {
        match first_uninit(m, addr, w) {
            Some(a) => Err(MemoryError::Uninitialized { addr: a }),
            None => Ok(extend_loaded(op, le_val(m, addr, w))),
        }
    }
}

/// Bits `[8k, 8k + 8)` of `v`: the `k`-th byte of its little-endian form.
pub open spec fn le_byte(v: i32, k: u32) -> u8 {
    ((v >> (8 * k)) & 0xff) as u8
}

/// The byte map after storing the low `n` bytes of `v` little-endian at
/// `a` (`n` is 1, 2 or 4).
pub open spec fn stored_bytes(bytes: Map<i32, u8>, a: i32, v: i32, n: u32) -> Map<i32, u8> {
    let m1 = bytes.insert(a, le_byte(v, 0));
    let m2 = if n >= 2 {
        m1.insert(addr_off(a, 1), le_byte(v, 1))
    } else {
        m1
    };
    let m3 = if n >= 3 {
        m2.insert(addr_off(a, 2), le_byte(v, 2))
    } else {
        m2
    };
    if n >= 4 {
        m3.insert(addr_off(a, 3), le_byte(v, 3))
    } else {
        m3
    }
}

/// What a store does: the alignment check runs first (when the op
/// requires one), then the value is truncated to the op's width and its
/// bytes written in little-endian order. Stores never fail on
/// uninitialized grounds: they initialize.
pub open spec fn store_spec(m: MemV, addr: i32, v: i32, op: StoreOp) -> Result<MemV, MemoryError> {
    let w = store_width(op);
    if !m.config.allow_unaligned && !aligned_for(addr, w) {
        Err(MemoryError::Unaligned { addr, width: w })
    } else {
        Ok(MemV { config: m.config, bytes: stored_bytes(m.bytes, addr, v, w) })
    }
}

impl Memory {
    /// An empty memory: every address uninitialized.
    pub fn new(config: Config) -> (r: Memory)
        ensures
            r@.config == config,
            r@.bytes == Map::<i32, u8>::empty(),
    {
        Memory { config, mem: HashMap::new() }
    }

    /// What the byte at `a` reads as under the current configuration.
    fn get_byte(&self, a: i32) -> (r: Option<u8>)
        ensures
            r == byte_at(self@, a),
    {
        match self.mem.get(&a) {
            Some(b) => Some(*b),
            None => self.config.default_value,
        }
    }

    /// Loads from `addr` per [`load_spec`].
    pub fn load(&self, addr: i32, op: LoadOp) -> (r: Result<i32, MemoryError>)
        ensures
            r == load_spec(self@, addr, op),
    {
        let width = match op {
            LoadOp::Lw => 4u32,
            LoadOp::Lh => 2u32,
            LoadOp::Lhu => 2u32,
            LoadOp::Lb => 1u32,
            LoadOp::Lbu => 1u32,
        };
        if !self.config.allow_unaligned {
            if width == 4 && (addr & 3) != 0 {
                return Err(MemoryError::Unaligned { addr, width });
            }
            if width == 2 && (addr & 1) != 0 {
                return Err(MemoryError::Unaligned { addr, width });
            }
        }
        let a0 = addr;
        let b0 = match self.get_byte(a0) {
            Some(b) => b,
            None => {
                return Err(MemoryError::Uninitialized { addr: a0 });
            },
        };
        let raw: u32 = if width == 1 {
            b0 as u32
        } else {
            let a1 = addr.wrapping_add(1);
            let b1 = match self.get_byte(a1) {
                Some(b) => b,
                None => {
                    return Err(MemoryError::Uninitialized { addr: a1 });
                },
            };
            if width == 2 {
                b0 as u32 + 0x100 * (b1 as u32)
            } else {
                let a2 = addr.wrapping_add(2);
                let b2 = match self.get_byte(a2) {
                    Some(b) => b,
                    None => {
                        return Err(MemoryError::Uninitialized { addr: a2 });
                    },
                };
                let a3 = addr.wrapping_add(3);
                let b3 = match self.get_byte(a3) {
                    Some(b) => b,
                    None => {
                        return Err(MemoryError::Uninitialized { addr: a3 });
                    },
                };
                b0 as u32 + 0x100 * (b1 as u32) + 0x1_0000 * (b2 as u32) + 0x100_0000 * (b3 as u32)
            }
        };
        let val: i32 = match op {
            LoadOp::Lw => {
                if raw <= 0x7fff_ffff {
                    raw as i32
                } else {
                    -1 - ((0xffff_ffffu32 - raw) as i32)
                }
            },
            LoadOp::Lh => {
                if raw >= 0x8000 {
                    (raw as i32) - 0x1_0000
                } else {
                    raw as i32
                }
            },
            LoadOp::Lhu => raw as i32,
            LoadOp::Lb => {
                if raw >= 0x80 {
                    (raw as i32) - 0x100
                } else {
                    raw as i32
                }
            },
            LoadOp::Lbu => raw as i32,
        };
        Ok(val)
    }

    /// Stores to `addr` per [`store_spec`]: on success the written bytes
    /// replace what was there; on failure the memory is unchanged.
    pub fn store(&mut self, addr: i32, val: i32, op: StoreOp) -> (r: Result<(), MemoryError>)
        ensures
            match store_spec(old(self)@, addr, val, op) {
                Ok(m2) => r is Ok && final(self)@ == m2,
                Err(e) => r == Err::<(), MemoryError>(e) && final(self)@ == old(self)@,
            },
    {
        let width = match op {
            StoreOp::Sw => 4u32,
            StoreOp::Sh => 2u32,
            StoreOp::Sb => 1u32,
        };
        if !self.config.allow_unaligned {
            if width == 4 && (addr & 3) != 0 {
                return Err(MemoryError::Unaligned { addr, width });
            }
            if width == 2 && (addr & 1) != 0 {
                return Err(MemoryError::Unaligned { addr, width });
            }
        }
        self.mem.insert(addr, extract_byte(val, 0));
        if width >= 2 {
            self.mem.insert(addr.wrapping_add(1), extract_byte(val, 1));
        }
        if width >= 4 {
            self.mem.insert(addr.wrapping_add(2), extract_byte(val, 2));
            self.mem.insert(addr.wrapping_add(3), extract_byte(val, 3));
        }
        proof {
            assert(self@ =~= match store_spec(old(self)@, addr, val, op) {
                Ok(m2) => m2,
                Err(_) => old(self)@,
            });
        }
        Ok(())
    }
}

/// Reinterprets a value in `[0, 2^32)` as a 32-bit signed integer,
/// executably.
pub(crate) fn to_signed_exec(w: u32) -> (r: i32)
    ensures
        r == to_signed32(w as int),
{
    if w <= 0x7fff_ffff {
        w as i32
    } else {
        -1 - ((0xffff_ffffu32 - w) as i32)
    }
}

/// The unsigned reinterpretation of a 32-bit value, executably.
pub(crate) fn to_unsigned_exec(x: i32) -> (r: u32)
    ensures
        x >= 0 ==> r == x,
        x < 0 ==> r == x + 0x1_0000_0000,
{
    if x >= 0 {
        x as u32
    } else {
        0xffff_ffffu32 - ((-1 - x) as u32)
    }
}

/// Bits `[8k, 8k + 8)` of `v`, executably.
fn extract_byte(v: i32, k: u32) -> (r: u8)
    requires
        k <= 3,
    ensures
        r == le_byte(v, k),
{
    let shifted = v >> (8 * k);
    let masked = shifted & 0xff;
    proof {
        lemma_mask_byte_bounds(v, (8 * k) as u32);
    }
    masked as u8
}

/// Masking any arithmetic shift of an `i32` to its low byte lands in
/// `[0, 255]`.
proof fn lemma_mask_byte_bounds(v: i32, s: u32)
    requires
        s <= 24,
    ensures
        0 <= ((v >> s) & 0xff) <= 255,
{
    assert(0 <= ((v >> s) & 0xff) <= 255) by (bit_vector)
        requires
            s <= 24,
    ;
}

// ---------------------------------------------------------------------
// Laws: store/load round trips and uninitialized-access detection
// ---------------------------------------------------------------------

/// The four addresses a word access touches are pairwise distinct (the
/// address space wraps, but only every 2^32 bytes).
proof fn lemma_addr_off_distinct(a: i32)
    ensures
        addr_off(a, 0) == a,
        forall|i: u32, j: u32|
            i < j <= 3 ==> addr_off(a, i) != addr_off(a, j),
{
    assert forall|i: u32, j: u32| i < j <= 3 implies addr_off(a, i) != addr_off(a, j) by {
        assert(addr_off(a, i) == vstd::wrapping::i32_specs::wrapping_add(a, i as i32));
    }
}

/// The little-endian bytes of `v` reassemble to `v`.
proof fn lemma_word_reassemble(v: i32)
    ensures
        to_signed32(
            le_byte(v, 0) + 0x100 * le_byte(v, 1) + 0x1_0000 * le_byte(v, 2) + 0x100_0000 * le_byte(
                v,
                3,
            ),
        ) == v,
{
    let b0 = le_byte(v, 0);
    let b1 = le_byte(v, 1);
    let b2 = le_byte(v, 2);
    let b3 = le_byte(v, 3);
    assert((b0 as u32) + 0x100 * (b1 as u32) + 0x1_0000 * (b2 as u32) + 0x100_0000 * (b3 as u32)
        == v as u32) by (bit_vector)
        requires
            b0 == ((v >> 0) & 0xff) as u8,
            b1 == ((v >> 8) & 0xff) as u8,
            b2 == ((v >> 16) & 0xff) as u8,
            b3 == ((v >> 24) & 0xff) as u8,
    ;
    assert((v as u32) <= 0x7fff_ffff ==> ((v as u32) as i32) == v) by (bit_vector);
    assert((v as u32) > 0x7fff_ffff ==> ((((v as u32) as int) - 0x1_0000_0000) as i32) == v)
        by (bit_vector);
}

/// The low two little-endian bytes of `v` reassemble to its low 16 bits.
proof fn lemma_half_reassemble(v: i32)
    ensures
        le_byte(v, 0) + 0x100 * le_byte(v, 1) == (v & 0xffff),
        0 <= (v & 0xffff) < 0x1_0000,
{
    let b0 = le_byte(v, 0);
    let b1 = le_byte(v, 1);
    assert((b0 as u32) + 0x100 * (b1 as u32) == ((v & 0xffff) as u32) && 0 <= (v & 0xffff)
        < 0x1_0000) by (bit_vector)
        requires
            b0 == ((v >> 0) & 0xff) as u8,
            b1 == ((v >> 8) & 0xff) as u8,
    ;
}

/// The low little-endian byte of `v` is its low 8 bits.
proof fn lemma_byte_reassemble(v: i32)
    ensures
        le_byte(v, 0) == (v & 0xff),
        0 <= (v & 0xff) < 0x100,
{
    let b0 = le_byte(v, 0);
    assert((b0 as u32) == ((v & 0xff) as u32) && 0 <= (v & 0xff) < 0x100) by (bit_vector)
        requires
            b0 == ((v >> 0) & 0xff) as u8,
    ;
}

/// Memory round trip for words: storing `v` with `Sw` and loading back
/// with `Lw` from the same (permitted) address yields `v` again.
pub proof fn lemma_store_load_word(m: MemV, addr: i32, v: i32)
    requires
        m.config.allow_unaligned || (addr & 3) == 0,
    ensures
        store_spec(m, addr, v, StoreOp::Sw) matches Ok(m2) && load_spec(m2, addr, LoadOp::Lw)
            == Ok::<i32, MemoryError>(v),
{
    lemma_addr_off_distinct(addr);
    let m2 = match store_spec(m, addr, v, StoreOp::Sw) {
        Ok(m2) => m2,
        Err(_) => arbitrary(),
    };
    assert(byte_at(m2, addr_off(addr, 0)) == Some(le_byte(v, 0)));
    assert(byte_at(m2, addr_off(addr, 1)) == Some(le_byte(v, 1)));
    assert(byte_at(m2, addr_off(addr, 2)) == Some(le_byte(v, 2)));
    assert(byte_at(m2, addr_off(addr, 3)) == Some(le_byte(v, 3)));
    assert(le_val(m2, addr, 4) == le_byte(v, 0) + 0x100 * le_byte(v, 1) + 0x1_0000 * le_byte(v, 2)
        + 0x100_0000 * le_byte(v, 3));
    lemma_word_reassemble(v);
}

/// Memory round trip for half-words: after storing `v` with `Sh`, `Lh`
/// loads its low 16 bits sign-extended, `Lhu` zero-extended.
pub proof fn lemma_store_load_half(m: MemV, addr: i32, v: i32)
    requires
        m.config.allow_unaligned || (addr & 1) == 0,
    ensures
        store_spec(m, addr, v, StoreOp::Sh) matches Ok(m2) && load_spec(m2, addr, LoadOp::Lh)
            == Ok::<i32, MemoryError>(extend_loaded(LoadOp::Lh, (v & 0xffff) as int)) && load_spec(
            m2,
            addr,
            LoadOp::Lhu,
        ) == Ok::<i32, MemoryError>((v & 0xffff) as i32),
{
    lemma_addr_off_distinct(addr);
    let m2 = match store_spec(m, addr, v, StoreOp::Sh) {
        Ok(m2) => m2,
        Err(_) => arbitrary(),
    };
    assert(byte_at(m2, addr_off(addr, 0)) == Some(le_byte(v, 0)));
    assert(byte_at(m2, addr_off(addr, 1)) == Some(le_byte(v, 1)));
    lemma_half_reassemble(v);
    assert(le_val(m2, addr, 2) == (v & 0xffff));
}

/// Memory round trip for bytes: after storing `v` with `Sb`, `Lb` loads
/// its low 8 bits sign-extended, `Lbu` zero-extended.
pub proof fn lemma_store_load_byte(m: MemV, addr: i32, v: i32)
    ensures
        store_spec(m, addr, v, StoreOp::Sb) matches Ok(m2) && load_spec(m2, addr, LoadOp::Lb)
            == Ok::<i32, MemoryError>(extend_loaded(LoadOp::Lb, (v & 0xff) as int)) && load_spec(
            m2,
            addr,
            LoadOp::Lbu,
        ) == Ok::<i32, MemoryError>((v & 0xff) as i32),
{
    let m2 = match store_spec(m, addr, v, StoreOp::Sb) {
        Ok(m2) => m2,
        Err(_) => arbitrary(),
    };
    assert(byte_at(m2, addr) == Some(le_byte(v, 0)));
    lemma_byte_reassemble(v);
    assert(le_val(m2, addr, 1) == (v & 0xff));
}

/// Uninitialized-access detection: with no default byte configured, a
/// load whose first never-stored byte sits at offset `j` fails with
/// `Uninitialized` naming exactly that byte's address.
pub proof fn lemma_uninitialized_detected(m: MemV, addr: i32, op: LoadOp, j: u32)
    requires
        m.config.default_value is None,
        m.config.allow_unaligned || aligned_for(addr, load_width(op)),
        j < load_width(op),
        !m.bytes.contains_key(addr_off(addr, j)),
        forall|i: u32| i < j ==> m.bytes.contains_key(#[trigger] addr_off(addr, i)),
    ensures
        load_spec(m, addr, op) == Err::<i32, MemoryError>(
            MemoryError::Uninitialized { addr: addr_off(addr, j) },
        ),
{
    lemma_addr_off_distinct(addr);
    if j > 0 {
        assert(m.bytes.contains_key(addr_off(addr, 0)));
    }
    if j > 1 {
        assert(m.bytes.contains_key(addr_off(addr, 1)));
    }
    if j > 2 {
        assert(m.bytes.contains_key(addr_off(addr, 2)));
    }
}

} // verus!
