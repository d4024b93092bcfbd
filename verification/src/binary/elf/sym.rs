use vstd::prelude::*;
use crate::memory::{MemImage, u16_le, u32_le, u64_le, le_u16, le_u32, le_u64};

verus! {

/// Size in bytes of one symbol table entry.
pub const SIZEOF_SYM: usize = 24;

/// The section index of an undefined symbol.
pub const SHN_UNDEF: u16 = 0;

/// An ELF64 symbol table entry (`Elf64_Sym`).
#[derive(Clone, Copy, Debug, PartialEq, Eq)]
pub struct Sym {
    pub st_name: u32,
    pub st_info: u8,
    pub st_other: u8,
    pub st_shndx: u16,
    pub st_value: u64,
    pub st_size: u64,
}

/// The symbol whose 24 bytes start at `off` in `s`.
pub open spec fn sym_from(s: Seq<u8>, off: int) -> Sym {
    Sym {
        st_name: le_u32(s, off) as u32,
        st_info: s[off + 4],
        st_other: s[off + 5],
        st_shndx: le_u16(s, off + 6) as u16,
        st_value: le_u64(s, off + 8) as u64,
        st_size: le_u64(s, off + 16) as u64,
    }
}

/// The `n` symbols laid out one after the other from `off` in `s`.
pub open spec fn syms_from(s: Seq<u8>, off: int, n: nat) -> Seq<Sym> {
    Seq::new(n, |i: int| sym_from(s, off + 24 * i))
}

/// The symbol whose bytes start at `off` in `s`.
pub fn sym_at(s: &[u8], off: usize) -> (r: Sym)
    requires
        off + 24 <= s.len(),
    ensures
        r == sym_from(s@, off as int),
{
    Sym {
        st_name: u32_le(s, off),
        st_info: s[off + 4],
        st_other: s[off + 5],
        st_shndx: u16_le(s, off + 6),
        st_value: u64_le(s, off + 8),
        st_size: u64_le(s, off + 16),
    }
}

/// The `count` symbols of the symbol table at address `addr`; `None` when
/// the image does not hold them all.
pub fn get_symtab(mem: &MemImage, addr: u64, count: usize) -> (r: Option<Vec<Sym>>)
    ensures
        match r {
            Some(v) => mem.holds(addr as int, 24 * count) && v@ == syms_from(
                mem.bytes@,
                addr - mem.base,
                count as nat,
            ),
            None => !mem.holds(addr as int, 24 * count),
        },
{
    let size = match count.checked_mul(24) {
        Some(size) => size,
        None => {
            let len = mem.bytes.len();
            assert(len == mem.bytes@.len());
            return None;
        },
    };
    match mem.offset_of(addr, size) {
        None => None,
        Some(off) => {
            let mut r: Vec<Sym> = Vec::new();
            let mut i: usize = 0;
            while i < count
                invariant
                    i <= count,
                    off + 24 * count <= mem.bytes.len(),
                    r@ == syms_from(mem.bytes@, off as int, i as nat),
                decreases count - i,
            {
                r.push(sym_at(mem.bytes.as_slice(), off + 24 * i));
                i = i + 1;
                assert(r@ =~= syms_from(mem.bytes@, off as int, i as nat));
            }
            Some(r)
        },
    }
}

} // verus!
