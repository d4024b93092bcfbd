use vstd::prelude::*;
use crate::memory::{MemImage, u64_le, le_u64};

verus! {

/// Size in bytes of one relocation entry with addend.
pub const SIZEOF_RELA: usize = 24;

pub const R_X86_64_NONE: u32 = 0;
pub const R_X86_64_64: u32 = 1;
pub const R_X86_64_PC32: u32 = 2;
pub const R_X86_64_GOT32: u32 = 3;
pub const R_X86_64_PLT32: u32 = 4;
pub const R_X86_64_COPY: u32 = 5;
pub const R_X86_64_GLOB_DAT: u32 = 6;
pub const R_X86_64_JUMP_SLOT: u32 = 7;
pub const R_X86_64_RELATIVE: u32 = 8;
pub const R_X86_64_DTPMOD64: u32 = 16;
pub const R_X86_64_DTPOFF64: u32 = 17;
pub const R_X86_64_TPOFF64: u32 = 18;
pub const R_X86_64_IRELATIVE: u32 = 37;

/// An ELF64 relocation with addend (`Elf64_Rela`).
#[derive(Clone, Copy, Debug, PartialEq, Eq)]
pub struct Rela {
    pub r_offset: u64,
    pub r_info: u64,
    pub r_addend: i64,
}

/// The relocation type of an `r_info` word: its low 32 bits.
pub open spec fn spec_r_type(info: u64) -> u32 {
    (info % 0x1_0000_0000) as u32
}

/// The symbol index of an `r_info` word: its high 32 bits.
pub open spec fn spec_r_sym(info: u64) -> u32 {
    (info / 0x1_0000_0000) as u32
}

/// The relocation type of `info`.
pub fn r_type(info: u64) -> (r: u32)
    ensures
        r == spec_r_type(info),
{
    (info % 0x1_0000_0000) as u32
}

/// The symbol table index of `info`.
pub fn r_sym(info: u64) -> (r: u32)
    ensures
        r == spec_r_sym(info),
{
    (info / 0x1_0000_0000) as u32
}

/// The relocation whose 24 bytes start at `off` in `s`.
pub open spec fn rela_from(s: Seq<u8>, off: int) -> Rela {
    Rela {
        r_offset: le_u64(s, off) as u64,
        r_info: le_u64(s, off + 8) as u64,
        r_addend: le_u64(s, off + 16) as u64 as i64,
    }
}

/// The `n` relocations laid out one after the other from `off` in `s`.
pub open spec fn relas_from(s: Seq<u8>, off: int, n: nat) -> Seq<Rela> {
    Seq::new(n, |i: int| rela_from(s, off + 24 * i))
}

/// The relocation whose bytes start at `off` in `s`.
pub fn rela_at(s: &[u8], off: usize) -> (r: Rela)
    requires
        off + 24 <= s.len(),
    ensures
        r == rela_from(s@, off as int),
{
    let addend = u64_le(s, off + 16);
    Rela { r_offset: u64_le(s, off), r_info: u64_le(s, off + 8), r_addend: addend as i64 }
}

/// The `count` relocations of the table at address `addr`; `None` when the
/// image does not hold them all.
pub fn read_relas(mem: &MemImage, addr: u64, count: usize) -> (r: Option<Vec<Rela>>)
    ensures
        match r {
            Some(v) => mem.holds(addr as int, 24 * count) && v@ == relas_from(
                mem.bytes@,
                addr - mem.base,
                count as nat,
            ),
            None => !mem.holds(addr as int, 24 * count),
        },
{
    let size = match count.checked_mul(24) {
        Some(size) => size,
        None => {
            let len = mem.bytes.len();
            assert(len == mem.bytes@.len());
            return None;
        },
    };
    match mem.offset_of(addr, size) {
        None => None,
        Some(off) => {
            let mut r: Vec<Rela> = Vec::new();
            let mut i: usize = 0;
            while i < count
                invariant
                    i <= count,
                    off + 24 * count <= mem.bytes.len(),
                    r@ == relas_from(mem.bytes@, off as int, i as nat),
                decreases count - i,
            {
                r.push(rela_at(mem.bytes.as_slice(), off + 24 * i));
                i = i + 1;
                assert(r@ =~= relas_from(mem.bytes@, off as int, i as nat));
            }
            Some(r)
        },
    }
}

/// The number of entries of a relocation table of `relasz` bytes whose
/// entries are `relaent` bytes each; 0 when the entry size is 0.
pub open spec fn rela_count(relasz: u64, relaent: u64) -> u64 {
    if relaent == 0 {
        0
    } else {
        relasz / relaent
    }
}

/// The `.rela.dyn` table at `rela`: `relasz / relaent` entries.
pub fn get(mem: &MemImage, rela: u64, relasz: usize, relaent: usize, relacount: usize) -> (r:
    Option<Vec<Rela>>)
    ensures
        match r {
            Some(v) => mem.holds(rela as int, 24 * rela_count(relasz as u64, relaent as u64))
                && v@ == relas_from(
                mem.bytes@,
                rela - mem.base,
                rela_count(relasz as u64, relaent as u64) as nat,
            ),
            None => !mem.holds(rela as int, 24 * rela_count(relasz as u64, relaent as u64)),
        },
{
    let count = if relaent == 0 {
        0
    } else {
        relasz / relaent
    };
    read_relas(mem, rela, count)
}

/// The `.rela.plt` table at `jmprel`: `pltrelsz / 24` entries.
pub fn get_plt(mem: &MemImage, jmprel: u64, pltrelsz: usize) -> (r: Option<Vec<Rela>>)
    ensures
        match r {
            Some(v) => mem.holds(jmprel as int, 24 * (pltrelsz / 24)) && v@ == relas_from(
                mem.bytes@,
                jmprel - mem.base,
                (pltrelsz / 24) as nat,
            ),
            None => !mem.holds(jmprel as int, 24 * (pltrelsz / 24)),
        },
{
    read_relas(mem, jmprel, pltrelsz / SIZEOF_RELA)
}

} // verus!
