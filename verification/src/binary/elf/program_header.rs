use vstd::prelude::*;
use vstd::string::StringSliceAdditionalSpecFns;
use crate::utils::{field_line, push_bytes, push_field_line};
use crate::memory::{MemImage, u32_le, u64_le, le_u32, le_u64};

verus! {

/// Size in bytes of one program header in memory and on disk.
pub const SIZEOF_PHDR: usize = 56;

/// The size of a program-header slot that `load` reads per header.
pub const PHDR_SIZE: u64 = 64;

pub const PT_NULL: u32 = 0;
pub const PT_LOAD: u32 = 1;
pub const PT_DYNAMIC: u32 = 2;
pub const PT_INTERP: u32 = 3;
pub const PT_NOTE: u32 = 4;
pub const PT_SHLIB: u32 = 5;
pub const PT_PHDR: u32 = 6;
pub const PT_TLS: u32 = 7;
pub const PT_NUM: u32 = 8;
pub const PT_LOOS: u32 = 0x60000000;
pub const PT_GNU_EH_FRAME: u32 = 0x6474e550;
pub const PT_GNU_STACK: u32 = 0x6474e551;
pub const PT_GNU_RELRO: u32 = 0x6474e552;
pub const PT_LOSUNW: u32 = 0x6ffffffa;
pub const PT_SUNWBSS: u32 = 0x6ffffffa;
pub const PT_SUNWSTACK: u32 = 0x6ffffffb;
pub const PT_HISUNW: u32 = 0x6fffffff;
pub const PT_HIOS: u32 = 0x6fffffff;
pub const PT_LOPROC: u32 = 0x70000000;
pub const PT_HIPROC: u32 = 0x7fffffff;

/// Segment is executable
pub const PF_X: u32 = 1;
/// Segment is writable
pub const PF_W: u32 = 2;
/// Segment is readable
pub const PF_R: u32 = 4;

/// An ELF64 program header (`Elf64_Phdr`).
#[derive(Clone, Copy, Debug, PartialEq, Eq)]
pub struct ProgramHeader {
    pub p_type: u32,
    pub p_flags: u32,
    pub p_offset: u64,
    pub p_vaddr: u64,
    pub p_paddr: u64,
    pub p_filesz: u64,
    pub p_memsz: u64,
    pub p_align: u64,
}

/// The program header whose 56 bytes start at `off` in `s`.
pub open spec fn phdr_from(s: Seq<u8>, off: int) -> ProgramHeader {
    ProgramHeader {
        p_type: le_u32(s, off) as u32,
        p_flags: le_u32(s, off + 4) as u32,
        p_offset: le_u64(s, off + 8) as u64,
        p_vaddr: le_u64(s, off + 16) as u64,
        p_paddr: le_u64(s, off + 24) as u64,
        p_filesz: le_u64(s, off + 32) as u64,
        p_memsz: le_u64(s, off + 40) as u64,
        p_align: le_u64(s, off + 48) as u64,
    }
}

/// The `n` program headers laid out one after the other from `off` in `s`.
pub open spec fn phdrs_from(s: Seq<u8>, off: int, n: nat) -> Seq<ProgramHeader> {
    Seq::new(n, |i: int| phdr_from(s, off + 56 * i))
}

/// The name of a segment type, as the debug output prints it.
pub open spec fn pt_name(pt: u32) -> &'static str {
    if pt == PT_NULL { "PT_NULL" }
    else if pt == PT_LOAD { "PT_LOAD" }
    else if pt == PT_DYNAMIC { "PT_DYNAMIC" }
    else if pt == PT_INTERP { "PT_INTERP" }
    else if pt == PT_NOTE { "PT_NOTE" }
    else if pt == PT_SHLIB { "PT_SHLIB" }
    else if pt == PT_PHDR { "PT_PHDR" }
    else if pt == PT_TLS { "PT_TLS" }
    else if pt == PT_NUM { "PT_NUM" }
    else if pt == PT_LOOS { "PT_LOOS" }
    else if pt == PT_GNU_EH_FRAME { "PT_GNU_EH_FRAME" }
    else if pt == PT_GNU_STACK { "PT_GNU_STACK" }
    else if pt == PT_GNU_RELRO { "PT_GNU_RELRO" }
    else if pt == PT_SUNWBSS { "PT_SUNWBSS" }
    else if pt == PT_SUNWSTACK { "PT_SUNWSTACK" }
    else if pt == PT_HIOS { "PT_HIOS" }
    else if pt == PT_LOPROC { "PT_LOPROC" }
    else if pt == PT_HIPROC { "PT_HIPROC" }
    else { "UNKNOWN_PT" }
}

/// The name of the segment type `pt`.
pub fn pt_to_str(pt: u32) -> (r: &'static str)
    ensures
        r == pt_name(pt),
{
    if pt == PT_NULL { "PT_NULL" }
    else if pt == PT_LOAD { "PT_LOAD" }
    else if pt == PT_DYNAMIC { "PT_DYNAMIC" }
    else if pt == PT_INTERP { "PT_INTERP" }
    else if pt == PT_NOTE { "PT_NOTE" }
    else if pt == PT_SHLIB { "PT_SHLIB" }
    else if pt == PT_PHDR { "PT_PHDR" }
    else if pt == PT_TLS { "PT_TLS" }
    else if pt == PT_NUM { "PT_NUM" }
    else if pt == PT_LOOS { "PT_LOOS" }
    else if pt == PT_GNU_EH_FRAME { "PT_GNU_EH_FRAME" }
    else if pt == PT_GNU_STACK { "PT_GNU_STACK" }
    else if pt == PT_GNU_RELRO { "PT_GNU_RELRO" }
    else if pt == PT_SUNWBSS { "PT_SUNWBSS" }
    else if pt == PT_SUNWSTACK { "PT_SUNWSTACK" }
    else if pt == PT_HIOS { "PT_HIOS" }
    else if pt == PT_LOPROC { "PT_LOPROC" }
    else if pt == PT_HIPROC { "PT_HIPROC" }
    else { "UNKNOWN_PT" }
}

/// The program header whose bytes start at `off` in `s`.
pub fn phdr_at(s: &[u8], off: usize) -> (r: ProgramHeader)
    requires
        off + 56 <= s.len(),
    ensures
        r == phdr_from(s@, off as int),
{
    ProgramHeader {
        p_type: u32_le(s, off),
        p_flags: u32_le(s, off + 4),
        p_offset: u64_le(s, off + 8),
        p_vaddr: u64_le(s, off + 16),
        p_paddr: u64_le(s, off + 24),
        p_filesz: u64_le(s, off + 32),
        p_memsz: u64_le(s, off + 40),
        p_align: u64_le(s, off + 48),
    }
}

/// Reads `phnum` program headers from the start of `bytes`, as the file
/// stores them one after the other.
pub fn from_bytes(bytes: &Vec<u8>, phnum: usize) -> (r: Vec<ProgramHeader>)
    requires
        56 * phnum <= bytes.len(),
    ensures
        r@ == phdrs_from(bytes@, 0, phnum as nat),
{
    let mut r: Vec<ProgramHeader> = Vec::new();
    let mut i: usize = 0;
    while i < phnum
        invariant
            i <= phnum,
            56 * phnum <= bytes.len(),
            r@ == phdrs_from(bytes@, 0, i as nat),
        decreases phnum - i,
    {
        let ph = phdr_at(bytes.as_slice(), 56 * i);
        r.push(ph);
        i = i + 1;
        assert(r@ =~= phdrs_from(bytes@, 0, i as nat));
    }
    r
}

/// Reads the `phnum` program headers that start at address `addr` in `mem`;
/// `None` when they do not all lie in the image.
pub fn to_phdr_array(mem: &MemImage, addr: u64, phnum: usize) -> (r: Option<Vec<ProgramHeader>>)
    ensures
        match r {
            Some(v) => mem.holds(addr as int, 56 * phnum) && v@ == phdrs_from(
                mem.bytes@,
                addr - mem.base,
                phnum as nat,
            ),
            None => !mem.holds(addr as int, 56 * phnum),
        },
{
    let size = match phnum.checked_mul(56) {
        Some(size) => size,
        None => {
            let len = mem.bytes.len();
            assert(len == mem.bytes@.len());
            return None;
        },
    };
    match mem.offset_of(addr, size) {
        None => None,
        Some(off) => {
            let mut r: Vec<ProgramHeader> = Vec::new();
            let mut i: usize = 0;
            while i < phnum
                invariant
                    i <= phnum,
                    off + 56 * phnum <= mem.bytes.len(),
                    r@ == phdrs_from(mem.bytes@, off as int, i as nat),
                decreases phnum - i,
            {
                let ph = phdr_at(mem.bytes.as_slice(), off + 56 * i);
                r.push(ph);
                i = i + 1;
                assert(r@ =~= phdrs_from(mem.bytes@, off as int, i as nat));
            }
            Some(r)
        },
    }
}

/// Index of the first program header of type `t`, if there is one.
pub open spec fn is_first_of_type(s: Seq<ProgramHeader>, t: u32, i: int) -> bool {
    &&& 0 <= i < s.len()
    &&& s[i].p_type == t
    &&& forall|j: int| 0 <= j < i ==> s[j].p_type != t
}

pub open spec fn first_of_type(s: Seq<ProgramHeader>, t: u32) -> Option<int> {
    if exists|i: int| is_first_of_type(s, t, i) {
        Some(choose|i: int| is_first_of_type(s, t, i))
    } else {
        None
    }
}

pub proof fn lemma_first_of_type_unique(s: Seq<ProgramHeader>, t: u32, i: int)
    requires
        is_first_of_type(s, t, i),
    ensures
        first_of_type(s, t) == Some(i),
{
    let k = choose|k: int| is_first_of_type(s, t, k);
    assert(is_first_of_type(s, t, k));
    if k < i {
        assert(s[k].p_type != t);
    } else if i < k {
        assert(s[i].p_type != t);
    }
}

/// Finds the first program header of type `t`.
pub fn find_first_of_type(phdrs: &[ProgramHeader], t: u32) -> (r: Option<usize>)
    ensures
        match r {
            Some(i) => first_of_type(phdrs@, t) == Some(i as int),
            None => first_of_type(phdrs@, t) is None,
        },
{
    let mut i: usize = 0;
    while i < phdrs.len()
        invariant
            i <= phdrs@.len(),
            forall|j: int| 0 <= j < i ==> phdrs@[j].p_type != t,
        decreases phdrs@.len() - i,
    {
        if phdrs[i].p_type == t {
            proof {
                lemma_first_of_type_unique(phdrs@, t, i as int);
            }
            return Some(i);
        }
        i = i + 1;
    }
    assert(!exists|k: int| is_first_of_type(phdrs@, t, k));
    None
}


/// What a program header's debug output prints, one field per line in
/// hexadecimal but the alignment in decimal; the line labelled `p_memsz`
/// shows the value of `p_filesz`.
pub open spec fn phdr_text(p: ProgramHeader) -> Seq<u8> {
    "-==Elf64_phdr==-\n".spec_bytes() + field_line("p_type: 0x".spec_bytes(), p.p_type as u64, true)
        + field_line("p_flags: 0x".spec_bytes(), p.p_flags as u64, true) + field_line(
        "p_offset: 0x".spec_bytes(),
        p.p_offset,
        true,
    ) + field_line("p_vaddr: 0x".spec_bytes(), p.p_vaddr, true) + field_line(
        "p_paddr: 0x".spec_bytes(),
        p.p_paddr,
        true,
    ) + field_line("p_filesz: 0x".spec_bytes(), p.p_filesz, true) + field_line(
        "p_memsz: 0x".spec_bytes(),
        p.p_filesz,
        true,
    ) + field_line("p_align: ".spec_bytes(), p.p_align, false)
}

/// The debug output of the program headers `phdrs`, one after the other.
pub open spec fn phdrs_text(phdrs: Seq<ProgramHeader>) -> Seq<u8>
    decreases phdrs.len(),
{
    if phdrs.len() == 0 {
        Seq::empty()
    } else {
        phdrs_text(phdrs.drop_last()) + phdr_text(phdrs.last())
    }
}

impl ProgramHeader {
    /// The text the program header's debug output prints.
    pub fn debug_text(&self) -> (r: Vec<u8>)
        ensures
            r@ == phdr_text(*self),
    {
        let mut out: Vec<u8> = Vec::new();
        push_bytes(&mut out, "-==Elf64_phdr==-\n".as_bytes());
        push_field_line(&mut out, "p_type: 0x", self.p_type as u64, true);
        push_field_line(&mut out, "p_flags: 0x", self.p_flags as u64, true);
        push_field_line(&mut out, "p_offset: 0x", self.p_offset, true);
        push_field_line(&mut out, "p_vaddr: 0x", self.p_vaddr, true);
        push_field_line(&mut out, "p_paddr: 0x", self.p_paddr, true);
        push_field_line(&mut out, "p_filesz: 0x", self.p_filesz, true);
        push_field_line(&mut out, "p_memsz: 0x", self.p_filesz, true);
        push_field_line(&mut out, "p_align: ", self.p_align, false);
        assert(out@ =~= phdr_text(*self));
        out
    }
}

/// The text the debug output of all of `phdrs` prints.
pub fn phdrs_debug_text(phdrs: &[ProgramHeader]) -> (r: Vec<u8>)
    ensures
        r@ == phdrs_text(phdrs@),
{
    let mut out: Vec<u8> = Vec::new();
    let mut i: usize = 0;
    while i < phdrs.len()
        invariant
            i <= phdrs@.len(),
            out@ == phdrs_text(phdrs@.subrange(0, i as int)),
        decreases phdrs@.len() - i,
    {
        let t = phdrs[i].debug_text();
        push_bytes(&mut out, t.as_slice());
        assert(phdrs@.subrange(0, i + 1).drop_last() =~= phdrs@.subrange(0, i as int));
        i = i + 1;
    }
    assert(phdrs@.subrange(0, phdrs@.len() as int) =~= phdrs@);
    out
}
} // verus!
