use vstd::prelude::*;
use vstd::string::StringSliceAdditionalSpecFns;
use crate::utils::{field_line, push_bytes, push_field_line};
use crate::memory::{MemImage, u16_le, u32_le, u64_le, le_u16, le_u32, le_u64};

verus! {

pub const EHDR_SIZE: usize = 64;

/// No file type
pub const ET_NONE: u16 = 0;
/// Relocatable file
pub const ET_REL: u16 = 1;
/// Executable file
pub const ET_EXEC: u16 = 2;
/// Shared object file
pub const ET_DYN: u16 = 3;
/// Core file
pub const ET_CORE: u16 = 4;
/// Number of defined types
pub const ET_NUM: u16 = 5;

/// The name of an ELF file type, as the debug output prints it.
pub open spec fn et_name(et: u16) -> &'static str {
    if et == ET_NONE { "NONE" }
    else if et == ET_REL { "REL" }
    else if et == ET_EXEC { "EXEC" }
    else if et == ET_DYN { "DYN" }
    else if et == ET_CORE { "CORE" }
    else if et == ET_NUM { "NUM" }
    else { "UNKNOWN_ET" }
}

/// The name of the file type `et`.
pub fn et_to_str(et: u16) -> (r: &'static str)
    ensures
        r == et_name(et),
{
    if et == ET_NONE { "NONE" }
    else if et == ET_REL { "REL" }
    else if et == ET_EXEC { "EXEC" }
    else if et == ET_DYN { "DYN" }
    else if et == ET_CORE { "CORE" }
    else if et == ET_NUM { "NUM" }
    else { "UNKNOWN_ET" }
}

/// The ELF64 file header (`Elf64_Ehdr`).
#[derive(Clone, Copy, Debug, PartialEq, Eq)]
pub struct Header {
    pub e_ident: [u8; 16],
    pub e_type: u16,
    pub e_machine: u16,
    pub e_version: u32,
    pub e_entry: u64,
    pub e_phoff: u64,
    pub e_shoff: u64,
    pub e_flags: u32,
    pub e_ehsize: u16,
    pub e_phentsize: u16,
    pub e_phnum: u16,
    pub e_shentsize: u16,
    pub e_shnum: u16,
    pub e_shstrndx: u16,
}

/// The header whose 64 bytes start at `off` in `s`.
pub open spec fn header_from(s: Seq<u8>, off: int, h: Header) -> bool {
    &&& h.e_ident@ == s.subrange(off, off + 16)
    &&& h.e_type == le_u16(s, off + 16) as u16
    &&& h.e_machine == le_u16(s, off + 18) as u16
    &&& h.e_version == le_u32(s, off + 20) as u32
    &&& h.e_entry == le_u64(s, off + 24) as u64
    &&& h.e_phoff == le_u64(s, off + 32) as u64
    &&& h.e_shoff == le_u64(s, off + 40) as u64
    &&& h.e_flags == le_u32(s, off + 48) as u32
    &&& h.e_ehsize == le_u16(s, off + 52) as u16
    &&& h.e_phentsize == le_u16(s, off + 54) as u16
    &&& h.e_phnum == le_u16(s, off + 56) as u16
    &&& h.e_shentsize == le_u16(s, off + 58) as u16
    &&& h.e_shnum == le_u16(s, off + 60) as u16
    &&& h.e_shstrndx == le_u16(s, off + 62) as u16
}

/// The header whose bytes start at `off` in `s`.
pub fn header_at(s: &[u8], off: usize) -> (r: Header)
    requires
        off + 64 <= s.len(),
    ensures
        header_from(s@, off as int, r),
{
    let e_ident: [u8; 16] = [
        s[off],
        s[off + 1],
        s[off + 2],
        s[off + 3],
        s[off + 4],
        s[off + 5],
        s[off + 6],
        s[off + 7],
        s[off + 8],
        s[off + 9],
        s[off + 10],
        s[off + 11],
        s[off + 12],
        s[off + 13],
        s[off + 14],
        s[off + 15],
    ];
    assert(e_ident@ =~= s@.subrange(off as int, off + 16));
    Header {
        e_ident,
        e_type: u16_le(s, off + 16),
        e_machine: u16_le(s, off + 18),
        e_version: u32_le(s, off + 20),
        e_entry: u64_le(s, off + 24),
        e_phoff: u64_le(s, off + 32),
        e_shoff: u64_le(s, off + 40),
        e_flags: u32_le(s, off + 48),
        e_ehsize: u16_le(s, off + 52),
        e_phentsize: u16_le(s, off + 54),
        e_phnum: u16_le(s, off + 56),
        e_shentsize: u16_le(s, off + 58),
        e_shnum: u16_le(s, off + 60),
        e_shstrndx: u16_le(s, off + 62),
    }
}

/// The header that the 64 bytes of a file's start encode.
pub fn from_bytes(bytes: &[u8; 64]) -> (r: Header)
    ensures
        header_from(bytes@, 0, r),
{
    let s = bytes.as_slice();
    header_at(s, 0)
}

/// The header at address `hdrp`; `None` when the image does not hold its 64
/// bytes.
pub fn unsafe_as_header(mem: &MemImage, hdrp: u64) -> (r: Option<Header>)
    ensures
        match r {
            Some(h) => mem.holds(hdrp as int, 64) && header_from(
                mem.bytes@,
                hdrp - mem.base,
                h,
            ),
            None => !mem.holds(hdrp as int, 64),
        },
{
    match mem.offset_of(hdrp, 64) {
        Some(off) => Some(header_at(mem.bytes.as_slice(), off)),
        None => None,
    }
}


/// What the header's debug output prints: a title, then each field after
/// the identification bytes in hexadecimal, one per line.
pub open spec fn header_text(h: Header) -> Seq<u8> {
    "-=Elf64_hdr=-\n".spec_bytes() + field_line("e_type: 0x".spec_bytes(), h.e_type as u64, true)
        + field_line("e_machine: 0x".spec_bytes(), h.e_machine as u64, true) + field_line(
        "e_version: 0x".spec_bytes(),
        h.e_version as u64,
        true,
    ) + field_line("e_entry: 0x".spec_bytes(), h.e_entry, true) + field_line(
        "e_phoff: 0x".spec_bytes(),
        h.e_phoff,
        true,
    ) + field_line("e_shoff: 0x".spec_bytes(), h.e_shoff, true) + field_line(
        "e_flags: 0x".spec_bytes(),
        h.e_flags as u64,
        true,
    ) + field_line("e_ehsize: 0x".spec_bytes(), h.e_ehsize as u64, true) + field_line(
        "e_phentsize: 0x".spec_bytes(),
        h.e_phentsize as u64,
        true,
    ) + field_line("e_phnum: 0x".spec_bytes(), h.e_phnum as u64, true) + field_line(
        "e_shentsize: 0x".spec_bytes(),
        h.e_shentsize as u64,
        true,
    ) + field_line("e_shnum: 0x".spec_bytes(), h.e_shnum as u64, true) + field_line(
        "e_shstrndx: 0x".spec_bytes(),
        h.e_shstrndx as u64,
        true,
    )
}

impl Header {
    /// The text the header's debug output prints.
    pub fn debug_text(&self) -> (r: Vec<u8>)
        ensures
            r@ == header_text(*self),
    {
        let mut out: Vec<u8> = Vec::new();
        push_bytes(&mut out, "-=Elf64_hdr=-\n".as_bytes());
        push_field_line(&mut out, "e_type: 0x", self.e_type as u64, true);
        push_field_line(&mut out, "e_machine: 0x", self.e_machine as u64, true);
        push_field_line(&mut out, "e_version: 0x", self.e_version as u64, true);
        push_field_line(&mut out, "e_entry: 0x", self.e_entry, true);
        push_field_line(&mut out, "e_phoff: 0x", self.e_phoff, true);
        push_field_line(&mut out, "e_shoff: 0x", self.e_shoff, true);
        push_field_line(&mut out, "e_flags: 0x", self.e_flags as u64, true);
        push_field_line(&mut out, "e_ehsize: 0x", self.e_ehsize as u64, true);
        push_field_line(&mut out, "e_phentsize: 0x", self.e_phentsize as u64, true);
        push_field_line(&mut out, "e_phnum: 0x", self.e_phnum as u64, true);
        push_field_line(&mut out, "e_shentsize: 0x", self.e_shentsize as u64, true);
        push_field_line(&mut out, "e_shnum: 0x", self.e_shnum as u64, true);
        push_field_line(&mut out, "e_shstrndx: 0x", self.e_shstrndx as u64, true);
        assert(out@ =~= header_text(*self));
        out
    }
}
} // verus!
