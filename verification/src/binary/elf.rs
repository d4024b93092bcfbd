pub mod header;
pub mod program_header;
pub mod strtab;
pub mod dynamic;
pub mod image;
pub mod sym;
pub mod rela;
pub mod gnu_hash;
pub mod loader;
pub mod library;

use vstd::prelude::*;

verus! {

/// The ELF file header in the layout the format defines (`Elf64_Ehdr`).
#[derive(Clone, Copy, Debug, PartialEq, Eq)]
pub struct Header {
    pub e_ident: [u8; 16],
    pub e_type: u16,
    pub e_machine: u16,
    pub e_version: u32,
    pub e_entry: u64,
    pub e_phoff: u64,
    pub e_shoff: u64,
    pub e_flags: u32,
    pub e_ehsize: u16,
    pub e_phentsize: u16,
    pub e_phnum: u16,
    pub e_shentsize: u16,
    pub e_shnum: u16,
    pub e_shstrndx: u16,
}

/// An ELF file, known by its header.
#[derive(Clone, Copy, Debug, PartialEq, Eq)]
pub struct Elf {
    pub header: Header,
}

impl Header {
    /// Prints nothing: the header's debug output is not written yet.
    pub fn print_debug(&self) {
    }
}

} // verus!
