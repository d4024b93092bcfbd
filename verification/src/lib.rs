//! A model of an ELF dynamic linker for x86-64: the parsing of the kernel
//! argument block, of ELF headers, program headers and the `_DYNAMIC` array,
//! symbol lookup, and the planning of relocations, all over byte images of
//! memory so that every step is proved.

pub mod memory;
pub mod auxv;
pub mod utils;
pub mod kernel_block;
pub mod binary;
pub mod relocate;
pub mod runtime;
pub mod linker;
pub mod image;

