//! The executable the kernel mapped, seen through its program headers.
use vstd::prelude::*;
use crate::memory::MemImage;
use crate::binary::elf::program_header::{
    ProgramHeader, PT_PHDR, phdrs_from, to_phdr_array, first_of_type, find_first_of_type,
};
use crate::binary::elf::dynamic::{Dyn, spec_dynamic_array, get_dynamic_array};
use crate::binary::elf::image::spec_from_executable;

verus! {

/// An executable mapped by the kernel: where its file starts in memory, its
/// load bias, its program headers and, if it has one, its dynamic array.
#[derive(Debug)]
pub struct ElfExec {
    pub base: u64,
    pub load_bias: u64,
    pub phdrs: Vec<ProgramHeader>,
    pub dynamic: Option<Vec<Dyn>>,
}

/// A library, through its program headers and dynamic array.
#[derive(Debug)]
pub struct ElfLib {
    pub phdrs: Vec<ProgramHeader>,
    pub dynamic: Vec<Dyn>,
}

/// The contents of an [`ElfExec`], as values.
pub ghost struct ElfExecView {
    pub base: u64,
    pub load_bias: u64,
    pub phdrs: Seq<ProgramHeader>,
    pub dynamic: Option<Seq<Dyn>>,
}

impl View for ElfExec {
    type V = ElfExecView;

    open spec fn view(&self) -> ElfExecView {
        ElfExecView {
            base: self.base,
            load_bias: self.load_bias,
            phdrs: self.phdrs@,
            dynamic: match self.dynamic {
                Some(d) => Some(d@),
                None => None,
            },
        }
    }
}

/// The executable whose `phnum` program headers are at `phdr_addr`: with a
/// `PT_PHDR` header, its load bias is `phdr_addr - p_vaddr` and its base
/// `phdr_addr - p_offset` of that header, else both are 0. `None` when the
/// image does not hold the program headers, or a subtraction goes below 0.
pub open spec fn spec_elf_exec(mem: MemImage, phdr_addr: u64, phnum: usize) -> Option<ElfExecView> {
    if !mem.holds(phdr_addr as int, 56 * phnum) {
        None
    } else {
        let phdrs = phdrs_from(mem.bytes@, phdr_addr - mem.base, phnum as nat);
        let (load_bias, base) = match first_of_type(phdrs, PT_PHDR) {
            Some(i) => (phdr_addr - phdrs[i].p_vaddr, phdr_addr - phdrs[i].p_offset),
            None => (0, 0),
        };
        if load_bias < 0 || base < 0 {
            None
        } else {
            Some(
                ElfExecView {
                    base: base as u64,
                    load_bias: load_bias as u64,
                    phdrs,
                    dynamic: spec_dynamic_array(mem, load_bias as u64, phdrs),
                },
            )
        }
    }
}

impl ElfExec {
    /// Reads the executable whose `phnum` program headers the kernel mapped
    /// at `phdr_addr`.
    pub fn new(mem: &MemImage, phdr_addr: u64, phnum: usize) -> (r: Option<ElfExec>)
        ensures
            match r {
                Some(e) => spec_elf_exec(*mem, phdr_addr, phnum) == Some(e@),
                None => spec_elf_exec(*mem, phdr_addr, phnum) is None,
            },
    {
        let phdrs = match to_phdr_array(mem, phdr_addr, phnum) {
            Some(p) => p,
            None => {
                return None;
            },
        };
        let mut base: u64 = 0;
        let mut load_bias: u64 = 0;
        match find_first_of_type(phdrs.as_slice(), PT_PHDR) {
            Some(i) => {
                if phdr_addr < phdrs[i].p_vaddr || phdr_addr < phdrs[i].p_offset {
                    return None;
                }
                load_bias = phdr_addr - phdrs[i].p_vaddr;
                base = phdr_addr - phdrs[i].p_offset;
            },
            None => {},
        }
        let dynamic = get_dynamic_array(mem, load_bias, phdrs.as_slice());
        let e = ElfExec { base, load_bias, phdrs, dynamic };
        proof {
            assert(e@.dynamic == spec_dynamic_array(*mem, load_bias, e@.phdrs));
        }
        Some(e)
    }
}


/// Reading the executable's program headers as an [`ElfExec`] and as a
/// [`SharedObject`] gives the same load bias and the same program headers.
pub proof fn lemma_exec_views_agree(mem: MemImage, name: Seq<u8>, phdr_addr: u64, phnum: usize)
    requires
        spec_elf_exec(mem, phdr_addr, phnum) is Some,
        spec_from_executable(mem, name, phdr_addr, phnum) is Ok,
    ensures
        spec_from_executable(mem, name, phdr_addr, phnum)->Ok_0.load_bias == spec_elf_exec(
            mem,
            phdr_addr,
            phnum,
        )->0.load_bias,
        spec_from_executable(mem, name, phdr_addr, phnum)->Ok_0.phdrs == spec_elf_exec(
            mem,
            phdr_addr,
            phnum,
        )->0.phdrs,
{
}
} // verus!
