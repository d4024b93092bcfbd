//! The dynamic linker: its own relocation, its state, and its start.
pub mod config;
pub mod relocation;
pub mod working_set;

pub use self::config::{Config, split_colon_exec};
pub use self::relocation::{check_all_resolvable, check_symbols_resolvable};
use self::config::{env_flag, debug_flag, spec_library_path};
use self::working_set::{copy_bytes, push_name};
use vstd::prelude::*;
use vstd::string::StringSliceAdditionalSpecFns;
use crate::memory::{MemImage, le_u16, le_u64};
use crate::auxv::{AT_SECURE, AT_SYSINFO_EHDR};
use crate::kernel_block::{KernelBlock, spec_getauxval, strs_view};
use crate::binary::elf::header::{Header, header_from, unsafe_as_header};
use crate::binary::elf::program_header::{
    ProgramHeader, PT_LOAD, phdrs_from, to_phdr_array, first_of_type, find_first_of_type,
};
use crate::binary::elf::dynamic::{Dyn, spec_dynamic_array, get_dynamic_array};
use crate::binary::elf::rela::{Rela, R_X86_64_RELATIVE, R_X86_64_DTPMOD64, spec_r_type, r_type};
use crate::binary::elf::image::{SharedObject, SharedObjectView, LoadError, spec_from_raw};
use crate::relocate::{
    Fixup, relocations_locatable, spec_relocations, get_relocations, rela_fits,
    check_relocations_locatable,
};

verus! {

/// The dynamic linker
#[derive(Debug)]
pub struct Linker {
    pub base: u64,
    pub load_bias: u64,
    pub ehdr: Header,
    pub phdrs: Vec<ProgramHeader>,
    pub dynamic: Vec<Dyn>,
    pub config: Config,
    /// The objects loaded so far, each under the name it was requested by;
    /// no name occurs twice.
    pub working_set: Vec<(Vec<u8>, SharedObject)>,
    /// The names of the objects in the order symbols are searched:
    /// breadth first from the executable's needed libraries.
    pub link_map_order: Vec<Vec<u8>>,
    pub link_map: Vec<SharedObject>,
}


/// The load bias of an image at `base`: `base + (p_offset - p_vaddr)` of its
/// first `PT_LOAD` segment, or 0 without one.
pub open spec fn spec_load_bias(base: u64, phdrs: Seq<ProgramHeader>) -> int {
    match first_of_type(phdrs, PT_LOAD) {
        Some(i) => base + (phdrs[i].p_offset - phdrs[i].p_vaddr),
        None => 0,
    }
}

/// Computing the load bias stays within `u64`: the first `PT_LOAD` segment's
/// offset is at least its address, and the sum fits.
pub open spec fn load_bias_fits(base: u64, phdrs: Seq<ProgramHeader>) -> bool {
    match first_of_type(phdrs, PT_LOAD) {
        Some(i) => phdrs[i].p_offset >= phdrs[i].p_vaddr && spec_load_bias(base, phdrs)
            <= u64::MAX,
        None => true,
    }
}

/// The load bias of the image at `base` whose program headers are `phdrs`.
pub fn compute_load_bias(base: u64, phdrs: &[ProgramHeader]) -> (r: u64)
    requires
        load_bias_fits(base, phdrs@),
    ensures
        r == spec_load_bias(base, phdrs@),
{
    match find_first_of_type(phdrs, PT_LOAD) {
        Some(i) => base + (phdrs[i].p_offset - phdrs[i].p_vaddr),
        None => 0,
    }
}

/// Whether the load bias can be computed.
pub fn check_load_bias(base: u64, phdrs: &[ProgramHeader]) -> (r: bool)
    ensures
        r == load_bias_fits(base, phdrs@),
{
    match find_first_of_type(phdrs, PT_LOAD) {
        Some(i) => phdrs[i].p_offset >= phdrs[i].p_vaddr && phdrs[i].p_offset - phdrs[i].p_vaddr
            <= u64::MAX - base,
        None => true,
    }
}

/// The `.rela.dyn` table of the linker's own image.
fn get_linker_relocations(mem: &MemImage, bias: u64, dynamic: &[Dyn]) -> (r: Option<Vec<Rela>>)
    requires
        relocations_locatable(dynamic@, bias),
    ensures
        match r {
            Some(v) => spec_relocations(*mem, bias, dynamic@) == Some(v@),
            None => spec_relocations(*mem, bias, dynamic@) is None,
        },
{
    get_relocations(mem, bias, dynamic)
}

/// The fixups that relocate the linker itself: its `R_X86_64_DTPMOD64`
/// words become 0 and its `R_X86_64_RELATIVE` words become `r_addend +
/// bias`, in the order of the table.
pub open spec fn linker_fixups(relas: Seq<Rela>, bias: u64) -> Seq<Fixup>
    decreases relas.len(),
{
    if relas.len() == 0 {
        Seq::empty()
    } else {
        let rest = linker_fixups(relas.drop_last(), bias);
        let r = relas.last();
        let t = spec_r_type(r.r_info);
        let addr = (r.r_offset + bias) as u64;
        if t == R_X86_64_DTPMOD64 {
            rest.push(Fixup::Store { addr, value: 0 })
        } else if t == R_X86_64_RELATIVE {
            rest.push(Fixup::Store { addr, value: (r.r_addend + bias as i64) as i64 as u64 })
        } else {
            rest
        }
    }
}

/// The linker's relocations can be applied within the machine's integers.
pub open spec fn linker_relas_fit(relas: Seq<Rela>, bias: u64) -> bool {
    forall|i: int|
        0 <= i < relas.len() ==> {
            let t = spec_r_type(#[trigger] relas[i].r_info);
            (t == R_X86_64_DTPMOD64 ==> relas[i].r_offset + bias <= u64::MAX) && (t
                == R_X86_64_RELATIVE ==> rela_fits(relas[i], bias))
        }
}

/// Whether the linker's relocations can be applied.
pub fn check_linker_relas_fit(relas: &[Rela], bias: u64) -> (r: bool)
    ensures
        r == linker_relas_fit(relas@, bias),
{
    let mut i: usize = 0;
    while i < relas.len()
        invariant
            i <= relas@.len(),
            forall|j: int|
                0 <= j < i ==> {
                    let t = spec_r_type(#[trigger] relas@[j].r_info);
                    (t == R_X86_64_DTPMOD64 ==> relas@[j].r_offset + bias <= u64::MAX) && (t
                        == R_X86_64_RELATIVE ==> rela_fits(relas@[j], bias))
                },
        decreases relas@.len() - i,
    {
        let r = relas[i];
        let t = r_type(r.r_info);
        if (t == R_X86_64_DTPMOD64 || t == R_X86_64_RELATIVE) && r.r_offset > u64::MAX - bias {
            return false;
        }
        if t == R_X86_64_RELATIVE {
            let b = bias as i64;
            if (b > 0 && r.r_addend > i64::MAX - b) || (b < 0 && r.r_addend < i64::MIN - b) {
                return false;
            }
        }
        i = i + 1;
    }
    true
}

/// Relocates the linker, which only holds `R_X86_64_RELATIVE` and
/// `R_X86_64_DTPMOD64` relocations: the stores that do it.
pub fn relocate_linker(bias: u64, relas: &[Rela]) -> (r: Vec<Fixup>)
    requires
        linker_relas_fit(relas@, bias),
    ensures
        r@ == linker_fixups(relas@, bias),
{
    let mut out: Vec<Fixup> = Vec::new();
    let mut i: usize = 0;
    while i < relas.len()
        invariant
            i <= relas@.len(),
            linker_relas_fit(relas@, bias),
            out@ == linker_fixups(relas@.subrange(0, i as int), bias),
        decreases relas@.len() - i,
    {
        let rela = relas[i];
        proof {
            assert(relas@.subrange(0, i + 1).drop_last() =~= relas@.subrange(0, i as int));
            assert(relas@.subrange(0, i + 1).last() == relas@[i as int]);
        }
        let t = r_type(rela.r_info);
        if t == R_X86_64_DTPMOD64 {
            out.push(Fixup::Store { addr: rela.r_offset + bias, value: 0 });
        }
        if t == R_X86_64_RELATIVE {
            out.push(
                Fixup::Store {
                    addr: rela.r_offset + bias,
                    value: (rela.r_addend + bias as i64) as u64,
                },
            );
        }
        i = i + 1;
    }
    assert(relas@.subrange(0, relas@.len() as int) =~= relas@);
    out
}


/// The message when the linker cannot read its own ELF and program headers.
pub const BAD_IMAGE: &'static str = "<dryad> SEVERE: cannot read dryad's own headers; exiting\n";

/// The message when the linker's own image has no dynamic array.
pub const NO_DYNAMIC: &'static str = "<dryad> SEVERE: no dynamic array found for dryad; exiting\n";

/// The message when the linker's own relocation table cannot be read or
/// applied.
pub const BAD_RELOCATIONS: &'static str = "<dryad> SEVERE: cannot relocate dryad; exiting\n";

/// The message when the vdso the kernel mapped cannot be read.
pub const BAD_VDSO: &'static str = "<dryad> SEVERE: cannot read the vdso; exiting\n";

/// The program headers of the linker's own image, whose ELF header is at
/// `base`; `None` when the image does not hold them or their address
/// overflows.
pub open spec fn linker_phdrs(mem: MemImage, base: u64) -> Option<Seq<ProgramHeader>> {
    if !mem.holds(base as int, 64) {
        None
    } else {
        let off = base - mem.base;
        let phaddr = le_u64(mem.bytes@, off + 32) + base;
        let phnum = le_u16(mem.bytes@, off + 56);
        if phaddr > u64::MAX || !mem.holds(phaddr, 56 * phnum) {
            None
        } else {
            Some(phdrs_from(mem.bytes@, phaddr - mem.base, phnum as nat))
        }
    }
}

/// Why the linker cannot start from its image at `base` and the vdso at
/// `vdso_addr`; `None` when it can.
pub open spec fn linker_new_error(mem: MemImage, base: u64, vdso: MemImage, vdso_addr: u64) -> Option<
    &'static str,
> {
    match linker_phdrs(mem, base) {
        None => Some(BAD_IMAGE),
        Some(phdrs) => if !load_bias_fits(base, phdrs) {
            Some(BAD_IMAGE)
        } else {
            let bias = spec_load_bias(base, phdrs) as u64;
            match spec_dynamic_array(mem, bias, phdrs) {
                None => Some(NO_DYNAMIC),
                Some(dynamic) => if !relocations_locatable(dynamic, bias) {
                    Some(BAD_RELOCATIONS)
                } else {
                    match spec_relocations(mem, bias, dynamic) {
                        None => Some(BAD_RELOCATIONS),
                        Some(relas) => if !linker_relas_fit(relas, bias) {
                            Some(BAD_RELOCATIONS)
                        } else if spec_from_raw(vdso, vdso_addr) is Err {
                            Some(BAD_VDSO)
                        } else {
                            None
                        },
                    }
                },
            }
        },
    }
}

/// `c` is the configuration that `block` selects.
pub open spec fn config_of(block: KernelBlock, c: Config) -> bool {
    &&& c.bind_now == env_flag(block.env_view(), "LD_BIND_NOW".spec_bytes())
    &&& c.debug == debug_flag(block.env_view())
    &&& c.secure == (spec_getauxval(block.auxv@, AT_SECURE)->Ok_0 != 0)
    &&& c.verbose == env_flag(block.env_view(), "LD_VERBOSE".spec_bytes())
    &&& c.trace_loaded_objects == env_flag(
        block.env_view(),
        "LD_TRACE_LOADED_OBJECTS".spec_bytes(),
    )
    &&& strs_view(c.library_path@) == spec_library_path(block.env_view(), c.secure)
    &&& c.preload@.len() == 0
}


/// What the linker reads of its own image at `base` and of the vdso at
/// `vdso_addr`: its ELF header, program headers, load bias, dynamic array,
/// the stores that relocate it, and the vdso's object.
fn read_images(mem: &MemImage, base: u64, vdso: &MemImage, vdso_addr: u64) -> (r: Result<
    (Header, Vec<ProgramHeader>, u64, Vec<Dyn>, Vec<Fixup>, SharedObject),
    &'static str,
>)
    ensures
        match r {
            Err(e) => linker_new_error(*mem, base, *vdso, vdso_addr) == Some(e),
            Ok((ehdr, phdrs, load_bias, dynamic, fixups, vdso_so)) => {
                &&& linker_new_error(*mem, base, *vdso, vdso_addr) is None
                &&& header_from(mem.bytes@, base - mem.base, ehdr)
                &&& linker_phdrs(*mem, base) == Some(phdrs@)
                &&& load_bias == spec_load_bias(base, phdrs@)
                &&& spec_dynamic_array(*mem, load_bias, phdrs@) == Some(dynamic@)
                &&& fixups@ == linker_fixups(
                    spec_relocations(*mem, load_bias, dynamic@)->0,
                    load_bias,
                )
                &&& spec_from_raw(*vdso, vdso_addr) == Ok::<SharedObjectView, LoadError>(vdso_so@)
            },
        },
{
    let ehdr = match unsafe_as_header(mem, base) {
        Some(h) => h,
        None => {
            return Err(BAD_IMAGE);
        },
    };
    let addr = match ehdr.e_phoff.checked_add(base) {
        Some(a) => a,
        None => {
            return Err(BAD_IMAGE);
        },
    };
    let phdrs = match to_phdr_array(mem, addr, ehdr.e_phnum as usize) {
        Some(p) => p,
        None => {
            return Err(BAD_IMAGE);
        },
    };
    assert(linker_phdrs(*mem, base) == Some(phdrs@));
    if !check_load_bias(base, phdrs.as_slice()) {
        return Err(BAD_IMAGE);
    }
    let load_bias = compute_load_bias(base, phdrs.as_slice());
    let dynamic = match get_dynamic_array(mem, load_bias, phdrs.as_slice()) {
        Some(d) => d,
        None => {
            return Err(NO_DYNAMIC);
        },
    };
    if !check_relocations_locatable(dynamic.as_slice(), load_bias) {
        return Err(BAD_RELOCATIONS);
    }
    let relocations = match get_linker_relocations(mem, load_bias, dynamic.as_slice()) {
        Some(r) => r,
        None => {
            return Err(BAD_RELOCATIONS);
        },
    };
    if !check_linker_relas_fit(relocations.as_slice(), load_bias) {
        return Err(BAD_RELOCATIONS);
    }
    let fixups = relocate_linker(load_bias, relocations.as_slice());
    let vdso_so = match SharedObject::from_raw(vdso, vdso_addr) {
        Ok(so) => so,
        Err(_) => {
            return Err(BAD_VDSO);
        },
    };
    Ok((ehdr, phdrs, load_bias, dynamic, fixups, vdso_so))
}

/// Why the linker cannot start from its image at `base` and the vdso at
/// `vdso_addr`, or `None` when it can: what `Linker::new` would answer,
/// asked without a configuration.
pub fn startup_error(mem: &MemImage, base: u64, vdso: &MemImage, vdso_addr: u64) -> (r: Option<
    &'static str,
>)
    ensures
        r == linker_new_error(*mem, base, *vdso, vdso_addr),
{
    match read_images(mem, base, vdso, vdso_addr) {
        Ok(_) => None,
        Err(e) => Some(e),
    }
}

impl Linker {
    /// Starts the linker whose own image, ELF header first, is at `base`:
    /// reads its program headers and dynamic array, computes the stores that
    /// relocate it (returned beside the linker, to be applied before
    /// anything else), reads the vdso the kernel mapped, and puts it first
    /// in the working set and the search order. `AT_SECURE` is read only
    /// once all of that has succeeded, to make the configuration: it must be
    /// in the auxiliary vector unless the linker stops with an error before.
    #[verifier::spinoff_prover]
    #[verifier::rlimit(50)]
    pub fn new(mem: &MemImage, base: u64, block: &KernelBlock, vdso: &MemImage) -> (r: Result<
        (Linker, Vec<Fixup>),
        &'static str,
    >)
        requires
            spec_getauxval(block.auxv@, AT_SYSINFO_EHDR) is Ok,
            spec_getauxval(block.auxv@, AT_SECURE) is Ok || linker_new_error(
                *mem,
                base,
                *vdso,
                spec_getauxval(block.auxv@, AT_SYSINFO_EHDR)->Ok_0,
            ) is Some,
        ensures
            ({
                let vdso_addr = spec_getauxval(block.auxv@, AT_SYSINFO_EHDR)->Ok_0;
                match r {
                    Err(e) => linker_new_error(*mem, base, *vdso, vdso_addr) == Some(e),
                    Ok((l, fixups)) => {
                        &&& linker_new_error(*mem, base, *vdso, vdso_addr) is None
                        &&& l.base == base
                        &&& header_from(mem.bytes@, base - mem.base, l.ehdr)
                        &&& linker_phdrs(*mem, base) == Some(l.phdrs@)
                        &&& l.load_bias == spec_load_bias(base, l.phdrs@)
                        &&& spec_dynamic_array(*mem, l.load_bias, l.phdrs@) == Some(l.dynamic@)
                        &&& fixups@ == linker_fixups(
                            spec_relocations(*mem, l.load_bias, l.dynamic@)->0,
                            l.load_bias,
                        )
                        &&& config_of(*block, l.config)
                        &&& l.working_set@.len() == 1
                        &&& spec_from_raw(*vdso, vdso_addr) == Ok::<SharedObjectView, LoadError>(
                            l.working_set@[0].1@,
                        )
                        &&& l.working_set@[0].0@ == l.working_set@[0].1@.name
                        &&& strs_view(l.link_map_order@) == seq![l.working_set@[0].1@.name]
                        &&& l.link_map@.len() == 0
                    },
                }
            }),
    {
        let vdso_addr = match block.getauxval(AT_SYSINFO_EHDR) {
            Ok(a) => a,
            Err(_) => {
                return Err(BAD_VDSO);
            },
        };
        let (ehdr, phdrs, load_bias, dynamic, fixups, vdso_so) = match read_images(
            mem,
            base,
            vdso,
            vdso_addr,
        ) {
            Ok(parts) => parts,
            Err(e) => {
                return Err(e);
            },
        };
        let mut link_map_order: Vec<Vec<u8>> = Vec::new();
        push_name(&mut link_map_order, vdso_so.name.as_slice());
        assert(strs_view(link_map_order@) =~= seq![vdso_so@.name]);
        let key = copy_bytes(vdso_so.name.as_slice());
        let mut working_set: Vec<(Vec<u8>, SharedObject)> = Vec::new();
        working_set.push((key, vdso_so));
        assert(linker_new_error(*mem, base, *vdso, vdso_addr) is None);
        let config = Config::new(block);
        let linker = Linker {
            base,
            load_bias,
            ehdr,
            phdrs,
            dynamic,
            config,
            working_set,
            link_map_order,
            link_map: Vec::new(),
        };
        Ok((linker, fixups))
    }
}
} // verus!
