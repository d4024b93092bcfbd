//! The steps of loading a shared library from its file, in their order, and
//! what each one decides: the caller reads the file and maps it between the
//! steps, as each step says, and stops at the first failure.
//!
//! 1. `locate_dynamic` says where the dynamic array is in the file;
//!    `parse_dynamic` reads it from the mapped bytes.
//! 2. `string_tables` reads the string table, mapped from the file at
//!    `strtab` for `strsz` bytes, and the needed libraries; it says how many
//!    symbols to read from `symtab` for `strtab - symtab` bytes, and
//!    `read_symbols` reads them.
//! 3. `reservation` says how much address space to reserve, and `place`
//!    where the library then lies.
//! 4. `plan_mapping` says which segments to map where.
//! 5. `finish_library` reads the relocation tables from the mapped image and
//!    builds the object.
//!
//! `start_loading` and `advance` run these steps in that order: each call
//! takes what the caller read or reserved and says what to do next.
use vstd::prelude::*;
use vstd::string::StringSliceAdditionalSpecFns;
use crate::memory::MemImage;
use crate::utils::push_bytes;
use crate::kernel_block::strs_view;
use crate::binary::elf::program_header::{ProgramHeader, PT_DYNAMIC, first_of_type};
use crate::binary::elf::dynamic::{Dyn, needed_readable, needed_names, get_needed};
use crate::binary::elf::sym::{Sym, SIZEOF_SYM, syms_from, get_symtab};
use crate::binary::elf::rela::{self, rela_count, relas_from};
use crate::binary::elf::strtab::Strtab;
use crate::binary::elf::image::{
    LinkInfo, SharedObject, spec_link_info, bias_fits, check_needed_readable,
};
use crate::binary::elf::loader::{
    SegmentMap, spec_dyns_until_null, dyns_until_null, dynamic_fragment, load_size_fits,
    max_load_end,
    check_load_size, compute_load_size, reserved_range, segments_fit, segment_maps,
    check_segments_fit, plan_segments, spec_loaded_object, loaded_object,
};

verus! {

/// Why a library could not be loaded from its file.
#[derive(Clone, Copy, Debug, PartialEq, Eq)]
pub enum LoadFailure {
    /// The file has no `PT_DYNAMIC` segment.
    NoDynamicSection,
    /// The dynamic segment holds no `DT_NULL` entry.
    NoDynamicEnd,
    /// The string table could not be read.
    UnreadableStrtab,
    /// A `DT_NEEDED` entry names no string of the string table.
    BadNeededName,
    /// The string table comes before the symbol table.
    StrtabBeforeSymtab,
    /// The symbol table could not be read.
    UnreadableSymtab,
    /// The segments do not fit in the address space.
    TooLarge,
    /// The reserved address space, or a segment in it, ends past 64 bits.
    AddressOverflow,
    /// A relocation table could not be read from the mapped image.
    UnreadableRelocations,
}

/// What the loader writes when it stops with `f` on the library `name`.
pub open spec fn failure_message(f: LoadFailure, name: Seq<u8>) -> Seq<u8> {
    (match f {
        LoadFailure::NoDynamicSection => "<dryad> No dynamic section for ".spec_bytes(),
        LoadFailure::NoDynamicEnd => "<dryad> No DT_NULL in the dynamic section of ".spec_bytes(),
        LoadFailure::UnreadableStrtab => "<dryad> unreadable string table in ".spec_bytes(),
        LoadFailure::BadNeededName => "<dryad> bad DT_NEEDED name in ".spec_bytes(),
        LoadFailure::StrtabBeforeSymtab => "<dryad> string table before symbol table in ".spec_bytes(),
        LoadFailure::UnreadableSymtab => "<dryad> unreadable symbol table in ".spec_bytes(),
        LoadFailure::TooLarge => "<dryad> segments do not fit in the address space: ".spec_bytes(),
        LoadFailure::AddressOverflow => "<dryad> addresses overflow in ".spec_bytes(),
        LoadFailure::UnreadableRelocations => "<dryad> unreadable relocations in ".spec_bytes(),
    }) + name
}

impl LoadFailure {
    /// The message the loader writes when it stops with this failure on the
    /// library `name`.
    pub fn text(&self, name: &[u8]) -> (r: Vec<u8>)
        ensures
            r@ == failure_message(*self, name@),
    {
        let mut out: Vec<u8> = Vec::new();
        match self {
            LoadFailure::NoDynamicSection => push_bytes(
                &mut out,
                "<dryad> No dynamic section for ".as_bytes(),
            ),
            LoadFailure::NoDynamicEnd => push_bytes(
                &mut out,
                "<dryad> No DT_NULL in the dynamic section of ".as_bytes(),
            ),
            LoadFailure::UnreadableStrtab => push_bytes(
                &mut out,
                "<dryad> unreadable string table in ".as_bytes(),
            ),
            LoadFailure::BadNeededName => push_bytes(
                &mut out,
                "<dryad> bad DT_NEEDED name in ".as_bytes(),
            ),
            LoadFailure::StrtabBeforeSymtab => push_bytes(
                &mut out,
                "<dryad> string table before symbol table in ".as_bytes(),
            ),
            LoadFailure::UnreadableSymtab => push_bytes(
                &mut out,
                "<dryad> unreadable symbol table in ".as_bytes(),
            ),
            LoadFailure::TooLarge => push_bytes(
                &mut out,
                "<dryad> segments do not fit in the address space: ".as_bytes(),
            ),
            LoadFailure::AddressOverflow => push_bytes(
                &mut out,
                "<dryad> addresses overflow in ".as_bytes(),
            ),
            LoadFailure::UnreadableRelocations => push_bytes(
                &mut out,
                "<dryad> unreadable relocations in ".as_bytes(),
            ),
        }
        push_bytes(&mut out, name);
        out
    }
}

/// Where the file holds the dynamic array: the offset and size of the first
/// `PT_DYNAMIC` segment.
pub fn locate_dynamic(phdrs: &[ProgramHeader]) -> (r: Result<(u64, u64), LoadFailure>)
    ensures
        match r {
            Ok((off, size)) => first_of_type(phdrs@, PT_DYNAMIC) matches Some(i) && off
                == phdrs@[i].p_offset && size == phdrs@[i].p_filesz,
            Err(e) => first_of_type(phdrs@, PT_DYNAMIC) is None && e
                == LoadFailure::NoDynamicSection,
        },
{
    match dynamic_fragment(phdrs) {
        Some(f) => Ok(f),
        None => Err(LoadFailure::NoDynamicSection),
    }
}

/// Reads the dynamic array from the bytes of the mapped `PT_DYNAMIC`
/// segment, up to and with its `DT_NULL`, and gathers its information
/// without a bias.
pub fn parse_dynamic(bytes: &[u8]) -> (r: Result<(Vec<Dyn>, LinkInfo), LoadFailure>)
    ensures
        match r {
            Ok((d, info)) => spec_dyns_until_null(bytes@) == Some(d@) && info == spec_link_info(
                d@,
                0,
            ),
            Err(e) => spec_dyns_until_null(bytes@) is None && e == LoadFailure::NoDynamicEnd,
        },
{
    match dyns_until_null(bytes) {
        Some(d) => {
            assert(bias_fits(d@, 0));
            let info = LinkInfo::new(d.as_slice(), 0);
            Ok((d, info))
        },
        None => Err(LoadFailure::NoDynamicEnd),
    }
}

/// The symbol table's extent can be computed: it ends where the string
/// table starts.
pub open spec fn symtab_extent_ok(info: LinkInfo) -> bool {
    info.symtab <= info.strtab && info.strtab - info.symtab <= usize::MAX
}

/// Reads the string table, mapped at `strtab_mem.base`, of the library
/// whose dynamic array `dynamic` gave `info`, and the libraries it needs;
/// then checks that the symbol table's extent, `strtab - symtab` bytes from
/// `symtab`, can be mapped, and gives the number of symbols in it.
pub fn string_tables(dynamic: &[Dyn], info: &LinkInfo, strtab_mem: &MemImage) -> (r: Result<
    (Strtab, Vec<Vec<u8>>, usize),
    LoadFailure,
>)
    ensures
        match r {
            Ok((t, needed, count)) => {
                &&& strtab_mem.holds(strtab_mem.base as int, info.strsz as int)
                &&& t.bytes@ == strtab_mem.range(strtab_mem.base as int, info.strsz as int)
                &&& needed_readable(dynamic@, t.bytes@)
                &&& strs_view(needed@) == needed_names(dynamic@, t.bytes@)
                &&& symtab_extent_ok(*info)
                &&& count == (info.strtab - info.symtab) / (SIZEOF_SYM as int)
            },
            Err(e) => match e {
                LoadFailure::UnreadableStrtab => !strtab_mem.holds(
                    strtab_mem.base as int,
                    info.strsz as int,
                ),
                LoadFailure::BadNeededName => strtab_mem.holds(
                    strtab_mem.base as int,
                    info.strsz as int,
                ) && !needed_readable(
                    dynamic@,
                    strtab_mem.range(strtab_mem.base as int, info.strsz as int),
                ),
                LoadFailure::StrtabBeforeSymtab => strtab_mem.holds(
                    strtab_mem.base as int,
                    info.strsz as int,
                ) && needed_readable(
                    dynamic@,
                    strtab_mem.range(strtab_mem.base as int, info.strsz as int),
                ) && !symtab_extent_ok(*info),
                _ => false,
            },
        },
{
    let t = match Strtab::new(strtab_mem, strtab_mem.base, info.strsz) {
        Some(t) => t,
        None => {
            return Err(LoadFailure::UnreadableStrtab);
        },
    };
    if !check_needed_readable(dynamic, t.bytes.as_slice()) {
        return Err(LoadFailure::BadNeededName);
    }
    let needed = get_needed(dynamic, &t, info.needed_count);
    assert(strs_view(needed@) =~= needed_names(dynamic@, t.bytes@));
    if info.strtab < info.symtab || info.strtab - info.symtab > usize::MAX as u64 {
        return Err(LoadFailure::StrtabBeforeSymtab);
    }
    let count = ((info.strtab - info.symtab) / (SIZEOF_SYM as u64)) as usize;
    Ok((t, needed, count))
}

/// Reads the `count` symbols of the symbol table mapped at
/// `symtab_mem.base`.
pub fn read_symbols(symtab_mem: &MemImage, count: usize) -> (r: Result<Vec<Sym>, LoadFailure>)
    ensures
        match r {
            Ok(s) => symtab_mem.holds(symtab_mem.base as int, 24 * count) && s@ == syms_from(
                symtab_mem.bytes@,
                0,
                count as nat,
            ),
            Err(e) => !symtab_mem.holds(symtab_mem.base as int, 24 * count) && e
                == LoadFailure::UnreadableSymtab,
        },
{
    match get_symtab(symtab_mem, symtab_mem.base, count) {
        Some(s) => Ok(s),
        None => Err(LoadFailure::UnreadableSymtab),
    }
}

/// How much address space the `PT_LOAD` segments of `phdrs` need, their
/// lowest address and their end; `TooLarge` when that cannot be computed.
pub fn reservation(phdrs: &[ProgramHeader]) -> (r: Result<(usize, u64, u64), LoadFailure>)
    ensures
        match r {
            Ok((size, min_vaddr, max_vaddr)) => {
                &&& load_size_fits(phdrs@)
                &&& min_vaddr == 0
                &&& max_vaddr == (max_load_end(phdrs@) + 4095) - (max_load_end(phdrs@) + 4095)
                    % 4096
                &&& size == max_vaddr - min_vaddr
            },
            Err(e) => !load_size_fits(phdrs@) && e == LoadFailure::TooLarge,
        },
{
    if !check_load_size(phdrs) {
        return Err(LoadFailure::TooLarge);
    }
    Ok(compute_load_size(phdrs))
}

/// Where the library lies once `size` bytes of address space were reserved
/// at `start` for segments whose lowest address is `min_vaddr`: the start,
/// the load bias and the end.
pub fn place(start: u64, min_vaddr: u64, size: usize) -> (r: Result<(u64, u64, u64), LoadFailure>)
    ensures
        match r {
            Ok(p) => min_vaddr <= start && start + size <= u64::MAX && p == (
                start,
                (start - min_vaddr) as u64,
                (start + size) as u64,
            ),
            Err(e) => (start < min_vaddr || start + size > u64::MAX) && e
                == LoadFailure::AddressOverflow,
        },
{
    if start < min_vaddr || start > u64::MAX - size as u64 {
        return Err(LoadFailure::AddressOverflow);
    }
    Ok(reserved_range(start, min_vaddr, size))
}

/// The file mappings that put the `PT_LOAD` segments of `phdrs` at
/// `load_bias`.
pub fn plan_mapping(phdrs: &[ProgramHeader], load_bias: u64) -> (r: Result<
    Vec<SegmentMap>,
    LoadFailure,
>)
    ensures
        match r {
            Ok(m) => segments_fit(phdrs@, load_bias) && m@ == segment_maps(phdrs@, load_bias),
            Err(e) => !segments_fit(phdrs@, load_bias) && e == LoadFailure::AddressOverflow,
        },
{
    if !check_segments_fit(phdrs, load_bias) {
        return Err(LoadFailure::AddressOverflow);
    }
    Ok(plan_segments(phdrs, load_bias))
}

/// The relocation tables can be located in the library loaded at
/// `load_bias`, and its GOT and hash table addresses fit.
pub open spec fn tables_fit(info: LinkInfo, load_bias: u64) -> bool {
    &&& info.rela + load_bias <= u64::MAX
    &&& info.jmprel + load_bias <= u64::MAX
    &&& info.pltgot + load_bias <= u64::MAX
    &&& info.gnu_hash + load_bias <= u64::MAX
}

/// The `.rela.dyn` and `.rela.plt` tables of the library loaded at
/// `load_bias` can be read from `image`.
pub open spec fn relocations_held(image: MemImage, info: LinkInfo, load_bias: u64) -> bool {
    &&& image.holds(
        info.rela + load_bias,
        24 * rela_count(info.relasz as usize as u64, info.relaent as usize as u64),
    )
    &&& image.holds(info.jmprel + load_bias, 24 * (info.pltrelsz as usize / 24))
}

/// Reads the relocation tables of the library `name`, loaded at `load_bias`
/// into `[start, end)`, from `image`, the copy of that range once its
/// segments are mapped, and builds its object from what the earlier steps
/// read.
pub fn finish_library(
    name: &[u8],
    load_bias: u64,
    start: u64,
    end: u64,
    image: &MemImage,
    phdrs: Vec<ProgramHeader>,
    dynamic: Vec<Dyn>,
    info: &LinkInfo,
    strtab: Strtab,
    needed: Vec<Vec<u8>>,
    symtab: Vec<Sym>,
) -> (r: Result<SharedObject, LoadFailure>)
    ensures
        match r {
            Ok(so) => {
                &&& tables_fit(*info, load_bias)
                &&& relocations_held(*image, *info, load_bias)
                &&& so@ == spec_loaded_object(
                    name@,
                    load_bias,
                    start,
                    end,
                    strs_view(needed@),
                    phdrs@,
                    dynamic@,
                    strtab.bytes@,
                    symtab@,
                    relas_from(
                        image.bytes@,
                        info.rela + load_bias - image.base,
                        rela_count(info.relasz as usize as u64, info.relaent as usize as u64)
                            as nat,
                    ),
                    relas_from(
                        image.bytes@,
                        info.jmprel + load_bias - image.base,
                        (info.pltrelsz as usize / 24) as nat,
                    ),
                    *info,
                )
            },
            Err(e) => match e {
                LoadFailure::AddressOverflow => !tables_fit(*info, load_bias),
                LoadFailure::UnreadableRelocations => tables_fit(*info, load_bias)
                    && !relocations_held(*image, *info, load_bias),
                _ => false,
            },
        },
{
    if info.rela > u64::MAX - load_bias || info.jmprel > u64::MAX - load_bias || info.pltgot
        > u64::MAX - load_bias || info.gnu_hash > u64::MAX - load_bias {
        return Err(LoadFailure::AddressOverflow);
    }
    let relatab = match rela::get(
        image,
        info.rela + load_bias,
        info.relasz as usize,
        info.relaent as usize,
        info.relacount as usize,
    ) {
        Some(t) => t,
        None => {
            return Err(LoadFailure::UnreadableRelocations);
        },
    };
    let pltrelatab = match rela::get_plt(image, info.jmprel + load_bias, info.pltrelsz as usize) {
        Some(t) => t,
        None => {
            return Err(LoadFailure::UnreadableRelocations);
        },
    };
    Ok(
        loaded_object(
            name,
            load_bias,
            start,
            end,
            needed,
            phdrs,
            dynamic,
            strtab,
            symtab,
            relatab,
            pltrelatab,
            info,
        ),
    )
}

/// Where the loading of a library stands between two steps, with what the
/// steps before read.
pub enum LoadStage {
    /// Waiting for the bytes of the `PT_DYNAMIC` segment.
    AwaitDynamic { phdrs: Vec<ProgramHeader> },
    /// Waiting for the bytes of the string table.
    AwaitStrtab { phdrs: Vec<ProgramHeader>, dynamic: Vec<Dyn>, info: LinkInfo },
    /// Waiting for the bytes of the symbol table, which holds `count`
    /// symbols.
    AwaitSymtab {
        phdrs: Vec<ProgramHeader>,
        dynamic: Vec<Dyn>,
        info: LinkInfo,
        strtab: Strtab,
        needed: Vec<Vec<u8>>,
        count: usize,
    },
    /// Waiting for the start of `size` bytes of reserved address space, for
    /// segments whose lowest address is `min_vaddr`.
    AwaitReservation {
        phdrs: Vec<ProgramHeader>,
        dynamic: Vec<Dyn>,
        info: LinkInfo,
        strtab: Strtab,
        needed: Vec<Vec<u8>>,
        symtab: Vec<Sym>,
        size: usize,
        min_vaddr: u64,
    },
    /// Waiting for a copy of `[start, end)` once the segments are mapped at
    /// `load_bias`.
    AwaitImage {
        phdrs: Vec<ProgramHeader>,
        dynamic: Vec<Dyn>,
        info: LinkInfo,
        strtab: Strtab,
        needed: Vec<Vec<u8>>,
        symtab: Vec<Sym>,
        load_bias: u64,
        start: u64,
        end: u64,
    },
    /// The library was built, or loading it failed.
    Over,
}

/// What the caller hands back to the loading steps.
pub enum LoadEvent {
    /// The bytes asked for, as mapped from the file or the loaded image.
    Bytes(MemImage),
    /// Where the address space asked for was reserved.
    Reserved(u64),
}

/// What the loading steps ask of the caller next.
pub enum LoadRequest {
    /// Map `size` bytes of the file from `offset` and hand them back.
    ReadFile { offset: u64, size: usize },
    /// Reserve `size` bytes of address space and hand back where.
    Reserve { size: usize },
    /// Map each of `maps` from the file at its fixed address, then hand back a
    /// copy of `[start, end)`.
    MapSegments { maps: Vec<SegmentMap>, start: u64, end: u64 },
    /// The library is loaded.
    Done(SharedObject),
    /// Loading the library failed.
    Failed(LoadFailure),
}

/// `event` is what `stage` waits for.
pub open spec fn awaits(stage: LoadStage, event: LoadEvent) -> bool {
    match stage {
        LoadStage::AwaitReservation { .. } => event is Reserved,
        LoadStage::Over => false,
        _ => event is Bytes,
    }
}

/// `req` asks for what `stage` waits for: bytes of the file or of the image,
/// or reserved address space; a finished or failed load ends in `Over`.
pub open spec fn asks_for(stage: LoadStage, req: LoadRequest) -> bool {
    match req {
        LoadRequest::ReadFile { .. } => stage is AwaitDynamic || stage is AwaitStrtab
            || stage is AwaitSymtab,
        LoadRequest::MapSegments { .. } => stage is AwaitImage,
        LoadRequest::Reserve { .. } => stage is AwaitReservation,
        _ => stage is Over,
    }
}

/// Whether `stage` waits for `event`.
pub fn waits_for(stage: &LoadStage, event: &LoadEvent) -> (b: bool)
    ensures
        b == awaits(*stage, *event),
{
    match stage {
        LoadStage::AwaitReservation { .. } => matches!(event, LoadEvent::Reserved(_)),
        LoadStage::Over => false,
        _ => matches!(event, LoadEvent::Bytes(_)),
    }
}

/// The first step of loading a library whose program headers are `phdrs`.
pub open spec fn started(phdrs: Seq<ProgramHeader>, next: LoadStage, req: LoadRequest) -> bool {
    match first_of_type(phdrs, PT_DYNAMIC) {
        Some(i) => next matches LoadStage::AwaitDynamic { phdrs: p } && p@ == phdrs && req
            == (LoadRequest::ReadFile {
            offset: phdrs[i].p_offset,
            size: phdrs[i].p_filesz as usize,
        }),
        None => next is Over && req == LoadRequest::Failed(LoadFailure::NoDynamicSection),
    }
}

/// Loading stopped with the failure `e`.
pub open spec fn failed_with(next: LoadStage, req: LoadRequest, e: LoadFailure) -> bool {
    next is Over && req == LoadRequest::Failed(e)
}

/// The step from `AwaitDynamic` on the bytes `mem`.
pub open spec fn dynamic_step(
    phdrs: Vec<ProgramHeader>,
    mem: MemImage,
    next: LoadStage,
    req: LoadRequest,
) -> bool {
    match spec_dyns_until_null(mem.bytes@) {
        None => failed_with(next, req, LoadFailure::NoDynamicEnd),
        Some(ds) => next matches LoadStage::AwaitStrtab { phdrs: p, dynamic: d, info } && p
            == phdrs && d@ == ds && info == spec_link_info(ds, 0) && req
            == (LoadRequest::ReadFile { offset: info.strtab, size: info.strsz }),
    }
}

/// The step from `AwaitStrtab` on the bytes `mem`.
pub open spec fn strtab_step(
    phdrs: Vec<ProgramHeader>,
    dynamic: Vec<Dyn>,
    info: LinkInfo,
    mem: MemImage,
    next: LoadStage,
    req: LoadRequest,
) -> bool {
    let held = mem.holds(mem.base as int, info.strsz as int);
    let bytes = mem.range(mem.base as int, info.strsz as int);
    if !held {
        failed_with(next, req, LoadFailure::UnreadableStrtab)
    } else if !needed_readable(dynamic@, bytes) {
        failed_with(next, req, LoadFailure::BadNeededName)
    } else if !symtab_extent_ok(info) {
        failed_with(next, req, LoadFailure::StrtabBeforeSymtab)
    } else {
        &&& next matches LoadStage::AwaitSymtab {
            phdrs: p,
            dynamic: d,
            info: i,
            strtab: t,
            needed: n,
            count: c,
        } && p == phdrs && d == dynamic && i == info && t.bytes@ == bytes && strs_view(n@)
            == needed_names(dynamic@, bytes) && c == (info.strtab - info.symtab) / (
        SIZEOF_SYM as int)
        &&& req == (LoadRequest::ReadFile {
            offset: info.symtab,
            size: (info.strtab - info.symtab) as usize,
        })
    }
}

/// The step from `AwaitSymtab` on the bytes `mem`.
pub open spec fn symtab_step(
    phdrs: Vec<ProgramHeader>,
    dynamic: Vec<Dyn>,
    info: LinkInfo,
    strtab: Strtab,
    needed: Vec<Vec<u8>>,
    count: usize,
    mem: MemImage,
    next: LoadStage,
    req: LoadRequest,
) -> bool {
    let max_vaddr = (max_load_end(phdrs@) + 4095) - (max_load_end(phdrs@) + 4095) % 4096;
    if !mem.holds(mem.base as int, 24 * count) {
        failed_with(next, req, LoadFailure::UnreadableSymtab)
    } else if !load_size_fits(phdrs@) {
        failed_with(next, req, LoadFailure::TooLarge)
    } else {
        &&& next matches LoadStage::AwaitReservation {
            phdrs: p,
            dynamic: d,
            info: i,
            strtab: t,
            needed: n,
            symtab: s,
            size: z,
            min_vaddr: m,
        } && p == phdrs && d == dynamic && i == info && t == strtab && n == needed && s@
            == syms_from(mem.bytes@, 0, count as nat) && m == 0 && z == max_vaddr
        &&& req == (LoadRequest::Reserve { size: max_vaddr as usize })
    }
}

/// The step from `AwaitReservation` on the reserved address `addr`.
pub open spec fn reservation_step(
    phdrs: Vec<ProgramHeader>,
    dynamic: Vec<Dyn>,
    info: LinkInfo,
    strtab: Strtab,
    needed: Vec<Vec<u8>>,
    symtab: Vec<Sym>,
    size: usize,
    min_vaddr: u64,
    addr: u64,
    next: LoadStage,
    req: LoadRequest,
) -> bool {
    let load_bias = (addr - min_vaddr) as u64;
    if addr < min_vaddr || addr + size > u64::MAX || !segments_fit(phdrs@, load_bias) {
        failed_with(next, req, LoadFailure::AddressOverflow)
    } else {
        &&& next matches LoadStage::AwaitImage {
            phdrs: p,
            dynamic: d,
            info: i,
            strtab: t,
            needed: n,
            symtab: s,
            load_bias: b,
            start: st,
            end: e,
        } && p == phdrs && d == dynamic && i == info && t == strtab && n == needed && s
            == symtab && b == load_bias && st == addr && e == addr + size
        &&& req matches LoadRequest::MapSegments { maps, start, end } && maps@ == segment_maps(
            phdrs@,
            load_bias,
        ) && start == addr && end == addr + size
    }
}

/// The step from `AwaitImage` on `image`, the copy of the loaded range.
pub open spec fn image_step(
    name: Seq<u8>,
    phdrs: Vec<ProgramHeader>,
    dynamic: Vec<Dyn>,
    info: LinkInfo,
    strtab: Strtab,
    needed: Vec<Vec<u8>>,
    symtab: Vec<Sym>,
    load_bias: u64,
    start: u64,
    end: u64,
    image: MemImage,
    next: LoadStage,
    req: LoadRequest,
) -> bool {
    if !tables_fit(info, load_bias) {
        failed_with(next, req, LoadFailure::AddressOverflow)
    } else if !relocations_held(image, info, load_bias) {
        failed_with(next, req, LoadFailure::UnreadableRelocations)
    } else {
        &&& next is Over
        &&& req matches LoadRequest::Done(so) && so@ == spec_loaded_object(
            name,
            load_bias,
            start,
            end,
            strs_view(needed@),
            phdrs@,
            dynamic@,
            strtab.bytes@,
            symtab@,
            relas_from(
                image.bytes@,
                info.rela + load_bias - image.base,
                rela_count(info.relasz as usize as u64, info.relaent as usize as u64) as nat,
            ),
            relas_from(
                image.bytes@,
                info.jmprel + load_bias - image.base,
                (info.pltrelsz as usize / 24) as nat,
            ),
            info,
        )
    }
}

/// The step that loading the library `name` takes from `stage` on `event`.
pub open spec fn advanced(
    stage: LoadStage,
    name: Seq<u8>,
    event: LoadEvent,
    next: LoadStage,
    req: LoadRequest,
) -> bool {
    match (stage, event) {
        (LoadStage::AwaitDynamic { phdrs }, LoadEvent::Bytes(mem)) => dynamic_step(
            phdrs,
            mem,
            next,
            req,
        ),
        (LoadStage::AwaitStrtab { phdrs, dynamic, info }, LoadEvent::Bytes(mem)) => strtab_step(
            phdrs,
            dynamic,
            info,
            mem,
            next,
            req,
        ),
        (
            LoadStage::AwaitSymtab { phdrs, dynamic, info, strtab, needed, count },
            LoadEvent::Bytes(mem),
        ) => symtab_step(phdrs, dynamic, info, strtab, needed, count, mem, next, req),
        (
            LoadStage::AwaitReservation {
                phdrs,
                dynamic,
                info,
                strtab,
                needed,
                symtab,
                size,
                min_vaddr,
            },
            LoadEvent::Reserved(addr),
        ) => reservation_step(
            phdrs,
            dynamic,
            info,
            strtab,
            needed,
            symtab,
            size,
            min_vaddr,
            addr,
            next,
            req,
        ),
        (
            LoadStage::AwaitImage {
                phdrs,
                dynamic,
                info,
                strtab,
                needed,
                symtab,
                load_bias,
                start,
                end,
            },
            LoadEvent::Bytes(image),
        ) => image_step(
            name,
            phdrs,
            dynamic,
            info,
            strtab,
            needed,
            symtab,
            load_bias,
            start,
            end,
            image,
            next,
            req,
        ),
        _ => false,
    }
}

/// Starts loading a library whose program headers are `phdrs`: asks for
/// its dynamic array.
pub fn start_loading(phdrs: Vec<ProgramHeader>) -> (r: (LoadStage, LoadRequest))
    ensures
        started(phdrs@, r.0, r.1),
        asks_for(r.0, r.1),
{
    match locate_dynamic(phdrs.as_slice()) {
        Ok((offset, size)) => (
            LoadStage::AwaitDynamic { phdrs },
            LoadRequest::ReadFile { offset, size: size as usize },
        ),
        Err(e) => (LoadStage::Over, LoadRequest::Failed(e)),
    }
}

/// Takes the next step of loading the library `name` from `stage`, on
/// `event`, what `stage` waits for: the stage that follows and what the
/// caller is to do next.
pub fn advance(stage: LoadStage, name: &[u8], event: LoadEvent) -> (r: (LoadStage, LoadRequest))
    requires
        awaits(stage, event),
    ensures
        advanced(stage, name@, event, r.0, r.1),
        asks_for(r.0, r.1),
{
    match (stage, event) {
        (LoadStage::AwaitDynamic { phdrs }, LoadEvent::Bytes(mem)) => {
            match parse_dynamic(mem.bytes.as_slice()) {
                Ok((dynamic, info)) => {
                    let req = LoadRequest::ReadFile { offset: info.strtab, size: info.strsz };
                    (LoadStage::AwaitStrtab { phdrs, dynamic, info }, req)
                },
                Err(e) => (LoadStage::Over, LoadRequest::Failed(e)),
            }
        },
        (LoadStage::AwaitStrtab { phdrs, dynamic, info }, LoadEvent::Bytes(mem)) => {
            match string_tables(dynamic.as_slice(), &info, &mem) {
                Ok((strtab, needed, count)) => {
                    let req = LoadRequest::ReadFile {
                        offset: info.symtab,
                        size: (info.strtab - info.symtab) as usize,
                    };
                    (LoadStage::AwaitSymtab { phdrs, dynamic, info, strtab, needed, count }, req)
                },
                Err(e) => (LoadStage::Over, LoadRequest::Failed(e)),
            }
        },
        (
            LoadStage::AwaitSymtab { phdrs, dynamic, info, strtab, needed, count },
            LoadEvent::Bytes(mem),
        ) => {
            let symtab = match read_symbols(&mem, count) {
                Ok(s) => s,
                Err(e) => {
                    return (LoadStage::Over, LoadRequest::Failed(e));
                },
            };
            match reservation(phdrs.as_slice()) {
                Ok((size, min_vaddr, _max_vaddr)) => (
                    LoadStage::AwaitReservation {
                        phdrs,
                        dynamic,
                        info,
                        strtab,
                        needed,
                        symtab,
                        size,
                        min_vaddr,
                    },
                    LoadRequest::Reserve { size },
                ),
                Err(e) => (LoadStage::Over, LoadRequest::Failed(e)),
            }
        },
        (
            LoadStage::AwaitReservation {
                phdrs,
                dynamic,
                info,
                strtab,
                needed,
                symtab,
                size,
                min_vaddr,
            },
            LoadEvent::Reserved(addr),
        ) => {
            let (start, load_bias, end) = match place(addr, min_vaddr, size) {
                Ok(p) => p,
                Err(e) => {
                    return (LoadStage::Over, LoadRequest::Failed(e));
                },
            };
            match plan_mapping(phdrs.as_slice(), load_bias) {
                Ok(maps) => (
                    LoadStage::AwaitImage {
                        phdrs,
                        dynamic,
                        info,
                        strtab,
                        needed,
                        symtab,
                        load_bias,
                        start,
                        end,
                    },
                    LoadRequest::MapSegments { maps, start, end },
                ),
                Err(e) => (LoadStage::Over, LoadRequest::Failed(e)),
            }
        },
        (
            LoadStage::AwaitImage {
                phdrs,
                dynamic,
                info,
                strtab,
                needed,
                symtab,
                load_bias,
                start,
                end,
            },
            LoadEvent::Bytes(image),
        ) => {
            match finish_library(
                name,
                load_bias,
                start,
                end,
                &image,
                phdrs,
                dynamic,
                &info,
                strtab,
                needed,
                symtab,
            ) {
                Ok(so) => (LoadStage::Over, LoadRequest::Done(so)),
                Err(e) => (LoadStage::Over, LoadRequest::Failed(e)),
            }
        },
        _ => vstd::pervasive::unreached(),
    }
}

} // verus!
