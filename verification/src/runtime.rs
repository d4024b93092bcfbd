use vstd::prelude::*;
use crate::binary::elf::image::{
    SharedObject, all_resolvable, spec_find_in, sym_name, find_in, sym_name_readable,
    check_str_defined,
};
use crate::binary::elf::rela::{spec_r_sym, r_sym};
use crate::binary::elf::gnu_hash::hash;
use crate::linker::relocation::check_all_resolvable;

verus! {

/// What the resolver is not told by the binary: a pointer to this structure
/// is placed in a binary's GOT[1], and handed back to the resolver with the
/// index of the PLT relocation to bind.
pub struct Rendezvous<'a> {
    /// The position of the requesting binary in the link map.
    pub idx: usize,
    pub link_map: &'a [SharedObject],
}

/// The PLT relocation `rela_idx` of the binary `idx` of `link_map` can be
/// looked up: it exists, and so does the symbol it names, whose name can be
/// read.
pub open spec fn resolvable_request(link_map: Seq<SharedObject>, idx: int, rela_idx: int) -> bool {
    &&& 0 <= idx < link_map.len()
    &&& 0 <= rela_idx < link_map[idx].pltrelatab@.len()
    &&& spec_r_sym(link_map[idx].pltrelatab@[rela_idx].r_info) < link_map[idx].symtab@.len()
    &&& sym_name_readable(
        &link_map[idx],
        spec_r_sym(link_map[idx].pltrelatab@[rela_idx].r_info) as int,
    )
    &&& all_resolvable(link_map)
}

/// The name of the symbol that the PLT relocation `rela_idx` of binary
/// `idx` refers to.
pub open spec fn requested_name(link_map: Seq<SharedObject>, idx: int, rela_idx: int) -> Seq<u8> {
    sym_name(
        &link_map[idx],
        spec_r_sym(link_map[idx].pltrelatab@[rela_idx].r_info) as int,
    )
}

/// The address a lazily bound call resolves to: the first definition of the
/// requested symbol in the link map, or `0xdeadbeef` when there is none.
pub open spec fn spec_resolve(link_map: Seq<SharedObject>, idx: int, rela_idx: int) -> usize {
    match spec_find_in(link_map, requested_name(link_map, idx, rela_idx)) {
        Some(a) => a as usize,
        None => 0xdeadbeef,
    }
}

/// Whether the PLT relocation `rela_idx` of the binary `idx` of `link_map`
/// can be looked up.
pub fn check_resolvable_request(link_map: &[SharedObject], idx: usize, rela_idx: usize) -> (r:
    bool)
    ensures
        r == resolvable_request(link_map@, idx as int, rela_idx as int),
{
    if idx >= link_map.len() {
        return false;
    }
    let so = &link_map[idx];
    if rela_idx >= so.pltrelatab.len() {
        return false;
    }
    let sym = r_sym(so.pltrelatab[rela_idx].r_info) as usize;
    if sym >= so.symtab.len() {
        return false;
    }
    if !check_str_defined(so.symtab[sym].st_name as usize, so.strtab.bytes.as_slice()) {
        return false;
    }
    check_all_resolvable(link_map)
}

/// Resolves the symbol that the PLT relocation `rela_idx` of the requesting
/// binary refers to, searching every object of the link map in order.
pub fn dryad_resolve_symbol(rndzv: &Rendezvous, rela_idx: usize) -> (r: usize)
    requires
        resolvable_request(rndzv.link_map@, rndzv.idx as int, rela_idx as int),
    ensures
        r == spec_resolve(rndzv.link_map@, rndzv.idx as int, rela_idx as int),
{
    let link_map = rndzv.link_map;
    let requesting_so = &link_map[rndzv.idx];
    let rela = &requesting_so.pltrelatab[rela_idx];
    let sym_idx = r_sym(rela.r_info) as usize;
    let requested_symbol = &requesting_so.symtab[sym_idx];
    let name = requesting_so.strtab.get(requested_symbol.st_name as usize);
    let h = hash(name.as_slice());
    match find_in(link_map, name.as_slice(), h) {
        Some(symbol) => symbol as usize,
        None => 0xdeadbeef,
    }
}

} // verus!
