use vstd::prelude::*;
use vstd::string::StringSliceAdditionalSpecFns;
use crate::utils::{field, push_field};
use crate::memory::{MemImage, bytes_eq, copy_range, le_u16, le_u64};
use crate::binary::elf::header::unsafe_as_header;
use crate::binary::elf::program_header::{
    ProgramHeader, PT_PHDR, phdrs_from, to_phdr_array, first_of_type, find_first_of_type,
};
use crate::binary::elf::strtab::{Strtab, get_str_defined, spec_get_str};
use crate::binary::elf::sym::{Sym, SHN_UNDEF, SIZEOF_SYM, syms_from, get_symtab};
use crate::binary::elf::rela;
use crate::binary::elf::rela::{Rela, rela_count, relas_from};
use crate::binary::elf::dynamic::{
    needed_readable, needed_names, get_needed, spec_dynamic_array, get_dynamic_array,
};
use crate::binary::elf::dynamic::{
    Dyn, DT_RELA, DT_RELASZ, DT_RELAENT, DT_RELACOUNT, DT_GNU_HASH, DT_HASH, DT_STRTAB,
    DT_STRSZ, DT_SYMTAB, DT_SYMENT, DT_PLTGOT, DT_PLTRELSZ, DT_PLTREL, DT_JMPREL, DT_VERNEED,
    DT_VERNEEDNUM, DT_VERSYM, DT_INIT, DT_FINI, DT_INIT_ARRAY, DT_INIT_ARRAYSZ, DT_FINI_ARRAY,
    DT_FINI_ARRAYSZ, DT_NEEDED, DT_FLAGS, DT_FLAGS_1, DT_SONAME, needed_count,
};

verus! {

/// Important dynamic LinkInfo generated via a single pass through the _DYNAMIC array
#[derive(Clone, Copy, Debug, PartialEq, Eq)]
pub struct LinkInfo {
    pub rela: u64,
    pub relasz: u64,
    pub relaent: u64,
    pub relacount: u64,
    pub gnu_hash: u64,
    pub hash: u64,
    pub strtab: u64,
    pub strsz: usize,
    pub symtab: u64,
    pub syment: u64,
    pub pltgot: u64,
    pub pltrelsz: u64,
    pub pltrel: u64,
    pub jmprel: u64,
    pub verneed: u64,
    pub verneednum: u64,
    pub versym: u64,
    pub init: u64,
    pub fini: u64,
    pub init_array: u64,
    pub init_arraysz: usize,
    pub fini_array: u64,
    pub fini_arraysz: usize,
    pub needed_count: usize,
    pub flags: u64,
    pub flags_1: u64,
    pub soname: usize,
}

/// The value of the last entry of `dyns` with tag `tag`, if any.
pub open spec fn last_val(dyns: Seq<Dyn>, tag: u64) -> Option<u64>
    decreases dyns.len(),
{
    if dyns.len() == 0 {
        None
    } else if dyns.last().d_tag == tag {
        Some(dyns.last().d_val)
    } else {
        last_val(dyns.drop_last(), tag)
    }
}

/// The last value given to `tag`, or 0 when no entry has that tag.
pub open spec fn val_or_zero(dyns: Seq<Dyn>, tag: u64) -> u64 {
    match last_val(dyns, tag) {
        Some(v) => v,
        None => 0,
    }
}

/// The last value given to `tag` plus `bias`, or 0 when no entry has that tag.
pub open spec fn addr_or_zero(dyns: Seq<Dyn>, tag: u64, bias: u64) -> u64 {
    match last_val(dyns, tag) {
        Some(v) => (v + bias) as u64,
        None => 0,
    }
}

/// The tags whose values are addresses, to which the load bias is added.
pub open spec fn is_address_tag(tag: u64) -> bool {
    tag == DT_RELA || tag == DT_GNU_HASH || tag == DT_HASH || tag == DT_STRTAB || tag
        == DT_SYMTAB || tag == DT_PLTGOT || tag == DT_JMPREL || tag == DT_VERNEED || tag
        == DT_VERSYM || tag == DT_INIT || tag == DT_FINI || tag == DT_INIT_ARRAY || tag
        == DT_FINI_ARRAY
}

/// Adding `bias` to every address entry of `dyns` stays within 64 bits.
pub open spec fn bias_fits(dyns: Seq<Dyn>, bias: u64) -> bool {
    forall|i: int|
        0 <= i < dyns.len() && is_address_tag(#[trigger] dyns[i].d_tag) ==> dyns[i].d_val + bias
            <= u64::MAX
}

/// What one pass through `dyns` learns: for each tag, the value of its last
/// entry (biased for addresses), 0 for a tag that does not occur, and the
/// number of `DT_NEEDED` entries.
pub open spec fn spec_link_info(dyns: Seq<Dyn>, bias: u64) -> LinkInfo {
    LinkInfo {
        rela: addr_or_zero(dyns, DT_RELA, bias),
        relasz: val_or_zero(dyns, DT_RELASZ),
        relaent: val_or_zero(dyns, DT_RELAENT),
        relacount: val_or_zero(dyns, DT_RELACOUNT),
        gnu_hash: addr_or_zero(dyns, DT_GNU_HASH, bias),
        hash: addr_or_zero(dyns, DT_HASH, bias),
        strtab: addr_or_zero(dyns, DT_STRTAB, bias),
        strsz: val_or_zero(dyns, DT_STRSZ) as usize,
        symtab: addr_or_zero(dyns, DT_SYMTAB, bias),
        syment: val_or_zero(dyns, DT_SYMENT),
        pltgot: addr_or_zero(dyns, DT_PLTGOT, bias),
        pltrelsz: val_or_zero(dyns, DT_PLTRELSZ),
        pltrel: val_or_zero(dyns, DT_PLTREL),
        jmprel: addr_or_zero(dyns, DT_JMPREL, bias),
        verneed: addr_or_zero(dyns, DT_VERNEED, bias),
        verneednum: val_or_zero(dyns, DT_VERNEEDNUM),
        versym: addr_or_zero(dyns, DT_VERSYM, bias),
        init: addr_or_zero(dyns, DT_INIT, bias),
        fini: addr_or_zero(dyns, DT_FINI, bias),
        init_array: addr_or_zero(dyns, DT_INIT_ARRAY, bias),
        init_arraysz: val_or_zero(dyns, DT_INIT_ARRAYSZ) as usize,
        fini_array: addr_or_zero(dyns, DT_FINI_ARRAY, bias),
        fini_arraysz: val_or_zero(dyns, DT_FINI_ARRAYSZ) as usize,
        needed_count: needed_count(dyns) as usize,
        flags: val_or_zero(dyns, DT_FLAGS),
        flags_1: val_or_zero(dyns, DT_FLAGS_1),
        soname: val_or_zero(dyns, DT_SONAME) as usize,
    }
}

proof fn lemma_last_val_push(s: Seq<Dyn>, d: Dyn, tag: u64)
    ensures
        last_val(s.push(d), tag) == if d.d_tag == tag {
            Some(d.d_val)
        } else {
            last_val(s, tag)
        },
{
    assert(s.push(d).drop_last() =~= s);
}

proof fn lemma_needed_count_bound(s: Seq<Dyn>)
    ensures
        needed_count(s) <= s.len(),
    decreases s.len(),
{
    if s.len() > 0 {
        lemma_needed_count_bound(s.drop_last());
    }
}

/// The tags whose entries `LinkInfo::new` reads.
pub open spec fn is_read_tag(tag: u64) -> bool {
    tag == DT_RELA || tag == DT_RELASZ || tag == DT_RELAENT || tag == DT_RELACOUNT || tag
        == DT_GNU_HASH || tag == DT_HASH || tag == DT_STRTAB || tag == DT_STRSZ || tag
        == DT_SYMTAB || tag == DT_SYMENT || tag == DT_PLTGOT || tag == DT_PLTRELSZ || tag
        == DT_PLTREL || tag == DT_JMPREL || tag == DT_VERNEED || tag == DT_VERNEEDNUM || tag
        == DT_VERSYM || tag == DT_INIT || tag == DT_FINI || tag == DT_INIT_ARRAY || tag
        == DT_INIT_ARRAYSZ || tag == DT_FINI_ARRAY || tag == DT_FINI_ARRAYSZ || tag == DT_NEEDED
        || tag == DT_FLAGS || tag == DT_FLAGS_1 || tag == DT_SONAME
}

proof fn lemma_last_val_insert(s: Seq<Dyn>, p: int, d: Dyn, tag: u64)
    requires
        0 <= p <= s.len(),
        d.d_tag != tag,
    ensures
        last_val(s.insert(p, d), tag) == last_val(s, tag),
    decreases s.len(),
{
    let t = s.insert(p, d);
    if p == s.len() {
        assert(t.drop_last() =~= s);
    } else {
        assert(t.last() == s.last());
        assert(t.drop_last() =~= s.drop_last().insert(p, d));
        lemma_last_val_insert(s.drop_last(), p, d, tag);
    }
}

proof fn lemma_needed_count_insert(s: Seq<Dyn>, p: int, d: Dyn)
    requires
        0 <= p <= s.len(),
        d.d_tag != DT_NEEDED,
    ensures
        needed_count(s.insert(p, d)) == needed_count(s),
    decreases s.len(),
{
    let t = s.insert(p, d);
    if p == s.len() {
        assert(t.drop_last() =~= s);
    } else {
        assert(t.last() == s.last());
        assert(t.drop_last() =~= s.drop_last().insert(p, d));
        lemma_needed_count_insert(s.drop_last(), p, d);
    }
}

/// An entry whose tag `LinkInfo::new` does not read (`DT_NULL`, `DT_DEBUG`,
/// `DT_RPATH`, ...) changes nothing of what it gathers, wherever it stands:
/// it neither ends the pass nor resets a field.
pub proof fn lemma_link_info_ignores_unread_tags(dyns: Seq<Dyn>, p: int, d: Dyn, bias: u64)
    requires
        0 <= p <= dyns.len(),
        !is_read_tag(d.d_tag),
    ensures
        spec_link_info(dyns.insert(p, d), bias) == spec_link_info(dyns, bias),
        bias_fits(dyns.insert(p, d), bias) == bias_fits(dyns, bias),
{
    let t = dyns.insert(p, d);
    lemma_needed_count_insert(dyns, p, d);
    lemma_last_val_insert(dyns, p, d, DT_RELA);
    lemma_last_val_insert(dyns, p, d, DT_RELASZ);
    lemma_last_val_insert(dyns, p, d, DT_RELAENT);
    lemma_last_val_insert(dyns, p, d, DT_RELACOUNT);
    lemma_last_val_insert(dyns, p, d, DT_GNU_HASH);
    lemma_last_val_insert(dyns, p, d, DT_HASH);
    lemma_last_val_insert(dyns, p, d, DT_STRTAB);
    lemma_last_val_insert(dyns, p, d, DT_STRSZ);
    lemma_last_val_insert(dyns, p, d, DT_SYMTAB);
    lemma_last_val_insert(dyns, p, d, DT_SYMENT);
    lemma_last_val_insert(dyns, p, d, DT_PLTGOT);
    lemma_last_val_insert(dyns, p, d, DT_PLTRELSZ);
    lemma_last_val_insert(dyns, p, d, DT_PLTREL);
    lemma_last_val_insert(dyns, p, d, DT_JMPREL);
    lemma_last_val_insert(dyns, p, d, DT_VERNEED);
    lemma_last_val_insert(dyns, p, d, DT_VERNEEDNUM);
    lemma_last_val_insert(dyns, p, d, DT_VERSYM);
    lemma_last_val_insert(dyns, p, d, DT_INIT);
    lemma_last_val_insert(dyns, p, d, DT_FINI);
    lemma_last_val_insert(dyns, p, d, DT_INIT_ARRAY);
    lemma_last_val_insert(dyns, p, d, DT_INIT_ARRAYSZ);
    lemma_last_val_insert(dyns, p, d, DT_FINI_ARRAY);
    lemma_last_val_insert(dyns, p, d, DT_FINI_ARRAYSZ);
    lemma_last_val_insert(dyns, p, d, DT_FLAGS);
    lemma_last_val_insert(dyns, p, d, DT_FLAGS_1);
    lemma_last_val_insert(dyns, p, d, DT_SONAME);
    assert(!is_address_tag(d.d_tag));
    if bias_fits(dyns, bias) {
        assert forall|i: int|
            0 <= i < t.len() && is_address_tag(#[trigger] t[i].d_tag) implies t[i].d_val + bias
            <= u64::MAX by {
            if i < p {
                assert(dyns[i] == t[i]);
            } else if i > p {
                assert(dyns[i - 1] == t[i]);
            }
        }
    }
    if bias_fits(t, bias) {
        assert forall|j: int|
            0 <= j < dyns.len() && is_address_tag(#[trigger] dyns[j].d_tag) implies dyns[j].d_val
            + bias <= u64::MAX by {
            if j < p {
                assert(t[j] == dyns[j]);
            } else {
                assert(t[j + 1] == dyns[j]);
            }
        }
    }
}

/// Taking out an entry whose tag `LinkInfo::new` does not read changes
/// nothing of what it gathers.
pub proof fn lemma_link_info_ignores_unread_removal(dyns: Seq<Dyn>, p: int, bias: u64)
    requires
        0 <= p < dyns.len(),
        !is_read_tag(dyns[p].d_tag),
    ensures
        spec_link_info(dyns.remove(p), bias) == spec_link_info(dyns, bias),
        bias_fits(dyns.remove(p), bias) == bias_fits(dyns, bias),
{
    assert(dyns.remove(p).insert(p, dyns[p]) =~= dyns);
    lemma_link_info_ignores_unread_tags(dyns.remove(p), p, dyns[p], bias);
}

impl LinkInfo {
    /// Gathers the dynamic linking information of an object loaded with
    /// `bias` in a single pass through its `_DYNAMIC` array.
    #[verifier::spinoff_prover]
    #[verifier::rlimit(50)]
    pub fn new(dynamic: &[Dyn], bias: u64) -> (r: LinkInfo)
        requires
            bias_fits(dynamic@, bias),
        ensures
            r == spec_link_info(dynamic@, bias),
    {
        let mut info = LinkInfo {
            rela: 0,
            relasz: 0,
            relaent: 0,
            relacount: 0,
            gnu_hash: 0,
            hash: 0,
            strtab: 0,
            strsz: 0,
            symtab: 0,
            syment: 0,
            pltgot: 0,
            pltrelsz: 0,
            pltrel: 0,
            jmprel: 0,
            verneed: 0,
            verneednum: 0,
            versym: 0,
            init: 0,
            fini: 0,
            init_array: 0,
            init_arraysz: 0,
            fini_array: 0,
            fini_arraysz: 0,
            needed_count: 0,
            flags: 0,
            flags_1: 0,
            soname: 0,
        };
        assert(info == spec_link_info(dynamic@.subrange(0, 0), bias));
        let mut i: usize = 0;
        while i < dynamic.len()
            invariant
                i <= dynamic@.len(),
                bias_fits(dynamic@, bias),
                info == spec_link_info(dynamic@.subrange(0, i as int), bias),
            decreases dynamic@.len() - i,
        {
            let d = dynamic[i];
            let ghost prev = dynamic@.subrange(0, i as int);
            let ghost next = dynamic@.subrange(0, i + 1);
            proof {
                assert(next =~= prev.push(d));
                assert(next.drop_last() =~= prev);
                lemma_needed_count_bound(prev);
                lemma_last_val_push(prev, d, DT_RELA);
                lemma_last_val_push(prev, d, DT_RELASZ);
                lemma_last_val_push(prev, d, DT_RELAENT);
                lemma_last_val_push(prev, d, DT_RELACOUNT);
                lemma_last_val_push(prev, d, DT_GNU_HASH);
                lemma_last_val_push(prev, d, DT_HASH);
                lemma_last_val_push(prev, d, DT_STRTAB);
                lemma_last_val_push(prev, d, DT_STRSZ);
                lemma_last_val_push(prev, d, DT_SYMTAB);
                lemma_last_val_push(prev, d, DT_SYMENT);
                lemma_last_val_push(prev, d, DT_PLTGOT);
                lemma_last_val_push(prev, d, DT_PLTRELSZ);
                lemma_last_val_push(prev, d, DT_PLTREL);
                lemma_last_val_push(prev, d, DT_JMPREL);
                lemma_last_val_push(prev, d, DT_VERNEED);
                lemma_last_val_push(prev, d, DT_VERNEEDNUM);
                lemma_last_val_push(prev, d, DT_VERSYM);
                lemma_last_val_push(prev, d, DT_INIT);
                lemma_last_val_push(prev, d, DT_FINI);
                lemma_last_val_push(prev, d, DT_INIT_ARRAY);
                lemma_last_val_push(prev, d, DT_INIT_ARRAYSZ);
                lemma_last_val_push(prev, d, DT_FINI_ARRAY);
                lemma_last_val_push(prev, d, DT_FINI_ARRAYSZ);
                lemma_last_val_push(prev, d, DT_FLAGS);
                lemma_last_val_push(prev, d, DT_FLAGS_1);
                lemma_last_val_push(prev, d, DT_SONAME);
                assert(is_address_tag(d.d_tag) ==> d.d_val + bias <= u64::MAX);
            }
            match d.d_tag {
                DT_RELA => info.rela = d.d_val + bias,
                DT_RELASZ => info.relasz = d.d_val,
                DT_RELAENT => info.relaent = d.d_val,
                DT_RELACOUNT => info.relacount = d.d_val,
                DT_GNU_HASH => info.gnu_hash = d.d_val + bias,
                DT_HASH => info.hash = d.d_val + bias,
                DT_STRTAB => info.strtab = d.d_val + bias,
                DT_STRSZ => info.strsz = d.d_val as usize,
                DT_SYMTAB => info.symtab = d.d_val + bias,
                DT_SYMENT => info.syment = d.d_val,
                DT_PLTGOT => info.pltgot = d.d_val + bias,
                DT_PLTRELSZ => info.pltrelsz = d.d_val,
                DT_PLTREL => info.pltrel = d.d_val,
                DT_JMPREL => info.jmprel = d.d_val + bias,
                DT_VERNEED => info.verneed = d.d_val + bias,
                DT_VERNEEDNUM => info.verneednum = d.d_val,
                DT_VERSYM => info.versym = d.d_val + bias,
                DT_INIT => info.init = d.d_val + bias,
                DT_FINI => info.fini = d.d_val + bias,
                DT_INIT_ARRAY => info.init_array = d.d_val + bias,
                DT_INIT_ARRAYSZ => info.init_arraysz = d.d_val as usize,
                DT_FINI_ARRAY => info.fini_array = d.d_val + bias,
                DT_FINI_ARRAYSZ => info.fini_arraysz = d.d_val as usize,
                DT_NEEDED => info.needed_count = info.needed_count + 1,
                DT_FLAGS => info.flags = d.d_val,
                DT_FLAGS_1 => info.flags_1 = d.d_val,
                DT_SONAME => info.soname = d.d_val as usize,
                _ => {},
            }
            i = i + 1;
        }
        assert(dynamic@.subrange(0, dynamic@.len() as int) =~= dynamic@);
        info
    }
}


/// What the debug output of a `LinkInfo` prints: its main entries on one
/// line, addresses in hexadecimal and sizes and counts in decimal.
pub open spec fn link_info_text(i: LinkInfo) -> Seq<u8> {
    field("rela: 0x".spec_bytes(), i.rela, true) + field(" relasz: ".spec_bytes(), i.relasz, false)
        + field(" relaent: ".spec_bytes(), i.relaent, false) + field(
        " relacount: ".spec_bytes(),
        i.relacount,
        false,
    ) + field(" gnu_hash: 0x".spec_bytes(), i.gnu_hash, true) + field(
        " hash: 0x".spec_bytes(),
        i.hash,
        true,
    ) + field(" strtab: 0x".spec_bytes(), i.strtab, true) + field(
        " strsz: ".spec_bytes(),
        i.strsz as u64,
        false,
    ) + field(" symtab: 0x".spec_bytes(), i.symtab, true) + field(
        " syment: ".spec_bytes(),
        i.syment,
        false,
    ) + field(" pltgot: 0x".spec_bytes(), i.pltgot, true) + field(
        " pltrelsz: ".spec_bytes(),
        i.pltrelsz,
        false,
    ) + field(" pltrel: ".spec_bytes(), i.pltrel, false) + field(
        " jmprel: 0x".spec_bytes(),
        i.jmprel,
        true,
    ) + field(" verneed: 0x".spec_bytes(), i.verneed, true) + field(
        " verneednum: ".spec_bytes(),
        i.verneednum,
        false,
    ) + field(" versym: 0x".spec_bytes(), i.versym, true) + field(
        " init: 0x".spec_bytes(),
        i.init,
        true,
    ) + field(" fini: 0x".spec_bytes(), i.fini, true) + field(
        " needed_count: ".spec_bytes(),
        i.needed_count as u64,
        false,
    )
}

impl LinkInfo {
    /// The text the debug output of this `LinkInfo` prints.
    pub fn debug_text(&self) -> (r: Vec<u8>)
        ensures
            r@ == link_info_text(*self),
    {
        let mut out: Vec<u8> = Vec::new();
        push_field(&mut out, "rela: 0x", self.rela, true);
        push_field(&mut out, " relasz: ", self.relasz, false);
        push_field(&mut out, " relaent: ", self.relaent, false);
        push_field(&mut out, " relacount: ", self.relacount, false);
        push_field(&mut out, " gnu_hash: 0x", self.gnu_hash, true);
        push_field(&mut out, " hash: 0x", self.hash, true);
        push_field(&mut out, " strtab: 0x", self.strtab, true);
        push_field(&mut out, " strsz: ", self.strsz as u64, false);
        push_field(&mut out, " symtab: 0x", self.symtab, true);
        push_field(&mut out, " syment: ", self.syment, false);
        push_field(&mut out, " pltgot: 0x", self.pltgot, true);
        push_field(&mut out, " pltrelsz: ", self.pltrelsz, false);
        push_field(&mut out, " pltrel: ", self.pltrel, false);
        push_field(&mut out, " jmprel: 0x", self.jmprel, true);
        push_field(&mut out, " verneed: 0x", self.verneed, true);
        push_field(&mut out, " verneednum: ", self.verneednum, false);
        push_field(&mut out, " versym: 0x", self.versym, true);
        push_field(&mut out, " init: 0x", self.init, true);
        push_field(&mut out, " fini: 0x", self.fini, true);
        push_field(&mut out, " needed_count: ", self.needed_count as u64, false);
        assert(out@ =~= link_info_text(*self));
        out
    }
}

} // verus!

verus! {

/// A loaded ELF object: an mmap'd dynamic library, the vdso provided by the
/// kernel, or the executable being interpreted.
#[derive(Debug)]
pub struct SharedObject {
    pub name: Vec<u8>,
    pub load_bias: u64,
    pub map_begin: u64,
    pub map_end: u64,
    pub libs: Vec<Vec<u8>>,
    pub phdrs: Vec<ProgramHeader>,
    pub dynamic: Vec<Dyn>,
    pub strtab: Strtab,
    pub symtab: Vec<Sym>,
    pub relatab: Vec<Rela>,
    pub pltrelatab: Vec<Rela>,
    pub pltgot: u64,
    /// Address of the object's GNU hash table.
    pub gnu_hash: u64,
}

/// The name of symbol `i` of `so`.
pub open spec fn sym_name(so: &SharedObject, i: int) -> Seq<u8> {
    spec_get_str(so.symtab@[i].st_name as usize as int, so.strtab.bytes@)
}

/// Symbol `i` of `so` is defined and named `name`.
pub open spec fn sym_matches(so: &SharedObject, i: int, name: Seq<u8>) -> bool {
    so.symtab@[i].st_shndx != SHN_UNDEF && sym_name(so, i) == name
}

/// `i` is the first symbol of `so` that is defined and named `name`.
pub open spec fn is_first_match(so: &SharedObject, name: Seq<u8>, i: int) -> bool {
    &&& 0 <= i < so.symtab@.len()
    &&& sym_matches(so, i, name)
    &&& forall|j: int| 0 <= j < i ==> !sym_matches(so, j, name)
}

/// The address of the first defined symbol of `so` named `name`: its value
/// plus the object's load bias.
pub open spec fn spec_find(so: &SharedObject, name: Seq<u8>) -> Option<u64> {
    if exists|i: int| is_first_match(so, name, i) {
        let i = choose|i: int| is_first_match(so, name, i);
        Some((so.load_bias + so.symtab@[i].st_value) as u64)
    } else {
        None
    }
}

/// The name of symbol `i` of `so` can be read from the string table.
pub open spec fn sym_name_readable(so: &SharedObject, i: int) -> bool {
    get_str_defined(so.symtab@[i].st_name as usize as int, so.strtab.bytes@)
}

/// Every defined symbol, the only ones a lookup compares names with, has a
/// readable name and an address within 64 bits.
pub open spec fn symbols_resolvable(so: &SharedObject) -> bool {
    forall|i: int|
        0 <= i < so.symtab@.len() && (#[trigger] so.symtab@[i]).st_shndx != SHN_UNDEF
            ==> sym_name_readable(so, i) && so.load_bias + so.symtab@[i].st_value <= u64::MAX
}

proof fn lemma_first_match_unique(so: &SharedObject, name: Seq<u8>, i: int)
    requires
        is_first_match(so, name, i),
    ensures
        spec_find(so, name) == Some((so.load_bias + so.symtab@[i].st_value) as u64),
{
    let k = choose|k: int| is_first_match(so, name, k);
    assert(is_first_match(so, name, k));
    if k < i {
        assert(!sym_matches(so, k, name));
    } else if i < k {
        assert(!sym_matches(so, i, name));
    }
}

impl SharedObject {
    /// Looks `name` up among this object's symbols: the first defined
    /// symbol of that name, in the order of the symbol table. `hash` is the
    /// name's GNU hash, which the caller computes once for all objects; the
    /// search through the table in order does not need it.
    pub fn find(&self, name: &[u8], hash: u32) -> (r: Option<u64>)
        requires
            symbols_resolvable(self),
        ensures
            r == spec_find(self, name@),
    {
        let mut i: usize = 0;
        while i < self.symtab.len()
            invariant
                i <= self.symtab@.len(),
                symbols_resolvable(self),
                forall|j: int| 0 <= j < i ==> !sym_matches(self, j, name@),
            decreases self.symtab@.len() - i,
        {
            let sym = self.symtab[i];
            if sym.st_shndx != SHN_UNDEF {
                assert(sym_name_readable(self, i as int));
                let sym_name = self.strtab.get(sym.st_name as usize);
                if bytes_eq(sym_name.as_slice(), name) {
                    proof {
                        lemma_first_match_unique(self, name@, i as int);
                    }
                    return Some(self.load_bias + sym.st_value);
                }
            }
            i = i + 1;
        }
        assert(!exists|k: int| is_first_match(self, name@, k));
        None
    }
}

} // verus!

verus! {

/// Why an ELF object could not be read from memory.
#[derive(Clone, Copy, Debug, PartialEq, Eq)]
pub enum LoadError {
    /// A table or header the object needs lies outside the image.
    Unmapped,
    /// The object has no `_DYNAMIC` array.
    NoDynamic,
    /// An address computation leaves the range of 64 bits.
    Overflow,
    /// The string table starts before the symbol table, so the symbol count
    /// cannot be computed.
    StrtabBeforeSymtab,
    /// The symbol entry size is zero.
    ZeroEntrySize,
    /// A name refers to a string that the string table does not hold
    /// properly.
    BadName,
}

/// The contents of a [`SharedObject`], as values.
pub ghost struct SharedObjectView {
    pub name: Seq<u8>,
    pub load_bias: u64,
    pub map_begin: u64,
    pub map_end: u64,
    pub libs: Seq<Seq<u8>>,
    pub phdrs: Seq<ProgramHeader>,
    pub dynamic: Seq<Dyn>,
    pub strtab: Seq<u8>,
    pub symtab: Seq<Sym>,
    pub relatab: Seq<Rela>,
    pub pltrelatab: Seq<Rela>,
    pub pltgot: u64,
    pub gnu_hash: u64,
}

impl View for SharedObject {
    type V = SharedObjectView;

    open spec fn view(&self) -> SharedObjectView {
        SharedObjectView {
            name: self.name@,
            load_bias: self.load_bias,
            map_begin: self.map_begin,
            map_end: self.map_end,
            libs: self.libs@.map_values(|l: Vec<u8>| l@),
            phdrs: self.phdrs@,
            dynamic: self.dynamic@,
            strtab: self.strtab.bytes@,
            symtab: self.symtab@,
            relatab: self.relatab@,
            pltrelatab: self.pltrelatab@,
            pltgot: self.pltgot,
            gnu_hash: self.gnu_hash,
        }
    }
}

/// The object described by the dynamic array `dynamic` of an image loaded
/// at `bias`: its tables located through the dynamic array and read from
/// `mem`. `name` is the object's name, or `None` to take its `DT_SONAME`;
/// `use_syment` divides the symbol table's extent by `DT_SYMENT` rather than
/// by the size of a symbol.
pub open spec fn spec_build(
    mem: MemImage,
    name: Option<Seq<u8>>,
    bias: u64,
    phdrs: Seq<ProgramHeader>,
    dynamic: Seq<Dyn>,
    use_syment: bool,
) -> Result<SharedObjectView, LoadError> {
    if !bias_fits(dynamic, bias) {
        Err(LoadError::Overflow)
    } else {
        let info = spec_link_info(dynamic, bias);
        let ent = if use_syment {
            info.syment
        } else {
            SIZEOF_SYM as u64
        };
        if info.strtab < info.symtab {
            Err(LoadError::StrtabBeforeSymtab)
        } else if ent == 0 {
            Err(LoadError::ZeroEntrySize)
        } else {
            let num_syms = (info.strtab - info.symtab) / ent as int;
            if num_syms > usize::MAX || !mem.holds(info.symtab as int, 24 * num_syms) {
                Err(LoadError::Unmapped)
            } else if !mem.holds(info.strtab as int, info.strsz as int) {
                Err(LoadError::Unmapped)
            } else {
                let strtab = mem.range(info.strtab as int, info.strsz as int);
                if !needed_readable(dynamic, strtab) || (name is None && !get_str_defined(
                    info.soname as int,
                    strtab,
                )) {
                    Err(LoadError::BadName)
                } else {
                    let rcount = rela_count(
                        info.relasz as usize as u64,
                        info.relaent as usize as u64,
                    );
                    let pcount = info.pltrelsz as usize / 24;
                    if !mem.holds(info.rela as int, 24 * rcount) || !mem.holds(
                        info.jmprel as int,
                        24 * pcount,
                    ) {
                        Err(LoadError::Unmapped)
                    } else {
                        Ok(
                            SharedObjectView {
                                name: match name {
                                    Some(n) => n,
                                    None => spec_get_str(info.soname as int, strtab),
                                },
                                load_bias: bias,
                                map_begin: 0,
                                map_end: 0,
                                libs: needed_names(dynamic, strtab),
                                phdrs,
                                dynamic,
                                strtab,
                                symtab: syms_from(
                                    mem.bytes@,
                                    info.symtab - mem.base,
                                    num_syms as nat,
                                ),
                                relatab: relas_from(
                                    mem.bytes@,
                                    info.rela - mem.base,
                                    rcount as nat,
                                ),
                                pltrelatab: relas_from(
                                    mem.bytes@,
                                    info.jmprel - mem.base,
                                    pcount as nat,
                                ),
                                pltgot: info.pltgot,
                                gnu_hash: info.gnu_hash,
                            },
                        )
                    }
                }
            }
        }
    }
}

/// Whether adding `bias` to every address entry of `dynamic` stays within
/// 64 bits.
pub fn check_bias_fits(dynamic: &[Dyn], bias: u64) -> (r: bool)
    ensures
        r == bias_fits(dynamic@, bias),
{
    let mut i: usize = 0;
    while i < dynamic.len()
        invariant
            i <= dynamic@.len(),
            forall|j: int|
                0 <= j < i && is_address_tag(#[trigger] dynamic@[j].d_tag) ==> dynamic@[j].d_val
                    + bias <= u64::MAX,
        decreases dynamic@.len() - i,
    {
        let d = dynamic[i];
        let t = d.d_tag;
        if (t == DT_RELA || t == DT_GNU_HASH || t == DT_HASH || t == DT_STRTAB || t == DT_SYMTAB
            || t == DT_PLTGOT || t == DT_JMPREL || t == DT_VERNEED || t == DT_VERSYM || t
            == DT_INIT || t == DT_FINI || t == DT_INIT_ARRAY || t == DT_FINI_ARRAY) && d.d_val
            > u64::MAX - bias {
            return false;
        }
        i = i + 1;
    }
    true
}

/// Whether the name at `idx` can be read from `bytes`.
pub fn check_str_defined(idx: usize, bytes: &[u8]) -> (r: bool)
    ensures
        r == get_str_defined(idx as int, bytes@),
{
    idx == 0 || idx >= bytes.len() || bytes[idx] != 0
}

/// Whether every `DT_NEEDED` entry names a string that `strtab` holds.
pub fn check_needed_readable(dynamic: &[Dyn], strtab: &[u8]) -> (r: bool)
    ensures
        r == needed_readable(dynamic@, strtab@),
{
    let mut i: usize = 0;
    while i < dynamic.len()
        invariant
            i <= dynamic@.len(),
            forall|j: int|
                0 <= j < i && #[trigger] dynamic@[j].d_tag == DT_NEEDED ==> get_str_defined(
                    dynamic@[j].d_val as usize as int,
                    strtab@,
                ),
        decreases dynamic@.len() - i,
    {
        if dynamic[i].d_tag == DT_NEEDED && !check_str_defined(dynamic[i].d_val as usize, strtab) {
            return false;
        }
        i = i + 1;
    }
    true
}

/// Reads the object's tables through its dynamic array, as `spec_build`
/// describes.
fn build(
    mem: &MemImage,
    name: Option<Vec<u8>>,
    bias: u64,
    phdrs: Vec<ProgramHeader>,
    dynamic: Vec<Dyn>,
    use_syment: bool,
) -> (r: Result<SharedObject, LoadError>)
    ensures
        match r {
            Ok(so) => spec_build(
                *mem,
                match name {
                    Some(n) => Some(n@),
                    None => None,
                },
                bias,
                phdrs@,
                dynamic@,
                use_syment,
            ) == Ok::<SharedObjectView, LoadError>(so@),
            Err(e) => spec_build(
                *mem,
                match name {
                    Some(n) => Some(n@),
                    None => None,
                },
                bias,
                phdrs@,
                dynamic@,
                use_syment,
            ) == Err::<SharedObjectView, LoadError>(e),
        },
{
    if !check_bias_fits(dynamic.as_slice(), bias) {
        return Err(LoadError::Overflow);
    }
    let link_info = LinkInfo::new(dynamic.as_slice(), bias);
    let ent: u64 = if use_syment {
        link_info.syment
    } else {
        SIZEOF_SYM as u64
    };
    if link_info.strtab < link_info.symtab {
        return Err(LoadError::StrtabBeforeSymtab);
    }
    if ent == 0 {
        return Err(LoadError::ZeroEntrySize);
    }
    let num_syms = (link_info.strtab - link_info.symtab) / ent;
    if num_syms > usize::MAX as u64 {
        return Err(LoadError::Unmapped);
    }
    let symtab = match get_symtab(mem, link_info.symtab, num_syms as usize) {
        Some(s) => s,
        None => {
            return Err(LoadError::Unmapped);
        },
    };
    let strtab = match Strtab::new(mem, link_info.strtab, link_info.strsz) {
        Some(t) => t,
        None => {
            return Err(LoadError::Unmapped);
        },
    };
    if !check_needed_readable(dynamic.as_slice(), strtab.bytes.as_slice()) {
        return Err(LoadError::BadName);
    }
    let so_name = match name {
        Some(n) => n,
        None => {
            if !check_str_defined(link_info.soname, strtab.bytes.as_slice()) {
                return Err(LoadError::BadName);
            }
            strtab.get(link_info.soname)
        },
    };
    let libs = get_needed(dynamic.as_slice(), &strtab, link_info.needed_count);
    let relatab = match rela::get(
        mem,
        link_info.rela,
        link_info.relasz as usize,
        link_info.relaent as usize,
        link_info.relacount as usize,
    ) {
        Some(t) => t,
        None => {
            return Err(LoadError::Unmapped);
        },
    };
    let pltrelatab = match rela::get_plt(mem, link_info.jmprel, link_info.pltrelsz as usize) {
        Some(t) => t,
        None => {
            return Err(LoadError::Unmapped);
        },
    };
    let so = SharedObject {
        name: so_name,
        load_bias: bias,
        map_begin: 0,
        map_end: 0,
        libs,
        phdrs,
        dynamic,
        strtab,
        symtab,
        relatab,
        pltrelatab,
        pltgot: link_info.pltgot,
        gnu_hash: link_info.gnu_hash,
    };
    assert(so@.libs =~= needed_names(so.dynamic@, so.strtab.bytes@));
    Ok(so)
}

} // verus!

verus! {

/// The object whose ELF header is at address `ptr`, already mapped into
/// memory (the vdso, for one): its program headers at `ptr + e_phoff`, its
/// dynamic array through them with bias `ptr`, and its tables through that.
pub open spec fn spec_from_raw(mem: MemImage, ptr: u64) -> Result<SharedObjectView, LoadError> {
    if !mem.holds(ptr as int, 64) {
        Err(LoadError::Unmapped)
    } else {
        let off = ptr - mem.base;
        let phoff = le_u64(mem.bytes@, off + 32);
        let phnum = le_u16(mem.bytes@, off + 56);
        let phaddr = phoff + ptr;
        if phaddr > u64::MAX {
            Err(LoadError::Overflow)
        } else if !mem.holds(phaddr, 56 * phnum) {
            Err(LoadError::Unmapped)
        } else {
            let phdrs = phdrs_from(mem.bytes@, phaddr - mem.base, phnum as nat);
            match spec_dynamic_array(mem, ptr, phdrs) {
                None => Err(LoadError::NoDynamic),
                Some(dynamic) => spec_build(mem, None, ptr, phdrs, dynamic, false),
            }
        }
    }
}

/// The load bias of the executable whose `phnum` program headers are at
/// `phdr_addr`: that address minus the `p_vaddr` of its `PT_PHDR` header,
/// or 0 without such a header.
pub open spec fn exec_load_bias(phdr_addr: u64, phdrs: Seq<ProgramHeader>) -> int {
    match first_of_type(phdrs, PT_PHDR) {
        None => 0,
        Some(i) => phdr_addr - phdrs[i].p_vaddr,
    }
}

/// The executable named `name` whose `phnum` program headers the kernel
/// mapped at `phdr_addr`.
pub open spec fn spec_from_executable(
    mem: MemImage,
    name: Seq<u8>,
    phdr_addr: u64,
    phnum: usize,
) -> Result<SharedObjectView, LoadError> {
    if !mem.holds(phdr_addr as int, 56 * phnum) {
        Err(LoadError::Unmapped)
    } else {
        let phdrs = phdrs_from(mem.bytes@, phdr_addr - mem.base, phnum as nat);
        let bias = exec_load_bias(phdr_addr, phdrs);
        if bias < 0 {
            Err(LoadError::Overflow)
        } else {
            match spec_dynamic_array(mem, bias as u64, phdrs) {
                None => Err(LoadError::NoDynamic),
                Some(dynamic) => spec_build(mem, Some(name), bias as u64, phdrs, dynamic, true),
            }
        }
    }
}

impl SharedObject {
    /// Reads the object whose ELF header is at `ptr` and which is already
    /// mapped into memory, taking its name from its `DT_SONAME`.
    pub fn from_raw(mem: &MemImage, ptr: u64) -> (r: Result<SharedObject, LoadError>)
        ensures
            match r {
                Ok(so) => spec_from_raw(*mem, ptr) == Ok::<SharedObjectView, LoadError>(so@),
                Err(e) => spec_from_raw(*mem, ptr) == Err::<SharedObjectView, LoadError>(e),
            },
    {
        let header = match unsafe_as_header(mem, ptr) {
            Some(h) => h,
            None => {
                return Err(LoadError::Unmapped);
            },
        };
        let phaddr = match header.e_phoff.checked_add(ptr) {
            Some(a) => a,
            None => {
                return Err(LoadError::Overflow);
            },
        };
        let phdrs = match to_phdr_array(mem, phaddr, header.e_phnum as usize) {
            Some(p) => p,
            None => {
                return Err(LoadError::Unmapped);
            },
        };
        let dynamic = match get_dynamic_array(mem, ptr, phdrs.as_slice()) {
            Some(d) => d,
            None => {
                return Err(LoadError::NoDynamic);
            },
        };
        build(mem, None, ptr, phdrs, dynamic, false)
    }

    /// Reads the executable the kernel mapped, whose `phnum` program headers
    /// are at `phdr_addr`; its name is `name`. `Err(NoDynamic)` for an
    /// executable without a `_DYNAMIC` array.
    pub fn from_executable(mem: &MemImage, name: &[u8], phdr_addr: u64, phnum: usize) -> (r:
        Result<SharedObject, LoadError>)
        ensures
            match r {
                Ok(so) => spec_from_executable(*mem, name@, phdr_addr, phnum) == Ok::<
                    SharedObjectView,
                    LoadError,
                >(so@),
                Err(e) => spec_from_executable(*mem, name@, phdr_addr, phnum) == Err::<
                    SharedObjectView,
                    LoadError,
                >(e),
            },
    {
        let phdrs = match to_phdr_array(mem, phdr_addr, phnum) {
            Some(p) => p,
            None => {
                return Err(LoadError::Unmapped);
            },
        };
        let mut load_bias: u64 = 0;
        match find_first_of_type(phdrs.as_slice(), PT_PHDR) {
            Some(i) => {
                if phdr_addr < phdrs[i].p_vaddr {
                    return Err(LoadError::Overflow);
                }
                load_bias = phdr_addr - phdrs[i].p_vaddr;
            },
            None => {},
        }
        match get_dynamic_array(mem, load_bias, phdrs.as_slice()) {
            Some(dynamic) => {
                let n = copy_range(name, 0, name.len());
                assert(n@ =~= name@);
                build(mem, Some(n), load_bias, phdrs, dynamic, true)
            },
            None => Err(LoadError::NoDynamic),
        }
    }
}

} // verus!

verus! {

/// The address of `name` in the first object of `link_map` that defines it.
pub open spec fn spec_find_in(link_map: Seq<SharedObject>, name: Seq<u8>) -> Option<u64>
    decreases link_map.len(),
{
    if link_map.len() == 0 {
        None
    } else {
        match spec_find(&link_map[0], name) {
            Some(a) => Some(a),
            None => spec_find_in(link_map.drop_first(), name),
        }
    }
}

/// In every object of `link_map`, the defined symbols have readable names
/// and fitting addresses.
pub open spec fn all_resolvable(link_map: Seq<SharedObject>) -> bool {
    forall|i: int| 0 <= i < link_map.len() ==> symbols_resolvable(#[trigger] &link_map[i])
}

/// The search in a link map answers with the first object that defines the
/// name, and finds nothing exactly when no object defines it.
pub proof fn lemma_find_in_first(link_map: Seq<SharedObject>, name: Seq<u8>, k: int)
    requires
        0 <= k < link_map.len(),
        spec_find(&link_map[k], name) is Some,
        forall|j: int| 0 <= j < k ==> spec_find(&link_map[j], name) is None,
    ensures
        spec_find_in(link_map, name) == spec_find(&link_map[k], name),
    decreases k,
{
    if k > 0 {
        let rest = link_map.drop_first();
        assert(spec_find(&link_map[0], name) is None);
        assert forall|j: int| 0 <= j < k - 1 implies spec_find(&rest[j], name) is None by {
            assert(rest[j] == link_map[j + 1]);
        }
        assert(rest[k - 1] == link_map[k]);
        lemma_find_in_first(rest, name, k - 1);
    }
}

/// Nothing is found in a link map exactly when none of its objects defines
/// the name.
pub proof fn lemma_find_in_none(link_map: Seq<SharedObject>, name: Seq<u8>)
    ensures
        spec_find_in(link_map, name) is None <==> forall|j: int|
            0 <= j < link_map.len() ==> spec_find(&(#[trigger] link_map[j]), name) is None,
    decreases link_map.len(),
{
    if link_map.len() > 0 {
        let rest = link_map.drop_first();
        lemma_find_in_none(rest, name);
        if spec_find(&link_map[0], name) is None {
            assert forall|j: int| 0 <= j < rest.len() implies rest[j] == link_map[j + 1] by {}
            if spec_find_in(link_map, name) is None {
                assert forall|j: int| 0 <= j < link_map.len() implies spec_find(
                    &(#[trigger] link_map[j]),
                    name,
                ) is None by {
                    if j > 0 {
                        assert(rest[j - 1] == link_map[j]);
                    }
                }
            } else {
                let w = choose|w: int|
                    0 <= w < rest.len() && !(spec_find(&(#[trigger] rest[w]), name) is None);
                assert(link_map[w + 1] == rest[w]);
            }
        }
    }
}

/// Searches `link_map`, in order, for the first object that defines `name`.
pub fn find_in(link_map: &[SharedObject], name: &[u8], hash: u32) -> (r: Option<u64>)
    requires
        all_resolvable(link_map@),
    ensures
        r == spec_find_in(link_map@, name@),
{
    let mut i: usize = 0;
    assert(link_map@.subrange(0, link_map@.len() as int) =~= link_map@);
    while i < link_map.len()
        invariant
            i <= link_map@.len(),
            all_resolvable(link_map@),
            spec_find_in(link_map@, name@) == spec_find_in(
                link_map@.subrange(i as int, link_map@.len() as int),
                name@,
            ),
        decreases link_map@.len() - i,
    {
        let ghost rest = link_map@.subrange(i as int, link_map@.len() as int);
        assert(rest[0] == link_map@[i as int]);
        assert(rest.drop_first() =~= link_map@.subrange(i + 1, link_map@.len() as int));
        assert(symbols_resolvable(&link_map@[i as int]));
        let addr = link_map[i].find(name, hash);
        if addr.is_some() {
            return addr;
        }
        i = i + 1;
    }
    assert(link_map@.subrange(i as int, link_map@.len() as int) =~= Seq::<SharedObject>::empty());
    None
}


/// The field of `info` that entries with the dynamic tag `tag` set, as a
/// number; `None` for a tag that `LinkInfo` does not record.
pub open spec fn info_field(info: LinkInfo, tag: u64) -> Option<int> {
    if tag == DT_RELA {
        Some(info.rela as int)
    } else if tag == DT_RELASZ {
        Some(info.relasz as int)
    } else if tag == DT_RELAENT {
        Some(info.relaent as int)
    } else if tag == DT_RELACOUNT {
        Some(info.relacount as int)
    } else if tag == DT_GNU_HASH {
        Some(info.gnu_hash as int)
    } else if tag == DT_HASH {
        Some(info.hash as int)
    } else if tag == DT_STRTAB {
        Some(info.strtab as int)
    } else if tag == DT_STRSZ {
        Some(info.strsz as int)
    } else if tag == DT_SYMTAB {
        Some(info.symtab as int)
    } else if tag == DT_SYMENT {
        Some(info.syment as int)
    } else if tag == DT_PLTGOT {
        Some(info.pltgot as int)
    } else if tag == DT_PLTRELSZ {
        Some(info.pltrelsz as int)
    } else if tag == DT_PLTREL {
        Some(info.pltrel as int)
    } else if tag == DT_JMPREL {
        Some(info.jmprel as int)
    } else if tag == DT_VERNEED {
        Some(info.verneed as int)
    } else if tag == DT_VERNEEDNUM {
        Some(info.verneednum as int)
    } else if tag == DT_VERSYM {
        Some(info.versym as int)
    } else if tag == DT_INIT {
        Some(info.init as int)
    } else if tag == DT_FINI {
        Some(info.fini as int)
    } else if tag == DT_INIT_ARRAY {
        Some(info.init_array as int)
    } else if tag == DT_INIT_ARRAYSZ {
        Some(info.init_arraysz as int)
    } else if tag == DT_FINI_ARRAY {
        Some(info.fini_array as int)
    } else if tag == DT_FINI_ARRAYSZ {
        Some(info.fini_arraysz as int)
    } else if tag == DT_FLAGS {
        Some(info.flags as int)
    } else if tag == DT_FLAGS_1 {
        Some(info.flags_1 as int)
    } else if tag == DT_SONAME {
        Some(info.soname as int)
    } else {
        None
    }
}

/// The tags whose values `LinkInfo` keeps as sizes or offsets of the
/// machine's width.
pub open spec fn is_usize_tag(tag: u64) -> bool {
    tag == DT_STRSZ || tag == DT_INIT_ARRAYSZ || tag == DT_FINI_ARRAYSZ || tag == DT_SONAME
}

proof fn lemma_last_val_at(dyns: Seq<Dyn>, tag: u64, k: int)
    requires
        0 <= k < dyns.len(),
        dyns[k].d_tag == tag,
        forall|j: int| k < j < dyns.len() ==> (#[trigger] dyns[j]).d_tag != tag,
    ensures
        last_val(dyns, tag) == Some(dyns[k].d_val),
    decreases dyns.len(),
{
    if k < dyns.len() - 1 {
        assert(dyns.last() == dyns[dyns.len() - 1]);
        assert forall|j: int| k < j < dyns.drop_last().len() implies (
        #[trigger] dyns.drop_last()[j]).d_tag != tag by {
            assert(dyns.drop_last()[j] == dyns[j]);
        }
        assert(dyns.drop_last()[k] == dyns[k]);
        lemma_last_val_at(dyns.drop_last(), tag, k);
    }
}

proof fn lemma_last_val_absent(dyns: Seq<Dyn>, tag: u64)
    requires
        forall|j: int| 0 <= j < dyns.len() ==> (#[trigger] dyns[j]).d_tag != tag,
    ensures
        last_val(dyns, tag) is None,
    decreases dyns.len(),
{
    if dyns.len() > 0 {
        assert(dyns.last() == dyns[dyns.len() - 1]);
        assert forall|j: int| 0 <= j < dyns.drop_last().len() implies (
        #[trigger] dyns.drop_last()[j]).d_tag != tag by {
            assert(dyns.drop_last()[j] == dyns[j]);
        }
        lemma_last_val_absent(dyns.drop_last(), tag);
    }
}

/// Gathering the dynamic array `dyns` of an object loaded at `bias` keeps,
/// for each tag it records, the value of the last entry with that tag: plus
/// the bias for an address (`DT_INIT`, `DT_STRTAB` and the others of
/// `is_address_tag`), as it is for a size, a count or flags.
pub proof fn lemma_link_info_keeps_last_entry(dyns: Seq<Dyn>, bias: u64, tag: u64, k: int)
    requires
        bias_fits(dyns, bias),
        info_field(spec_link_info(dyns, bias), tag) is Some,
        0 <= k < dyns.len(),
        dyns[k].d_tag == tag,
        forall|j: int| k < j < dyns.len() ==> (#[trigger] dyns[j]).d_tag != tag,
    ensures
        is_address_tag(tag) ==> info_field(spec_link_info(dyns, bias), tag) == Some(
            dyns[k].d_val + bias,
        ),
        !is_address_tag(tag) && !is_usize_tag(tag) ==> info_field(spec_link_info(dyns, bias), tag)
            == Some(dyns[k].d_val as int),
        is_usize_tag(tag) ==> info_field(spec_link_info(dyns, bias), tag) == Some(
            dyns[k].d_val as usize as int,
        ),
{
    lemma_last_val_at(dyns, tag, k);
    assert(is_address_tag(tag) ==> dyns[k].d_val + bias <= u64::MAX);
}

/// A tag that `LinkInfo` records but that no entry of `dyns` has leaves its
/// field 0.
pub proof fn lemma_link_info_absent_tag(dyns: Seq<Dyn>, bias: u64, tag: u64)
    requires
        info_field(spec_link_info(dyns, bias), tag) is Some,
        forall|j: int| 0 <= j < dyns.len() ==> (#[trigger] dyns[j]).d_tag != tag,
    ensures
        info_field(spec_link_info(dyns, bias), tag) == Some(0int),
{
    lemma_last_val_absent(dyns, tag);
}

} // verus!
