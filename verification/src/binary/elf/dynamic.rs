use vstd::prelude::*;
use vstd::string::StringSliceAdditionalSpecFns;
use crate::utils::{field_line, push_bytes, push_field_line};
use crate::memory::{MemImage, u64_le, le_u64};
use crate::binary::elf::program_header::{
    ProgramHeader, PT_DYNAMIC, first_of_type, find_first_of_type,
};
use crate::binary::elf::strtab::{Strtab, get_str_defined, spec_get_str};

verus! {

pub const DT_NULL: u64 = 0;
pub const DT_NEEDED: u64 = 1;
pub const DT_PLTRELSZ: u64 = 2;
pub const DT_PLTGOT: u64 = 3;
pub const DT_HASH: u64 = 4;
pub const DT_STRTAB: u64 = 5;
pub const DT_SYMTAB: u64 = 6;
pub const DT_RELA: u64 = 7;
pub const DT_RELASZ: u64 = 8;
pub const DT_RELAENT: u64 = 9;
pub const DT_STRSZ: u64 = 10;
pub const DT_SYMENT: u64 = 11;
pub const DT_INIT: u64 = 12;
pub const DT_FINI: u64 = 13;
pub const DT_SONAME: u64 = 14;
pub const DT_RPATH: u64 = 15;
pub const DT_SYMBOLIC: u64 = 16;
pub const DT_REL: u64 = 17;
pub const DT_RELSZ: u64 = 18;
pub const DT_RELENT: u64 = 19;
pub const DT_PLTREL: u64 = 20;
pub const DT_DEBUG: u64 = 21;
pub const DT_TEXTREL: u64 = 22;
pub const DT_JMPREL: u64 = 23;
pub const DT_BIND_NOW: u64 = 24;
pub const DT_INIT_ARRAY: u64 = 25;
pub const DT_FINI_ARRAY: u64 = 26;
pub const DT_INIT_ARRAYSZ: u64 = 27;
pub const DT_FINI_ARRAYSZ: u64 = 28;
pub const DT_RUNPATH: u64 = 29;
pub const DT_FLAGS: u64 = 30;
pub const DT_ENCODING: u64 = 32;
pub const DT_PREINIT_ARRAY: u32 = 32;
pub const DT_PREINIT_ARRAYSZ: u32 = 33;
pub const DT_NUM: u64 = 34;
pub const DT_LOOS: u64 = 0x6000000d;
pub const DT_HIOS: u64 = 0x6ffff000;
pub const DT_LOPROC: u64 = 0x70000000;
pub const DT_HIPROC: u64 = 0x7fffffff;
pub const DT_VERSYM: u64 = 0x6ffffff0;
pub const DT_RELACOUNT: u64 = 0x6ffffff9;
pub const DT_RELCOUNT: u64 = 0x6ffffffa;
pub const DT_GNU_HASH: u64 = 0x6ffffef5;
pub const DT_VERDEF: u64 = 0x6ffffffc;
pub const DT_VERDEFNUM: u64 = 0x6ffffffd;
pub const DT_VERNEED: u64 = 0x6ffffffe;
pub const DT_VERNEEDNUM: u64 = 0x6fffffff;
pub const DT_FLAGS_1: u64 = 0x6ffffffb;

/// An entry in the dynamic array
#[derive(Clone, Copy, Debug, PartialEq, Eq)]
pub struct Dyn {
    /// Dynamic entry type
    pub d_tag: u64,
    /// Integer value
    pub d_val: u64,
}

pub const SIZEOF_DYN: usize = 16;

/// The name of a dynamic tag, as the debug output prints it.
pub open spec fn tag_name(tag: u64) -> &'static str {
    if tag == 0 { "DT_NULL" }
    else if tag == 1 { "DT_NEEDED" }
    else if tag == 2 { "DT_PLTRELSZ" }
    else if tag == 3 { "DT_PLTGOT" }
    else if tag == 4 { "DT_HASH" }
    else if tag == 5 { "DT_STRTAB" }
    else if tag == 6 { "DT_SYMTAB" }
    else if tag == 7 { "DT_RELA" }
    else if tag == 8 { "DT_RELASZ" }
    else if tag == 9 { "DT_RELAENT" }
    else if tag == 10 { "DT_STRSZ" }
    else if tag == 11 { "DT_SYMENT" }
    else if tag == 12 { "DT_INIT" }
    else if tag == 13 { "DT_FINI" }
    else if tag == 14 { "DT_SONAME" }
    else if tag == 15 { "DT_RPATH" }
    else if tag == 16 { "DT_SYMBOLIC" }
    else if tag == 17 { "DT_REL" }
    else if tag == 18 { "DT_RELSZ" }
    else if tag == 19 { "DT_RELENT" }
    else if tag == 20 { "DT_PLTREL" }
    else if tag == 21 { "DT_DEBUG" }
    else if tag == 22 { "DT_TEXTREL" }
    else if tag == 23 { "DT_JMPREL" }
    else if tag == 24 { "DT_BIND_NOW" }
    else if tag == 25 { "DT_INIT_ARRAY" }
    else if tag == 26 { "DT_FINI_ARRAY" }
    else if tag == 27 { "DT_INIT_ARRAYSZ" }
    else if tag == 28 { "DT_FINI_ARRAYSZ" }
    else if tag == 29 { "DT_RUNPATH" }
    else if tag == 30 { "DT_FLAGS" }
    else if tag == 32 { "DT_PREINIT_ARRAY" }
    else if tag == 33 { "DT_PREINIT_ARRAYSZ" }
    else if tag == 34 { "DT_NUM" }
    else if tag == 0x6000000d { "DT_LOOS" }
    else if tag == 0x6ffff000 { "DT_HIOS" }
    else if tag == 0x70000000 { "DT_LOPROC" }
    else if tag == 0x7fffffff { "DT_HIPROC" }
    else if tag == 0x6ffffff0 { "DT_VERSYM" }
    else if tag == 0x6ffffff9 { "DT_RELACOUNT" }
    else if tag == 0x6ffffffa { "DT_RELCOUNT" }
    else if tag == 0x6ffffef5 { "DT_GNU_HASH" }
    else if tag == 0x6ffffffc { "DT_VERDEF" }
    else if tag == 0x6ffffffd { "DT_VERDEFNUM" }
    else if tag == 0x6ffffffe { "DT_VERNEED" }
    else if tag == 0x6fffffff { "DT_VERNEEDNUM" }
    else if tag == DT_FLAGS_1 { "DT_FLAGS_1" }
    else { "UNKNOWN_TAG" }
}

/// Converts a u64 tag to its string representation
pub fn tag_to_str(tag: u64) -> (r: &'static str)
    ensures
        r == tag_name(tag),
{
    if tag == 0 { "DT_NULL" }
    else if tag == 1 { "DT_NEEDED" }
    else if tag == 2 { "DT_PLTRELSZ" }
    else if tag == 3 { "DT_PLTGOT" }
    else if tag == 4 { "DT_HASH" }
    else if tag == 5 { "DT_STRTAB" }
    else if tag == 6 { "DT_SYMTAB" }
    else if tag == 7 { "DT_RELA" }
    else if tag == 8 { "DT_RELASZ" }
    else if tag == 9 { "DT_RELAENT" }
    else if tag == 10 { "DT_STRSZ" }
    else if tag == 11 { "DT_SYMENT" }
    else if tag == 12 { "DT_INIT" }
    else if tag == 13 { "DT_FINI" }
    else if tag == 14 { "DT_SONAME" }
    else if tag == 15 { "DT_RPATH" }
    else if tag == 16 { "DT_SYMBOLIC" }
    else if tag == 17 { "DT_REL" }
    else if tag == 18 { "DT_RELSZ" }
    else if tag == 19 { "DT_RELENT" }
    else if tag == 20 { "DT_PLTREL" }
    else if tag == 21 { "DT_DEBUG" }
    else if tag == 22 { "DT_TEXTREL" }
    else if tag == 23 { "DT_JMPREL" }
    else if tag == 24 { "DT_BIND_NOW" }
    else if tag == 25 { "DT_INIT_ARRAY" }
    else if tag == 26 { "DT_FINI_ARRAY" }
    else if tag == 27 { "DT_INIT_ARRAYSZ" }
    else if tag == 28 { "DT_FINI_ARRAYSZ" }
    else if tag == 29 { "DT_RUNPATH" }
    else if tag == 30 { "DT_FLAGS" }
    else if tag == 32 { "DT_PREINIT_ARRAY" }
    else if tag == 33 { "DT_PREINIT_ARRAYSZ" }
    else if tag == 34 { "DT_NUM" }
    else if tag == 0x6000000d { "DT_LOOS" }
    else if tag == 0x6ffff000 { "DT_HIOS" }
    else if tag == 0x70000000 { "DT_LOPROC" }
    else if tag == 0x7fffffff { "DT_HIPROC" }
    else if tag == 0x6ffffff0 { "DT_VERSYM" }
    else if tag == 0x6ffffff9 { "DT_RELACOUNT" }
    else if tag == 0x6ffffffa { "DT_RELCOUNT" }
    else if tag == 0x6ffffef5 { "DT_GNU_HASH" }
    else if tag == 0x6ffffffc { "DT_VERDEF" }
    else if tag == 0x6ffffffd { "DT_VERDEFNUM" }
    else if tag == 0x6ffffffe { "DT_VERNEED" }
    else if tag == 0x6fffffff { "DT_VERNEEDNUM" }
    else if tag == DT_FLAGS_1 { "DT_FLAGS_1" }
    else { "UNKNOWN_TAG" }
}

/// The dynamic entry whose 16 bytes start at `off` in `s`.
pub open spec fn dyn_from(s: Seq<u8>, off: int) -> Dyn {
    Dyn { d_tag: le_u64(s, off) as u64, d_val: le_u64(s, off + 8) as u64 }
}

/// Entry `j` of a dynamic array that starts at address `addr`.
pub open spec fn dyn_entry(mem: MemImage, addr: int, j: int) -> Dyn {
    dyn_from(mem.bytes@, addr - mem.base + 16 * j)
}

/// Entry `j` of a dynamic array that starts at address `addr` lies in the image.
pub open spec fn dyn_entry_held(mem: MemImage, addr: int, j: int) -> bool {
    mem.holds(addr + 16 * j, 16)
}

/// At address `addr` the image holds `n` dynamic entries and then the
/// `DT_NULL` entry that ends the array.
pub open spec fn is_dyn_array(mem: MemImage, addr: int, n: nat) -> bool {
    &&& forall|j: int|
        0 <= j < n ==> #[trigger] dyn_entry_held(mem, addr, j) && dyn_entry(mem, addr, j).d_tag
            != DT_NULL
    &&& dyn_entry_held(mem, addr, n as int)
    &&& dyn_entry(mem, addr, n as int).d_tag == DT_NULL
}

/// The first `n` entries of the dynamic array at `addr`.
pub open spec fn dyn_entries(mem: MemImage, addr: int, n: nat) -> Seq<Dyn> {
    Seq::new(n, |j: int| dyn_entry(mem, addr, j))
}

/// The dynamic array at `addr`, without its `DT_NULL`; `None` when the image
/// does not hold a whole array there.
pub open spec fn spec_dyn_array(mem: MemImage, addr: int) -> Option<Seq<Dyn>> {
    if exists|n: nat| is_dyn_array(mem, addr, n) {
        Some(dyn_entries(mem, addr, choose|n: nat| is_dyn_array(mem, addr, n)))
    } else {
        None
    }
}

pub proof fn lemma_dyn_array_unique(mem: MemImage, addr: int, n: nat)
    requires
        is_dyn_array(mem, addr, n),
    ensures
        spec_dyn_array(mem, addr) == Some(dyn_entries(mem, addr, n)),
{
    let k = choose|k: nat| is_dyn_array(mem, addr, k);
    assert(is_dyn_array(mem, addr, k));
    if k < n {
        assert(dyn_entry_held(mem, addr, k as int));
    } else if n < k {
        assert(dyn_entry_held(mem, addr, n as int));
    }
}

/// The dynamic entry whose bytes start at `off` in `s`.
pub fn dyn_at(s: &[u8], off: usize) -> (r: Dyn)
    requires
        off + 16 <= s.len(),
    ensures
        r == dyn_from(s@, off as int),
{
    Dyn { d_tag: u64_le(s, off), d_val: u64_le(s, off + 8) }
}

/// Reads the dynamic array that starts at address `addr`, up to (and without)
/// its `DT_NULL` entry.
pub fn read_dyn_array(mem: &MemImage, addr: u64) -> (r: Option<Vec<Dyn>>)
    ensures
        match r {
            Some(v) => spec_dyn_array(*mem, addr as int) == Some(v@),
            None => spec_dyn_array(*mem, addr as int) is None,
        },
{
    let len = mem.bytes.len();
    if addr < mem.base || addr - mem.base > len as u64 {
        assert(!dyn_entry_held(*mem, addr as int, 0));
        assert forall|n: nat| !is_dyn_array(*mem, addr as int, n) by {
            if n > 0 {
                assert(!dyn_entry_held(*mem, addr as int, 0));
            }
        }
        return None;
    }
    let off = (addr - mem.base) as usize;
    let mut v: Vec<Dyn> = Vec::new();
    let mut i: usize = 0;
    while i <= (len - off) / 16
        invariant
            off <= len,
            len == mem.bytes@.len(),
            off == addr - mem.base,
            v@.len() == i,
            forall|j: int|
                0 <= j < i ==> #[trigger] dyn_entry_held(*mem, addr as int, j) && dyn_entry(
                    *mem,
                    addr as int,
                    j,
                ).d_tag != DT_NULL,
            v@ == dyn_entries(*mem, addr as int, i as nat),
            16 * i <= len - off + 16,
        decreases (len - off) / 16 + 1 - i,
    {
        if 16 <= len - off - 16 * i {
            let e = dyn_at(mem.bytes.as_slice(), off + 16 * i);
            assert(dyn_entry_held(*mem, addr as int, i as int));
            assert(e == dyn_entry(*mem, addr as int, i as int));
            if e.d_tag == DT_NULL {
                proof {
                    lemma_dyn_array_unique(*mem, addr as int, i as nat);
                }
                return Some(v);
            }
            v.push(e);
            assert(v@ =~= dyn_entries(*mem, addr as int, (i + 1) as nat));
        } else {
            assert(!dyn_entry_held(*mem, addr as int, i as int));
            assert forall|n: nat| !is_dyn_array(*mem, addr as int, n) by {
                if n > i {
                    assert(!dyn_entry_held(*mem, addr as int, i as int));
                } else if n < i {
                    assert(dyn_entry_held(*mem, addr as int, n as int));
                }
            }
            return None;
        }
        i = i + 1;
    }
    assert(!dyn_entry_held(*mem, addr as int, i as int));
    assert forall|n: nat| !is_dyn_array(*mem, addr as int, n) by {
        if n > i {
            assert(!dyn_entry_held(*mem, addr as int, i as int));
        } else if n < i {
            assert(dyn_entry_held(*mem, addr as int, n as int));
        }
    }
    None
}

/// The dynamic array of an image loaded with `bias`: the array that the
/// first `PT_DYNAMIC` program header places at `p_vaddr + bias`.
pub open spec fn spec_dynamic_array(mem: MemImage, bias: u64, phdrs: Seq<ProgramHeader>) -> Option<
    Seq<Dyn>,
> {
    match first_of_type(phdrs, PT_DYNAMIC) {
        None => None,
        Some(i) => if phdrs[i].p_vaddr + bias > u64::MAX {
            None
        } else {
            spec_dyn_array(mem, phdrs[i].p_vaddr + bias)
        },
    }
}

/// Gets the dynamic array through the first `PT_DYNAMIC` program header,
/// using the provided bias. `None` when there is no such header, or when the
/// image does not hold a `DT_NULL`-terminated array at the biased address.
pub fn get_dynamic_array(mem: &MemImage, bias: u64, phdrs: &[ProgramHeader]) -> (r: Option<
    Vec<Dyn>,
>)
    ensures
        match r {
            Some(v) => spec_dynamic_array(*mem, bias, phdrs@) == Some(v@),
            None => spec_dynamic_array(*mem, bias, phdrs@) is None,
        },
{
    match find_first_of_type(phdrs, PT_DYNAMIC) {
        None => None,
        Some(i) => {
            let vaddr = phdrs[i].p_vaddr;
            match vaddr.checked_add(bias) {
                None => None,
                Some(addr) => read_dyn_array(mem, addr),
            }
        },
    }
}

/// The entries that a `PT_DYNAMIC` segment of `bytes.len()` bytes holds, read
/// from the segment's bytes as a file stores them.
pub fn dyns_from_bytes(bytes: &[u8]) -> (r: Vec<Dyn>)
    ensures
        r@ == Seq::new(bytes@.len() / 16, |j: int| dyn_from(bytes@, 16 * j)),
{
    let blen = bytes.len();
    let n = blen / 16;
    let mut v: Vec<Dyn> = Vec::new();
    let mut i: usize = 0;
    while i < n
        invariant
            blen == bytes@.len(),
            n == bytes@.len() / 16,
            i <= n,
            v@ == Seq::new(i as nat, |j: int| dyn_from(bytes@, 16 * j)),
        decreases n - i,
    {
        assert(16 * i + 16 <= blen) by (nonlinear_arith)
            requires
                i < n,
                n == blen / 16,
        ;
        v.push(dyn_at(bytes, 16 * i));
        i = i + 1;
        assert(v@ =~= Seq::new(i as nat, |j: int| dyn_from(bytes@, 16 * j)));
    }
    v
}

/// Every `DT_NEEDED` entry names a string that can be read from `strtab`.
pub open spec fn needed_readable(dyns: Seq<Dyn>, strtab: Seq<u8>) -> bool {
    forall|i: int|
        0 <= i < dyns.len() && #[trigger] dyns[i].d_tag == DT_NEEDED ==> get_str_defined(
            dyns[i].d_val as usize as int,
            strtab,
        )
}

/// The names of the `DT_NEEDED` entries of `dyns`, in order.
pub open spec fn needed_names(dyns: Seq<Dyn>, strtab: Seq<u8>) -> Seq<Seq<u8>>
    decreases dyns.len(),
{
    if dyns.len() == 0 {
        Seq::empty()
    } else {
        let rest = needed_names(dyns.drop_last(), strtab);
        if dyns.last().d_tag == DT_NEEDED {
            rest.push(spec_get_str(dyns.last().d_val as usize as int, strtab))
        } else {
            rest
        }
    }
}

/// The number of `DT_NEEDED` entries in `dyns`.
pub open spec fn needed_count(dyns: Seq<Dyn>) -> nat
    decreases dyns.len(),
{
    if dyns.len() == 0 {
        0
    } else {
        needed_count(dyns.drop_last()) + if dyns.last().d_tag == DT_NEEDED { 1nat } else { 0nat }
    }
}

/// Gets the needed libraries from the `_DYNAMIC` array: the name of every
/// `DT_NEEDED` entry, in the order of the array.
pub fn get_needed(dyns: &[Dyn], strtab: &Strtab, count: usize) -> (r: Vec<Vec<u8>>)
    requires
        needed_readable(dyns@, strtab.bytes@),
    ensures
        r@.len() == needed_count(dyns@),
        r@.len() == needed_names(dyns@, strtab.bytes@).len(),
        forall|i: int| 0 <= i < r@.len() ==> #[trigger] r@[i]@ == needed_names(dyns@, strtab.bytes@)[i],
{
    let mut needed: Vec<Vec<u8>> = Vec::with_capacity(count);
    let mut i: usize = 0;
    while i < dyns.len()
        invariant
            i <= dyns@.len(),
            needed_readable(dyns@, strtab.bytes@),
            needed@.len() == needed_count(dyns@.subrange(0, i as int)),
            needed@.len() == needed_names(dyns@.subrange(0, i as int), strtab.bytes@).len(),
            forall|k: int|
                0 <= k < needed@.len() ==> #[trigger] needed@[k]@ == needed_names(
                    dyns@.subrange(0, i as int),
                    strtab.bytes@,
                )[k],
        decreases dyns@.len() - i,
    {
        let ghost prev = dyns@.subrange(0, i as int);
        let ghost next = dyns@.subrange(0, i + 1);
        assert(next.drop_last() =~= prev);
        assert(next.last() == dyns@[i as int]);
        if dyns[i].d_tag == DT_NEEDED {
            let lib = strtab.get(dyns[i].d_val as usize);
            needed.push(lib);
        }
        i = i + 1;
    }
    assert(dyns@.subrange(0, dyns@.len() as int) =~= dyns@);
    needed
}


/// What a dynamic entry's debug output prints: its tag and value in
/// hexadecimal, one per line.
pub open spec fn dyn_text(d: Dyn) -> Seq<u8> {
    field_line("d_tag: 0x".spec_bytes(), d.d_tag, true) + field_line(
        "d_val: 0x".spec_bytes(),
        d.d_val,
        true,
    )
}

/// The debug output of the entries `dyns`, one after the other.
pub open spec fn dyns_text(dyns: Seq<Dyn>) -> Seq<u8>
    decreases dyns.len(),
{
    if dyns.len() == 0 {
        Seq::empty()
    } else {
        dyns_text(dyns.drop_last()) + dyn_text(dyns.last())
    }
}

impl Dyn {
    /// The text the entry's debug output prints.
    pub fn debug_text(&self) -> (r: Vec<u8>)
        ensures
            r@ == dyn_text(*self),
    {
        let mut out: Vec<u8> = Vec::new();
        push_field_line(&mut out, "d_tag: 0x", self.d_tag, true);
        push_field_line(&mut out, "d_val: 0x", self.d_val, true);
        assert(out@ =~= dyn_text(*self));
        out
    }
}

/// The text the debug output of the dynamic array `dynamic` prints.
pub fn dynamic_debug_text(dynamic: &[Dyn]) -> (r: Vec<u8>)
    ensures
        r@ == dyns_text(dynamic@),
{
    let mut out: Vec<u8> = Vec::new();
    let mut i: usize = 0;
    while i < dynamic.len()
        invariant
            i <= dynamic@.len(),
            out@ == dyns_text(dynamic@.subrange(0, i as int)),
        decreases dynamic@.len() - i,
    {
        let t = dynamic[i].debug_text();
        push_bytes(&mut out, t.as_slice());
        assert(dynamic@.subrange(0, i + 1).drop_last() =~= dynamic@.subrange(0, i as int));
        i = i + 1;
    }
    assert(dynamic@.subrange(0, dynamic@.len() as int) =~= dynamic@);
    out
}
} // verus!
