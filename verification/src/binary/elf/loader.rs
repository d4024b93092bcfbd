//! What the loader of a shared library computes: which pages of the file to
//! map for a table, how much address space the library needs, where each
//! `PT_LOAD` segment goes and with which protection, and the object that
//! results. Reading the file and mapping it is left to the caller.
use vstd::prelude::*;
use crate::utils::page::{page_start, page_offset, page_end};
use crate::utils::mmap::{PROT_EXEC, PROT_READ, PROT_WRITE};
use crate::kernel_block::strs_view;
use crate::binary::elf::program_header::{
    ProgramHeader, PT_LOAD, PT_DYNAMIC, PF_X, PF_R, PF_W, first_of_type, find_first_of_type,
};
use crate::binary::elf::dynamic::{Dyn, DT_NULL, dyn_from, dyn_at};
use crate::binary::elf::sym::{Sym, SIZEOF_SYM};
use crate::binary::elf::rela::Rela;
use crate::binary::elf::strtab::Strtab;
use crate::binary::elf::image::{LinkInfo, SharedObject, SharedObjectView};

verus! {

/// The pages of a file mapped to reach `size` bytes at some file offset:
/// they start at `page_min`, the page of that offset, span `map_size` bytes,
/// and the wanted bytes start `data_offset` bytes into them.
#[derive(Clone, Copy, Debug, PartialEq, Eq)]
pub struct Fragment {
    pub page_min: u64,
    pub map_size: usize,
    pub data_offset: u64,
}

/// The mapping computed for `size` bytes at file offset `base + offset`
/// stays within the machine's integers.
pub open spec fn fragment_fits(base: u64, offset: u64, size: usize) -> bool {
    let o = base + offset;
    &&& o <= u64::MAX
    &&& o + size + o % 4096 <= u64::MAX
    &&& size + 2 * (o % 4096) <= usize::MAX
}

/// The pages to map to reach `size` bytes at file offset `base + offset`:
/// from the page of that offset, `size` bytes plus twice the offset in the
/// page. `None` when the computation leaves the machine's integers, where
/// the mapping would come out smaller than `size`.
pub fn fragment(base: u64, offset: u64, size: usize) -> (r: Option<Fragment>)
    ensures
        match r {
            Some(f) => {
                let o = base + offset;
                &&& fragment_fits(base, offset, size)
                &&& f.page_min == o - o % 4096
                &&& f.data_offset == o % 4096
                &&& f.map_size == size + 2 * (o % 4096)
            },
            None => !fragment_fits(base, offset, size),
        },
{
    let o = match base.checked_add(offset) {
        Some(o) => o,
        None => {
            return None;
        },
    };
    let page_min = page_start(o);
    let po = page_offset(o);
    let end = match o.checked_add(size as u64) {
        Some(e) => e,
        None => {
            return None;
        },
    };
    let end = match end.checked_add(po) {
        Some(e) => e,
        None => {
            return None;
        },
    };
    let map_size = end - page_min;
    if map_size > usize::MAX as u64 {
        return None;
    }
    Some(Fragment { page_min, map_size: map_size as usize, data_offset: po })
}

/// A fragment holds what it was computed for: its pages start on a page
/// boundary at or before the offset, and the wanted bytes lie within them.
pub proof fn lemma_fragment_covers(base: u64, offset: u64, size: usize, f: Fragment)
    requires
        fragment_fits(base, offset, size),
        f.page_min == (base + offset) - (base + offset) % 4096,
        f.data_offset == (base + offset) % 4096,
        f.map_size == size + 2 * ((base + offset) % 4096),
    ensures
        f.page_min % 4096 == 0,
        f.page_min + f.data_offset == base + offset,
        f.data_offset + size <= f.map_size,
{
}

/// The end of the highest `PT_LOAD` segment among `phdrs`
/// (`p_vaddr + p_memsz`), or 0 without one.
pub open spec fn max_load_end(phdrs: Seq<ProgramHeader>) -> int
    decreases phdrs.len(),
{
    if phdrs.len() == 0 {
        0
    } else {
        let prev = max_load_end(phdrs.drop_last());
        let p = phdrs.last();
        if p.p_type == PT_LOAD && p.p_vaddr + p.p_memsz > prev {
            p.p_vaddr + p.p_memsz
        } else {
            prev
        }
    }
}

/// The extent of the `PT_LOAD` segments can be computed within the
/// machine's integers.
pub open spec fn load_size_fits(phdrs: Seq<ProgramHeader>) -> bool {
    &&& forall|i: int|
        0 <= i < phdrs.len() && (#[trigger] phdrs[i]).p_type == PT_LOAD ==> phdrs[i].p_vaddr
            + phdrs[i].p_memsz <= u64::MAX
    &&& max_load_end(phdrs) + 4095 <= u64::MAX
    &&& max_load_end(phdrs) + 4095 - (max_load_end(phdrs) + 4095) % 4096 <= usize::MAX
}

proof fn lemma_max_load_end_bounds(phdrs: Seq<ProgramHeader>)
    ensures
        max_load_end(phdrs) >= 0,
        forall|i: int|
            0 <= i < phdrs.len() && (#[trigger] phdrs[i]).p_type == PT_LOAD ==> phdrs[i].p_vaddr
                + phdrs[i].p_memsz <= max_load_end(phdrs),
    decreases phdrs.len(),
{
    if phdrs.len() > 0 {
        lemma_max_load_end_bounds(phdrs.drop_last());
        assert forall|i: int|
            0 <= i < phdrs.len() && (#[trigger] phdrs[i]).p_type == PT_LOAD implies phdrs[i].p_vaddr
            + phdrs[i].p_memsz <= max_load_end(phdrs) by {
            if i < phdrs.len() - 1 {
                assert(phdrs.drop_last()[i] == phdrs[i]);
            }
        }
    }
}

/// Whether the extent of the `PT_LOAD` segments can be computed.
pub fn check_load_size(phdrs: &[ProgramHeader]) -> (r: bool)
    ensures
        r == load_size_fits(phdrs@),
{
    let mut max_vaddr: u64 = 0;
    let mut i: usize = 0;
    while i < phdrs.len()
        invariant
            i <= phdrs@.len(),
            max_vaddr == max_load_end(phdrs@.subrange(0, i as int)),
            forall|j: int|
                0 <= j < i && (#[trigger] phdrs@[j]).p_type == PT_LOAD ==> phdrs@[j].p_vaddr
                    + phdrs@[j].p_memsz <= u64::MAX,
        decreases phdrs@.len() - i,
    {
        let p = phdrs[i];
        assert(phdrs@.subrange(0, i + 1).drop_last() =~= phdrs@.subrange(0, i as int));
        if p.p_type == PT_LOAD {
            if p.p_vaddr > u64::MAX - p.p_memsz {
                return false;
            }
            if p.p_vaddr + p.p_memsz > max_vaddr {
                max_vaddr = p.p_vaddr + p.p_memsz;
            }
        }
        i = i + 1;
    }
    assert(phdrs@.subrange(0, phdrs@.len() as int) =~= phdrs@);
    if max_vaddr > u64::MAX - 4095 {
        return false;
    }
    let end = page_end(max_vaddr);
    end <= usize::MAX as u64
}

/// The address space the `PT_LOAD` segments of `phdrs` need: its size, its
/// lowest address (which stays 0, the start of the first page) and its end,
/// the page end of the highest segment end.
pub fn compute_load_size(phdrs: &[ProgramHeader]) -> (r: (usize, u64, u64))
    requires
        load_size_fits(phdrs@),
    ensures
        r.1 == 0,
        r.2 == (max_load_end(phdrs@) + 4095) - (max_load_end(phdrs@) + 4095) % 4096,
        r.0 == r.2 - r.1,
{
    let mut max_vaddr: u64 = 0;
    let mut min_vaddr: u64 = 0;
    let mut i: usize = 0;
    while i < phdrs.len()
        invariant
            i <= phdrs@.len(),
            load_size_fits(phdrs@),
            min_vaddr == 0,
            max_vaddr == max_load_end(phdrs@.subrange(0, i as int)),
        decreases phdrs@.len() - i,
    {
        let p = phdrs[i];
        assert(phdrs@.subrange(0, i + 1).drop_last() =~= phdrs@.subrange(0, i as int));
        if p.p_type == PT_LOAD {
            assert(phdrs@[i as int].p_type == PT_LOAD);
            if p.p_vaddr < min_vaddr {
                min_vaddr = p.p_vaddr;
            }
            if p.p_vaddr + p.p_memsz > max_vaddr {
                max_vaddr = p.p_vaddr + p.p_memsz;
            }
        }
        i = i + 1;
    }
    assert(phdrs@.subrange(0, phdrs@.len() as int) =~= phdrs@);
    min_vaddr = page_start(min_vaddr);
    max_vaddr = page_end(max_vaddr);
    ((max_vaddr - min_vaddr) as usize, min_vaddr, max_vaddr)
}

/// The address space the `PT_LOAD` segments need covers each of them.
pub proof fn lemma_load_size_covers(phdrs: Seq<ProgramHeader>, i: int)
    requires
        load_size_fits(phdrs),
        0 <= i < phdrs.len(),
        phdrs[i].p_type == PT_LOAD,
    ensures
        phdrs[i].p_vaddr + phdrs[i].p_memsz <= (max_load_end(phdrs) + 4095) - (max_load_end(
            phdrs,
        ) + 4095) % 4096,
{
    lemma_max_load_end_bounds(phdrs);
}

/// The address space reserved at `start` for segments whose lowest address
/// is `min_vaddr`: its start, the load bias (`start - min_vaddr`) and its
/// end (`start + size`).
pub fn reserved_range(start: u64, min_vaddr: u64, size: usize) -> (r: (u64, u64, u64))
    requires
        min_vaddr <= start,
        start + size <= u64::MAX,
    ensures
        r == (start, (start - min_vaddr) as u64, (start + size) as u64),
{
    (start, start - min_vaddr, start + size as u64)
}

/// Where the file holds the dynamic array: the offset and size of the first
/// `PT_DYNAMIC` segment; `None` without one.
pub fn dynamic_fragment(phdrs: &[ProgramHeader]) -> (r: Option<(u64, u64)>)
    ensures
        match r {
            Some((off, size)) => first_of_type(phdrs@, PT_DYNAMIC) matches Some(i) && off
                == phdrs@[i].p_offset && size == phdrs@[i].p_filesz,
            None => first_of_type(phdrs@, PT_DYNAMIC) is None,
        },
{
    match find_first_of_type(phdrs, PT_DYNAMIC) {
        Some(i) => Some((phdrs[i].p_offset, phdrs[i].p_filesz)),
        None => None,
    }
}

/// Entry `k` of the dynamic entries laid out in `bytes` is `DT_NULL`, and
/// no entry before it is.
pub open spec fn is_first_null(bytes: Seq<u8>, k: int) -> bool {
    &&& 0 <= k
    &&& 16 * k + 16 <= bytes.len()
    &&& dyn_from(bytes, 16 * k).d_tag == DT_NULL
    &&& forall|j: int| 0 <= j < k ==> (#[trigger] dyn_from(bytes, 16 * j)).d_tag != DT_NULL
}

/// The dynamic entries laid out in `bytes`, up to and with the first
/// `DT_NULL`; `None` when the bytes hold no `DT_NULL` entry.
pub open spec fn spec_dyns_until_null(bytes: Seq<u8>) -> Option<Seq<Dyn>> {
    if exists|k: int| is_first_null(bytes, k) {
        let k = choose|k: int| is_first_null(bytes, k);
        Some(Seq::new((k + 1) as nat, |j: int| dyn_from(bytes, 16 * j)))
    } else {
        None
    }
}

proof fn lemma_first_null_unique(bytes: Seq<u8>, k: int)
    requires
        is_first_null(bytes, k),
    ensures
        spec_dyns_until_null(bytes) == Some(Seq::new((k + 1) as nat, |j: int| dyn_from(bytes, 16 * j))),
{
    let c = choose|c: int| is_first_null(bytes, c);
    assert(is_first_null(bytes, c));
    if c < k {
        assert(dyn_from(bytes, 16 * c).d_tag != DT_NULL);
    } else if k < c {
        assert(dyn_from(bytes, 16 * k).d_tag != DT_NULL);
    }
}

/// Reads the dynamic array from the bytes of a mapped `PT_DYNAMIC` segment:
/// the entries up to and with the first `DT_NULL`.
pub fn dyns_until_null(bytes: &[u8]) -> (r: Option<Vec<Dyn>>)
    ensures
        match r {
            Some(v) => spec_dyns_until_null(bytes@) == Some(v@),
            None => spec_dyns_until_null(bytes@) is None,
        },
{
    let blen = bytes.len();
    let mut v: Vec<Dyn> = Vec::new();
    let mut i: usize = 0;
    while i < blen / 16
        invariant
            blen == bytes@.len(),
            i <= blen / 16,
            v@ == Seq::new(i as nat, |j: int| dyn_from(bytes@, 16 * j)),
            forall|j: int| 0 <= j < i ==> (#[trigger] dyn_from(bytes@, 16 * j)).d_tag != DT_NULL,
        decreases blen / 16 - i,
    {
        assert(16 * i + 16 <= blen) by (nonlinear_arith)
            requires
                i < blen / 16,
        ;
        let d = dyn_at(bytes, 16 * i);
        v.push(d);
        if d.d_tag == DT_NULL {
            proof {
                assert(is_first_null(bytes@, i as int));
                lemma_first_null_unique(bytes@, i as int);
                assert(v@ =~= Seq::new((i + 1) as nat, |j: int| dyn_from(bytes@, 16 * j)));
            }
            return Some(v);
        }
        i = i + 1;
        assert(v@ =~= Seq::new(i as nat, |j: int| dyn_from(bytes@, 16 * j)));
    }
    proof {
        assert forall|k: int| !is_first_null(bytes@, k) by {
            if is_first_null(bytes@, k) {
                assert(16 * k + 16 <= blen);
                assert(k < blen / 16) by (nonlinear_arith)
                    requires
                        16 * k + 16 <= blen,
                        0 <= k,
                ;
                assert(dyn_from(bytes@, 16 * k).d_tag != DT_NULL);
            }
        }
    }
    None
}

/// The memory protection that the segment flags `x` ask for.
pub open spec fn prot_of(x: u32) -> isize {
    (if x & PF_X == PF_X {
        PROT_EXEC
    } else {
        0
    }) | (if x & PF_R == PF_R {
        PROT_READ
    } else {
        0
    }) | (if x & PF_W == PF_W {
        PROT_WRITE
    } else {
        0
    })
}

/// The memory protection for a segment with flags `x`: executable,
/// readable and writable as its `PF_X`, `PF_R` and `PF_W` bits say.
pub fn pflags_to_prot(x: u32) -> (r: isize)
    ensures
        r == prot_of(x),
        0 <= r <= 7,
        (r & PROT_EXEC != 0) == (x & PF_X != 0),
        (r & PROT_READ != 0) == (x & PF_R != 0),
        (r & PROT_WRITE != 0) == (x & PF_W != 0),
{
    let e: isize = if x & PF_X == PF_X {
        PROT_EXEC
    } else {
        0
    };
    let rd: isize = if x & PF_R == PF_R {
        PROT_READ
    } else {
        0
    };
    let w: isize = if x & PF_W == PF_W {
        PROT_WRITE
    } else {
        0
    };
    assert(x & 1u32 == 1u32 <==> x & 1u32 != 0u32) by (bit_vector);
    assert(x & 4u32 == 4u32 <==> x & 4u32 != 0u32) by (bit_vector);
    assert(x & 2u32 == 2u32 <==> x & 2u32 != 0u32) by (bit_vector);
    assert(((e == 0 || e == 4) && (rd == 0 || rd == 1) && (w == 0 || w == 2)) ==> {
        let r = e | rd | w;
        &&& 0 <= r <= 7
        &&& (r & 4 != 0) == (e == 4)
        &&& (r & 1 != 0) == (rd == 1)
        &&& (r & 2 != 0) == (w == 2)
    }) by (bit_vector);
    e | rd | w
}

/// A file mapping for a `PT_LOAD` segment: `len` bytes of the file from
/// offset `offset`, at the fixed address `addr`, with protection `prot`.
#[derive(Clone, Copy, Debug, PartialEq, Eq)]
pub struct SegmentMap {
    pub addr: u64,
    pub len: u64,
    pub offset: u64,
    pub prot: isize,
}

/// The addresses computed for the segment `p` of an object loaded at
/// `bias` stay within 64 bits.
pub open spec fn segment_fits(p: ProgramHeader, bias: u64) -> bool {
    &&& p.p_vaddr + bias + p.p_memsz <= u64::MAX
    &&& p.p_vaddr + bias + p.p_filesz <= u64::MAX
    &&& p.p_offset + p.p_filesz <= u64::MAX
}

/// The mapping for segment `p` of an object loaded at `bias`: from the page
/// of `p_vaddr + bias`, the file from the page of `p_offset` to the end of
/// the segment's file bytes.
pub open spec fn segment_map(p: ProgramHeader, bias: u64) -> SegmentMap {
    let seg_start = p.p_vaddr + bias;
    let file_page_start = p.p_offset - p.p_offset % 4096;
    SegmentMap {
        addr: (seg_start - seg_start % 4096) as u64,
        len: (p.p_offset + p.p_filesz - file_page_start) as u64,
        offset: file_page_start as u64,
        prot: prot_of(p.p_flags),
    }
}

/// The mappings for the `PT_LOAD` segments of `phdrs`, in order, leaving out
/// those with nothing to map from the file.
pub open spec fn segment_maps(phdrs: Seq<ProgramHeader>, bias: u64) -> Seq<SegmentMap>
    decreases phdrs.len(),
{
    if phdrs.len() == 0 {
        Seq::empty()
    } else {
        let prev = segment_maps(phdrs.drop_last(), bias);
        let p = phdrs.last();
        if p.p_type == PT_LOAD && segment_map(p, bias).len != 0 {
            prev.push(segment_map(p, bias))
        } else {
            prev
        }
    }
}

/// Every `PT_LOAD` segment of `phdrs` fits when loaded at `bias`.
pub open spec fn segments_fit(phdrs: Seq<ProgramHeader>, bias: u64) -> bool {
    forall|i: int|
        0 <= i < phdrs.len() && (#[trigger] phdrs[i]).p_type == PT_LOAD ==> segment_fits(
            phdrs[i],
            bias,
        )
}

/// Whether every `PT_LOAD` segment of `phdrs` fits when loaded at `bias`.
pub fn check_segments_fit(phdrs: &[ProgramHeader], bias: u64) -> (r: bool)
    ensures
        r == segments_fit(phdrs@, bias),
{
    let mut i: usize = 0;
    while i < phdrs.len()
        invariant
            i <= phdrs@.len(),
            forall|j: int|
                0 <= j < i && (#[trigger] phdrs@[j]).p_type == PT_LOAD ==> segment_fits(
                    phdrs@[j],
                    bias,
                ),
        decreases phdrs@.len() - i,
    {
        let p = phdrs[i];
        if p.p_type == PT_LOAD {
            if p.p_vaddr > u64::MAX - bias {
                return false;
            }
            let s = p.p_vaddr + bias;
            if s > u64::MAX - p.p_memsz || s > u64::MAX - p.p_filesz || p.p_offset > u64::MAX
                - p.p_filesz {
                return false;
            }
        }
        i = i + 1;
    }
    true
}

/// The file mappings that load the `PT_LOAD` segments of `phdrs` at
/// `bias`, in order; a segment with no file bytes to map gets none.
pub fn plan_segments(phdrs: &[ProgramHeader], bias: u64) -> (r: Vec<SegmentMap>)
    requires
        segments_fit(phdrs@, bias),
    ensures
        r@ == segment_maps(phdrs@, bias),
{
    let mut out: Vec<SegmentMap> = Vec::new();
    let mut i: usize = 0;
    while i < phdrs.len()
        invariant
            i <= phdrs@.len(),
            segments_fit(phdrs@, bias),
            out@ == segment_maps(phdrs@.subrange(0, i as int), bias),
        decreases phdrs@.len() - i,
    {
        let p = phdrs[i];
        assert(phdrs@.subrange(0, i + 1).drop_last() =~= phdrs@.subrange(0, i as int));
        assert(phdrs@.subrange(0, i + 1).last() == p);
        if p.p_type == PT_LOAD {
            assert(phdrs@[i as int].p_type == PT_LOAD);
            let seg_start = p.p_vaddr + bias;
            let seg_page_start = page_start(seg_start);
            let file_start = p.p_offset;
            let file_end = file_start + p.p_filesz;
            let file_page_start = page_start(file_start);
            let file_length = file_end - file_page_start;
            if file_length != 0 {
                let prot = pflags_to_prot(p.p_flags);
                out.push(
                    SegmentMap {
                        addr: seg_page_start,
                        len: file_length,
                        offset: file_page_start,
                        prot,
                    },
                );
            }
        }
        i = i + 1;
    }
    assert(phdrs@.subrange(0, phdrs@.len() as int) =~= phdrs@);
    out
}

/// A segment's mapping starts on the page of the segment and maps its file
/// bytes, from the start of their page.
pub proof fn lemma_segment_map_covers(p: ProgramHeader, bias: u64)
    requires
        segment_fits(p, bias),
    ensures
        segment_map(p, bias).addr % 4096 == 0,
        segment_map(p, bias).addr <= p.p_vaddr + bias,
        segment_map(p, bias).offset % 4096 == 0,
        segment_map(p, bias).offset <= p.p_offset,
        segment_map(p, bias).offset + segment_map(p, bias).len == p.p_offset + p.p_filesz,
{
}

/// The number of symbols between the symbol table and the string table that
/// follows it; `None` when the string table comes first.
pub fn symbol_count(info: &LinkInfo) -> (r: Option<usize>)
    ensures
        match r {
            Some(n) => info.symtab <= info.strtab && n == (info.strtab - info.symtab) / (
            SIZEOF_SYM as int),
            None => info.strtab < info.symtab || (info.strtab - info.symtab) / (SIZEOF_SYM as int)
                > usize::MAX,
        },
{
    if info.strtab < info.symtab {
        return None;
    }
    let n = (info.strtab - info.symtab) / (SIZEOF_SYM as u64);
    if n > usize::MAX as u64 {
        return None;
    }
    Some(n as usize)
}

/// The object a library loaded at `load_bias` into `[start, end)` makes,
/// from its name, dynamic array, the `LinkInfo` read from it without bias,
/// and the tables read through it; its GOT and hash table addresses get the
/// bias, a missing GOT stays 0.
pub open spec fn spec_loaded_object(
    name: Seq<u8>,
    load_bias: u64,
    start: u64,
    end: u64,
    libs: Seq<Seq<u8>>,
    phdrs: Seq<ProgramHeader>,
    dynamic: Seq<Dyn>,
    strtab: Seq<u8>,
    symtab: Seq<Sym>,
    relatab: Seq<Rela>,
    pltrelatab: Seq<Rela>,
    info: LinkInfo,
) -> SharedObjectView {
    SharedObjectView {
        name,
        load_bias,
        map_begin: start,
        map_end: end,
        libs,
        phdrs,
        dynamic,
        strtab,
        symtab,
        relatab,
        pltrelatab,
        pltgot: if info.pltgot == 0 {
            0
        } else {
            (info.pltgot + load_bias) as u64
        },
        gnu_hash: (info.gnu_hash + load_bias) as u64,
    }
}

/// Assembles the object of a loaded library, as `spec_loaded_object`
/// describes.
pub fn loaded_object(
    soname: &[u8],
    load_bias: u64,
    start: u64,
    end: u64,
    libs: Vec<Vec<u8>>,
    phdrs: Vec<ProgramHeader>,
    dynamic: Vec<Dyn>,
    strtab: Strtab,
    symtab: Vec<Sym>,
    relatab: Vec<Rela>,
    pltrelatab: Vec<Rela>,
    info: &LinkInfo,
) -> (r: SharedObject)
    requires
        info.pltgot + load_bias <= u64::MAX,
        info.gnu_hash + load_bias <= u64::MAX,
    ensures
        r@ == spec_loaded_object(
            soname@,
            load_bias,
            start,
            end,
            strs_view(libs@),
            phdrs@,
            dynamic@,
            strtab.bytes@,
            symtab@,
            relatab@,
            pltrelatab@,
            *info,
        ),
{
    let pltgot = if info.pltgot == 0 {
        0
    } else {
        info.pltgot + load_bias
    };
    let name = crate::memory::copy_range(soname, 0, soname.len());
    assert(name@ =~= soname@);
    let so = SharedObject {
        name,
        load_bias,
        map_begin: start,
        map_end: end,
        libs,
        phdrs,
        dynamic,
        strtab,
        symtab,
        relatab,
        pltrelatab,
        pltgot,
        gnu_hash: info.gnu_hash + load_bias,
    };
    assert(so@.libs =~= strs_view(so.libs@));
    so
}


/// Every `PT_LOAD` segment of `phdrs` whose file bytes, counted from the
/// start of the page that holds the first of them, are not empty gets a
/// mapping: from the page of `p_vaddr + bias`, that many bytes of the file
/// from that page, with the segment's protection. A segment with no file
/// bytes that starts in the middle of a page is mapped too.
pub proof fn lemma_load_segments_mapped(phdrs: Seq<ProgramHeader>, bias: u64, i: int)
    requires
        segments_fit(phdrs, bias),
        0 <= i < phdrs.len(),
        phdrs[i].p_type == PT_LOAD,
        phdrs[i].p_offset + phdrs[i].p_filesz - (phdrs[i].p_offset - phdrs[i].p_offset % 4096)
            != 0,
    ensures
        segment_maps(phdrs, bias).contains(
            SegmentMap {
                addr: ((phdrs[i].p_vaddr + bias) - (phdrs[i].p_vaddr + bias) % 4096) as u64,
                len: (phdrs[i].p_offset + phdrs[i].p_filesz - (phdrs[i].p_offset
                    - phdrs[i].p_offset % 4096)) as u64,
                offset: (phdrs[i].p_offset - phdrs[i].p_offset % 4096) as u64,
                prot: prot_of(phdrs[i].p_flags),
            },
        ),
    decreases phdrs.len(),
{
    let p = phdrs[i];
    let m = SegmentMap {
        addr: ((p.p_vaddr + bias) - (p.p_vaddr + bias) % 4096) as u64,
        len: (p.p_offset + p.p_filesz - (p.p_offset - p.p_offset % 4096)) as u64,
        offset: (p.p_offset - p.p_offset % 4096) as u64,
        prot: prot_of(p.p_flags),
    };
    assert(segment_fits(p, bias));
    let prev = segment_maps(phdrs.drop_last(), bias);
    if i == phdrs.len() - 1 {
        assert(segment_map(p, bias) == m);
        assert(prev.push(m)[prev.len() as int] == m);
    } else {
        assert(phdrs.drop_last()[i] == phdrs[i]);
        assert(segments_fit(phdrs.drop_last(), bias)) by {
            assert forall|j: int|
                0 <= j < phdrs.drop_last().len() && (#[trigger] phdrs.drop_last()[j]).p_type
                    == PT_LOAD implies segment_fits(phdrs.drop_last()[j], bias) by {
                assert(phdrs.drop_last()[j] == phdrs[j]);
            }
        }
        lemma_load_segments_mapped(phdrs.drop_last(), bias, i);
        let j = choose|j: int| 0 <= j < prev.len() && prev[j] == m;
        let q = phdrs.last();
        if q.p_type == PT_LOAD && segment_map(q, bias).len != 0 {
            assert(prev.push(segment_map(q, bias))[j] == m);
        }
    }
}

/// Each mapping planned for `phdrs` belongs to a `PT_LOAD` segment whose
/// file bytes, counted from the start of their first page, are not empty,
/// and maps them from the page of `p_vaddr + bias`.
pub proof fn lemma_segment_maps_come_from_load_segments(
    phdrs: Seq<ProgramHeader>,
    bias: u64,
    j: int,
)
    requires
        0 <= j < segment_maps(phdrs, bias).len(),
    ensures
        exists|i: int|
            #![trigger phdrs[i]]
            0 <= i < phdrs.len() && phdrs[i].p_type == PT_LOAD && (phdrs[i].p_offset
                + phdrs[i].p_filesz - (phdrs[i].p_offset - phdrs[i].p_offset % 4096)) as u64 != 0
                && segment_maps(phdrs, bias)[j] == (SegmentMap {
                addr: ((phdrs[i].p_vaddr + bias) - (phdrs[i].p_vaddr + bias) % 4096) as u64,
                len: (phdrs[i].p_offset + phdrs[i].p_filesz - (phdrs[i].p_offset
                    - phdrs[i].p_offset % 4096)) as u64,
                offset: (phdrs[i].p_offset - phdrs[i].p_offset % 4096) as u64,
                prot: prot_of(phdrs[i].p_flags),
            }),
    decreases phdrs.len(),
{
    let prev = segment_maps(phdrs.drop_last(), bias);
    let q = phdrs.last();
    let last = phdrs.len() - 1;
    if j < prev.len() {
        lemma_segment_maps_come_from_load_segments(phdrs.drop_last(), bias, j);
        let d = phdrs.drop_last();
        let i = choose|i: int|
            #![trigger d[i]]
            0 <= i < d.len() && d[i].p_type == PT_LOAD && (d[i].p_offset + d[i].p_filesz - (
            d[i].p_offset - d[i].p_offset % 4096)) as u64 != 0 && prev[j] == (SegmentMap {
                addr: ((d[i].p_vaddr + bias) - (d[i].p_vaddr + bias) % 4096) as u64,
                len: (d[i].p_offset + d[i].p_filesz - (d[i].p_offset - d[i].p_offset % 4096))
                    as u64,
                offset: (d[i].p_offset - d[i].p_offset % 4096) as u64,
                prot: prot_of(d[i].p_flags),
            });
        assert(d[i] == phdrs[i]);
        if q.p_type == PT_LOAD && segment_map(q, bias).len != 0 {
            assert(prev.push(segment_map(q, bias))[j] == prev[j]);
        }
    } else {
        assert(phdrs[last] == q);
        assert(segment_maps(phdrs, bias)[j] == segment_map(q, bias));
    }
}

} // verus!
