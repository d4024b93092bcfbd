use vstd::prelude::*;
use crate::memory::MemImage;
use crate::binary::elf::dynamic::{Dyn, DT_RELA, DT_RELASZ, DT_RELAENT};
use crate::binary::elf::image::{last_val, val_or_zero, addr_or_zero};
use crate::binary::elf::rela::{
    Rela, R_X86_64_RELATIVE, spec_r_type, r_type, relas_from, read_relas,
};

verus! {

/// The `.rela.dyn` entries of an image: `Elf64_Rela`.
#[allow(non_camel_case_types)]
pub type Elf64_Rela = Rela;

/// A change the linker makes to the process's memory.
#[derive(Clone, Copy, Debug, PartialEq, Eq)]
pub enum Fixup {
    /// Store `value` in the 64-bit word at `addr`.
    Store { addr: u64, value: u64 },
    /// Call the GNU indirect function at `ifunc` and store what it returns
    /// in the 64-bit word at `addr`.
    StoreIfuncResult { addr: u64, ifunc: u64 },
}

/// Where the relocation table of an image loaded at `bias` starts: the last
/// `DT_RELA` value plus the bias (0 when there is none).
pub open spec fn rela_addr(dynamic: Seq<Dyn>, bias: u64) -> u64 {
    addr_or_zero(dynamic, DT_RELA, bias)
}

/// The number of `.rela.dyn` entries: `DT_RELASZ / DT_RELAENT`.
pub open spec fn rela_entries(dynamic: Seq<Dyn>) -> nat {
    (val_or_zero(dynamic, DT_RELASZ) / val_or_zero(dynamic, DT_RELAENT)) as nat
}

/// The relocation table can be located: its entry size is not zero, and the
/// biased `DT_RELA` values stay within 64 bits.
pub open spec fn relocations_locatable(dynamic: Seq<Dyn>, bias: u64) -> bool {
    &&& val_or_zero(dynamic, DT_RELAENT) != 0
    &&& forall|i: int|
        0 <= i < dynamic.len() && #[trigger] dynamic[i].d_tag == DT_RELA ==> dynamic[i].d_val
            + bias <= u64::MAX
}

/// The `.rela.dyn` table of the image described by `dynamic`.
pub open spec fn spec_relocations(mem: MemImage, bias: u64, dynamic: Seq<Dyn>) -> Option<Seq<Rela>> {
    let addr = rela_addr(dynamic, bias);
    let n = rela_entries(dynamic);
    if n <= usize::MAX && mem.holds(addr as int, 24 * n as int) {
        Some(relas_from(mem.bytes@, addr - mem.base, n))
    } else {
        None
    }
}

proof fn lemma_last_val_push(s: Seq<Dyn>, d: Dyn, tag: u64)
    ensures
        last_val(s.push(d), tag) == if d.d_tag == tag {
            Some(d.d_val)
        } else {
            last_val(s, tag)
        },
{
    assert(s.push(d).drop_last() =~= s);
}

/// Whether the relocation table of an image loaded at `bias` with dynamic
/// array `dynamic` can be located.
pub fn check_relocations_locatable(dynamic: &[Dyn], bias: u64) -> (r: bool)
    ensures
        r == relocations_locatable(dynamic@, bias),
{
    let mut relaent: u64 = 0;
    let mut i: usize = 0;
    while i < dynamic.len()
        invariant
            i <= dynamic@.len(),
            relaent == val_or_zero(dynamic@.subrange(0, i as int), DT_RELAENT),
            forall|j: int|
                0 <= j < i && #[trigger] dynamic@[j].d_tag == DT_RELA ==> dynamic@[j].d_val + bias
                    <= u64::MAX,
        decreases dynamic@.len() - i,
    {
        let d = dynamic[i];
        proof {
            let prev = dynamic@.subrange(0, i as int);
            assert(dynamic@.subrange(0, i + 1) =~= prev.push(d));
            lemma_last_val_push(prev, d, DT_RELAENT);
        }
        if d.d_tag == DT_RELA && d.d_val > u64::MAX - bias {
            return false;
        }
        if d.d_tag == DT_RELAENT {
            relaent = d.d_val;
        }
        i = i + 1;
    }
    assert(dynamic@.subrange(0, dynamic@.len() as int) =~= dynamic@);
    relaent != 0
}

/// Scans the dynamic array for the `.rela.dyn` table (`DT_RELA`,
/// `DT_RELASZ`, `DT_RELAENT`) and reads it from the image; `None` when the
/// image does not hold it.
pub fn get_relocations(mem: &MemImage, bias: u64, dynamic: &[Dyn]) -> (r: Option<Vec<Elf64_Rela>>)
    requires
        relocations_locatable(dynamic@, bias),
    ensures
        match r {
            Some(v) => spec_relocations(*mem, bias, dynamic@) == Some(v@),
            None => spec_relocations(*mem, bias, dynamic@) is None,
        },
{
    let mut rela: u64 = 0;
    let mut relasz: u64 = 0;
    let mut relaent: u64 = 0;
    let mut i: usize = 0;
    while i < dynamic.len()
        invariant
            i <= dynamic@.len(),
            relocations_locatable(dynamic@, bias),
            rela == addr_or_zero(dynamic@.subrange(0, i as int), DT_RELA, bias),
            relasz == val_or_zero(dynamic@.subrange(0, i as int), DT_RELASZ),
            relaent == val_or_zero(dynamic@.subrange(0, i as int), DT_RELAENT),
        decreases dynamic@.len() - i,
    {
        let d = dynamic[i];
        proof {
            let prev = dynamic@.subrange(0, i as int);
            assert(dynamic@.subrange(0, i + 1) =~= prev.push(d));
            lemma_last_val_push(prev, d, DT_RELA);
            lemma_last_val_push(prev, d, DT_RELASZ);
            lemma_last_val_push(prev, d, DT_RELAENT);
        }
        if d.d_tag == DT_RELA {
            assert(dynamic@[i as int].d_tag == DT_RELA);
            rela = d.d_val + bias;
        } else if d.d_tag == DT_RELASZ {
            relasz = d.d_val;
        } else if d.d_tag == DT_RELAENT {
            relaent = d.d_val;
        }
        i = i + 1;
    }
    assert(dynamic@.subrange(0, dynamic@.len() as int) =~= dynamic@);
    let count = relasz / relaent;
    if count > usize::MAX as u64 {
        return None;
    }
    read_relas(mem, rela, count as usize)
}

/// The fixup a relocation needs when only `R_X86_64_RELATIVE` relocations
/// are applied: the word at `r_offset + bias` gets `r_addend + bias`.
pub open spec fn relative_fixups(relas: Seq<Rela>, bias: u64) -> Seq<Fixup>
    decreases relas.len(),
{
    if relas.len() == 0 {
        Seq::empty()
    } else {
        let rest = relative_fixups(relas.drop_last(), bias);
        let r = relas.last();
        if spec_r_type(r.r_info) == R_X86_64_RELATIVE {
            rest.push(
                Fixup::Store {
                    addr: (r.r_offset + bias) as u64,
                    value: (r.r_addend + bias as i64) as i64 as u64,
                },
            )
        } else {
            rest
        }
    }
}

/// Applying the relocation `r` with `bias` stays within the machine's
/// integers.
pub open spec fn rela_fits(r: Rela, bias: u64) -> bool {
    &&& r.r_offset + bias <= u64::MAX
    &&& i64::MIN <= r.r_addend + bias as i64 <= i64::MAX
}

/// The `R_X86_64_RELATIVE` relocations of `relas` all fit.
pub open spec fn relative_relas_fit(relas: Seq<Rela>, bias: u64) -> bool {
    forall|i: int|
        0 <= i < relas.len() && spec_r_type(#[trigger] relas[i].r_info) == R_X86_64_RELATIVE
            ==> rela_fits(relas[i], bias)
}

/// The stores that apply the `R_X86_64_RELATIVE` relocations of `relas` to
/// an image loaded at `bias`, in the order of the table.
pub fn relocate(relas: &[Elf64_Rela], bias: u64) -> (r: Vec<Fixup>)
    requires
        relative_relas_fit(relas@, bias),
    ensures
        r@ == relative_fixups(relas@, bias),
{
    let mut out: Vec<Fixup> = Vec::new();
    let mut i: usize = 0;
    while i < relas.len()
        invariant
            i <= relas@.len(),
            relative_relas_fit(relas@, bias),
            out@ == relative_fixups(relas@.subrange(0, i as int), bias),
        decreases relas@.len() - i,
    {
        let rela = relas[i];
        proof {
            assert(relas@.subrange(0, i + 1).drop_last() =~= relas@.subrange(0, i as int));
        }
        if r_type(rela.r_info) == R_X86_64_RELATIVE {
            out.push(
                Fixup::Store {
                    addr: rela.r_offset + bias,
                    value: (rela.r_addend + bias as i64) as u64,
                },
            );
        }
        i = i + 1;
    }
    assert(relas@.subrange(0, relas@.len() as int) =~= relas@);
    out
}

} // verus!
