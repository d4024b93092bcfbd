//! Relocating the objects of the link map: the `.rela.dyn` and PLT
//! relocations, the GOT set up for lazy binding, and what must hold for them
//! to be applied.
use vstd::prelude::*;
use crate::binary::elf::rela::{
    Rela, R_X86_64_RELATIVE, R_X86_64_DTPMOD64, R_X86_64_TPOFF64, R_X86_64_GLOB_DAT,
    R_X86_64_64, R_X86_64_JUMP_SLOT, R_X86_64_IRELATIVE, spec_r_type, spec_r_sym, r_type, r_sym,
};
use crate::binary::elf::image::{
    SharedObject, spec_find_in, all_resolvable, sym_name, find_in, symbols_resolvable,
    check_str_defined, sym_name_readable,
};
use crate::binary::elf::gnu_hash::hash;
use crate::binary::elf::sym::SHN_UNDEF;
use crate::relocate::{Fixup, relative_fixups};
use crate::runtime::{resolvable_request, requested_name, spec_resolve};
use crate::linker::{Linker, linker_fixups};

verus! {

/// The second and third GOT entries: a pointer to the rendezvous structure
/// the resolver gets back, and the resolver's address. Nothing for an
/// object without a GOT.
pub open spec fn got_setup(pltgot: u64, rendezvous: u64, resolver: u64) -> Seq<Fixup> {
    if pltgot == 0 {
        Seq::empty()
    } else {
        seq![
            Fixup::Store { addr: (pltgot + 8) as u64, value: rendezvous },
            Fixup::Store { addr: (pltgot + 16) as u64, value: resolver },
        ]
    }
}

/// The fixup that the `.rela.dyn` relocation `r` of `so` needs, given the
/// objects `link_map` symbols are searched in: `R_X86_64_RELATIVE` and
/// `R_X86_64_TPOFF64` store `B + A`, `R_X86_64_GLOB_DAT` stores `S`, and
/// `R_X86_64_64` stores `S + A`; a symbol not found leaves its word alone.
pub open spec fn got_fixup(link_map: Seq<SharedObject>, so: &SharedObject, r: Rela) -> Option<Fixup> {
    let t = spec_r_type(r.r_info);
    let addr = (r.r_offset + so.load_bias) as u64;
    let name = sym_name(so, spec_r_sym(r.r_info) as int);
    if t == R_X86_64_RELATIVE || t == R_X86_64_TPOFF64 {
        Some(Fixup::Store { addr, value: (r.r_addend + so.load_bias as i64) as i64 as u64 })
    } else if t == R_X86_64_GLOB_DAT {
        match spec_find_in(link_map, name) {
            Some(s) => Some(Fixup::Store { addr, value: s }),
            None => None,
        }
    } else if t == R_X86_64_64 {
        match spec_find_in(link_map, name) {
            Some(s) => Some(Fixup::Store { addr, value: (r.r_addend + s as i64) as i64 as u64 }),
            None => None,
        }
    } else {
        None
    }
}

/// The fixups of the relocations `relas` of `so`, in order.
pub open spec fn got_fixups(link_map: Seq<SharedObject>, so: &SharedObject, relas: Seq<Rela>) -> Seq<
    Fixup,
>
    decreases relas.len(),
{
    if relas.len() == 0 {
        Seq::empty()
    } else {
        let rest = got_fixups(link_map, so, relas.drop_last());
        match got_fixup(link_map, so, relas.last()) {
            Some(f) => rest.push(f),
            None => rest,
        }
    }
}

/// The relocation `r` of `so` names a symbol `so` has, whose name can be
/// read, and applying it stays within the machine's integers.
pub open spec fn got_rela_ok(link_map: Seq<SharedObject>, so: &SharedObject, r: Rela) -> bool {
    let t = spec_r_type(r.r_info);
    &&& spec_r_sym(r.r_info) < so.symtab@.len()
    &&& sym_name_readable(so, spec_r_sym(r.r_info) as int)
    &&& r.r_offset + so.load_bias <= u64::MAX
    &&& (t == R_X86_64_RELATIVE || t == R_X86_64_TPOFF64) ==> i64::MIN <= r.r_addend
        + so.load_bias as i64 <= i64::MAX
    &&& t == R_X86_64_64 ==> match spec_find_in(
        link_map,
        sym_name(so, spec_r_sym(r.r_info) as int),
    ) {
        Some(s) => i64::MIN <= r.r_addend + s as i64 <= i64::MAX,
        None => true,
    }
}

/// The fixup that the PLT relocation `r` of `so` needs: with `bind_now`, an
/// `R_X86_64_JUMP_SLOT` gets the symbol's address when it is found; an
/// `R_X86_64_IRELATIVE` gets what its resolver function at `B + A` returns.
pub open spec fn plt_fixup(
    link_map: Seq<SharedObject>,
    bind_now: bool,
    so: &SharedObject,
    r: Rela,
) -> Option<Fixup> {
    let t = spec_r_type(r.r_info);
    let addr = (r.r_offset + so.load_bias) as u64;
    if t == R_X86_64_JUMP_SLOT && bind_now {
        match spec_find_in(link_map, sym_name(so, spec_r_sym(r.r_info) as int)) {
            Some(s) => Some(Fixup::Store { addr, value: s }),
            None => None,
        }
    } else if t == R_X86_64_IRELATIVE {
        Some(
            Fixup::StoreIfuncResult {
                addr,
                ifunc: (r.r_addend + so.load_bias as i64) as i64 as u64,
            },
        )
    } else {
        None
    }
}

/// The fixups of the PLT relocations `relas` of `so`, in order.
pub open spec fn plt_fixups(
    link_map: Seq<SharedObject>,
    bind_now: bool,
    so: &SharedObject,
    relas: Seq<Rela>,
) -> Seq<Fixup>
    decreases relas.len(),
{
    if relas.len() == 0 {
        Seq::empty()
    } else {
        let rest = plt_fixups(link_map, bind_now, so, relas.drop_last());
        match plt_fixup(link_map, bind_now, so, relas.last()) {
            Some(f) => rest.push(f),
            None => rest,
        }
    }
}

/// The PLT relocation `r` of `so` names a symbol `so` has, whose name can be
/// read, and applying it stays within the machine's integers.
pub open spec fn plt_rela_ok(so: &SharedObject, r: Rela) -> bool {
    &&& spec_r_sym(r.r_info) < so.symtab@.len()
    &&& sym_name_readable(so, spec_r_sym(r.r_info) as int)
    &&& r.r_offset + so.load_bias <= u64::MAX
    &&& spec_r_type(r.r_info) == R_X86_64_IRELATIVE ==> i64::MIN <= r.r_addend
        + so.load_bias as i64 <= i64::MAX
}

/// `r == a + b` as 64-bit signed integers, without overflow.
fn add_i64(a: i64, b: i64) -> (r: i64)
    requires
        i64::MIN <= a + b <= i64::MAX,
    ensures
        r == a + b,
{
    a + b
}

impl Linker {
    /// The address of `name` in the first object of the link map that
    /// defines it.
    pub fn find_symbol(&self, name: &[u8]) -> (r: Option<u64>)
        requires
            all_resolvable(self.link_map@),
        ensures
            r == spec_find_in(self.link_map@, name@),
    {
        let h = hash(name);
        find_in(self.link_map.as_slice(), name, h)
    }

    /// Sets up the GOT at `pltgot` of the `idx`-th object of the link map for
    /// lazy binding: GOT[1] gets the address of the object's rendezvous
    /// structure (which the caller made, and which records `idx`), GOT[2]
    /// the resolver's address. An object without a GOT gets nothing.
    pub fn prepare_got(&self, idx: usize, pltgot: u64, rendezvous: u64, resolver: u64) -> (r: Vec<
        Fixup,
    >)
        requires
            pltgot == 0 || pltgot + 16 <= u64::MAX,
        ensures
            r@ == got_setup(pltgot, rendezvous, resolver),
    {
        let mut out: Vec<Fixup> = Vec::new();
        if pltgot == 0 {
            return out;
        }
        out.push(Fixup::Store { addr: pltgot + 8, value: rendezvous });
        out.push(Fixup::Store { addr: pltgot + 16, value: resolver });
        assert(out@ =~= got_setup(pltgot, rendezvous, resolver));
        out
    }

    /// Relocates the `.rela.dyn` entries of `object`, the `idx`-th object of
    /// the link map, and then prepares its GOT: the fixups that do it.
    pub fn relocate_got(&self, idx: usize, object: &SharedObject, rendezvous: u64, resolver: u64) -> (r:
        Vec<Fixup>)
        requires
            all_resolvable(self.link_map@),
            symbols_resolvable(object),
            forall|i: int|
                0 <= i < object.relatab@.len() ==> got_rela_ok(
                    self.link_map@,
                    object,
                    #[trigger] object.relatab@[i],
                ),
            object.pltgot == 0 || object.pltgot + 16 <= u64::MAX,
        ensures
            r@ == got_fixups(self.link_map@, object, object.relatab@) + got_setup(
                object.pltgot,
                rendezvous,
                resolver,
            ),
    {
        let bias = object.load_bias;
        let mut out: Vec<Fixup> = Vec::new();
        let mut i: usize = 0;
        while i < object.relatab.len()
            invariant
                i <= object.relatab@.len(),
                bias == object.load_bias,
                all_resolvable(self.link_map@),
                symbols_resolvable(object),
                forall|k: int|
                    0 <= k < object.relatab@.len() ==> got_rela_ok(
                        self.link_map@,
                        object,
                        #[trigger] object.relatab@[k],
                    ),
                out@ == got_fixups(self.link_map@, object, object.relatab@.subrange(0, i as int)),
            decreases object.relatab@.len() - i,
        {
            let rela = object.relatab[i];
            proof {
                assert(object.relatab@.subrange(0, i + 1).drop_last() =~= object.relatab@.subrange(
                    0,
                    i as int,
                ));
                assert(object.relatab@.subrange(0, i + 1).last() == rela);
                assert(got_rela_ok(self.link_map@, object, rela));
            }
            let typ = r_type(rela.r_info);
            let sym = r_sym(rela.r_info) as usize;
            let symbol = object.symtab[sym];
            let name = object.strtab.get(symbol.st_name as usize);
            let reloc = rela.r_offset + bias;
            if typ == R_X86_64_RELATIVE || typ == R_X86_64_TPOFF64 {
                out.push(
                    Fixup::Store { addr: reloc, value: add_i64(rela.r_addend, bias as i64) as u64 },
                );
            } else if typ == R_X86_64_GLOB_DAT {
                match self.find_symbol(name.as_slice()) {
                    Some(s) => out.push(Fixup::Store { addr: reloc, value: s }),
                    None => {},
                }
            } else if typ == R_X86_64_64 {
                match self.find_symbol(name.as_slice()) {
                    Some(s) => out.push(
                        Fixup::Store { addr: reloc, value: add_i64(rela.r_addend, s as i64) as u64 },
                    ),
                    None => {},
                }
            }
            i = i + 1;
        }
        assert(object.relatab@.subrange(0, object.relatab@.len() as int) =~= object.relatab@);
        let mut got = self.prepare_got(idx, object.pltgot, rendezvous, resolver);
        let ghost before = out@;
        out.append(&mut got);
        assert(out@ =~= before + got_setup(object.pltgot, rendezvous, resolver));
        out
    }

    /// Relocates the PLT entries of `so`: binds function symbols now when
    /// `LD_BIND_NOW` asks for it, and resolves GNU indirect functions.
    pub fn relocate_plt(&self, so: &SharedObject) -> (r: Vec<Fixup>)
        requires
            all_resolvable(self.link_map@),
            symbols_resolvable(so),
            forall|i: int|
                0 <= i < so.pltrelatab@.len() ==> plt_rela_ok(so, #[trigger] so.pltrelatab@[i]),
        ensures
            r@ == plt_fixups(self.link_map@, self.config.bind_now, so, so.pltrelatab@),
    {
        let bias = so.load_bias;
        let mut out: Vec<Fixup> = Vec::new();
        let mut i: usize = 0;
        while i < so.pltrelatab.len()
            invariant
                i <= so.pltrelatab@.len(),
                bias == so.load_bias,
                all_resolvable(self.link_map@),
                symbols_resolvable(so),
                forall|k: int|
                    0 <= k < so.pltrelatab@.len() ==> plt_rela_ok(so, #[trigger] so.pltrelatab@[k]),
                out@ == plt_fixups(
                    self.link_map@,
                    self.config.bind_now,
                    so,
                    so.pltrelatab@.subrange(0, i as int),
                ),
            decreases so.pltrelatab@.len() - i,
        {
            let rela = so.pltrelatab[i];
            proof {
                assert(so.pltrelatab@.subrange(0, i + 1).drop_last() =~= so.pltrelatab@.subrange(
                    0,
                    i as int,
                ));
                assert(so.pltrelatab@.subrange(0, i + 1).last() == rela);
                assert(plt_rela_ok(so, rela));
            }
            let typ = r_type(rela.r_info);
            let sym = r_sym(rela.r_info) as usize;
            let symbol = so.symtab[sym];
            let name = so.strtab.get(symbol.st_name as usize);
            let reloc = rela.r_offset + bias;
            if typ == R_X86_64_JUMP_SLOT && self.config.bind_now {
                match self.find_symbol(name.as_slice()) {
                    Some(symbol_address) => out.push(
                        Fixup::Store { addr: reloc, value: symbol_address },
                    ),
                    None => {},
                }
            } else if typ == R_X86_64_IRELATIVE {
                let addr = add_i64(rela.r_addend, bias as i64);
                out.push(Fixup::StoreIfuncResult { addr: reloc, ifunc: addr as u64 });
            }
            i = i + 1;
        }
        assert(so.pltrelatab@.subrange(0, so.pltrelatab@.len() as int) =~= so.pltrelatab@);
        out
    }
}


/// Whether `a + b` is a 64-bit signed integer.
fn add_i64_fits(a: i64, b: i64) -> (r: bool)
    ensures
        r == (i64::MIN <= a + b <= i64::MAX),
{
    if b > 0 {
        a <= i64::MAX - b
    } else {
        a >= i64::MIN - b
    }
}

/// Symbol `k` of `so`, when defined, has a readable name and an address
/// within 64 bits.
spec fn sym_resolvable(so: &SharedObject, k: int) -> bool {
    so.symtab@[k].st_shndx != SHN_UNDEF ==> sym_name_readable(so, k) && so.load_bias
        + so.symtab@[k].st_value <= u64::MAX
}

/// Whether every defined symbol of `so` has a readable name and an address
/// within 64 bits.
pub fn check_symbols_resolvable(so: &SharedObject) -> (r: bool)
    ensures
        r == symbols_resolvable(so),
{
    let mut i: usize = 0;
    while i < so.symtab.len()
        invariant
            i <= so.symtab@.len(),
            forall|k: int| 0 <= k < i ==> #[trigger] sym_resolvable(so, k),
        decreases so.symtab@.len() - i,
    {
        let sym = so.symtab[i];
        if sym.st_shndx != SHN_UNDEF && (!check_str_defined(
            sym.st_name as usize,
            so.strtab.bytes.as_slice(),
        ) || sym.st_value > u64::MAX - so.load_bias) {
            assert(!sym_resolvable(so, i as int));
            return false;
        }
        assert(sym_resolvable(so, i as int));
        i = i + 1;
    }
    assert forall|k: int|
        0 <= k < so.symtab@.len() && (#[trigger] so.symtab@[k]).st_shndx != SHN_UNDEF implies sym_name_readable(
        so,
        k,
    ) && so.load_bias + so.symtab@[k].st_value <= u64::MAX by {
        assert(sym_resolvable(so, k));
    }
    true
}

/// Whether every object of `link_map` has resolvable symbols.
pub fn check_all_resolvable(link_map: &[SharedObject]) -> (r: bool)
    ensures
        r == all_resolvable(link_map@),
{
    let mut i: usize = 0;
    while i < link_map.len()
        invariant
            i <= link_map@.len(),
            forall|k: int| 0 <= k < i ==> symbols_resolvable(#[trigger] &link_map@[k]),
        decreases link_map@.len() - i,
    {
        if !check_symbols_resolvable(&link_map[i]) {
            return false;
        }
        i = i + 1;
    }
    true
}

/// The link map can be relocated: its objects' symbols resolve, their
/// relocations name symbols they have and can be applied, and their GOTs
/// can be prepared.
pub open spec fn link_ready(link_map: Seq<SharedObject>) -> bool {
    &&& all_resolvable(link_map)
    &&& forall|i: int, k: int|
        0 <= i < link_map.len() && 0 <= k < link_map[i].relatab@.len() ==> got_rela_ok(
            link_map,
            &link_map[i],
            #[trigger] link_map[i].relatab@[k],
        )
    &&& forall|i: int, k: int|
        0 <= i < link_map.len() && 0 <= k < link_map[i].pltrelatab@.len() ==> plt_rela_ok(
            &link_map[i],
            #[trigger] link_map[i].pltrelatab@[k],
        )
    &&& forall|i: int|
        0 <= i < link_map.len() ==> (#[trigger] link_map[i]).pltgot == 0 || link_map[i].pltgot
            + 16 <= u64::MAX
}

/// The fixups of the first `n` objects of `link_map`'s `.rela.dyn` tables,
/// each followed by its GOT setup with the rendezvous pointer given for it.
pub open spec fn got_all(
    link_map: Seq<SharedObject>,
    n: nat,
    rendezvous: Seq<u64>,
    resolver: u64,
) -> Seq<Fixup>
    decreases n,
{
    if n == 0 {
        Seq::empty()
    } else {
        let so = link_map[n - 1];
        got_all(link_map, (n - 1) as nat, rendezvous, resolver) + got_fixups(
            link_map,
            &so,
            so.relatab@,
        ) + got_setup(so.pltgot, rendezvous[n - 1], resolver)
    }
}

/// The fixups of the PLT relocations of the first `n` objects of
/// `link_map`.
pub open spec fn plt_all(link_map: Seq<SharedObject>, n: nat, bind_now: bool) -> Seq<Fixup>
    decreases n,
{
    if n == 0 {
        Seq::empty()
    } else {
        let so = link_map[n - 1];
        plt_all(link_map, (n - 1) as nat, bind_now) + plt_fixups(
            link_map,
            bind_now,
            &so,
            so.pltrelatab@,
        )
    }
}

impl Linker {
    /// Whether the `.rela.dyn` relocations of `so` name symbols it has and
    /// can be applied.
    pub fn check_got_relas(&self, so: &SharedObject) -> (r: bool)
        requires
            all_resolvable(self.link_map@),
            symbols_resolvable(so),
        ensures
            r == forall|k: int|
                0 <= k < so.relatab@.len() ==> got_rela_ok(
                    self.link_map@,
                    so,
                    #[trigger] so.relatab@[k],
                ),
    {
        let mut i: usize = 0;
        while i < so.relatab.len()
            invariant
                i <= so.relatab@.len(),
                all_resolvable(self.link_map@),
                symbols_resolvable(so),
                forall|k: int|
                    0 <= k < i ==> got_rela_ok(self.link_map@, so, #[trigger] so.relatab@[k]),
            decreases so.relatab@.len() - i,
        {
            let r = so.relatab[i];
            let t = r_type(r.r_info);
            let sym = r_sym(r.r_info) as usize;
            if sym >= so.symtab.len() || r.r_offset > u64::MAX - so.load_bias {
                return false;
            }
            if !check_str_defined(so.symtab[sym].st_name as usize, so.strtab.bytes.as_slice()) {
                return false;
            }
            if (t == R_X86_64_RELATIVE || t == R_X86_64_TPOFF64) && !add_i64_fits(
                r.r_addend,
                so.load_bias as i64,
            ) {
                return false;
            }
            if t == R_X86_64_64 {
                let name = so.strtab.get(so.symtab[sym].st_name as usize);
                match self.find_symbol(name.as_slice()) {
                    Some(s) => {
                        if !add_i64_fits(r.r_addend, s as i64) {
                            return false;
                        }
                    },
                    None => {},
                }
            }
            i = i + 1;
        }
        true
    }

    /// Whether the PLT relocations of `so` name symbols it has and can be
    /// applied.
    pub fn check_plt_relas(so: &SharedObject) -> (r: bool)
        ensures
            r == forall|k: int|
                0 <= k < so.pltrelatab@.len() ==> plt_rela_ok(so, #[trigger] so.pltrelatab@[k]),
    {
        let mut i: usize = 0;
        while i < so.pltrelatab.len()
            invariant
                i <= so.pltrelatab@.len(),
                forall|k: int| 0 <= k < i ==> plt_rela_ok(so, #[trigger] so.pltrelatab@[k]),
            decreases so.pltrelatab@.len() - i,
        {
            let r = so.pltrelatab[i];
            let sym = r_sym(r.r_info) as usize;
            if sym >= so.symtab.len() || r.r_offset > u64::MAX - so.load_bias {
                return false;
            }
            if !check_str_defined(so.symtab[sym].st_name as usize, so.strtab.bytes.as_slice()) {
                return false;
            }
            if r_type(r.r_info) == R_X86_64_IRELATIVE && !add_i64_fits(
                r.r_addend,
                so.load_bias as i64,
            ) {
                return false;
            }
            i = i + 1;
        }
        true
    }

    /// Whether the link map can be relocated.
    pub fn check_link_ready(&self) -> (r: bool)
        ensures
            r == link_ready(self.link_map@),
    {
        if !check_all_resolvable(self.link_map.as_slice()) {
            return false;
        }
        let mut i: usize = 0;
        while i < self.link_map.len()
            invariant
                i <= self.link_map@.len(),
                all_resolvable(self.link_map@),
                forall|j: int, k: int|
                    0 <= j < i && 0 <= k < self.link_map@[j].relatab@.len() ==> got_rela_ok(
                        self.link_map@,
                        &self.link_map@[j],
                        #[trigger] self.link_map@[j].relatab@[k],
                    ),
                forall|j: int, k: int|
                    0 <= j < i && 0 <= k < self.link_map@[j].pltrelatab@.len() ==> plt_rela_ok(
                        &self.link_map@[j],
                        #[trigger] self.link_map@[j].pltrelatab@[k],
                    ),
                forall|j: int|
                    0 <= j < i ==> (#[trigger] self.link_map@[j]).pltgot == 0
                        || self.link_map@[j].pltgot + 16 <= u64::MAX,
            decreases self.link_map@.len() - i,
        {
            let so = &self.link_map[i];
            assert(symbols_resolvable(&self.link_map@[i as int]));
            if !self.check_got_relas(so) || !Linker::check_plt_relas(so) {
                return false;
            }
            if so.pltgot != 0 && so.pltgot > u64::MAX - 16 {
                return false;
            }
            i = i + 1;
        }
        true
    }

    /// Relocates the whole link map: first the `.rela.dyn` relocations and
    /// the GOT of each object in order (object `i` gets `rendezvous[i]` in
    /// its GOT), then the PLT relocations of each.
    pub fn relocate_all(&self, rendezvous: &Vec<u64>, resolver: u64) -> (r: Vec<Fixup>)
        requires
            link_ready(self.link_map@),
            rendezvous@.len() == self.link_map@.len(),
        ensures
            r@ == got_all(self.link_map@, self.link_map@.len(), rendezvous@, resolver) + plt_all(
                self.link_map@,
                self.link_map@.len(),
                self.config.bind_now,
            ),
    {
        let n = self.link_map.len();
        let mut out: Vec<Fixup> = Vec::new();
        let mut i: usize = 0;
        while i < n
            invariant
                n == self.link_map@.len(),
                i <= n,
                link_ready(self.link_map@),
                rendezvous@.len() == n,
                out@ == got_all(self.link_map@, i as nat, rendezvous@, resolver),
            decreases n - i,
        {
            let so = &self.link_map[i];
            assert(symbols_resolvable(&self.link_map@[i as int]));
            assert(forall|k: int|
                0 <= k < so.relatab@.len() ==> got_rela_ok(
                    self.link_map@,
                    so,
                    #[trigger] so.relatab@[k],
                ));
            assert(self.link_map@[i as int].pltgot == 0 || self.link_map@[i as int].pltgot + 16
                <= u64::MAX);
            let mut got = self.relocate_got(i, so, rendezvous[i], resolver);
            let ghost before = out@;
            let ghost g = got@;
            out.append(&mut got);
            assert(out@ =~= before + g);
            i = i + 1;
        }
        let ghost got_part = out@;
        let mut j: usize = 0;
        while j < n
            invariant
                n == self.link_map@.len(),
                j <= n,
                link_ready(self.link_map@),
                out@ == got_part + plt_all(self.link_map@, j as nat, self.config.bind_now),
            decreases n - j,
        {
            let so = &self.link_map[j];
            assert(symbols_resolvable(&self.link_map@[j as int]));
            assert(forall|k: int|
                0 <= k < so.pltrelatab@.len() ==> plt_rela_ok(so, #[trigger] so.pltrelatab@[k]));
            let mut plt = self.relocate_plt(so);
            let ghost before = out@;
            let ghost p = plt@;
            out.append(&mut plt);
            assert(out@ =~= before + p);
            assert(got_part + plt_all(self.link_map@, (j + 1) as nat, self.config.bind_now)
                =~= got_part + plt_all(self.link_map@, j as nat, self.config.bind_now) + p);
            j = j + 1;
        }
        out
    }
}

/// Binding a call lazily gives what binding it at load time stores: for a
/// `R_X86_64_JUMP_SLOT` relocation whose symbol some object defines, the
/// resolver answers with the address that `LD_BIND_NOW` writes into the
/// relocation's slot.
pub proof fn lemma_lazy_binding_agrees(link_map: Seq<SharedObject>, idx: int, rela_idx: int)
    requires
        resolvable_request(link_map, idx, rela_idx),
        spec_r_type(link_map[idx].pltrelatab@[rela_idx].r_info) == R_X86_64_JUMP_SLOT,
        spec_find_in(link_map, requested_name(link_map, idx, rela_idx)) is Some,
    ensures
        ({
            let so = link_map[idx];
            let r = so.pltrelatab@[rela_idx];
            let a = spec_find_in(link_map, requested_name(link_map, idx, rela_idx))->0;
            &&& plt_fixup(link_map, true, &so, r) == Some(
                Fixup::Store { addr: (r.r_offset + so.load_bias) as u64, value: a },
            )
            &&& spec_resolve(link_map, idx, rela_idx) == a as usize
        }),
{
}

/// Without `R_X86_64_DTPMOD64` relocations, the linker relocates itself
/// exactly as any object's `R_X86_64_RELATIVE` relocations are applied.
pub proof fn lemma_linker_relocation_is_relative(relas: Seq<Rela>, bias: u64)
    requires
        forall|i: int| 0 <= i < relas.len() ==> spec_r_type(#[trigger] relas[i].r_info)
            != R_X86_64_DTPMOD64,
    ensures
        linker_fixups(relas, bias) == relative_fixups(relas, bias),
    decreases relas.len(),
{
    if relas.len() > 0 {
        assert forall|i: int| 0 <= i < relas.drop_last().len() implies spec_r_type(
            #[trigger] relas.drop_last()[i].r_info,
        ) != R_X86_64_DTPMOD64 by {
            assert(relas.drop_last()[i] == relas[i]);
        }
        lemma_linker_relocation_is_relative(relas.drop_last(), bias);
        assert(spec_r_type(relas[relas.len() - 1].r_info) != R_X86_64_DTPMOD64);
    }
}

/// Every `.rela.dyn` relocation of `so` of type `R_X86_64_RELATIVE` or
/// `R_X86_64_TPOFF64` gets a store of `B + A` at `B + r_offset`, where `B` is
/// the load bias and `A` the addend: relocating `.rela.dyn` leaves no such
/// word unrelocated.
pub proof fn lemma_relative_relocations_stored(
    link_map: Seq<SharedObject>,
    so: &SharedObject,
    relas: Seq<Rela>,
    k: int,
)
    requires
        0 <= k < relas.len(),
        spec_r_type(relas[k].r_info) == R_X86_64_RELATIVE || spec_r_type(relas[k].r_info)
            == R_X86_64_TPOFF64,
    ensures
        got_fixups(link_map, so, relas).contains(
            Fixup::Store {
                addr: (relas[k].r_offset + so.load_bias) as u64,
                value: (relas[k].r_addend + so.load_bias as i64) as i64 as u64,
            },
        ),
    decreases relas.len(),
{
    let f = Fixup::Store {
        addr: (relas[k].r_offset + so.load_bias) as u64,
        value: (relas[k].r_addend + so.load_bias as i64) as i64 as u64,
    };
    let rest = got_fixups(link_map, so, relas.drop_last());
    if k == relas.len() - 1 {
        assert(got_fixups(link_map, so, relas) == rest.push(f));
        assert(rest.push(f)[rest.len() as int] == f);
    } else {
        assert(relas.drop_last()[k] == relas[k]);
        lemma_relative_relocations_stored(link_map, so, relas.drop_last(), k);
        let j = choose|j: int| 0 <= j < rest.len() && rest[j] == f;
        match got_fixup(link_map, so, relas.last()) {
            Some(g) => {
                assert(rest.push(g)[j] == f);
            },
            None => {},
        }
    }
}

/// Each fixup that relocating the `.rela.dyn` entries `relas` of `so` gives
/// comes from one of them, stored at `B + r_offset`: `B + A` for
/// `R_X86_64_RELATIVE` and `R_X86_64_TPOFF64`, the address of the symbol
/// that some object of `link_map` defines for `R_X86_64_GLOB_DAT`, and that
/// address plus `A` for `R_X86_64_64`. No other relocation, and no symbol
/// that no object defines, gives a store.
pub proof fn lemma_got_fixups_come_from_relocations(
    link_map: Seq<SharedObject>,
    so: &SharedObject,
    relas: Seq<Rela>,
    j: int,
)
    requires
        0 <= j < got_fixups(link_map, so, relas).len(),
    ensures
        exists|k: int|
            #![trigger relas[k]]
            0 <= k < relas.len() && {
                let r = relas[k];
                let t = spec_r_type(r.r_info);
                let addr = (r.r_offset + so.load_bias) as u64;
                let found = spec_find_in(link_map, sym_name(so, spec_r_sym(r.r_info) as int));
                let f = got_fixups(link_map, so, relas)[j];
                ||| (t == R_X86_64_RELATIVE || t == R_X86_64_TPOFF64) && f == Fixup::Store {
                    addr,
                    value: (r.r_addend + so.load_bias as i64) as i64 as u64,
                }
                ||| t == R_X86_64_GLOB_DAT && found is Some && f == Fixup::Store {
                    addr,
                    value: found->0,
                }
                ||| t == R_X86_64_64 && found is Some && f == Fixup::Store {
                    addr,
                    value: (r.r_addend + found->0 as i64) as i64 as u64,
                }
            },
    decreases relas.len(),
{
    let rest = got_fixups(link_map, so, relas.drop_last());
    let last = relas.len() - 1;
    if j < rest.len() {
        lemma_got_fixups_come_from_relocations(link_map, so, relas.drop_last(), j);
        let k = choose|k: int|
            #![trigger relas.drop_last()[k]]
            0 <= k < relas.drop_last().len() && {
                let r = relas.drop_last()[k];
                let t = spec_r_type(r.r_info);
                let addr = (r.r_offset + so.load_bias) as u64;
                let found = spec_find_in(link_map, sym_name(so, spec_r_sym(r.r_info) as int));
                let f = rest[j];
                ||| (t == R_X86_64_RELATIVE || t == R_X86_64_TPOFF64) && f == Fixup::Store {
                    addr,
                    value: (r.r_addend + so.load_bias as i64) as i64 as u64,
                }
                ||| t == R_X86_64_GLOB_DAT && found is Some && f == Fixup::Store {
                    addr,
                    value: found->0,
                }
                ||| t == R_X86_64_64 && found is Some && f == Fixup::Store {
                    addr,
                    value: (r.r_addend + found->0 as i64) as i64 as u64,
                }
            };
        assert(relas.drop_last()[k] == relas[k]);
        match got_fixup(link_map, so, relas.last()) {
            Some(g) => {
                assert(rest.push(g)[j] == rest[j]);
            },
            None => {},
        }
        assert(relas[k] == relas[k]);
    } else {
        match got_fixup(link_map, so, relas.last()) {
            Some(g) => {
                assert(got_fixups(link_map, so, relas)[j] == g);
                assert(relas[last] == relas.last());
            },
            None => {},
        }
    }
}

/// Under `LD_BIND_NOW` every `R_X86_64_JUMP_SLOT` relocation of `so` whose
/// symbol an object of `link_map` defines gets that symbol's address stored
/// in its slot, and every `R_X86_64_IRELATIVE` relocation, with or without
/// it, gets its slot filled from the resolver at `B + A`.
pub proof fn lemma_plt_relocations_bound(
    link_map: Seq<SharedObject>,
    bind_now: bool,
    so: &SharedObject,
    relas: Seq<Rela>,
    k: int,
)
    requires
        0 <= k < relas.len(),
    ensures
        ({
            let r = relas[k];
            let addr = (r.r_offset + so.load_bias) as u64;
            let found = spec_find_in(link_map, sym_name(so, spec_r_sym(r.r_info) as int));
            &&& spec_r_type(r.r_info) == R_X86_64_JUMP_SLOT && bind_now && found is Some
                ==> plt_fixups(link_map, bind_now, so, relas).contains(
                Fixup::Store { addr, value: found->0 },
            )
            &&& spec_r_type(r.r_info) == R_X86_64_IRELATIVE ==> plt_fixups(
                link_map,
                bind_now,
                so,
                relas,
            ).contains(
                Fixup::StoreIfuncResult {
                    addr,
                    ifunc: (r.r_addend + so.load_bias as i64) as i64 as u64,
                },
            )
        }),
    decreases relas.len(),
{
    let rest = plt_fixups(link_map, bind_now, so, relas.drop_last());
    if k == relas.len() - 1 {
        match plt_fixup(link_map, bind_now, so, relas.last()) {
            Some(g) => {
                assert(rest.push(g)[rest.len() as int] == g);
            },
            None => {},
        }
    } else {
        assert(relas.drop_last()[k] == relas[k]);
        lemma_plt_relocations_bound(link_map, bind_now, so, relas.drop_last(), k);
        match plt_fixup(link_map, bind_now, so, relas.last()) {
            Some(g) => {
                assert forall|f: Fixup| rest.contains(f) implies rest.push(g).contains(f) by {
                    let j = choose|j: int| 0 <= j < rest.len() && rest[j] == f;
                    assert(rest.push(g)[j] == f);
                }
            },
            None => {},
        }
    }
}

/// Each fixup that binding the PLT relocations `relas` of `so` gives comes
/// from one of them, at `B + r_offset`: either an `R_X86_64_JUMP_SLOT`
/// bound under `LD_BIND_NOW` to the address of a symbol that some object of
/// `link_map` defines, or an `R_X86_64_IRELATIVE` filled from the resolver
/// at `B + A`. A slot whose symbol no object defines is left alone.
pub proof fn lemma_plt_fixups_come_from_relocations(
    link_map: Seq<SharedObject>,
    bind_now: bool,
    so: &SharedObject,
    relas: Seq<Rela>,
    j: int,
)
    requires
        0 <= j < plt_fixups(link_map, bind_now, so, relas).len(),
    ensures
        exists|k: int|
            #![trigger relas[k]]
            0 <= k < relas.len() && {
                let r = relas[k];
                let addr = (r.r_offset + so.load_bias) as u64;
                let found = spec_find_in(link_map, sym_name(so, spec_r_sym(r.r_info) as int));
                let f = plt_fixups(link_map, bind_now, so, relas)[j];
                ||| spec_r_type(r.r_info) == R_X86_64_JUMP_SLOT && bind_now && found is Some && f
                    == Fixup::Store { addr, value: found->0 }
                ||| spec_r_type(r.r_info) == R_X86_64_IRELATIVE && f == Fixup::StoreIfuncResult {
                    addr,
                    ifunc: (r.r_addend + so.load_bias as i64) as i64 as u64,
                }
            },
    decreases relas.len(),
{
    let rest = plt_fixups(link_map, bind_now, so, relas.drop_last());
    let last = relas.len() - 1;
    if j < rest.len() {
        lemma_plt_fixups_come_from_relocations(link_map, bind_now, so, relas.drop_last(), j);
        let k = choose|k: int|
            #![trigger relas.drop_last()[k]]
            0 <= k < relas.drop_last().len() && {
                let r = relas.drop_last()[k];
                let addr = (r.r_offset + so.load_bias) as u64;
                let found = spec_find_in(link_map, sym_name(so, spec_r_sym(r.r_info) as int));
                let f = rest[j];
                ||| spec_r_type(r.r_info) == R_X86_64_JUMP_SLOT && bind_now && found is Some && f
                    == Fixup::Store { addr, value: found->0 }
                ||| spec_r_type(r.r_info) == R_X86_64_IRELATIVE && f == Fixup::StoreIfuncResult {
                    addr,
                    ifunc: (r.r_addend + so.load_bias as i64) as i64 as u64,
                }
            };
        assert(relas.drop_last()[k] == relas[k]);
        match plt_fixup(link_map, bind_now, so, relas.last()) {
            Some(g) => {
                assert(rest.push(g)[j] == rest[j]);
            },
            None => {},
        }
        assert(relas[k] == relas[k]);
    } else {
        match plt_fixup(link_map, bind_now, so, relas.last()) {
            Some(g) => {
                assert(plt_fixups(link_map, bind_now, so, relas)[j] == g);
                assert(relas[last] == relas.last());
            },
            None => {},
        }
    }
}

/// `part` stands in `whole` as a block starting at `off`.
pub open spec fn occurs_at<A>(whole: Seq<A>, part: Seq<A>, off: int) -> bool {
    0 <= off && off + part.len() <= whole.len() && whole.subrange(off, off + part.len()) == part
}

proof fn lemma_occurs_in_prefix<A>(a: Seq<A>, b: Seq<A>, part: Seq<A>, off: int)
    requires
        occurs_at(a, part, off),
    ensures
        occurs_at(a + b, part, off),
{
    assert((a + b).subrange(off, off + part.len()) =~= a.subrange(off, off + part.len()));
}

proof fn lemma_occurs_in_suffix<A>(a: Seq<A>, b: Seq<A>, part: Seq<A>, off: int)
    requires
        occurs_at(b, part, off),
    ensures
        occurs_at(a + b, part, a.len() + off),
{
    assert((a + b).subrange(a.len() + off, a.len() + off + part.len()) =~= b.subrange(
        off,
        off + part.len(),
    ));
}

/// The PLT fixups of object `i` stand as one block among the PLT fixups of
/// the first `n` objects, for every `i < n`.
proof fn lemma_plt_all_holds(link_map: Seq<SharedObject>, n: nat, bind_now: bool, i: int)
    requires
        0 <= i < n <= link_map.len(),
    ensures
        exists|off: int|
            occurs_at(
                plt_all(link_map, n, bind_now),
                plt_fixups(link_map, bind_now, &link_map[i], link_map[i].pltrelatab@),
                off,
            ),
    decreases n,
{
    let prev = plt_all(link_map, (n - 1) as nat, bind_now);
    let so = link_map[n - 1];
    let last = plt_fixups(link_map, bind_now, &so, so.pltrelatab@);
    let part = plt_fixups(link_map, bind_now, &link_map[i], link_map[i].pltrelatab@);
    assert(plt_all(link_map, n, bind_now) == prev + last);
    if i == n - 1 {
        assert(last.subrange(0, last.len() as int) =~= last);
        lemma_occurs_in_suffix(prev, last, part, 0);
        assert(occurs_at(plt_all(link_map, n, bind_now), part, prev.len() as int));
    } else {
        lemma_plt_all_holds(link_map, (n - 1) as nat, bind_now, i);
        let off = choose|off: int| occurs_at(prev, part, off);
        lemma_occurs_in_prefix(prev, last, part, off);
        assert(occurs_at(plt_all(link_map, n, bind_now), part, off));
    }
}

/// Relocating the whole link map binds the PLT relocations of every one of
/// its objects, the last one included: after all the `.rela.dyn` and GOT
/// fixups, the PLT fixups of object `i` stand as one block.
pub proof fn lemma_relocate_all_binds_every_plt(
    link_map: Seq<SharedObject>,
    rendezvous: Seq<u64>,
    resolver: u64,
    bind_now: bool,
    i: int,
)
    requires
        0 <= i < link_map.len(),
    ensures
        exists|off: int|
            got_all(link_map, link_map.len(), rendezvous, resolver).len() <= off
                && #[trigger] occurs_at(
                got_all(link_map, link_map.len(), rendezvous, resolver) + plt_all(
                    link_map,
                    link_map.len(),
                    bind_now,
                ),
                plt_fixups(link_map, bind_now, &link_map[i], link_map[i].pltrelatab@),
                off,
            ),
{
    let n = link_map.len();
    let got_part = got_all(link_map, n, rendezvous, resolver);
    let plts = plt_all(link_map, n, bind_now);
    let all = got_part + plts;
    let part = plt_fixups(link_map, bind_now, &link_map[i], link_map[i].pltrelatab@);
    lemma_plt_all_holds(link_map, n, bind_now, i);
    let off = choose|off: int| occurs_at(plts, part, off);
    lemma_occurs_in_suffix(got_part, plts, part, off);
    assert(occurs_at(all, part, got_part.len() + off));
}

/// Relocating the whole link map ends with the PLT fixups of its last
/// object.
pub proof fn lemma_relocate_all_ends_with_last_plt(
    link_map: Seq<SharedObject>,
    rendezvous: Seq<u64>,
    resolver: u64,
    bind_now: bool,
)
    requires
        link_map.len() > 0,
    ensures
        occurs_at(
            got_all(link_map, link_map.len(), rendezvous, resolver) + plt_all(
                link_map,
                link_map.len(),
                bind_now,
            ),
            plt_fixups(
                link_map,
                bind_now,
                &link_map[link_map.len() - 1],
                link_map[link_map.len() - 1].pltrelatab@,
            ),
            (got_all(link_map, link_map.len(), rendezvous, resolver) + plt_all(
                link_map,
                link_map.len(),
                bind_now,
            )).len() - plt_fixups(
                link_map,
                bind_now,
                &link_map[link_map.len() - 1],
                link_map[link_map.len() - 1].pltrelatab@,
            ).len(),
        ),
{
    let n = link_map.len();
    let got_part = got_all(link_map, n, rendezvous, resolver);
    let plts = plt_all(link_map, n, bind_now);
    let all = got_part + plts;
    let so = link_map[n - 1];
    let last = plt_fixups(link_map, bind_now, &so, so.pltrelatab@);
    let prev = plt_all(link_map, (n - 1) as nat, bind_now);
    assert(plts == prev + last);
    assert(all =~= (got_part + prev) + last);
    assert(last.subrange(0, last.len() as int) =~= last);
    lemma_occurs_in_suffix(got_part + prev, last, last, 0);
    assert(all.len() - last.len() == (got_part + prev).len());
}

/// The `.rela.dyn` fixups of object `i` followed by its GOT setup stand as
/// one block among those of the first `n` objects, for every `i < n`.
proof fn lemma_got_all_holds(
    link_map: Seq<SharedObject>,
    n: nat,
    rendezvous: Seq<u64>,
    resolver: u64,
    i: int,
)
    requires
        0 <= i < n <= link_map.len(),
    ensures
        exists|off: int|
            occurs_at(
                got_all(link_map, n, rendezvous, resolver),
                got_fixups(link_map, &link_map[i], link_map[i].relatab@) + got_setup(
                    link_map[i].pltgot,
                    rendezvous[i],
                    resolver,
                ),
                off,
            ),
    decreases n,
{
    let prev = got_all(link_map, (n - 1) as nat, rendezvous, resolver);
    let so = link_map[n - 1];
    let last = got_fixups(link_map, &so, so.relatab@) + got_setup(
        so.pltgot,
        rendezvous[n - 1],
        resolver,
    );
    let part = got_fixups(link_map, &link_map[i], link_map[i].relatab@) + got_setup(
        link_map[i].pltgot,
        rendezvous[i],
        resolver,
    );
    assert(got_all(link_map, n, rendezvous, resolver) =~= prev + last);
    if i == n - 1 {
        assert(last.subrange(0, last.len() as int) =~= last);
        lemma_occurs_in_suffix(prev, last, part, 0);
        assert(occurs_at(got_all(link_map, n, rendezvous, resolver), part, prev.len() as int));
    } else {
        lemma_got_all_holds(link_map, (n - 1) as nat, rendezvous, resolver, i);
        let off = choose|off: int| occurs_at(prev, part, off);
        lemma_occurs_in_prefix(prev, last, part, off);
        assert(occurs_at(got_all(link_map, n, rendezvous, resolver), part, off));
    }
}

/// Relocating the whole link map applies the `.rela.dyn` relocations and
/// sets up the GOT of every one of its objects, each with the rendezvous
/// pointer given for it, before any PLT relocation is bound: the block of
/// object `i` stands within the first `got_all` fixups.
pub proof fn lemma_relocate_all_relocates_every_got(
    link_map: Seq<SharedObject>,
    rendezvous: Seq<u64>,
    resolver: u64,
    bind_now: bool,
    i: int,
)
    requires
        0 <= i < link_map.len(),
    ensures
        exists|off: int|
            #[trigger] occurs_at(
                got_all(link_map, link_map.len(), rendezvous, resolver) + plt_all(
                    link_map,
                    link_map.len(),
                    bind_now,
                ),
                got_fixups(link_map, &link_map[i], link_map[i].relatab@) + got_setup(
                    link_map[i].pltgot,
                    rendezvous[i],
                    resolver,
                ),
                off,
            ) && off + (got_fixups(link_map, &link_map[i], link_map[i].relatab@) + got_setup(
                link_map[i].pltgot,
                rendezvous[i],
                resolver,
            )).len() <= got_all(link_map, link_map.len(), rendezvous, resolver).len(),
{
    let n = link_map.len();
    let got_part = got_all(link_map, n, rendezvous, resolver);
    let all = got_part + plt_all(link_map, n, bind_now);
    let part = got_fixups(link_map, &link_map[i], link_map[i].relatab@) + got_setup(
        link_map[i].pltgot,
        rendezvous[i],
        resolver,
    );
    lemma_got_all_holds(link_map, n, rendezvous, resolver, i);
    let off = choose|off: int| occurs_at(got_part, part, off);
    lemma_occurs_in_prefix(got_part, plt_all(link_map, n, bind_now), part, off);
    assert(occurs_at(all, part, off));
}

/// Relocating an object's `.rela.dyn` entries ends by preparing its GOT for
/// lazy binding: with a GOT at `pltgot`, the last two fixups store the
/// rendezvous pointer in GOT[1] and the resolver's address in GOT[2];
/// without one, nothing follows the relocations.
pub proof fn lemma_relocate_got_ends_with_got_setup(
    link_map: Seq<SharedObject>,
    so: &SharedObject,
    rendezvous: u64,
    resolver: u64,
)
    ensures
        ({
            let r = got_fixups(link_map, so, so.relatab@) + got_setup(
                so.pltgot,
                rendezvous,
                resolver,
            );
            &&& so.pltgot != 0 ==> r.len() >= 2 && r[r.len() - 2] == Fixup::Store {
                addr: (so.pltgot + 8) as u64,
                value: rendezvous,
            } && r[r.len() - 1] == Fixup::Store { addr: (so.pltgot + 16) as u64, value: resolver }
            &&& so.pltgot == 0 ==> r == got_fixups(link_map, so, so.relatab@)
        }),
{
    let g = got_fixups(link_map, so, so.relatab@);
    let r = g + got_setup(so.pltgot, rendezvous, resolver);
    if so.pltgot == 0 {
        assert(r =~= g);
    }
}

} // verus!
