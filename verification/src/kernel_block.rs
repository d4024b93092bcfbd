use vstd::prelude::*;
use vstd::string::StringSliceAdditionalSpecFns;
use crate::utils::{field_line, push_bytes, push_field_line};
use crate::auxv::{Elf64_auxv_t, AT_NULL};
use crate::memory::{MemImage, copy_range, words_at, spec_word_list, read_words, read_word_list};
use crate::utils::{spec_as_str, as_str};
use crate::binary::elf::dynamic::{Dyn, spec_dyn_array, read_dyn_array};

verus! {

/// The number of entries of the table that `get_aux` fills, indexed by
/// `AT_<TYPE>`.
pub const AUX_CNT: usize = 38;

/// What the kernel hands a program on its stack: the arguments, the
/// environment and the auxiliary vector.
#[derive(Debug, PartialEq, Eq)]
pub struct KernelBlock {
    pub argc: isize,
    pub argv: Vec<Vec<u8>>,
    /// The number of environment entries, counting the null pointer that
    /// ends them.
    pub envc: isize,
    /// The environment strings; the last is the empty string read from the
    /// null pointer that ends them.
    pub env: Vec<Vec<u8>>,
    /// The auxiliary vector, up to (and without) its `AT_NULL` entry.
    pub auxv: Vec<Elf64_auxv_t>,
}

/// The byte strings that the vectors hold.
pub open spec fn strs_view(v: Seq<Vec<u8>>) -> Seq<Seq<u8>> {
    v.map_values(|s: Vec<u8>| s@)
}

/// The C strings that the pointers `ptrs` point to; `None` when one of them
/// cannot be read.
pub open spec fn spec_strs(mem: &MemImage, ptrs: Seq<u64>) -> Option<Seq<Seq<u8>>> {
    if forall|i: int| 0 <= i < ptrs.len() ==> (#[trigger] spec_as_str(mem, ptrs[i])) is Some {
        Some(Seq::new(ptrs.len(), |i: int| spec_as_str(mem, ptrs[i])->0))
    } else {
        None
    }
}

/// Reads the C string behind each pointer of `ptrs`.
pub fn read_strs(mem: &MemImage, ptrs: &[u64]) -> (r: Option<Vec<Vec<u8>>>)
    ensures
        match r {
            Some(v) => spec_strs(mem, ptrs@) == Some(strs_view(v@)),
            None => spec_strs(mem, ptrs@) is None,
        },
{
    let mut v: Vec<Vec<u8>> = Vec::new();
    let mut i: usize = 0;
    while i < ptrs.len()
        invariant
            i <= ptrs@.len(),
            v@.len() == i,
            forall|k: int| 0 <= k < i ==> spec_as_str(mem, ptrs@[k]) == Some(#[trigger] v@[k]@),
        decreases ptrs@.len() - i,
    {
        match as_str(mem, ptrs[i]) {
            Some(s) => v.push(s),
            None => {
                assert(spec_as_str(mem, ptrs@[i as int]) is None);
                return None;
            },
        }
        i = i + 1;
    }
    assert forall|k: int| 0 <= k < ptrs@.len() implies (#[trigger] spec_as_str(
        mem,
        ptrs@[k],
    )) is Some by {
        assert(spec_as_str(mem, ptrs@[k]) == Some(v@[k]@));
    }
    assert(spec_strs(mem, ptrs@) == Some(strs_view(v@))) by {
        assert(Seq::new(ptrs@.len(), |k: int| spec_as_str(mem, ptrs@[k])->0) =~= strs_view(v@));
    }
    Some(v)
}

/// The auxiliary vector entry that a 16-byte entry of the same layout holds.
pub open spec fn auxv_of(d: Dyn) -> Elf64_auxv_t {
    Elf64_auxv_t { a_type: d.d_tag, a_val: d.d_val }
}

/// The contents of a kernel argument block at address `args`: `argc`, then
/// `argc` argument pointers, a null slot, the environment pointers up to a
/// null pointer, and then the auxiliary vector up to its `AT_NULL` entry.
/// `None` when the image does not hold all of it, or when a count or an
/// address leaves the range of the machine's integers.
pub open spec fn spec_kernel_block(mem: &MemImage, args: u64) -> Option<
    (int, Seq<Seq<u8>>, Seq<Seq<u8>>, Seq<Elf64_auxv_t>),
> {
    if !mem.holds(args as int, 8) {
        None
    } else {
        let argc = mem.u64_at(args as int);
        let argv_addr = args + 8;
        let envp = args + 8 * (argc + 2);
        if argc > isize::MAX || envp > u64::MAX || !mem.holds(argv_addr, 8 * argc) {
            None
        } else {
            match spec_strs(mem, words_at(*mem, argv_addr, argc as nat)) {
                None => None,
                Some(argv) => match spec_word_list(*mem, envp) {
                    None => None,
                    Some(env_ptrs) => match spec_strs(mem, env_ptrs) {
                        None => None,
                        Some(env) => {
                            let auxv_addr = envp + 8 * (env_ptrs.len() + 1);
                            if auxv_addr > u64::MAX || env_ptrs.len() + 1 > isize::MAX {
                                None
                            } else {
                                match spec_dyn_array(*mem, auxv_addr) {
                                    None => None,
                                    Some(entries) => Some(
                                        (
                                            argc as int,
                                            argv,
                                            env.push(Seq::empty()),
                                            entries.map_values(|d: Dyn| auxv_of(d)),
                                        ),
                                    ),
                                }
                            }
                        },
                    },
                },
            }
        }
    }
}

/// `i` is the first auxiliary entry of type `t`.
pub open spec fn is_first_aux(auxv: Seq<Elf64_auxv_t>, t: u64, i: int) -> bool {
    &&& 0 <= i < auxv.len()
    &&& auxv[i].a_type == t
    &&& forall|j: int| 0 <= j < i ==> auxv[j].a_type != t
}

/// The value of the first auxiliary entry of type `t`.
pub open spec fn spec_getauxval(auxv: Seq<Elf64_auxv_t>, t: u64) -> Result<u64, ()> {
    if exists|i: int| is_first_aux(auxv, t, i) {
        Ok(auxv[choose|i: int| is_first_aux(auxv, t, i)].a_val)
    } else {
        Err(())
    }
}

/// The value of the last entry of `entries` with type `t`, if any.
pub open spec fn last_aux_val(entries: Seq<Elf64_auxv_t>, t: u64) -> Option<u64>
    decreases entries.len(),
{
    if entries.len() == 0 {
        None
    } else if entries.last().a_type == t {
        Some(entries.last().a_val)
    } else {
        last_aux_val(entries.drop_last(), t)
    }
}

/// The number of leading entries with a non-zero value: `get_aux` stops at
/// the first entry whose value is `AT_NULL`.
pub open spec fn aux_prefix(auxv: Seq<Elf64_auxv_t>) -> int {
    if exists|i: int| 0 <= i < auxv.len() && auxv[i].a_val == AT_NULL && forall|j: int|
        0 <= j < i ==> auxv[j].a_val != AT_NULL {
        choose|i: int|
            0 <= i < auxv.len() && auxv[i].a_val == AT_NULL && forall|j: int|
                0 <= j < i ==> auxv[j].a_val != AT_NULL
    } else {
        auxv.len() as int
    }
}

/// The entries `get_aux` copies all have a type below `AUX_CNT`.
pub open spec fn aux_types_fit(auxv: Seq<Elf64_auxv_t>) -> bool {
    forall|j: int| 0 <= j < aux_prefix(auxv) ==> (#[trigger] auxv[j]).a_type < AUX_CNT
}

/// The table `get_aux` returns for the entries `entries`: slot `k` holds the
/// value of the last entry of type `k`, or 0.
pub open spec fn spec_aux_table(entries: Seq<Elf64_auxv_t>) -> Seq<u64> {
    Seq::new(
        AUX_CNT as nat,
        |k: int|
            match last_aux_val(entries, k as u64) {
                Some(v) => v,
                None => 0,
            },
    )
}

/// The environment string `s` defines the variable `name`: it starts with
/// `name` followed by `=`.
pub open spec fn env_defines(s: Seq<u8>, name: Seq<u8>) -> bool {
    &&& s.len() > name.len()
    &&& s.subrange(0, name.len() as int) == name
    &&& s[name.len() as int] == 61
}

/// `i` is the first environment string that defines `name`.
pub open spec fn is_first_env(env: Seq<Seq<u8>>, name: Seq<u8>, i: int) -> bool {
    &&& 0 <= i < env.len()
    &&& env_defines(env[i], name)
    &&& forall|j: int| 0 <= j < i ==> !env_defines(env[j], name)
}

/// The value of the variable `name` in `env`: what follows the `=` in the
/// first string that defines it.
pub open spec fn spec_getenv(env: Seq<Seq<u8>>, name: Seq<u8>) -> Option<Seq<u8>> {
    if exists|i: int| is_first_env(env, name, i) {
        let s = env[choose|i: int| is_first_env(env, name, i)];
        Some(s.subrange(name.len() as int + 1, s.len() as int))
    } else {
        None
    }
}

/// Whether `s` defines `name`.
fn defines(s: &[u8], name: &[u8]) -> (r: bool)
    ensures
        r == env_defines(s@, name@),
{
    if s.len() <= name.len() {
        return false;
    }
    let mut i: usize = 0;
    while i < name.len()
        invariant
            i <= name@.len(),
            name@.len() < s@.len(),
            forall|k: int| 0 <= k < i ==> s@[k] == name@[k],
        decreases name@.len() - i,
    {
        if s[i] != name[i] {
            assert(s@.subrange(0, name@.len() as int)[i as int] != name@[i as int]);
            return false;
        }
        i = i + 1;
    }
    assert(s@.subrange(0, name@.len() as int) =~= name@);
    s[name.len()] == 61
}

impl KernelBlock {
    pub open spec fn argv_view(&self) -> Seq<Seq<u8>> {
        strs_view(self.argv@)
    }

    pub open spec fn env_view(&self) -> Seq<Seq<u8>> {
        strs_view(self.env@)
    }

    /// Reads the kernel argument block at address `args` in the image of the
    /// process's initial stack.
    pub fn new(mem: &MemImage, args: u64) -> (r: Option<KernelBlock>)
        ensures
            match r {
                Some(kb) => spec_kernel_block(mem, args) == Some(
                    (kb.argc as int, kb.argv_view(), kb.env_view(), kb.auxv@),
                ) && kb.envc == kb.env@.len() && kb.argv@.len() == kb.argc && kb.envc >= 1,
                None => spec_kernel_block(mem, args) is None,
            },
    {
        let argc = match mem.read_u64(args) {
            Some(argc) => argc,
            None => {
                return None;
            },
        };
        if argc > isize::MAX as u64 {
            return None;
        }
        let argv_size: u64 = match (argc + 2).checked_mul(8) {
            Some(n) => n,
            None => {
                return None;
            },
        };
        let envp = match args.checked_add(argv_size) {
            Some(a) => a,
            None => {
                return None;
            },
        };
        let argv_addr = args + 8;
        let argv_ptrs = match read_words(mem, argv_addr, argc as usize) {
            Some(p) => p,
            None => {
                return None;
            },
        };
        let argv = match read_strs(mem, argv_ptrs.as_slice()) {
            Some(a) => a,
            None => {
                return None;
            },
        };
        assert(argv@.len() == argc) by {
            assert(strs_view(argv@).len() == argv_ptrs@.len());
        }
        let env_ptrs = match read_word_list(mem, envp) {
            Some(p) => p,
            None => {
                return None;
            },
        };
        let mut env = match read_strs(mem, env_ptrs.as_slice()) {
            Some(e) => e,
            None => {
                return None;
            },
        };
        assert(env@.len() == env_ptrs@.len()) by {
            assert(strs_view(env@).len() == env_ptrs@.len());
        }
        let ghost env_before = env@;
        env.push(Vec::new());
        let envc = env.len();
        if envc > isize::MAX as usize {
            return None;
        }
        let env_size: u64 = match (envc as u64).checked_mul(8) {
            Some(n) => n,
            None => {
                return None;
            },
        };
        let auxv_addr = match envp.checked_add(env_size) {
            Some(a) => a,
            None => {
                return None;
            },
        };
        let entries = match read_dyn_array(mem, auxv_addr) {
            Some(e) => e,
            None => {
                return None;
            },
        };
        let mut auxv: Vec<Elf64_auxv_t> = Vec::new();
        let mut i: usize = 0;
        while i < entries.len()
            invariant
                i <= entries@.len(),
                auxv@ == entries@.subrange(0, i as int).map_values(|d: Dyn| auxv_of(d)),
            decreases entries@.len() - i,
        {
            let d = entries[i];
            auxv.push(Elf64_auxv_t { a_type: d.d_tag, a_val: d.d_val });
            i = i + 1;
            assert(auxv@ =~= entries@.subrange(0, i as int).map_values(|d: Dyn| auxv_of(d)));
        }
        assert(entries@.subrange(0, entries@.len() as int) =~= entries@);
        assert(env@.drop_last() =~= env_before);
        assert(strs_view(env@) =~= strs_view(env_before).push(Seq::empty()));
        assert(argc as isize as int == argc);
        Some(KernelBlock { argc: argc as isize, argv, envc: envc as isize, env, auxv })
    }

    /// Whether every entry that `get_aux` copies has a type below `AUX_CNT`.
    pub fn check_aux_types(&self) -> (r: bool)
        ensures
            r == aux_types_fit(self.auxv@),
    {
        let mut i: usize = 0;
        while i < self.auxv.len() && self.auxv[i].a_val != AT_NULL
            invariant
                i <= self.auxv@.len(),
                forall|j: int| 0 <= j < i ==> self.auxv@[j].a_val != AT_NULL,
                forall|j: int| 0 <= j < i ==> (#[trigger] self.auxv@[j]).a_type < AUX_CNT,
            decreases self.auxv@.len() - i,
        {
            if self.auxv[i].a_type >= AUX_CNT as u64 {
                proof {
                    assert(aux_prefix(self.auxv@) > i) by {
                        let p = aux_prefix(self.auxv@);
                        if exists|q: int|
                            0 <= q < self.auxv@.len() && self.auxv@[q].a_val == AT_NULL
                                && forall|j: int| 0 <= j < q ==> self.auxv@[j].a_val != AT_NULL {
                            assert(0 <= p < self.auxv@.len() && self.auxv@[p].a_val == AT_NULL);
                            if p < i {
                                assert(self.auxv@[p].a_val != AT_NULL);
                            }
                        }
                    }
                    assert(!((#[trigger] self.auxv@[i as int]).a_type < AUX_CNT));
                }
                return false;
            }
            i = i + 1;
        }
        proof {
            let p = aux_prefix(self.auxv@);
            if i < self.auxv@.len() {
                let w = choose|q: int|
                    0 <= q < self.auxv@.len() && self.auxv@[q].a_val == AT_NULL && forall|j: int|
                        0 <= j < q ==> self.auxv@[j].a_val != AT_NULL;
                assert(0 <= i < self.auxv@.len() && self.auxv@[i as int].a_val == AT_NULL);
                assert(0 <= w < self.auxv@.len() && self.auxv@[w].a_val == AT_NULL);
                if w < i {
                    assert(self.auxv@[w].a_val != AT_NULL);
                } else if i < w {
                    assert(self.auxv@[i as int].a_val != AT_NULL);
                }
                assert(p == i);
            } else {
                assert(p == i);
            }
        }
        true
    }

    /// The auxiliary values in a table indexed by `AT_<TYPE>`, as musl's TLS
    /// setup wants them: the entries up to the first one whose value is
    /// `AT_NULL`, later entries of a type overriding earlier ones.
    pub fn get_aux(&self) -> (r: Vec<u64>)
        requires
            aux_types_fit(self.auxv@),
        ensures
            r@ == spec_aux_table(self.auxv@.subrange(0, aux_prefix(self.auxv@))),
    {
        let mut aux: Vec<u64> = Vec::new();
        let mut k: usize = 0;
        while k < AUX_CNT
            invariant
                k <= AUX_CNT,
                aux@.len() == k,
                forall|j: int| 0 <= j < k ==> aux@[j] == 0,
            decreases AUX_CNT - k,
        {
            aux.push(0);
            k = k + 1;
        }
        let mut i: usize = 0;
        assert(aux@ =~= spec_aux_table(self.auxv@.subrange(0, 0)));
        while i < self.auxv.len() && self.auxv[i].a_val != AT_NULL
            invariant
                i <= self.auxv@.len(),
                forall|j: int| 0 <= j < i ==> self.auxv@[j].a_val != AT_NULL,
                aux_types_fit(self.auxv@),
                aux@ == spec_aux_table(self.auxv@.subrange(0, i as int)),
            decreases self.auxv@.len() - i,
        {
            let e = self.auxv[i];
            proof {
                if aux_prefix(self.auxv@) < i + 1 {
                    let p = aux_prefix(self.auxv@);
                    if p < self.auxv@.len() {
                        assert(self.auxv@[p].a_val == AT_NULL);
                    }
                }
                assert(aux_prefix(self.auxv@) >= i + 1) by {
                    let p = aux_prefix(self.auxv@);
                    if exists|q: int| 0 <= q < self.auxv@.len() && self.auxv@[q].a_val == AT_NULL
                        && forall|j: int| 0 <= j < q ==> self.auxv@[j].a_val != AT_NULL {
                        assert(0 <= p < self.auxv@.len() && self.auxv@[p].a_val == AT_NULL);
                        if p <= i {
                            if p < i {
                                assert(self.auxv@[p].a_val != AT_NULL);
                            }
                        }
                    }
                }
                assert(self.auxv@[i as int].a_type < AUX_CNT);
            }
            let ghost prev = self.auxv@.subrange(0, i as int);
            let ghost next = self.auxv@.subrange(0, i + 1);
            aux.set(e.a_type as usize, e.a_val);
            proof {
                assert(next.drop_last() =~= prev);
                assert(aux@ =~= spec_aux_table(next));
            }
            i = i + 1;
        }
        proof {
            let p = aux_prefix(self.auxv@);
            if i < self.auxv@.len() {
                let w = choose|q: int|
                    0 <= q < self.auxv@.len() && self.auxv@[q].a_val == AT_NULL && forall|j: int|
                        0 <= j < q ==> self.auxv@[j].a_val != AT_NULL;
                assert(0 <= i < self.auxv@.len() && self.auxv@[i as int].a_val == AT_NULL);
                assert(0 <= w < self.auxv@.len() && self.auxv@[w].a_val == AT_NULL);
                if w < i {
                    assert(self.auxv@[w].a_val != AT_NULL);
                } else if i < w {
                    assert(self.auxv@[i as int].a_val != AT_NULL);
                }
                assert(p == i);
            } else {
                assert(p == i);
            }
        }
        aux
    }

    /// The value of the environment variable `name`, if it is set.
    pub fn getenv(&self, name: &[u8]) -> (r: Option<Vec<u8>>)
        ensures
            match r {
                Some(v) => spec_getenv(self.env_view(), name@) == Some(v@),
                None => spec_getenv(self.env_view(), name@) is None,
            },
    {
        let mut i: usize = 0;
        while i < self.env.len()
            invariant
                i <= self.env@.len(),
                forall|j: int| 0 <= j < i ==> !env_defines(#[trigger] self.env_view()[j], name@),
            decreases self.env@.len() - i,
        {
            let s = &self.env[i];
            let slen = s.len();
            assert(s@ == self.env_view()[i as int]);
            if defines(s.as_slice(), name) {
                proof {
                    let k = choose|k: int| is_first_env(self.env_view(), name@, k);
                    assert(is_first_env(self.env_view(), name@, i as int));
                    if k < i {
                        assert(!env_defines(self.env_view()[k], name@));
                    } else if i < k {
                        assert(is_first_env(self.env_view(), name@, k));
                    }
                }
                return Some(copy_range(s.as_slice(), name.len() + 1, slen));
            }
            i = i + 1;
        }
        assert(!exists|k: int| is_first_env(self.env_view(), name@, k));
        None
    }

    /// The value of the first auxiliary vector entry of type `t`; `Err` when
    /// there is none.
    pub fn getauxval(&self, t: u64) -> (r: Result<u64, ()>)
        ensures
            r == spec_getauxval(self.auxv@, t),
    {
        let mut i: usize = 0;
        while i < self.auxv.len()
            invariant
                i <= self.auxv@.len(),
                forall|j: int| 0 <= j < i ==> self.auxv@[j].a_type != t,
            decreases self.auxv@.len() - i,
        {
            if self.auxv[i].a_type == t {
                proof {
                    let k = choose|k: int| is_first_aux(self.auxv@, t, k);
                    assert(is_first_aux(self.auxv@, t, i as int));
                    if k < i {
                        assert(self.auxv@[k].a_type != t);
                    } else if i < k {
                        assert(is_first_aux(self.auxv@, t, k));
                    }
                }
                return Ok(self.auxv[i].a_val);
            }
            i = i + 1;
        }
        assert(!exists|k: int| is_first_aux(self.auxv@, t, k));
        Err(())
    }
}


/// What the kernel block's debug output prints: `argc`, the first argument
/// and `envc`.
pub open spec fn block_text(argc: isize, argv0: Seq<u8>, envc: isize) -> Seq<u8> {
    field_line("argc: ".spec_bytes(), argc as u64, false) + "argv[0]: ".spec_bytes() + argv0
        + seq![10u8] + field_line("envc: ".spec_bytes(), envc as u64, false)
}

impl KernelBlock {
    /// The text the block's debug output prints; there must be an argument.
    pub fn debug_text(&self) -> (r: Vec<u8>)
        requires
            self.argv@.len() >= 1,
        ensures
            r@ == block_text(self.argc, self.argv@[0]@, self.envc),
    {
        let mut out: Vec<u8> = Vec::new();
        push_field_line(&mut out, "argc: ", self.argc as u64, false);
        push_bytes(&mut out, "argv[0]: ".as_bytes());
        push_bytes(&mut out, self.argv[0].as_slice());
        out.push(10);
        push_field_line(&mut out, "envc: ", self.envc as u64, false);
        assert(out@ =~= block_text(self.argc, self.argv@[0]@, self.envc));
        out
    }
}
} // verus!
