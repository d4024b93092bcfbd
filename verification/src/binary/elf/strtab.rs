use vstd::prelude::*;
use crate::memory::{MemImage, copy_range};

verus! {

/// A string table: NUL-terminated names packed one after the other.
#[derive(Debug, PartialEq, Eq)]
pub struct Strtab {
    pub bytes: Vec<u8>,
}

/// `z` is the first NUL byte of `b` at or after `idx`.
pub open spec fn is_first_nul(b: Seq<u8>, idx: int, z: int) -> bool {
    &&& idx <= z < b.len()
    &&& b[z] == 0
    &&& forall|k: int| idx <= k < z ==> b[k] != 0
}

/// Where the name that starts at `idx` ends: at the first NUL after it, or,
/// when the table holds none, one byte short of the table's end.
pub open spec fn str_end(b: Seq<u8>, idx: int) -> int {
    if exists|z: int| is_first_nul(b, idx, z) {
        choose|z: int| is_first_nul(b, idx, z)
    } else {
        b.len() - 1
    }
}

/// Reading a name at `idx` is defined: either `idx` is out of the table's
/// range (and the name is empty), or the name does not start with a NUL.
pub open spec fn get_str_defined(idx: int, b: Seq<u8>) -> bool {
    idx <= 0 || idx >= b.len() || b[idx] != 0
}

/// The name at `idx` of the table `b`.
pub open spec fn spec_get_str(idx: int, b: Seq<u8>) -> Seq<u8> {
    if idx <= 0 || idx >= b.len() {
        Seq::empty()
    } else {
        b.subrange(idx, str_end(b, idx))
    }
}

pub proof fn lemma_first_nul_unique(b: Seq<u8>, idx: int, z: int)
    requires
        is_first_nul(b, idx, z),
    ensures
        str_end(b, idx) == z,
{
    let k = choose|k: int| is_first_nul(b, idx, k);
    assert(is_first_nul(b, idx, k));
    if k < z {
        assert(b[k] != 0);
    } else if z < k {
        assert(b[z] != 0);
    }
}

/// The bytes of the name at `idx`, without its NUL.
fn get_str(idx: usize, bytes: &[u8]) -> (r: Vec<u8>)
    requires
        get_str_defined(idx as int, bytes@),
    ensures
        r@ == spec_get_str(idx as int, bytes@),
{
    let len = bytes.len();
    if idx == 0 || idx >= len {
        return Vec::new();
    }
    let mut i = idx;
    while i < len && bytes[i] != 0
        invariant
            idx <= i <= len,
            len == bytes@.len(),
            forall|k: int| idx <= k < i ==> bytes@[k] != 0,
        decreases len - i,
    {
        i = i + 1;
    }
    if i < len {
        proof {
            lemma_first_nul_unique(bytes@, idx as int, i as int);
        }
        copy_range(bytes, idx, i)
    } else {
        assert(!exists|z: int| is_first_nul(bytes@, idx as int, z));
        copy_range(bytes, idx, len - 1)
    }
}

impl Strtab {
    /// The string table of `size` bytes at address `addr`; `None` when the
    /// image does not hold all of it.
    pub fn new(mem: &MemImage, addr: u64, size: usize) -> (r: Option<Strtab>)
        ensures
            match r {
                Some(t) => mem.holds(addr as int, size as int) && t.bytes@ == mem.range(
                    addr as int,
                    size as int,
                ),
                None => !mem.holds(addr as int, size as int),
            },
    {
        match mem.offset_of(addr, size) {
            Some(off) => {
                let end = off + size;
                Some(Strtab { bytes: copy_range(mem.bytes.as_slice(), off, end) })
            },
            None => None,
        }
    }

    /// The name that starts at byte `idx` of the table.
    pub fn get(&self, idx: usize) -> (r: Vec<u8>)
        requires
            get_str_defined(idx as int, self.bytes@),
        ensures
            r@ == spec_get_str(idx as int, self.bytes@),
    {
        get_str(idx, self.bytes.as_slice())
    }
}

} // verus!
