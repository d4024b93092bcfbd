use vstd::prelude::*;

verus! {

/// Little-endian value of the two bytes of `s` at `off`.
pub open spec fn le_u16(s: Seq<u8>, off: int) -> int {
    s[off] + 256 * s[off + 1]
}

/// Little-endian value of the four bytes of `s` at `off`.
pub open spec fn le_u32(s: Seq<u8>, off: int) -> int {
    le_u16(s, off) + 65536 * le_u16(s, off + 2)
}

/// Little-endian value of the eight bytes of `s` at `off`.
pub open spec fn le_u64(s: Seq<u8>, off: int) -> int {
    le_u32(s, off) + 4294967296 * le_u32(s, off + 4)
}

/// A contiguous, readable piece of a process's address space: the bytes
/// found at `base`, `base + 1`, ... `base + bytes.len() - 1`.
#[derive(Debug)]
pub struct MemImage {
    pub base: u64,
    pub bytes: Vec<u8>,
}

impl MemImage {
    /// The `n` bytes starting at address `addr` all lie inside the image.
    pub open spec fn holds(&self, addr: int, n: int) -> bool {
        &&& 0 <= n
        &&& self.base <= addr
        &&& addr + n <= self.base + self.bytes@.len()
    }

    /// The byte stored at address `addr`.
    pub open spec fn byte_at(&self, addr: int) -> u8 {
        self.bytes@[addr - self.base]
    }

    pub open spec fn u16_at(&self, addr: int) -> u16 {
        le_u16(self.bytes@, addr - self.base) as u16
    }

    pub open spec fn u32_at(&self, addr: int) -> u32 {
        le_u32(self.bytes@, addr - self.base) as u32
    }

    pub open spec fn u64_at(&self, addr: int) -> u64 {
        le_u64(self.bytes@, addr - self.base) as u64
    }

    /// The bytes of the image from address `addr` on, `n` of them.
    pub open spec fn range(&self, addr: int, n: int) -> Seq<u8> {
        self.bytes@.subrange(addr - self.base, addr - self.base + n)
    }

    /// Where the `n` bytes at `addr` start in `bytes`, when they lie in the image.
    pub fn offset_of(&self, addr: u64, n: usize) -> (r: Option<usize>)
        ensures
            match r {
                Some(off) => self.holds(addr as int, n as int) && off == addr - self.base && off
                    + n <= self.bytes@.len(),
                None => !self.holds(addr as int, n as int),
            },
            self.bytes@.len() <= usize::MAX,
    {
        let len = self.bytes.len();
        if addr < self.base {
            return None;
        }
        let off = addr - self.base;
        if off > len as u64 {
            return None;
        }
        let off = off as usize;
        if n > len - off {
            None
        } else {
            Some(off)
        }
    }

    pub fn read_u8(&self, addr: u64) -> (r: Option<u8>)
        ensures
            r == (if self.holds(addr as int, 1) { Some(self.byte_at(addr as int)) } else { None }),
    {
        match self.offset_of(addr, 1) {
            Some(off) => Some(self.bytes[off]),
            None => None,
        }
    }

    pub fn read_u16(&self, addr: u64) -> (r: Option<u16>)
        ensures
            r == (if self.holds(addr as int, 2) { Some(self.u16_at(addr as int)) } else { None }),
    {
        match self.offset_of(addr, 2) {
            Some(off) => Some(u16_le(&self.bytes, off)),
            None => None,
        }
    }

    pub fn read_u32(&self, addr: u64) -> (r: Option<u32>)
        ensures
            r == (if self.holds(addr as int, 4) { Some(self.u32_at(addr as int)) } else { None }),
    {
        match self.offset_of(addr, 4) {
            Some(off) => Some(u32_le(&self.bytes, off)),
            None => None,
        }
    }

    pub fn read_u64(&self, addr: u64) -> (r: Option<u64>)
        ensures
            r == (if self.holds(addr as int, 8) { Some(self.u64_at(addr as int)) } else { None }),
    {
        match self.offset_of(addr, 8) {
            Some(off) => Some(u64_le(&self.bytes, off)),
            None => None,
        }
    }
}

/// The little-endian `u16` at `off` in `s`.
pub fn u16_le(s: &[u8], off: usize) -> (r: u16)
    requires
        off + 2 <= s.len(),
    ensures
        r == le_u16(s@, off as int),
{
    let b0 = s[off] as u16;
    let b1 = s[off + 1] as u16;
    b0 + 256 * b1
}

/// The little-endian `u32` at `off` in `s`.
pub fn u32_le(s: &[u8], off: usize) -> (r: u32)
    requires
        off + 4 <= s.len(),
    ensures
        r == le_u32(s@, off as int),
{
    let lo = u16_le(s, off) as u32;
    let hi = u16_le(s, off + 2) as u32;
    lo + 65536 * hi
}

/// The little-endian `u64` at `off` in `s`.
pub fn u64_le(s: &[u8], off: usize) -> (r: u64)
    requires
        off + 8 <= s.len(),
    ensures
        r == le_u64(s@, off as int),
{
    let lo = u32_le(s, off) as u64;
    let hi = u32_le(s, off + 4) as u64;
    lo + 4294967296 * hi
}

/// The `n` words at address `addr`.
pub open spec fn words_at(mem: MemImage, addr: int, n: nat) -> Seq<u64> {
    Seq::new(n, |i: int| word_at(mem, addr, i))
}

/// Word `j` of a list that starts at address `addr`.
pub open spec fn word_at(mem: MemImage, addr: int, j: int) -> u64 {
    mem.u64_at(addr + 8 * j)
}

/// Word `j` of a list that starts at address `addr` lies in the image.
pub open spec fn word_held(mem: MemImage, addr: int, j: int) -> bool {
    mem.holds(addr + 8 * j, 8)
}

/// At address `addr` the image holds `n` non-zero words and then a zero word.
pub open spec fn is_word_list(mem: MemImage, addr: int, n: nat) -> bool {
    &&& forall|j: int|
        0 <= j < n ==> #[trigger] word_held(mem, addr, j) && word_at(mem, addr, j) != 0
    &&& word_held(mem, addr, n as int)
    &&& word_at(mem, addr, n as int) == 0
}

/// The zero-terminated list of words at `addr`, without the zero; `None`
/// when the image does not hold a whole list there.
pub open spec fn spec_word_list(mem: MemImage, addr: int) -> Option<Seq<u64>> {
    if exists|n: nat| is_word_list(mem, addr, n) {
        Some(words_at(mem, addr, choose|n: nat| is_word_list(mem, addr, n)))
    } else {
        None
    }
}

proof fn lemma_word_list_unique(mem: MemImage, addr: int, n: nat)
    requires
        is_word_list(mem, addr, n),
    ensures
        spec_word_list(mem, addr) == Some(words_at(mem, addr, n)),
{
    let k = choose|k: nat| is_word_list(mem, addr, k);
    assert(is_word_list(mem, addr, k));
    if k < n {
        assert(word_held(mem, addr, k as int));
    } else if n < k {
        assert(word_held(mem, addr, n as int));
    }
}

/// Reads the `n` words at `addr`; `None` when the image does not hold them.
pub fn read_words(mem: &MemImage, addr: u64, n: usize) -> (r: Option<Vec<u64>>)
    ensures
        match r {
            Some(v) => mem.holds(addr as int, 8 * n) && v@ == words_at(*mem, addr as int, n as nat),
            None => !mem.holds(addr as int, 8 * n),
        },
{
    let size = match n.checked_mul(8) {
        Some(size) => size,
        None => {
            let len = mem.bytes.len();
            assert(len == mem.bytes@.len());
            return None;
        },
    };
    match mem.offset_of(addr, size) {
        None => None,
        Some(off) => {
            let mut v: Vec<u64> = Vec::new();
            let mut i: usize = 0;
            while i < n
                invariant
                    i <= n,
                    off + 8 * n <= mem.bytes.len(),
                    off == addr - mem.base,
                    v@ == words_at(*mem, addr as int, i as nat),
                decreases n - i,
            {
                v.push(u64_le(mem.bytes.as_slice(), off + 8 * i));
                i = i + 1;
                assert(v@ =~= words_at(*mem, addr as int, i as nat));
            }
            Some(v)
        },
    }
}

/// Word `j` of the list at `addr` lies in the image and is not zero.
spec fn word_nonzero(mem: MemImage, addr: int, j: int) -> bool {
    word_held(mem, addr, j) && word_at(mem, addr, j) != 0
}

/// Reads the zero-terminated list of words at `addr`, without the zero.
#[verifier::spinoff_prover]
pub fn read_word_list(mem: &MemImage, addr: u64) -> (r: Option<Vec<u64>>)
    ensures
        match r {
            Some(v) => spec_word_list(*mem, addr as int) == Some(v@),
            None => spec_word_list(*mem, addr as int) is None,
        },
{
    let len = mem.bytes.len();
    if addr < mem.base || addr - mem.base > len as u64 {
        assert forall|n: nat| !is_word_list(*mem, addr as int, n) by {
            assert(!word_held(*mem, addr as int, 0));
        }
        return None;
    }
    let off = (addr - mem.base) as usize;
    let mut v: Vec<u64> = Vec::new();
    let mut i: usize = 0;
    while i <= (len - off) / 8
        invariant
            off <= len,
            len == mem.bytes@.len(),
            off == addr - mem.base,
            v@.len() == i,
            forall|j: int| 0 <= j < i ==> #[trigger] word_nonzero(*mem, addr as int, j),
            v@ == words_at(*mem, addr as int, i as nat),
            8 * i <= len - off + 8,
        decreases (len - off) / 8 + 1 - i,
    {
        if 8 <= len - off - 8 * i {
            let w = u64_le(mem.bytes.as_slice(), off + 8 * i);
            assert(word_held(*mem, addr as int, i as int));
            assert(w == word_at(*mem, addr as int, i as int));
            if w == 0 {
                proof {
                    assert forall|j: int| 0 <= j < i implies #[trigger] word_held(
                        *mem,
                        addr as int,
                        j,
                    ) && word_at(*mem, addr as int, j) != 0 by {
                        assert(word_nonzero(*mem, addr as int, j));
                    }
                    lemma_word_list_unique(*mem, addr as int, i as nat);
                }
                return Some(v);
            }
            v.push(w);
            assert(v@ =~= words_at(*mem, addr as int, (i + 1) as nat));
            assert(word_nonzero(*mem, addr as int, i as int));
        } else {
            assert forall|n: nat| !is_word_list(*mem, addr as int, n) by {
                if n > i {
                    assert(!word_held(*mem, addr as int, i as int));
                } else if n < i {
                    assert(word_nonzero(*mem, addr as int, n as int));
                }
            }
            return None;
        }
        i = i + 1;
    }
    assert forall|n: nat| !is_word_list(*mem, addr as int, n) by {
        if n > i {
            assert(!word_held(*mem, addr as int, i as int));
        } else if n < i {
            assert(word_nonzero(*mem, addr as int, n as int));
        }
    }
    None
}

/// Whether the two byte strings are equal.
pub fn bytes_eq(a: &[u8], b: &[u8]) -> (r: bool)
    ensures
        r == (a@ == b@),
{
    if a.len() != b.len() {
        return false;
    }
    let mut i: usize = 0;
    while i < a.len()
        invariant
            i <= a@.len(),
            a@.len() == b@.len(),
            forall|k: int| 0 <= k < i ==> a@[k] == b@[k],
        decreases a@.len() - i,
    {
        if a[i] != b[i] {
            return false;
        }
        i = i + 1;
    }
    assert(a@ =~= b@);
    true
}

/// A copy of `s[from..to]`.
pub fn copy_range(s: &[u8], from: usize, to: usize) -> (r: Vec<u8>)
    requires
        from <= to <= s.len(),
    ensures
        r@ == s@.subrange(from as int, to as int),
{
    let mut r: Vec<u8> = Vec::new();
    let mut i = from;
    while i < to
        invariant
            from <= i <= to <= s.len(),
            r@ == s@.subrange(from as int, i as int),
        decreases to - i,
    {
        r.push(s[i]);
        i = i + 1;
        assert(r@ =~= s@.subrange(from as int, i as int));
    }
    r
}

} // verus!
