use vstd::prelude::*;

verus! {

/// The GNU hash of a symbol name: starting from 5381, each byte `c` turns
/// the hash `h` into `h * 33 + c`, modulo 2^32.
pub open spec fn gnu_hash(name: Seq<u8>) -> u32
    decreases name.len(),
{
    if name.len() == 0 {
        5381
    } else {
        ((gnu_hash(name.drop_last()) * 33 + name.last()) % 0x1_0000_0000) as u32
    }
}

/// The GNU hash of `name`.
pub fn hash(name: &[u8]) -> (r: u32)
    ensures
        r == gnu_hash(name@),
{
    let mut h: u32 = 5381;
    let mut i: usize = 0;
    assert(name@.subrange(0, 0) =~= Seq::<u8>::empty());
    while i < name.len()
        invariant
            i <= name@.len(),
            h == gnu_hash(name@.subrange(0, i as int)),
        decreases name@.len() - i,
    {
        let c = name[i];
        assert(name@.subrange(0, i + 1).drop_last() =~= name@.subrange(0, i as int));
        h = ((h as u64 * 33 + c as u64) % 0x1_0000_0000) as u32;
        i = i + 1;
    }
    assert(name@.subrange(0, name@.len() as int) =~= name@);
    h
}

} // verus!
