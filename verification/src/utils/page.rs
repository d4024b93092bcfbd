use vstd::prelude::*;

verus! {

// from <sys/user.h>
pub const PAGE_SHIFT: u64 = 12;
pub const PAGE_SIZE: u64 = 4096;
/// `!(PAGE_SIZE - 1)`: clears the offset bits of an address.
pub const PAGE_MASK: u64 = 0xffff_ffff_ffff_f000;

/// Returns the address of the page containing address 'x'.
pub fn page_start(x: u64) -> (r: u64)
    ensures
        r == x - x % 4096,
{
    assert(x & 0xffff_ffff_ffff_f000u64 == x - x % 4096) by (bit_vector);
    x & PAGE_MASK
}

/// Returns the offset of address 'x' in its page.
pub fn page_offset(x: u64) -> (r: u64)
    ensures
        r == x % 4096,
{
    assert(x & !0xffff_ffff_ffff_f000u64 == x % 4096) by (bit_vector);
    x & !PAGE_MASK
}

/// Returns the address of the next page after address 'x', unless 'x' is
/// itself at the start of a page.
pub fn page_end(x: u64) -> (r: u64)
    requires
        x + (PAGE_SIZE - 1) <= u64::MAX,
    ensures
        r == (x + 4095) - (x + 4095) % 4096,
{
    page_start(x + (PAGE_SIZE - 1))
}

/// A page's start and the offset in it put an address back together; the
/// start is page aligned and the offset is less than a page.
pub proof fn lemma_page_split(x: u64)
    ensures
        (x - x % 4096) + x % 4096 == x,
        (x - x % 4096) % 4096 == 0,
        x - x % 4096 <= x < x - x % 4096 + PAGE_SIZE,
{
}

/// The end of the page of `x` is page aligned, is at or after `x`, and is
/// less than a page after it; it is `x` itself exactly when `x` is aligned.
pub proof fn lemma_page_end(x: u64)
    requires
        x + 4095 <= u64::MAX,
    ensures
        ((x + 4095) - (x + 4095) % 4096) % 4096 == 0,
        x <= (x + 4095) - (x + 4095) % 4096 < x + PAGE_SIZE,
        ((x + 4095) - (x + 4095) % 4096 == x) <==> (x % 4096 == 0),
{
}

} // verus!
