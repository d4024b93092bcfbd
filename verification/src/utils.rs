pub mod page;
pub mod mmap;

use vstd::prelude::*;
use vstd::string::StringSliceAdditionalSpecFns;
use crate::memory::{MemImage, copy_range};

verus! {

/// The ASCII code of the decimal digit `i`, or 0 when `i` is not a digit.
pub fn digit_to_char_code(i: u8) -> (r: u8)
    ensures
        r == if i <= 9 { (i + 48) as u8 } else { 0 },
{
    if i <= 9 {
        i + 48
    } else {
        0
    }
}

/// The ASCII character of the digit `d` (0-9, then lower-case a-f).
pub open spec fn digit_char(d: nat) -> u8 {
    if d < 10 {
        (d + 48) as u8
    } else {
        (d + 87) as u8
    }
}

/// The value of an ASCII digit character.
pub open spec fn char_value(c: u8) -> int {
    if c <= 57 {
        c - 48
    } else {
        c - 87
    }
}

pub proof fn lemma_div_smaller(i: nat, base: nat)
    requires
        base >= 2,
        i >= base,
    ensures
        i / base < i,
{
    assert(i / base < i) by (nonlinear_arith)
        requires
            base >= 2,
            i >= base,
    ;
}

/// The number of digits of `i` written in `base` (one for 0).
pub open spec fn spec_num_digits_in(i: nat, base: nat) -> nat
    decreases i,
{
    if i < base || base < 2 {
        1
    } else {
        proof {
            lemma_div_smaller(i, base);
        }
        1 + spec_num_digits_in(i / base, base)
    }
}

/// The digits of `i` in `base`, in ASCII, most significant first.
pub open spec fn spec_digits(i: nat, base: nat) -> Seq<u8>
    decreases i,
{
    if i < base || base < 2 {
        seq![digit_char(i)]
    } else {
        proof {
            lemma_div_smaller(i, base);
        }
        spec_digits(i / base, base).push(digit_char(i % base))
    }
}

/// The number that a string of ASCII digits in `base` denotes.
pub open spec fn digits_value(s: Seq<u8>, base: nat) -> int
    decreases s.len(),
{
    if s.len() == 0 {
        0
    } else {
        base * digits_value(s.drop_last(), base) + char_value(s.last())
    }
}

/// `c` is the ASCII digit of a value below `base`: `0`-`9`, then lower-case
/// `a`-`f`.
pub open spec fn is_digit_char(c: u8, base: nat) -> bool {
    (48 <= c <= 57 && c - 48 < base) || (97 <= c <= 102 && c - 87 < base)
}

proof fn lemma_digits_shape(i: nat, base: nat)
    requires
        base == 10 || base == 16,
    ensures
        spec_digits(i, base).len() >= 1,
        forall|k: int|
            0 <= k < spec_digits(i, base).len() ==> is_digit_char(
                #[trigger] spec_digits(i, base)[k],
                base,
            ),
        (spec_digits(i, base)[0] == 48) == (i == 0),
    decreases i,
{
    if i >= base {
        lemma_div_smaller(i, base);
        lemma_digits_shape(i / base, base);
        let s = spec_digits(i, base);
        let prev = spec_digits(i / base, base);
        assert(s == prev.push(digit_char(i % base)));
        assert(i / base > 0) by (nonlinear_arith)
            requires
                i >= base,
                base > 0,
        ;
        assert forall|k: int| 0 <= k < s.len() implies is_digit_char(#[trigger] s[k], base) by {
            if k < prev.len() {
                assert(s[k] == prev[k]);
            }
        }
        assert(s[0] == prev[0]);
    }
}

/// Writing `i` in hexadecimal gives lower-case hex digits, the first not `0`
/// unless `i` is 0 (which is written `0`), and reading them back as a
/// base-16 number gives `i`.
pub proof fn lemma_hex_roundtrip(i: u64)
    ensures
        spec_hex(i as nat).len() >= 1,
        forall|k: int|
            0 <= k < spec_hex(i as nat).len() ==> is_digit_char(#[trigger] spec_hex(i as nat)[k], 16),
        (spec_hex(i as nat)[0] == 48) == (i == 0),
        i == 0 ==> spec_hex(i as nat) == seq![48u8],
        digits_value(spec_hex(i as nat), 16) == i,
{
    lemma_digits_shape(i as nat, 16);
    lemma_digits_roundtrip(i as nat, 16);
}

/// The number of decimal digits of `i` (one for 0).
pub open spec fn spec_num_digits(i: nat) -> nat {
    spec_num_digits_in(i, 10)
}

/// The decimal digits of `i` in ASCII, most significant first.
pub open spec fn spec_decimal(i: nat) -> Seq<u8> {
    spec_digits(i, 10)
}

/// The lower-case hexadecimal digits of `i` in ASCII, most significant first.
pub open spec fn spec_hex(i: nat) -> Seq<u8> {
    spec_digits(i, 16)
}

/// Writing a number in base 10 or 16 and reading the digits back gives the
/// number; there are `spec_num_digits_in(i, base)` of them.
pub proof fn lemma_digits_roundtrip(i: nat, base: nat)
    requires
        base == 10 || base == 16,
    ensures
        digits_value(spec_digits(i, base), base) == i,
        spec_digits(i, base).len() == spec_num_digits_in(i, base),
    decreases i,
{
    let s = spec_digits(i, base);
    if i >= base {
        lemma_digits_roundtrip(i / base, base);
        assert(s.drop_last() =~= spec_digits(i / base, base));
        assert(i == base * (i / base) + i % base) by (nonlinear_arith)
            requires
                base > 0,
        ;
        assert(s.last() == digit_char(i % base));
        assert(char_value(s.last()) == i % base);
        assert(digits_value(s.drop_last(), base) == i / base);
        assert(digits_value(s, base) == base * digits_value(s.drop_last(), base) + char_value(
            s.last(),
        ));
        assert(base * digits_value(s.drop_last(), base) == base * (i / base));
    } else {
        assert(s.drop_last() =~= Seq::<u8>::empty());
        assert(char_value(s.last()) == i);
        assert(digits_value(s.drop_last(), base) == 0);
        assert(digits_value(s, base) == base * digits_value(s.drop_last(), base) + char_value(
            s.last(),
        ));
        assert(base * 0 == 0);
    }
}

/// The number of decimal digits needed to write `i`.
pub fn num_digits(i: u64) -> (r: usize)
    ensures
        r == spec_num_digits(i as nat),
{
    if i == 0 {
        1
    } else {
        proof {
            lemma_num_digits_u64(i as nat);
        }
        let mut count: usize = 0;
        let mut current = i;
        while current > 0
            invariant
                current > 0 ==> count + spec_num_digits(current as nat) == spec_num_digits(i as nat),
                current == 0 ==> count == spec_num_digits(i as nat),
                spec_num_digits(i as nat) <= 20,
            decreases current,
        {
            current = current / 10;
            count = count + 1;
        }
        count
    }
}

/// A number below `10^n` has at most `n` digits.
proof fn lemma_num_digits_le(i: nat, n: nat)
    requires
        n >= 1,
        i < pow10(n),
    ensures
        spec_num_digits(i) <= n,
    decreases i,
{
    if i >= 10 {
        if n == 1 {
            assert(pow10(1) == 10) by {
                reveal_with_fuel(pow10, 2);
            }
        }
        assert(pow10(n) == 10 * pow10((n - 1) as nat));
        lemma_num_digits_le(i / 10, (n - 1) as nat);
    }
}

/// A `u64` has at most 20 decimal digits.
pub proof fn lemma_num_digits_u64(i: nat)
    requires
        i <= u64::MAX,
    ensures
        spec_num_digits(i) <= 20,
{
    reveal_with_fuel(pow10, 21);
    assert(pow10(20) == 100000000000000000000);
    lemma_num_digits_le(i, 20);
}

/// Ten to the power `n`.
pub open spec fn pow10(n: nat) -> nat
    decreases n,
{
    if n == 0 {
        1
    } else {
        10 * pow10((n - 1) as nat)
    }
}

/// The number of digits of `i` written in base `base`.
fn num_digits_in(i: u64, base: u64) -> (r: usize)
    requires
        base == 10 || base == 16,
    ensures
        r == spec_num_digits_in(i as nat, base as nat),
        r <= 20,
{
    proof {
        lemma_num_digits_in_bound(i as nat, base as nat);
    }
    let mut count: usize = 1;
    let mut current = i;
    while current >= base
        invariant
            base == 10 || base == 16,
            count + spec_num_digits_in(current as nat, base as nat) == spec_num_digits_in(
                i as nat,
                base as nat,
            ) + 1,
            spec_num_digits_in(i as nat, base as nat) <= 20,
            count >= 1,
        decreases current,
    {
        current = current / base;
        count = count + 1;
    }
    count
}

proof fn lemma_num_digits_in_bound(i: nat, base: nat)
    requires
        base == 10 || base == 16,
        i <= u64::MAX,
    ensures
        spec_num_digits_in(i, base) <= spec_num_digits_in(i, 10) <= 20,
    decreases i,
{
    lemma_num_digits_u64(i);
    if base == 16 && i >= 16 {
        lemma_num_digits_in_bound(i / 16, 16);
        lemma_num_digits_mono(i / 16, i / 10);
        assert(i / 16 <= i / 10);
    }
}

proof fn lemma_num_digits_mono(a: nat, b: nat)
    requires
        a <= b,
    ensures
        spec_num_digits_in(a, 10) <= spec_num_digits_in(b, 10),
    decreases b,
{
    if a >= 10 {
        lemma_num_digits_mono(a / 10, b / 10);
    }
}

/// The ASCII digits of `i` in base `base` (10 or 16), most significant first.
fn digits_in(i: u64, base: u64) -> (r: Vec<u8>)
    requires
        base == 10 || base == 16,
    ensures
        r@ == spec_digits(i as nat, base as nat),
{
    let count = num_digits_in(i, base);
    let mut out: Vec<u8> = Vec::new();
    let mut k: usize = 0;
    while k < count
        invariant
            k <= count,
            out@.len() == k,
        decreases count - k,
    {
        out.push(0);
        k = k + 1;
    }
    let mut place = count;
    let mut current = i;
    loop
        invariant_except_break
            place == spec_num_digits_in(current as nat, base as nat),
            spec_digits(i as nat, base as nat) == spec_digits(current as nat, base as nat)
                + out@.subrange(place as int, count as int),
        invariant
            base == 10 || base == 16,
            out@.len() == count,
            count == spec_num_digits_in(i as nat, base as nat),
            place <= count,
        ensures
            spec_digits(i as nat, base as nat) == out@,
        decreases place,
    {
        let digit = current % base;
        let next = current / base;
        let c = if digit < 10 {
            digit as u8 + 48
        } else {
            digit as u8 + 87
        };
        assert(place >= 1);
        place = place - 1;
        out.set(place, c);
        proof {
            if current >= base {
                assert(spec_digits(current as nat, base as nat) == spec_digits(
                    next as nat,
                    base as nat,
                ).push(c));
                assert(out@.subrange(place as int, count as int) =~= seq![c] + out@.subrange(
                    place + 1,
                    count as int,
                ));
                assert(spec_digits(next as nat, base as nat).push(c) + out@.subrange(
                    place + 1,
                    count as int,
                ) =~= spec_digits(next as nat, base as nat) + out@.subrange(
                    place as int,
                    count as int,
                ));
            } else {
                assert(spec_digits(current as nat, base as nat) == seq![c]);
                assert(place == 0);
                assert(out@ =~= seq![c] + out@.subrange(1, count as int));
            }
        }
        if current < base {
            break;
        }
        current = next;
    }
    out
}

/// The lower-case hexadecimal digits of `i`, most significant first, with
/// no leading zeros ("0" for 0).
pub fn to_hex(i: u64) -> (r: Vec<u8>)
    ensures
        r@ == spec_hex(i as nat),
{
    digits_in(i, 16)
}

/// The characters that `write_u64` prints for `i`: its hexadecimal digits
/// when `base16` holds, its decimal digits otherwise.
pub fn format_u64(i: u64, base16: bool) -> (r: Vec<u8>)
    ensures
        r@ == if base16 {
            spec_hex(i as nat)
        } else {
            spec_decimal(i as nat)
        },
{
    if base16 {
        to_hex(i)
    } else {
        digits_in(i, 10)
    }
}

/// `z` is the address of the NUL that ends the C string at `addr`: all the
/// bytes from `addr` to `z` lie in the image and only the last is NUL.
pub open spec fn is_c_str_end(mem: &MemImage, addr: int, z: int) -> bool {
    &&& addr <= z
    &&& mem.holds(addr, z - addr + 1)
    &&& mem.byte_at(z) == 0
    &&& forall|k: int| addr <= k < z ==> mem.byte_at(k) != 0
}

/// The bytes of the C string at `addr`, without its NUL; `None` when the
/// image does not hold the string and its NUL.
pub open spec fn spec_c_str(mem: &MemImage, addr: int) -> Option<Seq<u8>> {
    if exists|z: int| is_c_str_end(mem, addr, z) {
        let z = choose|z: int| is_c_str_end(mem, addr, z);
        Some(mem.range(addr, z - addr))
    } else {
        None
    }
}

proof fn lemma_c_str_end_unique(mem: &MemImage, addr: int, z: int)
    requires
        is_c_str_end(mem, addr, z),
    ensures
        spec_c_str(mem, addr) == Some(mem.range(addr, z - addr)),
{
    let k = choose|k: int| is_c_str_end(mem, addr, k);
    assert(is_c_str_end(mem, addr, k));
    if k < z {
        assert(mem.byte_at(k) != 0);
    } else if z < k {
        assert(mem.byte_at(z) != 0);
    }
}

/// Reads the C string at `addr`.
pub fn read_c_str(mem: &MemImage, addr: u64) -> (r: Option<Vec<u8>>)
    ensures
        match r {
            Some(v) => spec_c_str(mem, addr as int) == Some(v@),
            None => spec_c_str(mem, addr as int) is None,
        },
{
    let len = mem.bytes.len();
    let off = match mem.offset_of(addr, 0) {
        Some(off) => off,
        None => {
            assert forall|z: int| !is_c_str_end(mem, addr as int, z) by {}
            return None;
        },
    };
    let mut i = off;
    while i < len && mem.bytes[i] != 0
        invariant
            off <= i <= len,
            len == mem.bytes@.len(),
            off == addr - mem.base,
            forall|k: int| off <= k < i ==> mem.bytes@[k] != 0,
        decreases len - i,
    {
        i = i + 1;
    }
    if i < len {
        let ghost z: int = addr + (i - off);
        proof {
            assert forall|k: int| addr <= k < z implies mem.byte_at(k) != 0 by {
                assert(mem.bytes@[k - mem.base] != 0);
            }
            lemma_c_str_end_unique(mem, addr as int, z);
        }
        Some(copy_range(mem.bytes.as_slice(), off, i))
    } else {
        assert forall|z: int| !is_c_str_end(mem, addr as int, z) by {
            if is_c_str_end(mem, addr as int, z) {
                assert(mem.bytes@[z - mem.base] != 0);
            }
        }
        None
    }
}

/// The C string at `cs`: empty for the null pointer.
pub open spec fn spec_as_str(mem: &MemImage, cs: u64) -> Option<Seq<u8>> {
    if cs == 0 {
        Some(Seq::empty())
    } else {
        spec_c_str(mem, cs as int)
    }
}

/// The bytes of the C string at `cs` (empty for the null pointer); `None`
/// when the image does not hold it.
pub fn as_str(mem: &MemImage, cs: u64) -> (r: Option<Vec<u8>>)
    ensures
        match r {
            Some(v) => spec_as_str(mem, cs) == Some(v@),
            None => spec_as_str(mem, cs) is None,
        },
{
    if cs == 0 {
        Some(Vec::new())
    } else {
        read_c_str(mem, cs)
    }
}

/// The C string `offset` bytes after `cs`: empty when `cs` is the null
/// pointer; `None` when that address is outside 64 bits or the image does
/// not hold the string.
pub fn str_at(mem: &MemImage, cs: u64, offset: i64) -> (r: Option<Vec<u8>>)
    ensures
        match r {
            Some(v) => if cs == 0 {
                v@ == Seq::<u8>::empty()
            } else {
                0 <= cs + offset <= u64::MAX && spec_c_str(mem, cs + offset) == Some(v@)
            },
            None => cs != 0 && (cs + offset < 0 || cs + offset > u64::MAX || spec_c_str(
                mem,
                cs + offset,
            ) is None),
        },
{
    if cs == 0 {
        return Some(Vec::new());
    }
    let a: i128 = cs as i128 + offset as i128;
    if a < 0 || a > u64::MAX as i128 {
        return None;
    }
    read_c_str(mem, a as u64)
}


/// `label`, then `v` in base 16 or 10, then a newline: one line of debug
/// output.
pub open spec fn field_line(label: Seq<u8>, v: u64, base16: bool) -> Seq<u8> {
    label + (if base16 {
        spec_hex(v as nat)
    } else {
        spec_decimal(v as nat)
    }) + seq![10u8]
}

/// Appends the bytes of `s` to `out`.
pub fn push_bytes(out: &mut Vec<u8>, s: &[u8])
    ensures
        final(out)@ == old(out)@ + s@,
{
    let mut i: usize = 0;
    while i < s.len()
        invariant
            i <= s@.len(),
            out@ == old(out)@ + s@.subrange(0, i as int),
        decreases s@.len() - i,
    {
        out.push(s[i]);
        i = i + 1;
        assert(out@ =~= old(out)@ + s@.subrange(0, i as int));
    }
    assert(s@.subrange(0, s@.len() as int) =~= s@);
}

/// Appends `label`, `v` in base 16 or 10, and a newline to `out`.
pub fn push_field_line(out: &mut Vec<u8>, label: &str, v: u64, base16: bool)
    ensures
        final(out)@ == old(out)@ + field_line(label.spec_bytes(), v, base16),
{
    push_bytes(out, label.as_bytes());
    let digits = format_u64(v, base16);
    push_bytes(out, digits.as_slice());
    out.push(10);
    assert(out@ =~= old(out)@ + field_line(label.spec_bytes(), v, base16));
}

/// `label`, then `v` in base 16 or 10.
pub open spec fn field(label: Seq<u8>, v: u64, base16: bool) -> Seq<u8> {
    label + if base16 {
        spec_hex(v as nat)
    } else {
        spec_decimal(v as nat)
    }
}

/// Appends `label` and `v` in base 16 or 10 to `out`.
pub fn push_field(out: &mut Vec<u8>, label: &str, v: u64, base16: bool)
    ensures
        final(out)@ == old(out)@ + field(label.spec_bytes(), v, base16),
{
    push_bytes(out, label.as_bytes());
    let digits = format_u64(v, base16);
    push_bytes(out, digits.as_slice());
    assert(out@ =~= old(out)@ + field(label.spec_bytes(), v, base16));
}
} // verus!
