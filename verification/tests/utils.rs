use dryad::utils::{num_digits, digit_to_char_code, to_hex, format_u64, read_c_str, as_str, str_at};
use dryad::utils::page::{page_start, page_offset, page_end, PAGE_SIZE, PAGE_MASK};
use dryad::memory::{MemImage, bytes_eq, copy_range, u16_le, u32_le, u64_le};

#[test]
fn num_digits_t() {
    assert_eq!(num_digits(0), 1);
    assert_eq!(num_digits(10), 2);
    assert_eq!(num_digits(99), 2);
    assert_eq!(num_digits(999), 3);
}

#[test]
fn num_digits_edges() {
    assert_eq!(num_digits(1), 1);
    assert_eq!(num_digits(9), 1);
    assert_eq!(num_digits(1000), 4);
    assert_eq!(num_digits(u64::MAX), 20);
}

#[test]
fn digit_codes() {
    assert_eq!(digit_to_char_code(0), b'0');
    assert_eq!(digit_to_char_code(7), b'7');
    assert_eq!(digit_to_char_code(9), b'9');
    assert_eq!(digit_to_char_code(10), 0);
    assert_eq!(digit_to_char_code(255), 0);
}

#[test]
fn hex_digits() {
    assert_eq!(to_hex(0), b"0".to_vec());
    assert_eq!(to_hex(255), b"ff".to_vec());
    assert_eq!(to_hex(0x1000), b"1000".to_vec());
    assert_eq!(to_hex(0xdeadbeef), b"deadbeef".to_vec());
    assert_eq!(to_hex(u64::MAX), b"ffffffffffffffff".to_vec());
}

#[test]
fn formatted_numbers() {
    assert_eq!(format_u64(0, false), b"0".to_vec());
    assert_eq!(format_u64(42, false), b"42".to_vec());
    assert_eq!(format_u64(1234567890, false), b"1234567890".to_vec());
    assert_eq!(format_u64(u64::MAX, false), b"18446744073709551615".to_vec());
    assert_eq!(format_u64(42, true), b"2a".to_vec());
}

#[test]
fn pages() {
    assert_eq!(PAGE_SIZE, 4096);
    assert_eq!(PAGE_MASK, !(PAGE_SIZE - 1));
    assert_eq!(page_start(0), 0);
    assert_eq!(page_start(4095), 0);
    assert_eq!(page_start(4096), 4096);
    assert_eq!(page_start(0x401234), 0x401000);
    assert_eq!(page_offset(0x401234), 0x234);
    assert_eq!(page_offset(4096), 0);
    assert_eq!(page_end(0), 0);
    assert_eq!(page_end(1), 4096);
    assert_eq!(page_end(4096), 4096);
    assert_eq!(page_end(0x401234), 0x402000);
}

#[test]
fn page_split_law_on_values() {
    for x in [0u64, 1, 4095, 4096, 0x7fff_1234, u64::MAX] {
        assert_eq!(page_start(x) + page_offset(x), x);
        assert_eq!(page_start(x) % 4096, 0);
        assert!(page_offset(x) < 4096);
    }
}

fn image() -> MemImage {
    // "ab\0" at 0x1000, "hello\0" at 0x1003, then "xyz" without a NUL at the end
    let mut bytes = b"ab\0hello\0".to_vec();
    bytes.extend_from_slice(b"xyz");
    MemImage { base: 0x1000, bytes }
}

#[test]
fn c_strings() {
    let mem = image();
    assert_eq!(read_c_str(&mem, 0x1000), Some(b"ab".to_vec()));
    assert_eq!(read_c_str(&mem, 0x1003), Some(b"hello".to_vec()));
    assert_eq!(read_c_str(&mem, 0x1002), Some(b"".to_vec()));
    assert_eq!(read_c_str(&mem, 0x1009), None);
    assert_eq!(read_c_str(&mem, 0xfff), None);
    assert_eq!(read_c_str(&mem, 0x2000), None);
}

#[test]
fn as_str_and_str_at() {
    let mem = image();
    assert_eq!(as_str(&mem, 0), Some(Vec::new()));
    assert_eq!(as_str(&mem, 0x1003), Some(b"hello".to_vec()));
    assert_eq!(str_at(&mem, 0x1000, 3), Some(b"hello".to_vec()));
    assert_eq!(str_at(&mem, 0x1004, -1), Some(b"hello".to_vec()));
    assert_eq!(str_at(&mem, 0, 5), Some(Vec::new()));
    assert_eq!(str_at(&mem, 0x1000, -0x2000), None);
    assert_eq!(str_at(&mem, 0x1000, 9), None);
}

#[test]
fn memory_reads() {
    let mem = MemImage { base: 0x10, bytes: vec![1, 2, 3, 4, 5, 6, 7, 8, 9] };
    assert_eq!(mem.read_u8(0x10), Some(1));
    assert_eq!(mem.read_u16(0x10), Some(0x0201));
    assert_eq!(mem.read_u32(0x11), Some(0x05040302));
    assert_eq!(mem.read_u64(0x10), Some(0x0807060504030201));
    assert_eq!(mem.read_u64(0x12), None);
    assert_eq!(mem.read_u8(0x0f), None);
    assert_eq!(mem.offset_of(0x12, 3), Some(2));
    assert_eq!(mem.offset_of(0x18, 2), None);
    let s = [0x34u8, 0x12, 0x78, 0x56, 0, 0, 0, 0x80];
    assert_eq!(u16_le(&s, 0), 0x1234);
    assert_eq!(u32_le(&s, 0), 0x56781234);
    assert_eq!(u64_le(&s, 0), 0x8000_0000_5678_1234);
    assert!(bytes_eq(b"abc", b"abc"));
    assert!(!bytes_eq(b"abc", b"abd"));
    assert!(!bytes_eq(b"abc", b"ab"));
    assert_eq!(copy_range(b"abcdef", 1, 4), b"bcd".to_vec());
}

#[test]
fn hex_round_trip() {
    for i in [0u64, 1, 9, 10, 15, 16, 255, 0x1000, 0xdeadbeef, u64::MAX] {
        let h = to_hex(i);
        let text = String::from_utf8(h.clone()).unwrap();
        assert_eq!(text, format!("{:x}", i));
        assert_eq!(u64::from_str_radix(&text, 16), Ok(i));
        assert!(!h.is_empty() && h.len() <= 16);
    }
}
