use dryad::kernel_block::{KernelBlock, AUX_CNT};
use dryad::auxv::{Elf64_auxv_t, AT_NULL, AT_PHDR, AT_PHNUM, AT_BASE, AT_SECURE, AT_ENTRY, AT_SYSINFO_EHDR};
use dryad::memory::MemImage;

const BASE: u64 = 0x7000;

/// A process stack image at `BASE`: argc, the argument pointers, a null
/// slot, the environment pointers, a null pointer, the auxiliary vector
/// ending with `AT_NULL`, and then the strings.
fn stack(args: &[&[u8]], env: &[&[u8]], aux: &[(u64, u64)]) -> MemImage {
    let words = 1 + args.len() + 1 + env.len() + 1 + 2 * (aux.len() + 1);
    let mut strings: Vec<u8> = Vec::new();
    let mut ptr = |s: &[u8], strings: &mut Vec<u8>| -> u64 {
        let at = BASE + 8 * words as u64 + strings.len() as u64;
        strings.extend_from_slice(s);
        strings.push(0);
        at
    };
    let mut w: Vec<u64> = vec![args.len() as u64];
    for a in args {
        w.push(ptr(a, &mut strings));
    }
    w.push(0);
    for e in env {
        w.push(ptr(e, &mut strings));
    }
    w.push(0);
    for (t, v) in aux {
        w.push(*t);
        w.push(*v);
    }
    w.push(AT_NULL);
    w.push(0);
    let mut bytes: Vec<u8> = Vec::new();
    for x in w {
        bytes.extend_from_slice(&x.to_le_bytes());
    }
    bytes.extend_from_slice(&strings);
    MemImage { base: BASE, bytes }
}

fn sample() -> KernelBlock {
    let mem = stack(
        &[b"./test", b"-v"],
        &[b"HOME=/root", b"LD_LIBRARY_PATH=/opt/lib:/lib", b"LD_BIND_NOW=", b"HOME=/other"],
        &[(AT_PHDR, 0x400040), (AT_PHNUM, 9), (AT_SECURE, 0), (AT_BASE, 0x7f0000), (AT_PHDR, 0x999)],
    );
    KernelBlock::new(&mem, BASE).unwrap()
}

#[test]
fn reads_arguments_and_environment() {
    let kb = sample();
    assert_eq!(kb.argc, 2);
    assert_eq!(kb.argv, vec![b"./test".to_vec(), b"-v".to_vec()]);
    assert_eq!(kb.envc, 5);
    assert_eq!(kb.env.len(), 5);
    assert_eq!(kb.env[0], b"HOME=/root".to_vec());
    assert_eq!(kb.env[4], Vec::<u8>::new());
    assert_eq!(kb.auxv.len(), 5);
    assert_eq!(kb.auxv[1], Elf64_auxv_t { a_type: AT_PHNUM, a_val: 9 });
}

#[test]
fn getauxval_takes_the_first_entry() {
    let kb = sample();
    assert_eq!(kb.getauxval(AT_PHDR), Ok(0x400040));
    assert_eq!(kb.getauxval(AT_PHNUM), Ok(9));
    assert_eq!(kb.getauxval(AT_SECURE), Ok(0));
    assert_eq!(kb.getauxval(AT_ENTRY), Err(()));
    assert_eq!(kb.getauxval(AT_SYSINFO_EHDR), Err(()));
}

#[test]
fn getenv_takes_the_first_definition() {
    let kb = sample();
    assert_eq!(kb.getenv(b"HOME"), Some(b"/root".to_vec()));
    assert_eq!(kb.getenv(b"LD_LIBRARY_PATH"), Some(b"/opt/lib:/lib".to_vec()));
    assert_eq!(kb.getenv(b"LD_BIND_NOW"), Some(Vec::new()));
    assert_eq!(kb.getenv(b"HOM"), None);
    assert_eq!(kb.getenv(b"LD_DEBUG"), None);
}

#[test]
fn aux_table_is_indexed_by_type() {
    let mem = stack(&[b"a"], &[], &[(AT_PHDR, 0x400040), (AT_PHNUM, 9), (AT_BASE, 0x7f0000), (AT_PHDR, 0x999)]);
    let kb = KernelBlock::new(&mem, BASE).unwrap();
    let aux = kb.get_aux();
    assert_eq!(aux.len(), AUX_CNT);
    // a later entry of the same type overrides an earlier one
    assert_eq!(aux[AT_PHDR as usize], 0x999);
    assert_eq!(aux[AT_PHNUM as usize], 9);
    assert_eq!(aux[AT_BASE as usize], 0x7f0000);
    assert_eq!(aux[AT_ENTRY as usize], 0);
}

#[test]
fn aux_table_stops_at_a_null_value() {
    let mem = stack(&[b"a"], &[], &[(AT_PHNUM, 3), (AT_BASE, 0), (AT_ENTRY, 0x1234)]);
    let kb = KernelBlock::new(&mem, BASE).unwrap();
    let aux = kb.get_aux();
    assert_eq!(aux[AT_PHNUM as usize], 3);
    assert_eq!(aux[AT_ENTRY as usize], 0);
    // the sample's AT_SECURE entry has the value 0: nothing after it is copied
    let aux = sample().get_aux();
    assert_eq!(aux[AT_PHDR as usize], 0x400040);
    assert_eq!(aux[AT_PHNUM as usize], 9);
    assert_eq!(aux[AT_BASE as usize], 0);
}

#[test]
fn empty_environment() {
    let mem = stack(&[], &[], &[]);
    let kb = KernelBlock::new(&mem, BASE).unwrap();
    assert_eq!(kb.argc, 0);
    assert!(kb.argv.is_empty());
    assert_eq!(kb.envc, 1);
    assert_eq!(kb.env, vec![Vec::<u8>::new()]);
    assert!(kb.auxv.is_empty());
}

#[test]
fn truncated_block_is_refused() {
    let mut mem = stack(&[b"a"], &[b"X=1"], &[(AT_PHNUM, 3)]);
    // cut the image in the middle of the auxiliary vector
    mem.bytes.truncate(8 * 7);
    assert!(KernelBlock::new(&mem, BASE).is_none());
    assert!(KernelBlock::new(&mem, BASE - 8).is_none());
    assert!(KernelBlock::new(&mem, 0).is_none());
}

#[test]
fn aux_types_must_index_the_table() {
    let kb = sample();
    assert!(kb.check_aux_types());
    // type 40 is past the table, before any zero value
    let mem = stack(&[b"a"], &[], &[(AT_PHNUM, 3), (40, 1)]);
    let kb2 = KernelBlock::new(&mem, BASE).unwrap();
    assert!(!kb2.check_aux_types());
    // after a zero value nothing is copied, so the type does not matter
    let mem = stack(&[b"a"], &[], &[(AT_PHNUM, 0), (40, 1)]);
    let kb3 = KernelBlock::new(&mem, BASE).unwrap();
    assert!(kb3.check_aux_types());
}
