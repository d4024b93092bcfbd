use dryad::memory::MemImage;
use dryad::kernel_block::KernelBlock;
use dryad::auxv::{AT_NULL, AT_SECURE, AT_SYSINFO_EHDR};
use dryad::binary::elf::dynamic::{
    Dyn, DT_NULL, DT_NEEDED, DT_PLTRELSZ, DT_PLTGOT, DT_STRTAB, DT_SYMTAB, DT_RELA, DT_RELASZ,
    DT_RELAENT, DT_STRSZ, DT_SYMENT, DT_SONAME, DT_JMPREL, DT_RELACOUNT, DT_GNU_HASH,
    get_dynamic_array, get_needed, read_dyn_array, tag_to_str,
};
use dryad::binary::elf::program_header::{
    ProgramHeader, PT_LOAD, PT_DYNAMIC, PT_PHDR, PF_R, PF_X, to_phdr_array, find_first_of_type,
    pt_to_str,
};
use dryad::binary::elf::header::{unsafe_as_header, from_bytes, et_to_str, ET_DYN};
use dryad::binary::elf::image::{LinkInfo, SharedObject, LoadError, find_in};
use dryad::binary::elf::strtab::Strtab;
use dryad::binary::elf::rela::{
    Rela, r_type, r_sym, R_X86_64_RELATIVE, R_X86_64_GLOB_DAT, R_X86_64_64, R_X86_64_JUMP_SLOT,
    R_X86_64_IRELATIVE, R_X86_64_DTPMOD64,
};
use dryad::binary::elf::gnu_hash::hash;
use dryad::relocate::{Fixup, get_relocations, relocate, check_relocations_locatable};
use dryad::linker::check_linker_relas_fit;
use dryad::binary::elf::image::{check_bias_fits, check_needed_readable, check_str_defined};
use dryad::runtime::{Rendezvous, dryad_resolve_symbol, check_resolvable_request};
use dryad::linker::{
    Config, Linker, split_colon_exec, compute_load_bias, relocate_linker, NO_DYNAMIC, BAD_VDSO,
    BAD_IMAGE, check_all_resolvable, check_symbols_resolvable, check_load_bias, startup_error,
};
use dryad::image::elf::ElfExec;
use dryad::linker::working_set::schedule;

fn put(b: &mut Vec<u8>, off: usize, bytes: &[u8]) {
    if b.len() < off + bytes.len() {
        b.resize(off + bytes.len(), 0);
    }
    b[off..off + bytes.len()].copy_from_slice(bytes);
}

fn put_u16(b: &mut Vec<u8>, off: usize, v: u16) {
    put(b, off, &v.to_le_bytes());
}

fn put_u32(b: &mut Vec<u8>, off: usize, v: u32) {
    put(b, off, &v.to_le_bytes());
}

fn put_u64(b: &mut Vec<u8>, off: usize, v: u64) {
    put(b, off, &v.to_le_bytes());
}

/// The description of a small ELF object.
struct Obj {
    soname: &'static str,
    needed: Vec<&'static str>,
    /// name, section index (0 for undefined), value
    syms: Vec<(&'static str, u16, u64)>,
    /// offset, info, addend
    relas: Vec<(u64, u64, i64)>,
    plt: Vec<(u64, u64, i64)>,
    pltgot: u64,
    /// add a `PT_PHDR` header, as executables have
    phdr: bool,
}

const DYN_OFF: usize = 0x100;
const SYM_OFF: usize = 0x300;

fn info(sym: u64, typ: u32) -> u64 {
    (sym << 32) | typ as u64
}

/// The bytes of `o`, laid out from offset 0: the ELF header, the program
/// headers, the dynamic array, the symbol table, the string table, the
/// relocation tables, and room for a GOT.
fn build(o: &Obj) -> Vec<u8> {
    let mut b: Vec<u8> = vec![0; 0x100];
    // string table contents
    let mut strtab: Vec<u8> = vec![0];
    let mut name_at = |s: &str, t: &mut Vec<u8>| -> u64 {
        let at = t.len() as u64;
        t.extend_from_slice(s.as_bytes());
        t.push(0);
        at
    };
    let soname_idx = name_at(o.soname, &mut strtab);
    let needed_idx: Vec<u64> = o.needed.iter().map(|n| name_at(n, &mut strtab)).collect();
    let sym_idx: Vec<u64> = o.syms.iter().map(|s| name_at(s.0, &mut strtab)).collect();
    // symbols: a null symbol, then the given ones
    let nsyms = o.syms.len() + 1;
    let str_off = SYM_OFF + 24 * nsyms;
    let rela_off = (str_off + strtab.len() + 7) / 8 * 8;
    let plt_off = rela_off + 24 * o.relas.len();
    let end = plt_off + 24 * o.plt.len() + 0x100;
    // header
    put(&mut b, 0, b"\x7fELF\x02\x01\x01");
    put_u16(&mut b, 16, ET_DYN);
    put_u16(&mut b, 18, 62);
    put_u32(&mut b, 20, 1);
    put_u64(&mut b, 32, 0x40);
    put_u16(&mut b, 52, 64);
    put_u16(&mut b, 54, 56);
    let nph: u16 = if o.phdr { 3 } else { 2 };
    put_u16(&mut b, 56, nph);
    // program headers
    let mut ph = 0x40;
    if o.phdr {
        put_u32(&mut b, ph, PT_PHDR);
        put_u32(&mut b, ph + 4, PF_R);
        put_u64(&mut b, ph + 8, 0x40);
        put_u64(&mut b, ph + 16, 0x40);
        put_u64(&mut b, ph + 32, 56 * 3);
        put_u64(&mut b, ph + 40, 56 * 3);
        ph += 56;
    }
    put_u32(&mut b, ph, PT_LOAD);
    put_u32(&mut b, ph + 4, PF_R | PF_X);
    put_u64(&mut b, ph + 8, 0);
    put_u64(&mut b, ph + 16, 0);
    put_u64(&mut b, ph + 32, end as u64);
    put_u64(&mut b, ph + 40, end as u64);
    ph += 56;
    put_u32(&mut b, ph, PT_DYNAMIC);
    put_u32(&mut b, ph + 4, PF_R);
    put_u64(&mut b, ph + 8, DYN_OFF as u64);
    put_u64(&mut b, ph + 16, DYN_OFF as u64);
    // dynamic array
    let mut dynamic: Vec<(u64, u64)> = Vec::new();
    for i in &needed_idx {
        dynamic.push((DT_NEEDED, *i));
    }
    dynamic.push((DT_SONAME, soname_idx));
    dynamic.push((DT_STRTAB, str_off as u64));
    dynamic.push((DT_STRSZ, strtab.len() as u64));
    dynamic.push((DT_SYMTAB, SYM_OFF as u64));
    dynamic.push((DT_SYMENT, 24));
    dynamic.push((DT_RELA, rela_off as u64));
    dynamic.push((DT_RELASZ, 24 * o.relas.len() as u64));
    dynamic.push((DT_RELAENT, 24));
    dynamic.push((DT_RELACOUNT, o.relas.len() as u64));
    dynamic.push((DT_JMPREL, plt_off as u64));
    dynamic.push((DT_PLTRELSZ, 24 * o.plt.len() as u64));
    dynamic.push((DT_PLTGOT, o.pltgot));
    dynamic.push((DT_GNU_HASH, 0x80));
    dynamic.push((DT_NULL, 0));
    put_u64(&mut b, ph + 32, 16 * dynamic.len() as u64);
    put_u64(&mut b, ph + 40, 16 * dynamic.len() as u64);
    assert!(DYN_OFF + 16 * dynamic.len() <= SYM_OFF);
    for (k, (t, v)) in dynamic.iter().enumerate() {
        put_u64(&mut b, DYN_OFF + 16 * k, *t);
        put_u64(&mut b, DYN_OFF + 16 * k + 8, *v);
    }
    // symbols
    put(&mut b, SYM_OFF, &[0; 24]);
    for (k, (_, shndx, value)) in o.syms.iter().enumerate() {
        let at = SYM_OFF + 24 * (k + 1);
        put_u32(&mut b, at, sym_idx[k] as u32);
        put_u16(&mut b, at + 6, *shndx);
        put_u64(&mut b, at + 8, *value);
    }
    put(&mut b, str_off, &strtab);
    for (k, (off, inf, add)) in o.relas.iter().enumerate() {
        let at = rela_off + 24 * k;
        put_u64(&mut b, at, *off);
        put_u64(&mut b, at + 8, *inf);
        put_u64(&mut b, at + 16, *add as u64);
    }
    for (k, (off, inf, add)) in o.plt.iter().enumerate() {
        let at = plt_off + 24 * k;
        put_u64(&mut b, at, *off);
        put_u64(&mut b, at + 8, *inf);
        put_u64(&mut b, at + 16, *add as u64);
    }
    b.resize(end, 0);
    b
}

fn libfoo() -> Obj {
    Obj {
        soname: "libfoo.so",
        needed: vec!["libbar.so", "libc.so.6"],
        syms: vec![("foo", 1, 0x1234), ("bar", 0, 0), ("foo", 1, 0x5678), ("baz", 1, 0x40)],
        relas: vec![
            (0x3a0, info(0, R_X86_64_RELATIVE), 0x10),
            (0x3a8, info(2, R_X86_64_GLOB_DAT), 0),
            (0x3b0, info(1, R_X86_64_64), 8),
            (0x3b8, info(2, R_X86_64_64), 8),
        ],
        plt: vec![
            (0x318, info(2, R_X86_64_JUMP_SLOT), 0),
            (0x320, info(0, R_X86_64_IRELATIVE), 0x40),
        ],
        pltgot: 0x300,
        phdr: false,
    }
}

fn libbar() -> Obj {
    Obj {
        soname: "libbar.so",
        needed: vec!["libc.so.6"],
        syms: vec![("bar", 2, 0x100), ("foo", 0, 0)],
        relas: vec![],
        plt: vec![],
        pltgot: 0,
        phdr: false,
    }
}

fn vdso() -> Obj {
    Obj {
        soname: "linux-vdso.so.1",
        needed: vec![],
        syms: vec![("__vdso_time", 1, 0x700)],
        relas: vec![],
        plt: vec![],
        pltgot: 0,
        phdr: false,
    }
}

fn object_at(base: u64, o: &Obj) -> (MemImage, SharedObject) {
    let mem = MemImage { base, bytes: build(o) };
    let so = SharedObject::from_raw(&mem, base).unwrap();
    (mem, so)
}

#[test]
fn header_and_program_headers() {
    let bytes = build(&libfoo());
    let mut first = [0u8; 64];
    first.copy_from_slice(&bytes[0..64]);
    let h = from_bytes(&first);
    assert_eq!(&h.e_ident[0..4], b"\x7fELF");
    assert_eq!(h.e_type, ET_DYN);
    assert_eq!(et_to_str(h.e_type), "DYN");
    assert_eq!(h.e_phoff, 0x40);
    assert_eq!(h.e_phnum, 2);
    let mem = MemImage { base: 0x10000, bytes };
    assert_eq!(unsafe_as_header(&mem, 0x10000), Some(h));
    assert_eq!(unsafe_as_header(&mem, 0x0fff0), None);
    let phdrs = to_phdr_array(&mem, 0x10040, 2).unwrap();
    assert_eq!(phdrs[0].p_type, PT_LOAD);
    assert_eq!(phdrs[1].p_type, PT_DYNAMIC);
    assert_eq!(phdrs[1].p_vaddr, DYN_OFF as u64);
    assert_eq!(pt_to_str(phdrs[1].p_type), "PT_DYNAMIC");
    assert_eq!(find_first_of_type(&phdrs, PT_DYNAMIC), Some(1));
    assert_eq!(find_first_of_type(&phdrs, PT_PHDR), None);
    assert_eq!(to_phdr_array(&mem, 0x10040, 100000), None);
}

#[test]
fn dynamic_array_and_link_info() {
    let (mem, _) = object_at(0x10000, &libfoo());
    let phdrs = to_phdr_array(&mem, 0x10040, 2).unwrap();
    let dynamic = get_dynamic_array(&mem, 0x10000, &phdrs).unwrap();
    assert_eq!(dynamic.len(), 15);
    assert_eq!(dynamic[0], Dyn { d_tag: DT_NEEDED, d_val: 11 });
    assert_eq!(tag_to_str(dynamic[0].d_tag), "DT_NEEDED");
    assert_eq!(tag_to_str(DT_STRSZ), "DT_STRSZ");
    assert_eq!(tag_to_str(DT_NULL), "DT_NULL");
    assert_eq!(read_dyn_array(&mem, 0x10000 + DYN_OFF as u64), Some(dynamic.clone()));
    // without bias, addresses stay as they are
    let info0 = LinkInfo::new(&dynamic, 0);
    assert_eq!(info0.symtab, SYM_OFF as u64);
    assert_eq!(info0.syment, 24);
    assert_eq!(info0.relaent, 24);
    assert_eq!(info0.relasz, 96);
    assert_eq!(info0.needed_count, 2);
    assert_eq!(info0.pltgot, 0x300);
    assert_eq!(info0.soname, 1);
    // with a bias, address entries move and sizes do not
    let info = LinkInfo::new(&dynamic, 0x10000);
    assert_eq!(info.symtab, 0x10000 + SYM_OFF as u64);
    assert_eq!(info.pltgot, 0x10300);
    assert_eq!(info.gnu_hash, 0x10080);
    assert_eq!(info.relasz, 96);
    assert_eq!(info.strsz, info0.strsz);
    // a later entry of a tag overrides an earlier one
    let mut twice = dynamic.clone();
    twice.insert(0, Dyn { d_tag: DT_PLTGOT, d_val: 0x999 });
    assert_eq!(LinkInfo::new(&twice, 0).pltgot, 0x300);
    twice.insert(twice.len() - 1, Dyn { d_tag: DT_PLTGOT, d_val: 0x999 });
    assert_eq!(LinkInfo::new(&twice, 0).pltgot, 0x999);
    // no dynamic array without PT_DYNAMIC
    assert_eq!(get_dynamic_array(&mem, 0x10000, &phdrs[0..1]), None);
}

#[test]
fn string_tables() {
    let t = Strtab { bytes: b"\0abc\0de".to_vec() };
    assert_eq!(t.get(1), b"abc".to_vec());
    assert_eq!(t.get(2), b"bc".to_vec());
    assert_eq!(t.get(0), b"".to_vec());
    assert_eq!(t.get(7), b"".to_vec());
    assert_eq!(t.get(100), b"".to_vec());
    // without a NUL at its end, the last byte of the last name is dropped
    assert_eq!(t.get(5), b"d".to_vec());
    let mem = MemImage { base: 0x500, bytes: b"xx\0libc.so.6\0".to_vec() };
    let s = Strtab::new(&mem, 0x502, 11).unwrap();
    assert_eq!(s.get(1), b"libc.so.6".to_vec());
    assert!(Strtab::new(&mem, 0x502, 12).is_none());
    let dyns = vec![
        Dyn { d_tag: DT_NEEDED, d_val: 1 },
        Dyn { d_tag: DT_STRSZ, d_val: 3 },
        Dyn { d_tag: DT_NEEDED, d_val: 5 },
    ];
    let t2 = Strtab { bytes: b"\0one\0two\0".to_vec() };
    assert_eq!(get_needed(&dyns, &t2, 2), vec![b"one".to_vec(), b"two".to_vec()]);
}

#[test]
fn shared_object_from_raw() {
    let (_, so) = object_at(0x10000, &libfoo());
    assert_eq!(so.name, b"libfoo.so".to_vec());
    assert_eq!(so.load_bias, 0x10000);
    assert_eq!(so.libs, vec![b"libbar.so".to_vec(), b"libc.so.6".to_vec()]);
    assert_eq!(so.symtab.len(), 5);
    assert_eq!(so.relatab.len(), 4);
    assert_eq!(so.pltrelatab.len(), 2);
    // address entries get the bias of the object
    assert_eq!(so.pltgot, 0x10300);
    assert_eq!(so.gnu_hash, 0x10080);
    assert_eq!(so.map_begin, 0);
    assert_eq!(so.phdrs.len(), 2);
    assert_eq!(so.dynamic.len(), 15);
}

#[test]
fn shared_object_errors() {
    let mem = MemImage { base: 0x10000, bytes: build(&libfoo()) };
    assert_eq!(SharedObject::from_raw(&mem, 0x20000).unwrap_err(), LoadError::Unmapped);
    // no PT_DYNAMIC: make the second header PT_NULL
    let mut bytes = build(&libfoo());
    put_u32(&mut bytes, 0x40 + 56, 0);
    let m2 = MemImage { base: 0x10000, bytes };
    assert_eq!(SharedObject::from_raw(&m2, 0x10000).unwrap_err(), LoadError::NoDynamic);
    // string table before the symbol table
    let mut bytes = build(&libfoo());
    put_u64(&mut bytes, DYN_OFF + 16 * 3 + 8, 0x10);
    let m3 = MemImage { base: 0x10000, bytes };
    assert_eq!(SharedObject::from_raw(&m3, 0x10000).unwrap_err(), LoadError::StrtabBeforeSymtab);
    // program headers past the image
    let mut bytes = build(&libfoo());
    put_u64(&mut bytes, 32, 0x100000);
    let m4 = MemImage { base: 0x10000, bytes };
    assert_eq!(SharedObject::from_raw(&m4, 0x10000).unwrap_err(), LoadError::Unmapped);
    // program header offset that overflows
    let mut bytes = build(&libfoo());
    put_u64(&mut bytes, 32, u64::MAX);
    let m5 = MemImage { base: 0x10000, bytes };
    assert_eq!(SharedObject::from_raw(&m5, 0x10000).unwrap_err(), LoadError::Overflow);
}

#[test]
fn symbol_lookup() {
    let (_, foo) = object_at(0x10000, &libfoo());
    let (_, bar) = object_at(0x40000, &libbar());
    // the first defined symbol of the name wins
    assert_eq!(foo.find(b"foo", hash(b"foo")), Some(0x10000 + 0x1234));
    assert_eq!(foo.find(b"baz", hash(b"baz")), Some(0x10040));
    // undefined symbols are not found
    assert_eq!(foo.find(b"bar", hash(b"bar")), None);
    assert_eq!(foo.find(b"fo", hash(b"fo")), None);
    assert_eq!(bar.find(b"bar", hash(b"bar")), Some(0x40100));
    // the link map is searched in order
    let map = vec![bar, foo];
    assert_eq!(find_in(&map, b"foo", hash(b"foo")), Some(0x11234));
    assert_eq!(find_in(&map, b"bar", hash(b"bar")), Some(0x40100));
    assert_eq!(find_in(&map, b"nothing", hash(b"nothing")), None);
    assert_eq!(find_in(&[], b"foo", hash(b"foo")), None);
}

#[test]
fn gnu_hash_values() {
    assert_eq!(hash(b""), 5381);
    assert_eq!(hash(b"a"), 0x2b606);
    assert_eq!(hash(b"foo"), 0x0b887389);
    assert_eq!(hash(b"printf"), 0x156b2bb8);
}

#[test]
fn relocation_info_fields() {
    assert_eq!(r_type(info(5, R_X86_64_GLOB_DAT)), R_X86_64_GLOB_DAT);
    assert_eq!(r_sym(info(5, R_X86_64_GLOB_DAT)), 5);
    assert_eq!(r_type(0xffff_ffff_0000_0025), R_X86_64_IRELATIVE);
    assert_eq!(r_sym(0xffff_ffff_0000_0025), 0xffff_ffff);
}

#[test]
fn relocate_applies_only_relative() {
    let relas = vec![
        Rela { r_offset: 0x10, r_info: info(0, R_X86_64_RELATIVE), r_addend: 0x100 },
        Rela { r_offset: 0x18, r_info: info(1, R_X86_64_GLOB_DAT), r_addend: 0 },
        Rela { r_offset: 0x20, r_info: info(0, R_X86_64_RELATIVE), r_addend: -8 },
    ];
    let fixups = relocate(&relas, 0x7000);
    assert_eq!(
        fixups,
        vec![
            Fixup::Store { addr: 0x7010, value: 0x7100 },
            Fixup::Store { addr: 0x7020, value: 0x6ff8 },
        ]
    );
    assert!(relocate(&[], 0x7000).is_empty());
}

#[test]
fn relocation_table_through_dynamic() {
    let (mem, so) = object_at(0x10000, &libfoo());
    let relas = get_relocations(&mem, 0x10000, &so.dynamic).unwrap();
    assert_eq!(relas, so.relatab);
    assert_eq!(relas[0], Rela { r_offset: 0x3a0, r_info: info(0, R_X86_64_RELATIVE), r_addend: 0x10 });
}

#[test]
fn executable_from_program_headers() {
    let mut exe = libfoo();
    exe.phdr = true;
    exe.soname = "unused";
    let mem = MemImage { base: 0x400000, bytes: build(&exe) };
    let so = SharedObject::from_executable(&mem, b"./test", 0x400040, 3).unwrap();
    assert_eq!(so.name, b"./test".to_vec());
    assert_eq!(so.load_bias, 0x400000);
    assert_eq!(so.libs, vec![b"libbar.so".to_vec(), b"libc.so.6".to_vec()]);
    assert_eq!(so.symtab.len(), 5);
    let e = ElfExec::new(&mem, 0x400040, 3).unwrap();
    assert_eq!(e.load_bias, 0x400000);
    assert_eq!(e.base, 0x400000);
    assert_eq!(e.phdrs.len(), 3);
    assert_eq!(e.dynamic.unwrap().len(), 15);
    assert!(ElfExec::new(&mem, 0x500000, 3).is_none());
    // program headers outside the image
    assert!(ElfExec::new(&mem, 0x20, 3).is_none());
    assert_eq!(
        SharedObject::from_executable(&mem, b"x", 0x10, 3).unwrap_err(),
        LoadError::Unmapped
    );
}

#[test]
fn load_bias_of_an_image() {
    let ph = |t: u32, off: u64, vaddr: u64| ProgramHeader {
        p_type: t,
        p_flags: 0,
        p_offset: off,
        p_vaddr: vaddr,
        p_paddr: 0,
        p_filesz: 0,
        p_memsz: 0,
        p_align: 0,
    };
    let phdrs = vec![ph(PT_PHDR, 0x40, 0x40), ph(PT_LOAD, 0x1000, 0x400), ph(PT_LOAD, 0, 0)];
    assert_eq!(compute_load_bias(0x7f0000, &phdrs), 0x7f0000 + 0xc00);
    assert_eq!(compute_load_bias(0x7f0000, &phdrs[0..1]), 0);
}

#[test]
fn linker_self_relocation() {
    let relas = vec![
        Rela { r_offset: 0x10, r_info: info(0, R_X86_64_RELATIVE), r_addend: 0x20 },
        Rela { r_offset: 0x18, r_info: info(3, R_X86_64_DTPMOD64), r_addend: 0 },
        Rela { r_offset: 0x20, r_info: info(3, R_X86_64_GLOB_DAT), r_addend: 0 },
    ];
    assert_eq!(
        relocate_linker(0x1000, &relas),
        vec![Fixup::Store { addr: 0x1010, value: 0x1020 }, Fixup::Store { addr: 0x1018, value: 0 }]
    );
}

#[test]
fn colon_separated_paths() {
    assert_eq!(split_colon_exec(b"/a:/b/c"), vec![b"/a".to_vec(), b"/b/c".to_vec()]);
    assert_eq!(split_colon_exec(b""), vec![Vec::<u8>::new()]);
    assert_eq!(split_colon_exec(b"::"), vec![Vec::<u8>::new(), Vec::new(), Vec::new()]);
    assert_eq!(split_colon_exec(b"/lib:"), vec![b"/lib".to_vec(), Vec::new()]);
}

const STACK: u64 = 0x7000;

fn stack(env: &[&[u8]], aux: &[(u64, u64)]) -> MemImage {
    let words = 1 + 1 + 1 + env.len() + 1 + 2 * (aux.len() + 1);
    let mut strings: Vec<u8> = Vec::new();
    let mut w: Vec<u64> = vec![1];
    let mut ptr = |s: &[u8], strings: &mut Vec<u8>| -> u64 {
        let at = STACK + 8 * words as u64 + strings.len() as u64;
        strings.extend_from_slice(s);
        strings.push(0);
        at
    };
    w.push(ptr(b"./test", &mut strings));
    w.push(0);
    for e in env {
        w.push(ptr(e, &mut strings));
    }
    w.push(0);
    for (t, v) in aux {
        w.push(*t);
        w.push(*v);
    }
    w.push(AT_NULL);
    w.push(0);
    let mut bytes: Vec<u8> = Vec::new();
    for x in w {
        bytes.extend_from_slice(&x.to_le_bytes());
    }
    bytes.extend_from_slice(&strings);
    MemImage { base: STACK, bytes }
}

fn block(env: &[&[u8]], secure: u64) -> KernelBlock {
    let mem = stack(env, &[(AT_SECURE, secure), (AT_SYSINFO_EHDR, 0x90000)]);
    KernelBlock::new(&mem, STACK).unwrap()
}

#[test]
fn config_defaults() {
    let c = Config::new(&block(&[], 0));
    assert!(!c.bind_now);
    assert!(c.debug);
    assert!(!c.secure);
    assert!(!c.verbose);
    assert!(!c.trace_loaded_objects);
    assert_eq!(c.library_path, vec![b"/usr/lib".to_vec()]);
    assert!(c.preload.is_empty());
}

#[test]
fn config_from_environment() {
    let c = Config::new(&block(
        &[
            b"LD_BIND_NOW=1",
            b"LD_DEBUG=none",
            b"LD_VERBOSE=",
            b"LD_TRACE_LOADED_OBJECTS=yes",
            b"LD_LIBRARY_PATH=/opt/lib:/home/lib",
        ],
        0,
    ));
    assert!(c.bind_now);
    assert!(!c.debug);
    assert!(!c.verbose);
    assert!(c.trace_loaded_objects);
    assert_eq!(
        c.library_path,
        vec![b"/opt/lib".to_vec(), b"/home/lib".to_vec(), b"/usr/lib".to_vec()]
    );
    assert!(!Config::new(&block(&[b"LD_DEBUG=0"], 0)).debug);
    assert!(Config::new(&block(&[b"LD_DEBUG=all"], 0)).debug);
}

#[test]
fn secure_mode_ignores_library_path() {
    let c = Config::new(&block(&[b"LD_LIBRARY_PATH=/evil"], 1));
    assert!(c.secure);
    assert_eq!(c.library_path, vec![b"/usr/lib".to_vec()]);
}

/// The linker's own image at `base`: one RELATIVE relocation.
fn dryad_image(base: u64) -> MemImage {
    let o = Obj {
        soname: "dryad.so.1",
        needed: vec![],
        syms: vec![],
        relas: vec![
            (0x3a0, info(0, R_X86_64_RELATIVE), 0x30),
            (0x3a8, info(1, R_X86_64_DTPMOD64), 0),
        ],
        plt: vec![],
        pltgot: 0,
        phdr: false,
    };
    MemImage { base, bytes: build(&o) }
}

fn new_linker(env: &[&[u8]]) -> Linker {
    let mem = dryad_image(0x200000);
    let vdso_mem = MemImage { base: 0x90000, bytes: build(&vdso()) };
    let (l, fixups) = Linker::new(&mem, 0x200000, &block(env, 0), &vdso_mem).unwrap();
    assert_eq!(
        fixups,
        vec![
            Fixup::Store { addr: 0x2003a0, value: 0x200030 },
            Fixup::Store { addr: 0x2003a8, value: 0 },
        ]
    );
    l
}

#[test]
fn linker_starts_with_the_vdso() {
    let l = new_linker(&[]);
    assert_eq!(l.base, 0x200000);
    assert_eq!(l.load_bias, 0x200000);
    assert_eq!(l.phdrs.len(), 2);
    assert_eq!(l.dynamic.len(), 13);
    assert_eq!(l.working_set.len(), 1);
    assert_eq!(l.working_set[0].0, b"linux-vdso.so.1".to_vec());
    assert_eq!(l.working_set[0].1.name, b"linux-vdso.so.1".to_vec());
    assert_eq!(l.link_map_order, vec![b"linux-vdso.so.1".to_vec()]);
    assert!(l.link_map.is_empty());
    assert_eq!(l.config, Config::new(&block(&[], 0)));
}

#[test]
fn linker_errors() {
    let vdso_mem = MemImage { base: 0x90000, bytes: build(&vdso()) };
    let kb = block(&[], 0);
    // its own image has no dynamic array
    let mut mem = dryad_image(0x200000);
    put_u32(&mut mem.bytes, 0x40 + 56, 0);
    assert_eq!(Linker::new(&mem, 0x200000, &kb, &vdso_mem).unwrap_err(), NO_DYNAMIC);
    assert_eq!(NO_DYNAMIC, "<dryad> SEVERE: no dynamic array found for dryad; exiting\n");
    // the image is not where the linker is told it is
    let mem = dryad_image(0x200000);
    assert_eq!(Linker::new(&mem, 0x300000, &kb, &vdso_mem).unwrap_err(), BAD_IMAGE);
    // the vdso cannot be read
    let elsewhere = MemImage { base: 0x1000, bytes: build(&vdso()) };
    assert_eq!(Linker::new(&mem, 0x200000, &kb, &elsewhere).unwrap_err(), BAD_VDSO);
}

/// A linker whose link map is [exe (libfoo's shape), libbar].
fn linked(env: &[&[u8]]) -> Linker {
    let mut l = new_linker(env);
    let (_, foo) = object_at(0x10000, &libfoo());
    let (_, bar) = object_at(0x40000, &libbar());
    l.enqueue_needed(&vec![b"libbar.so".to_vec()]);
    assert!(!l.is_loaded(b"libbar.so"));
    let next = l.add_loaded(b"libbar.so", bar);
    assert_eq!(next, vec![b"libc.so.6".to_vec()]);
    assert!(l.is_loaded(b"libbar.so"));
    assert!(l.is_loaded(b"linux-vdso.so.1"));
    assert_eq!(
        l.link_map_order,
        vec![b"linux-vdso.so.1".to_vec(), b"libbar.so".to_vec(), b"libc.so.6".to_vec()]
    );
    // libc is not loaded in this test; take it out of the order again
    l.link_map_order.pop();
    l.assemble_link_map(foo);
    assert!(l.working_set.is_empty());
    l
}

#[test]
fn link_map_follows_the_search_order() {
    let l = linked(&[]);
    let names: Vec<Vec<u8>> = l.link_map.iter().map(|so| so.name.clone()).collect();
    assert_eq!(
        names,
        vec![b"libfoo.so".to_vec(), b"linux-vdso.so.1".to_vec(), b"libbar.so".to_vec()]
    );
    assert_eq!(l.find_symbol(b"foo"), Some(0x11234));
    assert_eq!(l.find_symbol(b"bar"), Some(0x40100));
    assert_eq!(l.find_symbol(b"__vdso_time"), Some(0x90700));
    assert_eq!(l.find_symbol(b"missing"), None);
}

#[test]
fn add_loaded_appends_new_names_once() {
    let mut l = new_linker(&[]);
    l.enqueue_needed(&vec![b"libbar.so".to_vec(), b"libbar.so".to_vec()]);
    assert_eq!(l.link_map_order.len(), 3);
    let (_, foo) = object_at(0x10000, &libfoo());
    let libs = l.add_loaded(b"libfoo.so", foo);
    assert_eq!(libs, vec![b"libbar.so".to_vec(), b"libc.so.6".to_vec()]);
    assert_eq!(
        l.link_map_order,
        vec![
            b"linux-vdso.so.1".to_vec(),
            b"libbar.so".to_vec(),
            b"libbar.so".to_vec(),
            b"libc.so.6".to_vec()
        ]
    );
    assert_eq!(l.working_set.len(), 2);
    assert_eq!(l.working_set[1].0, b"libfoo.so".to_vec());
}

#[test]
fn got_preparation() {
    let l = linked(&[]);
    assert!(l.prepare_got(0, 0, 0xaaaa, 0xbbbb).is_empty());
    assert_eq!(
        l.prepare_got(0, 0x1000, 0xaaaa, 0xbbbb),
        vec![
            Fixup::Store { addr: 0x1008, value: 0xaaaa },
            Fixup::Store { addr: 0x1010, value: 0xbbbb },
        ]
    );
}

#[test]
fn got_relocations() {
    let l = linked(&[]);
    assert!(l.check_link_ready());
    let exe = &l.link_map[0];
    let fixups = l.relocate_got(0, exe, 0xaaaa, 0xbbbb);
    assert_eq!(
        fixups,
        vec![
            // RELATIVE: B + A
            Fixup::Store { addr: 0x103a0, value: 0x10010 },
            // GLOB_DAT of bar: found in libbar
            Fixup::Store { addr: 0x103a8, value: 0x40100 },
            // 64 of foo: S + A
            Fixup::Store { addr: 0x103b0, value: 0x1123c },
            // 64 of bar: S + A
            Fixup::Store { addr: 0x103b8, value: 0x40108 },
            // GOT[1] and GOT[2] of the GOT at 0x10300
            Fixup::Store { addr: 0x10308, value: 0xaaaa },
            Fixup::Store { addr: 0x10310, value: 0xbbbb },
        ]
    );
}

#[test]
fn plt_relocations_lazy_and_now() {
    let lazy = linked(&[]);
    let exe = &lazy.link_map[0];
    assert_eq!(
        lazy.relocate_plt(exe),
        vec![Fixup::StoreIfuncResult { addr: 0x10320, ifunc: 0x10040 }]
    );
    let now = linked(&[b"LD_BIND_NOW=1"]);
    let exe = &now.link_map[0];
    assert_eq!(
        now.relocate_plt(exe),
        vec![
            Fixup::Store { addr: 0x10318, value: 0x40100 },
            Fixup::StoreIfuncResult { addr: 0x10320, ifunc: 0x10040 },
        ]
    );
}

#[test]
fn whole_link_map_relocation() {
    let l = linked(&[]);
    let all = l.relocate_all(&vec![1, 2, 3], 0xbbbb);
    let exe = &l.link_map[0];
    let mut expected = l.relocate_got(0, exe, 1, 0xbbbb);
    expected.extend(l.relocate_got(1, &l.link_map[1], 2, 0xbbbb));
    expected.extend(l.relocate_got(2, &l.link_map[2], 3, 0xbbbb));
    expected.extend(l.relocate_plt(exe));
    assert_eq!(all, expected);
}

#[test]
fn lazy_binding_resolves_through_the_link_map() {
    let l = linked(&[]);
    let r = Rendezvous { idx: 0, link_map: l.link_map.as_slice() };
    // plt relocation 0 of the executable asks for bar
    assert_eq!(dryad_resolve_symbol(&r, 0), 0x40100);
    // plt relocation 1 names symbol 0, which has no name and is not found
    assert_eq!(dryad_resolve_symbol(&r, 1), 0xdeadbeef);
}

#[test]
fn plain_elf_header_record() {
    let h = dryad::binary::elf::Header {
        e_ident: [0; 16],
        e_type: ET_DYN,
        e_machine: 62,
        e_version: 1,
        e_entry: 0,
        e_phoff: 64,
        e_shoff: 0,
        e_flags: 0,
        e_ehsize: 64,
        e_phentsize: 56,
        e_phnum: 2,
        e_shentsize: 0,
        e_shnum: 0,
        e_shstrndx: 0,
    };
    h.print_debug();
    let e = dryad::binary::elf::Elf { header: h };
    assert_eq!(e.header.e_phnum, 2);
}

fn needed_of(name: &[u8]) -> Vec<&'static str> {
    match name {
        b"libbar" => vec!["libderp", "libbaz", "libfoo", "libslerp", "libmerp"],
        b"libbaz" => vec!["libmerp", "libslerp"],
        _ => vec![],
    }
}

fn soname_of(name: &[u8]) -> &'static str {
    match name {
        b"libfoo" => "libfoo",
        b"libbar" => "libbar",
        b"libbaz" => "libbaz",
        b"libderp" => "libderp",
        b"libslerp" => "libslerp",
        _ => "libmerp",
    }
}

/// Loads `name` and, depth first, what it needs, as the linker's loader does.
fn load_all(l: &mut Linker, name: &[u8], next_base: &mut u64) {
    if !l.is_loaded(name) {
        let o = Obj {
            soname: soname_of(name),
            needed: needed_of(name),
            syms: vec![],
            relas: vec![],
            plt: vec![],
            pltgot: 0,
            phdr: false,
        };
        let (_, so) = object_at(*next_base, &o);
        *next_base += 0x10000;
        let libs = l.add_loaded(name, so);
        for lib in libs {
            load_all(l, &lib, next_base);
        }
    }
}

#[test]
fn breadth_first_search_order() {
    // exe needs libfoo, libbar, libbaz; libbar needs libderp, libbaz, libfoo,
    // libslerp, libmerp; libbaz needs libmerp, libslerp. The search list is
    // flattened breadth first: exe, libfoo, libbar, libbaz, libderp,
    // libslerp, libmerp (after the vdso, which comes first here).
    let mut l = new_linker(&[]);
    let exe_libs = vec![b"libfoo".to_vec(), b"libbar".to_vec(), b"libbaz".to_vec()];
    l.enqueue_needed(&exe_libs);
    let mut base = 0x1000000;
    for lib in &exe_libs {
        load_all(&mut l, lib, &mut base);
    }
    let expected: Vec<Vec<u8>> = vec![
        b"linux-vdso.so.1".to_vec(),
        b"libfoo".to_vec(),
        b"libbar".to_vec(),
        b"libbaz".to_vec(),
        b"libderp".to_vec(),
        b"libslerp".to_vec(),
        b"libmerp".to_vec(),
    ];
    assert_eq!(l.link_map_order, expected);
    assert!(l.can_assemble());
    let (_, exe) = object_at(0x400000, &libfoo());
    l.assemble_link_map(exe);
    let names: Vec<Vec<u8>> = l.link_map.iter().map(|so| so.name.clone()).collect();
    assert_eq!(names[0], b"libfoo.so".to_vec());
    assert_eq!(names[1..].to_vec(), expected);
    assert!(l.working_set.is_empty());
}

#[test]
fn duplicate_needed_entries_cannot_be_assembled() {
    let mut l = new_linker(&[]);
    l.enqueue_needed(&vec![b"libfoo".to_vec(), b"libfoo".to_vec()]);
    let mut base = 0x1000000;
    load_all(&mut l, b"libfoo", &mut base);
    assert!(!l.can_assemble());
    // a name in the order that was never loaded
    let mut l2 = new_linker(&[]);
    l2.enqueue_needed(&vec![b"libmissing".to_vec()]);
    assert!(!l2.can_assemble());
}

#[test]
fn load_error_variants() {
    // DT_SYMENT of 0 in an executable: no symbol count can be computed
    let mut exe = libfoo();
    exe.phdr = true;
    let mut bytes = build(&exe);
    // DT_SYMENT is the sixth entry after the two DT_NEEDED ones
    put_u64(&mut bytes, DYN_OFF + 16 * 6 + 8, 0);
    let mem = MemImage { base: 0x400000, bytes };
    assert_eq!(
        SharedObject::from_executable(&mem, b"./t", 0x400040, 3).unwrap_err(),
        LoadError::ZeroEntrySize
    );
    // a DT_NEEDED name that starts with a NUL cannot be read
    let mut bytes = build(&libfoo());
    put_u64(&mut bytes, DYN_OFF + 8, 10);
    let mem = MemImage { base: 0x10000, bytes };
    assert_eq!(SharedObject::from_raw(&mem, 0x10000).unwrap_err(), LoadError::BadName);
    // an address entry that overflows with the bias
    let mut bytes = build(&libfoo());
    put_u64(&mut bytes, DYN_OFF + 16 * 13 + 8, u64::MAX);
    let mem = MemImage { base: 0x10000, bytes };
    assert_eq!(SharedObject::from_raw(&mem, 0x10000).unwrap_err(), LoadError::Overflow);
}

#[test]
fn readiness_checks() {
    let l = linked(&[]);
    assert!(check_all_resolvable(&l.link_map));
    assert!(check_symbols_resolvable(&l.link_map[0]));
    assert!(l.check_got_relas(&l.link_map[0]));
    assert!(Linker::check_plt_relas(&l.link_map[0]));
    assert!(check_resolvable_request(&l.link_map, 0, 0));
    assert!(!check_resolvable_request(&l.link_map, 0, 2));
    assert!(!check_resolvable_request(&l.link_map, 3, 0));
    // a relocation naming a symbol past the table
    let mut bad = libfoo();
    bad.relas = vec![(0x3a0, info(99, R_X86_64_GLOB_DAT), 0)];
    bad.plt = vec![(0x318, info(99, R_X86_64_JUMP_SLOT), 0)];
    let (_, so) = object_at(0x10000, &bad);
    assert!(!l.check_got_relas(&so));
    assert!(!Linker::check_plt_relas(&so));
    // a symbol whose name starts at a NUL
    let mut odd = libfoo();
    odd.syms = vec![("", 1, 0x10)];
    let (_, so) = object_at(0x10000, &odd);
    assert!(!check_symbols_resolvable(&so));
    let ph = ProgramHeader {
        p_type: PT_LOAD,
        p_flags: 0,
        p_offset: 0,
        p_vaddr: 0x10,
        p_paddr: 0,
        p_filesz: 0,
        p_memsz: 0,
        p_align: 0,
    };
    // p_offset - p_vaddr would go below 0
    assert!(!check_load_bias(0x10, &[ph]));
    let ph2 = ProgramHeader { p_offset: 0x20, ..ph };
    assert!(check_load_bias(0x10, &[ph2]));
    assert_eq!(compute_load_bias(0x10, &[ph2]), 0x20);
    assert!(!check_load_bias(u64::MAX - 5, &[ph2]));
}

#[test]
fn table_checks() {
    let (_, so) = object_at(0x10000, &libfoo());
    assert!(check_relocations_locatable(&so.dynamic, 0x10000));
    // no DT_RELAENT: the entry size would be 0
    let without_ent: Vec<Dyn> = so.dynamic.iter().copied().filter(|d| d.d_tag != DT_RELAENT).collect();
    assert!(!check_relocations_locatable(&without_ent, 0x10000));
    // a DT_RELA address that overflows with the bias
    assert!(!check_relocations_locatable(&so.dynamic, u64::MAX - 4));
    assert!(check_bias_fits(&so.dynamic, 0x10000));
    assert!(!check_bias_fits(&so.dynamic, u64::MAX - 4));
    assert!(check_needed_readable(&so.dynamic, &so.strtab.bytes));
    assert!(!check_needed_readable(&[Dyn { d_tag: DT_NEEDED, d_val: 2 }], b"a\0\0b"));
    assert!(check_str_defined(0, b"\0a"));
    assert!(check_str_defined(1, b"\0a"));
    assert!(!check_str_defined(2, b"\0a\0b"));
    assert!(check_str_defined(9, b"\0a"));
    let relas = vec![Rela { r_offset: 0x10, r_info: info(0, R_X86_64_RELATIVE), r_addend: 1 }];
    assert!(check_linker_relas_fit(&relas, 0x1000));
    assert!(!check_linker_relas_fit(&relas, u64::MAX - 1));
}

#[test]
fn split_then_join_gives_the_path_back() {
    for s in [&b"/a:/b/c"[..], b"", b"::", b"/lib:", b"no-colon"] {
        let parts = split_colon_exec(s);
        assert!(!parts.is_empty());
        assert!(parts.iter().all(|p| !p.contains(&b':')));
        assert_eq!(parts.join(&b':'), s.to_vec());
    }
}

#[test]
fn linker_relocation_matches_relative_relocation() {
    let relas = vec![
        Rela { r_offset: 0x10, r_info: info(0, R_X86_64_RELATIVE), r_addend: 0x20 },
        Rela { r_offset: 0x20, r_info: info(3, R_X86_64_GLOB_DAT), r_addend: 0 },
        Rela { r_offset: 0x28, r_info: info(0, R_X86_64_RELATIVE), r_addend: -0x8 },
    ];
    assert_eq!(relocate_linker(0x5000, &relas), relocate(&relas, 0x5000));
}

#[test]
fn lazy_and_eager_binding_agree() {
    let now = linked(&[b"LD_BIND_NOW=1"]);
    let eager = now.relocate_plt(&now.link_map[0]);
    let r = Rendezvous { idx: 0, link_map: now.link_map.as_slice() };
    let lazy = dryad_resolve_symbol(&r, 0);
    assert_eq!(eager[0], Fixup::Store { addr: 0x10318, value: lazy as u64 });
}

#[test]
fn search_order_holds_every_needed_library() {
    let mut l = new_linker(&[]);
    let exe_libs = vec![b"libfoo".to_vec(), b"libbar".to_vec(), b"libbaz".to_vec()];
    l.enqueue_needed(&exe_libs);
    let mut base = 0x1000000;
    for lib in &exe_libs {
        load_all(&mut l, lib, &mut base);
    }
    for (_, so) in &l.working_set {
        for lib in &so.libs {
            assert!(l.link_map_order.contains(lib));
        }
    }
}

#[test]
fn missing_dynamic_without_at_secure() {
    // no AT_SECURE: the linker stops on its missing dynamic array before it
    // would read it
    let mem_stack = stack(&[], &[(AT_SYSINFO_EHDR, 0x90000)]);
    let kb = KernelBlock::new(&mem_stack, STACK).unwrap();
    let vdso_mem = MemImage { base: 0x90000, bytes: build(&vdso()) };
    let mut mem = dryad_image(0x200000);
    put_u32(&mut mem.bytes, 0x40 + 56, 0);
    assert_eq!(startup_error(&mem, 0x200000, &vdso_mem, 0x90000), Some(NO_DYNAMIC));
    assert_eq!(Linker::new(&mem, 0x200000, &kb, &vdso_mem).unwrap_err(), NO_DYNAMIC);
    let good = dryad_image(0x200000);
    assert_eq!(startup_error(&good, 0x200000, &vdso_mem, 0x90000), None);
}

/// Loads what `needed` names and what they need, as the loading driver
/// does, with the library's worklist.
fn load_with_worklist(l: &mut Linker, needed: &Vec<Vec<u8>>, next_base: &mut u64) {
    let mut pending: Vec<Vec<u8>> = Vec::new();
    schedule(&mut pending, needed);
    while let Some(name) = l.next_to_load(&mut pending) {
        let o = Obj {
            soname: soname_of(&name),
            needed: needed_of(&name),
            syms: vec![],
            relas: vec![],
            plt: vec![],
            pltgot: 0,
            phdr: false,
        };
        let (_, so) = object_at(*next_base, &o);
        *next_base += 0x10000;
        let libs = l.add_loaded(&name, so);
        schedule(&mut pending, &libs);
    }
    assert!(pending.is_empty());
}

#[test]
fn worklist_gives_the_search_order() {
    let mut l = new_linker(&[]);
    let exe_libs = vec![b"libfoo".to_vec(), b"libbar".to_vec(), b"libbaz".to_vec()];
    l.enqueue_needed(&exe_libs);
    let mut base = 0x1000000;
    load_with_worklist(&mut l, &exe_libs, &mut base);
    let expected: Vec<Vec<u8>> = vec![
        b"linux-vdso.so.1".to_vec(),
        b"libfoo".to_vec(),
        b"libbar".to_vec(),
        b"libbaz".to_vec(),
        b"libderp".to_vec(),
        b"libslerp".to_vec(),
        b"libmerp".to_vec(),
    ];
    assert_eq!(l.link_map_order, expected);
    // every library a loaded object needs is loaded
    for (_, so) in &l.working_set {
        for lib in &so.libs {
            assert!(l.is_loaded(lib));
        }
    }
    // loaded depth first: libfoo, libbar, then what libbar needs
    let loaded: Vec<Vec<u8>> = l.working_set.iter().map(|(n, _)| n.clone()).collect();
    assert_eq!(
        loaded,
        vec![
            b"linux-vdso.so.1".to_vec(),
            b"libfoo".to_vec(),
            b"libbar".to_vec(),
            b"libderp".to_vec(),
            b"libbaz".to_vec(),
            b"libmerp".to_vec(),
            b"libslerp".to_vec(),
        ]
    );
}

#[test]
fn schedule_and_next_to_load() {
    let mut pending = vec![b"x".to_vec()];
    schedule(&mut pending, &vec![b"a".to_vec(), b"b".to_vec()]);
    assert_eq!(pending, vec![b"x".to_vec(), b"b".to_vec(), b"a".to_vec()]);
    let l = new_linker(&[]);
    let mut p2 = vec![b"y".to_vec(), b"linux-vdso.so.1".to_vec()];
    // the loaded vdso is dropped, y comes next
    assert_eq!(l.next_to_load(&mut p2), Some(b"y".to_vec()));
    assert!(p2.is_empty());
    let mut p3 = vec![b"linux-vdso.so.1".to_vec()];
    assert_eq!(l.next_to_load(&mut p3), None);
    assert!(p3.is_empty());
}

#[test]
fn link_info_ignores_unread_entries() {
    let (_, so) = object_at(0x10000, &libfoo());
    let mut d2 = so.dynamic.clone();
    d2.insert(3, Dyn { d_tag: DT_NULL, d_val: 0 });
    d2.insert(0, Dyn { d_tag: dryad::binary::elf::dynamic::DT_DEBUG, d_val: 77 });
    d2.push(Dyn { d_tag: dryad::binary::elf::dynamic::DT_RPATH, d_val: 5 });
    assert_eq!(LinkInfo::new(&d2, 0x10000), LinkInfo::new(&so.dynamic, 0x10000));
}
