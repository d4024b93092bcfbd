use dryad::binary::elf::loader::{
    Fragment, SegmentMap, fragment, check_load_size, compute_load_size, reserved_range,
    dynamic_fragment, dyns_until_null, pflags_to_prot, check_segments_fit, plan_segments,
    symbol_count, loaded_object,
};
use dryad::binary::elf::program_header::{
    ProgramHeader, PT_LOAD, PT_DYNAMIC, PT_NOTE, PF_R, PF_W, PF_X, from_bytes,
};
use dryad::binary::elf::dynamic::{Dyn, DT_NULL, DT_NEEDED, DT_PLTGOT, DT_GNU_HASH, dyns_from_bytes};
use dryad::binary::elf::image::LinkInfo;
use dryad::binary::elf::strtab::Strtab;
use dryad::utils::mmap::{PROT_READ, PROT_WRITE, PROT_EXEC};

fn ph(t: u32, flags: u32, off: u64, vaddr: u64, filesz: u64, memsz: u64) -> ProgramHeader {
    ProgramHeader {
        p_type: t,
        p_flags: flags,
        p_offset: off,
        p_vaddr: vaddr,
        p_paddr: vaddr,
        p_filesz: filesz,
        p_memsz: memsz,
        p_align: 0x1000,
    }
}

fn lib_phdrs() -> Vec<ProgramHeader> {
    vec![
        ph(PT_LOAD, PF_R | PF_X, 0, 0, 0x1234, 0x1234),
        ph(PT_LOAD, PF_R | PF_W, 0x1e10, 0x201e10, 0x300, 0x1000),
        ph(PT_DYNAMIC, PF_R | PF_W, 0x1e20, 0x201e20, 0x1c0, 0x1c0),
        ph(PT_LOAD, PF_R, 0x3000, 0x400000, 0, 0x10),
    ]
}

#[test]
fn fragments_start_on_a_page() {
    assert_eq!(
        fragment(0, 0x1e20, 0x1c0),
        Some(Fragment { page_min: 0x1000, map_size: 0x1c0 + 2 * 0xe20, data_offset: 0xe20 })
    );
    assert_eq!(fragment(0, 0x2000, 16), Some(Fragment { page_min: 0x2000, map_size: 16, data_offset: 0 }));
    assert_eq!(fragment(0x1000, 0x10, 0), Some(Fragment { page_min: 0x1000, map_size: 0x20, data_offset: 0x10 }));
    assert_eq!(fragment(u64::MAX, 1, 1), None);
    assert_eq!(fragment(0, u64::MAX - 2, 16), None);
}

#[test]
fn fragment_covers_on_values() {
    for (base, off, size) in [(0u64, 0x1e20u64, 0x1c0usize), (0x10, 0xfff, 0x2001), (0, 0, 0)] {
        let f = fragment(base, off, size).unwrap();
        assert_eq!(f.page_min % 4096, 0);
        assert_eq!(f.page_min + f.data_offset, base + off);
        assert!(f.data_offset as usize + size <= f.map_size);
    }
}

#[test]
fn load_size_of_segments() {
    let phdrs = lib_phdrs();
    assert!(check_load_size(&phdrs));
    // the highest segment end is 0x400010, rounded up to its page end
    assert_eq!(compute_load_size(&phdrs), (0x401000, 0, 0x401000));
    assert_eq!(compute_load_size(&phdrs[0..1]), (0x2000, 0, 0x2000));
    assert_eq!(compute_load_size(&[]), (0, 0, 0));
    let notes = vec![ph(PT_NOTE, 0, 0, 0x9000000, 0x10, 0x10)];
    assert_eq!(compute_load_size(&notes), (0, 0, 0));
    let (_, _, end) = compute_load_size(&phdrs);
    for p in phdrs.iter().filter(|p| p.p_type == PT_LOAD) {
        assert!(p.p_vaddr + p.p_memsz <= end);
    }
    let huge = vec![ph(PT_LOAD, 0, 0, u64::MAX - 4, 0, 0x10)];
    assert!(!check_load_size(&huge));
}

#[test]
fn reserved_address_space() {
    assert_eq!(reserved_range(0x7f0000000000, 0, 0x401000), (0x7f0000000000, 0x7f0000000000, 0x7f0000401000));
    assert_eq!(reserved_range(0x5000, 0x1000, 0x2000), (0x5000, 0x4000, 0x7000));
}

#[test]
fn dynamic_segment_location() {
    assert_eq!(dynamic_fragment(&lib_phdrs()), Some((0x1e20, 0x1c0)));
    assert_eq!(dynamic_fragment(&lib_phdrs()[0..2]), None);
}

fn dyn_bytes(entries: &[(u64, u64)]) -> Vec<u8> {
    let mut b = Vec::new();
    for (t, v) in entries {
        b.extend_from_slice(&t.to_le_bytes());
        b.extend_from_slice(&v.to_le_bytes());
    }
    b
}

#[test]
fn dynamic_entries_up_to_null() {
    let b = dyn_bytes(&[(DT_NEEDED, 1), (DT_PLTGOT, 0x3000), (DT_NULL, 0), (DT_NEEDED, 9)]);
    assert_eq!(
        dyns_until_null(&b),
        Some(vec![
            Dyn { d_tag: DT_NEEDED, d_val: 1 },
            Dyn { d_tag: DT_PLTGOT, d_val: 0x3000 },
            Dyn { d_tag: DT_NULL, d_val: 0 },
        ])
    );
    let no_null = dyn_bytes(&[(DT_NEEDED, 1)]);
    assert_eq!(dyns_until_null(&no_null), None);
    assert_eq!(dyns_until_null(&[]), None);
    assert_eq!(dyns_from_bytes(&b).len(), 4);
    assert_eq!(dyns_from_bytes(&b[0..20]), vec![Dyn { d_tag: DT_NEEDED, d_val: 1 }]);
}

#[test]
fn protections_from_flags() {
    assert_eq!(pflags_to_prot(0), 0);
    assert_eq!(pflags_to_prot(PF_X), PROT_EXEC);
    assert_eq!(pflags_to_prot(PF_R), PROT_READ);
    assert_eq!(pflags_to_prot(PF_W), PROT_WRITE);
    assert_eq!(pflags_to_prot(PF_R | PF_X), PROT_READ | PROT_EXEC);
    assert_eq!(pflags_to_prot(PF_R | PF_W | PF_X), 7);
    assert_eq!(pflags_to_prot(0xfffffff8), 0);
}

#[test]
fn segment_mappings() {
    let phdrs = lib_phdrs();
    assert!(check_segments_fit(&phdrs, 0x7f0000000000));
    assert_eq!(
        plan_segments(&phdrs, 0x7f0000000000),
        vec![
            SegmentMap { addr: 0x7f0000000000, len: 0x1234, offset: 0, prot: PROT_READ | PROT_EXEC },
            SegmentMap {
                addr: 0x7f0000201000,
                len: 0x1110,
                offset: 0x1000,
                prot: PROT_READ | PROT_WRITE,
            },
        ]
    );
    for (p, m) in phdrs.iter().filter(|p| p.p_type == PT_LOAD && p.p_filesz > 0).zip(plan_segments(&phdrs, 0x7f0000000000)) {
        assert_eq!(m.addr % 4096, 0);
        assert!(m.addr <= p.p_vaddr + 0x7f0000000000);
        assert_eq!(m.offset % 4096, 0);
        assert_eq!(m.offset + m.len, p.p_offset + p.p_filesz);
    }
    let bad = vec![ph(PT_LOAD, 0, 0, u64::MAX - 0x10, 0, 0x100)];
    assert!(!check_segments_fit(&bad, 0));
}

#[test]
fn symbols_between_tables() {
    let mut info = LinkInfo::new(&[], 0);
    info.symtab = 0x300;
    info.strtab = 0x300 + 24 * 7 + 5;
    assert_eq!(symbol_count(&info), Some(7));
    info.strtab = 0x200;
    assert_eq!(symbol_count(&info), None);
}

#[test]
fn loaded_library_object() {
    let dynamic = vec![Dyn { d_tag: DT_PLTGOT, d_val: 0x3000 }, Dyn { d_tag: DT_GNU_HASH, d_val: 0x280 }];
    let info = LinkInfo::new(&dynamic, 0);
    let so = loaded_object(
        b"libm.so.6",
        0x7f0000000000,
        0x7f0000000000,
        0x7f0000401000,
        vec![b"libc.so.6".to_vec()],
        lib_phdrs(),
        dynamic.clone(),
        Strtab { bytes: b"\0libc.so.6\0".to_vec() },
        vec![],
        vec![],
        vec![],
        &info,
    );
    assert_eq!(so.name, b"libm.so.6".to_vec());
    assert_eq!(so.map_begin, 0x7f0000000000);
    assert_eq!(so.map_end, 0x7f0000401000);
    assert_eq!(so.pltgot, 0x7f0000003000);
    assert_eq!(so.gnu_hash, 0x7f0000000280);
    // without a GOT the address stays 0
    let info0 = LinkInfo::new(&[], 0);
    let so0 = loaded_object(
        b"musl",
        0x1000,
        0x1000,
        0x2000,
        vec![],
        vec![],
        vec![],
        Strtab { bytes: vec![] },
        vec![],
        vec![],
        vec![],
        &info0,
    );
    assert_eq!(so0.pltgot, 0);
    assert_eq!(so0.gnu_hash, 0x1000);
}

#[test]
fn program_headers_from_file_bytes() {
    let mut b: Vec<u8> = Vec::new();
    for p in lib_phdrs() {
        b.extend_from_slice(&p.p_type.to_le_bytes());
        b.extend_from_slice(&p.p_flags.to_le_bytes());
        b.extend_from_slice(&p.p_offset.to_le_bytes());
        b.extend_from_slice(&p.p_vaddr.to_le_bytes());
        b.extend_from_slice(&p.p_paddr.to_le_bytes());
        b.extend_from_slice(&p.p_filesz.to_le_bytes());
        b.extend_from_slice(&p.p_memsz.to_le_bytes());
        b.extend_from_slice(&p.p_align.to_le_bytes());
    }
    assert_eq!(from_bytes(&b, 4), lib_phdrs());
    assert_eq!(from_bytes(&b, 2), lib_phdrs()[0..2].to_vec());
}
