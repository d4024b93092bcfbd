use dryad::binary::elf::library::{
    advance, start_loading, waits_for, LoadEvent, LoadFailure, LoadRequest, LoadStage,
};
use dryad::binary::elf::loader::{plan_segments, SegmentMap};
use dryad::binary::elf::program_header::{ProgramHeader, PT_LOAD, PT_DYNAMIC, PF_R, PF_W, PF_X};
use dryad::binary::elf::dynamic::{
    DT_NULL, DT_NEEDED, DT_PLTGOT, DT_STRTAB, DT_STRSZ, DT_SYMTAB, DT_RELA, DT_RELASZ,
    DT_RELAENT, DT_JMPREL, DT_PLTRELSZ,
};
use dryad::memory::MemImage;

const BIAS: u64 = 0x7f0000000000;

fn ph(t: u32, flags: u32, off: u64, vaddr: u64, filesz: u64, memsz: u64) -> ProgramHeader {
    ProgramHeader {
        p_type: t,
        p_flags: flags,
        p_offset: off,
        p_vaddr: vaddr,
        p_paddr: vaddr,
        p_filesz: filesz,
        p_memsz: memsz,
        p_align: 0x1000,
    }
}

fn phdrs() -> Vec<ProgramHeader> {
    vec![
        ph(PT_LOAD, PF_R | PF_X, 0, 0, 0x1234, 0x1234),
        ph(PT_LOAD, PF_R | PF_W, 0x1e10, 0x201e10, 0x300, 0x1000),
        ph(PT_DYNAMIC, PF_R | PF_W, 0x1e20, 0x201e20, 0x1c0, 0x1c0),
        ph(PT_LOAD, PF_R, 0x3000, 0x400000, 0, 0x10),
    ]
}

fn dyn_bytes(entries: &[(u64, u64)]) -> Vec<u8> {
    let mut b = Vec::new();
    for (t, v) in entries {
        b.extend_from_slice(&t.to_le_bytes());
        b.extend_from_slice(&v.to_le_bytes());
    }
    b
}

fn dynamic_with(symtab: u64, needed: u64) -> Vec<u8> {
    dyn_bytes(&[
        (DT_NEEDED, needed),
        (DT_STRTAB, 0x400),
        (DT_STRSZ, 11),
        (DT_SYMTAB, symtab),
        (DT_RELA, 0x500),
        (DT_RELASZ, 24),
        (DT_RELAENT, 24),
        (DT_JMPREL, 0x518),
        (DT_PLTRELSZ, 24),
        (DT_PLTGOT, 0x3000),
        (DT_NULL, 0),
    ])
}

fn bytes(base: u64, b: Vec<u8>) -> LoadEvent {
    LoadEvent::Bytes(MemImage { base, bytes: b })
}

fn failure(r: &(LoadStage, LoadRequest)) -> Option<LoadFailure> {
    match (&r.0, &r.1) {
        (LoadStage::Over, LoadRequest::Failed(f)) => Some(*f),
        _ => None,
    }
}

fn read_file(r: &LoadRequest) -> (u64, usize) {
    match r {
        LoadRequest::ReadFile { offset, size } => (*offset, *size),
        _ => panic!("expected a file read"),
    }
}

/// Runs the steps up to the symbol table request.
fn to_symtab(symtab: u64) -> (LoadStage, LoadRequest) {
    let (stage, _) = start_loading(phdrs());
    let (stage, _) = advance(stage, b"libm.so.6", bytes(0x1000, dynamic_with(symtab, 1)));
    advance(stage, b"libm.so.6", bytes(0x2000, b"\0libc.so.6\0".to_vec()))
}

/// The image of the loaded library: one `.rela.dyn` and one `.rela.plt`
/// entry at 0x500 and 0x518.
fn loaded_image() -> Vec<u8> {
    let mut image = vec![0u8; 0x1000];
    let relative: u64 = 8;
    let jump_slot: u64 = (1 << 32) | 7;
    image[0x500..0x508].copy_from_slice(&0x3018u64.to_le_bytes());
    image[0x508..0x510].copy_from_slice(&relative.to_le_bytes());
    image[0x510..0x518].copy_from_slice(&0x10i64.to_le_bytes());
    image[0x518..0x520].copy_from_slice(&0x3020u64.to_le_bytes());
    image[0x520..0x528].copy_from_slice(&jump_slot.to_le_bytes());
    image
}

#[test]
fn library_load_runs_all_steps() {
    let (stage, req) = start_loading(phdrs());
    assert_eq!(read_file(&req), (0x1e20, 0x1c0));
    let (stage, req) = advance(stage, b"libm.so.6", bytes(0x1000, dynamic_with(0x300, 1)));
    assert_eq!(read_file(&req), (0x400, 11));
    let (stage, req) = advance(stage, b"libm.so.6", bytes(0x2000, b"\0libc.so.6\0".to_vec()));
    assert_eq!(read_file(&req), (0x300, 0x100));
    let (stage, req) = advance(stage, b"libm.so.6", bytes(0x3000, vec![0; 0x100]));
    match req {
        LoadRequest::Reserve { size } => assert_eq!(size, 0x401000),
        _ => panic!("expected a reservation"),
    }
    assert!(waits_for(&stage, &LoadEvent::Reserved(BIAS)));
    assert!(!waits_for(&stage, &bytes(0, vec![])));
    let (stage, req) = advance(stage, b"libm.so.6", LoadEvent::Reserved(BIAS));
    match &req {
        LoadRequest::MapSegments { maps, start, end } => {
            assert_eq!(*start, BIAS);
            assert_eq!(*end, BIAS + 0x401000);
            let expected: Vec<SegmentMap> = plan_segments(&phdrs(), BIAS);
            assert_eq!(*maps, expected);
        }
        _ => panic!("expected the segments to map"),
    }
    let (stage, req) = advance(stage, b"libm.so.6", bytes(BIAS, loaded_image()));
    assert!(matches!(stage, LoadStage::Over));
    assert!(!waits_for(&stage, &bytes(0, vec![])));
    match req {
        LoadRequest::Done(so) => {
            assert_eq!(so.name, b"libm.so.6".to_vec());
            assert_eq!(so.load_bias, BIAS);
            assert_eq!(so.map_begin, BIAS);
            assert_eq!(so.map_end, BIAS + 0x401000);
            assert_eq!(so.libs, vec![b"libc.so.6".to_vec()]);
            assert_eq!(so.symtab.len(), 10);
            assert_eq!(so.strtab.bytes, b"\0libc.so.6\0".to_vec());
            assert_eq!(so.relatab.len(), 1);
            assert_eq!(so.relatab[0].r_offset, 0x3018);
            assert_eq!(so.relatab[0].r_addend, 0x10);
            assert_eq!(so.pltrelatab.len(), 1);
            assert_eq!(so.pltrelatab[0].r_offset, 0x3020);
            assert_eq!(so.pltgot, BIAS + 0x3000);
        }
        _ => panic!("expected the library"),
    }
}

#[test]
fn library_load_without_dynamic_segment() {
    let r = start_loading(phdrs()[0..2].to_vec());
    assert_eq!(failure(&r), Some(LoadFailure::NoDynamicSection));
}

#[test]
fn library_load_without_dynamic_end() {
    let (stage, _) = start_loading(phdrs());
    let r = advance(stage, b"libm.so.6", bytes(0x1000, dyn_bytes(&[(DT_NEEDED, 1)])));
    assert_eq!(failure(&r), Some(LoadFailure::NoDynamicEnd));
}

#[test]
fn library_load_string_table_failures() {
    // the string table is shorter than DT_STRSZ
    let (stage, _) = start_loading(phdrs());
    let (stage, _) = advance(stage, b"libm.so.6", bytes(0x1000, dynamic_with(0x300, 1)));
    let r = advance(stage, b"libm.so.6", bytes(0x2000, b"\0libc".to_vec()));
    assert_eq!(failure(&r), Some(LoadFailure::UnreadableStrtab));
    // DT_NEEDED points at a NUL byte inside the string table
    let (stage, _) = start_loading(phdrs());
    let (stage, _) = advance(stage, b"libm.so.6", bytes(0x1000, dynamic_with(0x300, 10)));
    let r = advance(stage, b"libm.so.6", bytes(0x2000, b"\0libc.so.6\0".to_vec()));
    assert_eq!(failure(&r), Some(LoadFailure::BadNeededName));
    // the symbol table comes after the string table
    let r = to_symtab(0x500);
    assert_eq!(failure(&r), Some(LoadFailure::StrtabBeforeSymtab));
}

#[test]
fn library_load_symbol_table_too_short() {
    let (stage, req) = to_symtab(0x300);
    assert_eq!(read_file(&req), (0x300, 0x100));
    let r = advance(stage, b"libm.so.6", bytes(0x3000, vec![0; 0x50]));
    assert_eq!(failure(&r), Some(LoadFailure::UnreadableSymtab));
}

#[test]
fn library_load_reservation_overflows() {
    let (stage, _) = to_symtab(0x300);
    let (stage, _) = advance(stage, b"libm.so.6", bytes(0x3000, vec![0; 0x100]));
    let r = advance(stage, b"libm.so.6", LoadEvent::Reserved(u64::MAX - 0x1000));
    assert_eq!(failure(&r), Some(LoadFailure::AddressOverflow));
}

#[test]
fn library_load_relocations_unreadable() {
    let (stage, _) = to_symtab(0x300);
    let (stage, _) = advance(stage, b"libm.so.6", bytes(0x3000, vec![0; 0x100]));
    let (stage, _) = advance(stage, b"libm.so.6", LoadEvent::Reserved(BIAS));
    let r = advance(stage, b"libm.so.6", bytes(BIAS, vec![0; 0x510]));
    assert_eq!(failure(&r), Some(LoadFailure::UnreadableRelocations));
}

#[test]
fn load_failure_messages() {
    assert_eq!(
        LoadFailure::NoDynamicSection.text(b"libm.so.6"),
        b"<dryad> No dynamic section for libm.so.6".to_vec()
    );
    assert_eq!(
        LoadFailure::UnreadableRelocations.text(b"x"),
        b"<dryad> unreadable relocations in x".to_vec()
    );
    assert_eq!(LoadFailure::TooLarge.text(b""), b"<dryad> segments do not fit in the address space: ".to_vec());
}
