use dryad::binary::elf::header::Header;
use dryad::binary::elf::program_header::{ProgramHeader, PT_LOAD, phdrs_debug_text};
use dryad::binary::elf::dynamic::{Dyn, DT_NEEDED, DT_NULL, dynamic_debug_text};
use dryad::kernel_block::KernelBlock;
use dryad::utils::{push_field_line, push_field};
use dryad::binary::elf::image::LinkInfo;
use dryad::linker::Config;

fn text(v: Vec<u8>) -> String {
    String::from_utf8(v).unwrap()
}

#[test]
fn field_lines() {
    let mut out: Vec<u8> = b"x".to_vec();
    push_field_line(&mut out, "a: 0x", 255, true);
    push_field_line(&mut out, "b: ", 255, false);
    assert_eq!(text(out), "xa: 0xff\nb: 255\n");
}

#[test]
fn header_debug_text() {
    let h = Header {
        e_ident: [0; 16],
        e_type: 3,
        e_machine: 0x3e,
        e_version: 1,
        e_entry: 0x1040,
        e_phoff: 64,
        e_shoff: 0x3a28,
        e_flags: 0,
        e_ehsize: 64,
        e_phentsize: 56,
        e_phnum: 11,
        e_shentsize: 64,
        e_shnum: 29,
        e_shstrndx: 28,
    };
    assert_eq!(
        text(h.debug_text()),
        "-=Elf64_hdr=-\ne_type: 0x3\ne_machine: 0x3e\ne_version: 0x1\ne_entry: 0x1040\n\
         e_phoff: 0x40\ne_shoff: 0x3a28\ne_flags: 0x0\ne_ehsize: 0x40\ne_phentsize: 0x38\n\
         e_phnum: 0xb\ne_shentsize: 0x40\ne_shnum: 0x1d\ne_shstrndx: 0x1c\n"
    );
}

#[test]
fn program_header_debug_text() {
    let p = ProgramHeader {
        p_type: PT_LOAD,
        p_flags: 5,
        p_offset: 0,
        p_vaddr: 0x400000,
        p_paddr: 0x400000,
        p_filesz: 0x1234,
        p_memsz: 0x2000,
        p_align: 4096,
    };
    let one = "-==Elf64_phdr==-\np_type: 0x1\np_flags: 0x5\np_offset: 0x0\np_vaddr: 0x400000\n\
               p_paddr: 0x400000\np_filesz: 0x1234\np_memsz: 0x1234\np_align: 4096\n";
    assert_eq!(text(p.debug_text()), one);
    assert_eq!(text(phdrs_debug_text(&[p, p])), format!("{}{}", one, one));
    assert_eq!(text(phdrs_debug_text(&[])), "");
}

#[test]
fn dynamic_debug_text_lines() {
    let d = Dyn { d_tag: DT_NEEDED, d_val: 0x1a };
    assert_eq!(text(d.debug_text()), "d_tag: 0x1\nd_val: 0x1a\n");
    let all = dynamic_debug_text(&[d, Dyn { d_tag: DT_NULL, d_val: 0 }]);
    assert_eq!(text(all), "d_tag: 0x1\nd_val: 0x1a\nd_tag: 0x0\nd_val: 0x0\n");
}

#[test]
fn kernel_block_debug_text() {
    let kb = KernelBlock {
        argc: 2,
        argv: vec![b"./test".to_vec(), b"-v".to_vec()],
        envc: 3,
        env: vec![b"A=1".to_vec(), b"B=2".to_vec(), Vec::new()],
        auxv: vec![],
    };
    assert_eq!(text(kb.debug_text()), "argc: 2\nargv[0]: ./test\nenvc: 3\n");
}

#[test]
fn link_info_debug_text() {
    let dynamic = vec![
        Dyn { d_tag: DT_NEEDED, d_val: 1 },
        Dyn { d_tag: dryad::binary::elf::dynamic::DT_RELA, d_val: 0x400 },
        Dyn { d_tag: dryad::binary::elf::dynamic::DT_RELASZ, d_val: 48 },
        Dyn { d_tag: dryad::binary::elf::dynamic::DT_STRSZ, d_val: 29 },
    ];
    let i = LinkInfo::new(&dynamic, 0x1000);
    let expected = format!(
        "rela: 0x{:x} relasz: {} relaent: {} relacount: {} gnu_hash: 0x{:x} hash: 0x{:x} strtab: 0x{:x} strsz: {} symtab: 0x{:x} syment: {} pltgot: 0x{:x} pltrelsz: {} pltrel: {} jmprel: 0x{:x} verneed: 0x{:x} verneednum: {} versym: 0x{:x} init: 0x{:x} fini: 0x{:x} needed_count: {}",
        i.rela, i.relasz, i.relaent, i.relacount, i.gnu_hash, i.hash, i.strtab, i.strsz, i.symtab,
        i.syment, i.pltgot, i.pltrelsz, i.pltrel, i.jmprel, i.verneed, i.verneednum, i.versym,
        i.init, i.fini, i.needed_count
    );
    assert_eq!(text(i.debug_text()), expected);
    assert!(expected.starts_with("rela: 0x1400 relasz: 48 "));
}

#[test]
fn config_debug_text() {
    let c = Config {
        bind_now: true,
        debug: false,
        secure: false,
        verbose: true,
        trace_loaded_objects: false,
        library_path: vec![b"/opt/lib".to_vec(), b"/usr/lib".to_vec()],
        preload: vec![],
    };
    let expected = format!(
        "bind_now: {} debug: {} secure: {} verbose: {} trace_loaded_objects: {} library_path: {:#?} preload: {:#?}",
        true, false, false, true, false, vec!["/opt/lib", "/usr/lib"], Vec::<&str>::new()
    );
    assert_eq!(text(c.debug_text()), expected);
}

#[test]
fn fields_without_newline() {
    let mut out: Vec<u8> = Vec::new();
    push_field(&mut out, "x: 0x", 0xabc, true);
    push_field(&mut out, " y: ", 0, false);
    assert_eq!(text(out), "x: 0xabc y: 0");
}

#[test]
fn config_debug_text_escapes_paths() {
    let odd = "a\"b\\c\td\ne\r\0f\u{1}g\u{7f}h'i";
    let c = Config {
        bind_now: false,
        debug: true,
        secure: false,
        verbose: false,
        trace_loaded_objects: false,
        library_path: vec![odd.as_bytes().to_vec()],
        preload: vec![],
    };
    let expected = format!(
        "bind_now: {} debug: {} secure: {} verbose: {} trace_loaded_objects: {} library_path: {:#?} preload: {:#?}",
        false, true, false, false, false, vec![odd], Vec::<&str>::new()
    );
    assert_eq!(text(c.debug_text()), expected);
}
