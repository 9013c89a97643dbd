//! Mach-O files: parsing, loading, fixups.

use xnu_rs::boot::image::{is_elf, is_macho, ImageError, MachO};
use xnu_rs::boot::kernel_image;
use xnu_rs::boot::kernel_image::{check_entry, ElfImage, MachOImage, ParseError};
use xnu_rs::kernel::arch::uart::Console;
use xnu_rs::kernel::exec::dyld::log_deps;
use xnu_rs::kernel::exec::loader::{load_and_run, load_image, setup_darwin_stack};
use xnu_rs::loader::fat::{arm64_slice, find_arm64, CPU_TYPE_ARM64};
use xnu_rs::loader::fixup::{apply_arm64e_userland, apply_chains, find_fixups};
use xnu_rs::loader::image::{EntryPoint, UserImage};
use xnu_rs::loader::load_cmd::{
    has_cmd, parse_build_version, parse_chained, parse_dyld_info, parse_dylib_ref, parse_lc_str,
    parse_main, parse_range, parse_rpath, parse_thread, parse_uuid, LC_CODE_SIGNATURE, LC_LOAD_DYLIB,
    LC_UUID,
};
use xnu_rs::loader::parse::{build_image, parse};
use xnu_rs::loader::records::{ArchRecord, SectionRecord, SegmentRecord};
use xnu_rs::mem::{PhysMem, Stop};

fn w32(v: &mut Vec<u8>, x: u32) {
    v.extend_from_slice(&x.to_le_bytes());
}

fn w64(v: &mut Vec<u8>, x: u64) {
    v.extend_from_slice(&x.to_le_bytes());
}

fn name16(s: &str) -> [u8; 16] {
    let mut out = [0u8; 16];
    out[..s.len()].copy_from_slice(s.as_bytes());
    out
}

/// A command: kind, size, body padded to a multiple of eight.
fn cmd(kind: u32, body: &[u8]) -> Vec<u8> {
    let size = (8 + body.len() + 7) / 8 * 8;
    let mut v = Vec::new();
    w32(&mut v, kind);
    w32(&mut v, size as u32);
    v.extend_from_slice(body);
    v.resize(size, 0);
    v
}

/// One section: name, address, size, file offset, flags.
type Sect = (&'static str, u64, u64, u32, u32);

fn segment(name: &str, vm: (u64, u64), file: (u64, u64), prot: (u32, u32), sects: &[Sect]) -> Vec<u8> {
    let mut b = Vec::new();
    b.extend_from_slice(&name16(name));
    w64(&mut b, vm.0);
    w64(&mut b, vm.1);
    w64(&mut b, file.0);
    w64(&mut b, file.1);
    w32(&mut b, prot.0);
    w32(&mut b, prot.1);
    w32(&mut b, sects.len() as u32);
    w32(&mut b, 0);
    for s in sects {
        b.extend_from_slice(&name16(s.0));
        b.extend_from_slice(&name16(name));
        w64(&mut b, s.1);
        w64(&mut b, s.2);
        w32(&mut b, s.3);
        for _ in 0..3 {
            w32(&mut b, 0);
        }
        w32(&mut b, s.4);
        for _ in 0..3 {
            w32(&mut b, 0);
        }
    }
    cmd(0x19, &b)
}

fn main_cmd(off: u64) -> Vec<u8> {
    let mut b = Vec::new();
    w64(&mut b, off);
    w64(&mut b, 0);
    cmd(0x8000_0028, &b)
}

fn dylib(kind: u32, name: &str) -> Vec<u8> {
    let mut b = Vec::new();
    for x in [24u32, 2, 0x10203, 0x10000] {
        w32(&mut b, x);
    }
    b.extend_from_slice(name.as_bytes());
    b.push(0);
    cmd(kind, &b)
}

/// An executable file of `size` bytes: header, commands, then `fill` bytes.
fn macho(cmds: &[Vec<u8>], size: usize, fill: u8) -> Vec<u8> {
    let mut v = Vec::new();
    let table: usize = cmds.iter().map(|c| c.len()).sum();
    for x in [0xfeed_facfu32, 0x0100_000c, 0, 2, cmds.len() as u32, table as u32, 0, 0] {
        w32(&mut v, x);
    }
    for c in cmds {
        v.extend_from_slice(c);
    }
    assert!(v.len() <= size);
    v.resize(size, fill);
    v
}

/// A program with two loaded segments, a guard segment and a list of commands.
fn program() -> Vec<u8> {
    macho(
        &[
            segment("__PAGEZERO", (0, 0x1_0000_0000), (0, 0), (0, 0), &[]),
            segment(
                "__TEXT",
                (0x1_0000_0000, 0x1000),
                (0, 0x800),
                (5, 5),
                &[("__text", 0x1_0000_0600, 0x40, 0x600, 0x8000_0400)],
            ),
            segment(
                "__DATA",
                (0x1_0000_1000, 0x1000),
                (0x800, 0x100),
                (3, 3),
                &[
                    ("__data", 0x1_0000_1000, 0x80, 0x800, 0),
                    ("__bss", 0x1_0000_1100, 0x100, 0, 1),
                ],
            ),
            main_cmd(0x600),
            dylib(0xc, "/usr/lib/libSystem.B.dylib"),
            dylib(0x8000_0018, "/usr/lib/libweak.dylib"),
            dylib(0xd, "/usr/lib/me.dylib"),
            cmd(0x8000_001c, &[&12u32.to_le_bytes()[..], &b"@loader_path/x\0"[..]].concat()),
            cmd(0x1b, &[1, 2, 3, 4, 5, 6, 7, 8, 9, 10, 11, 12, 13, 14, 15, 16]),
            cmd(0x1d, &[&0x700u32.to_le_bytes()[..], &0x20u32.to_le_bytes()[..]].concat()),
            cmd(0x32, &[&1u32.to_le_bytes()[..], &2u32.to_le_bytes()[..], &3u32.to_le_bytes()[..], &0u32.to_le_bytes()[..]].concat()),
            cmd(0x2c, &[&0x30u32.to_le_bytes()[..], &0x40u32.to_le_bytes()[..], &0u32.to_le_bytes()[..], &0u32.to_le_bytes()[..]].concat()),
        ],
        0x900,
        0x5a,
    )
}

#[test]
fn a_program_parses() {
    let file = program();
    let image = parse(&file).unwrap();
    assert_eq!(image.segments.len(), 2);
    assert_eq!(image.link_base, 0x1_0000_0000);
    assert_eq!(image.entry, EntryPoint::FileOffset(0x600));
    let text = &image.segments[0];
    assert_eq!(text.name_str(), "__TEXT");
    assert_eq!((text.vmaddr, text.vmsize), (0x1_0000_0000, 0x1000));
    assert_eq!((text.fileoff, text.filesize), (0, 0x800));
    assert_eq!((text.maxprot, text.initprot), (5, 5));
    assert_eq!(text.data, &file[..0x800]);
    assert_eq!(text.sections.len(), 1);
    assert_eq!(text.sections[0].name_str(), "__text");
    assert_eq!(text.sections[0].segname_str(), "__TEXT");
    assert_eq!(text.sections[0].addr, 0x1_0000_0600);
    assert_eq!(text.sections[0].size, 0x40);
    assert_eq!(text.sections[0].fileoff, 0x600);
    assert_eq!(text.sections[0].flags, 0x8000_0400);
    let data = &image.segments[1];
    assert_eq!(data.name_str(), "__DATA");
    assert_eq!(data.data, &file[0x800..0x900]);
    assert_eq!(data.sections.len(), 2);
    assert_eq!(data.sections[1].name_str(), "__bss");
    assert_eq!(data.sections[1].fileoff, 0);
    assert_eq!(data.sections[1].flags, 1);
    assert_eq!(image.dylib_deps.len(), 1);
    assert_eq!(image.dylib_deps[0].name, "/usr/lib/libSystem.B.dylib");
    assert_eq!(image.dylib_deps[0].timestamp, 2);
    assert_eq!(image.dylib_deps[0].current_version, 0x10203);
    assert_eq!(image.dylib_deps[0].compat_version, 0x10000);
    assert_eq!(image.weak_dylib_deps.len(), 1);
    assert_eq!(image.weak_dylib_deps[0].name, "/usr/lib/libweak.dylib");
    assert_eq!(image.dylib_id.unwrap().name, "/usr/lib/me.dylib");
    assert_eq!(image.rpaths, vec!["@loader_path/x"]);
    assert_eq!(image.uuid, Some([1, 2, 3, 4, 5, 6, 7, 8, 9, 10, 11, 12, 13, 14, 15, 16]));
    let sig = image.code_signature.unwrap();
    assert_eq!((sig.offset, sig.size), (0x700, 0x20));
    let version = image.build_version.unwrap();
    assert_eq!((version.platform, version.minos, version.sdk), (1, 2, 3));
    let enc = image.encryption_info.unwrap();
    assert_eq!((enc.offset, enc.size), (0x30, 0x40));
    assert_eq!(image.chained_fixups, None);
    assert_eq!(image.dyld_info, None);
}

#[test]
fn addresses_of_an_image() {
    let file = program();
    let image = parse(&file).unwrap();
    assert!(image.entry_fits());
    assert_eq!(image.entry_va(), Some(0x1_0000_0600));
    assert_eq!(image.image_span(), 0x2000);
    assert_eq!(image.slide_for(0x5000_0000), 0x5000_0000u64.wrapping_sub(0x1_0000_0000));
    assert_eq!(image.slide_for(0x1_0000_4000), 0x4000);
}

#[test]
fn files_that_are_no_programs() {
    assert!(parse(&[]).is_none());
    assert!(parse(b"#!/bin/sh\n").is_none());
    assert!(arm64_slice(&[0u8; 64]).is_none());
    // No entry point.
    let text = segment("__TEXT", (0x1000, 0x1000), (0, 0x200), (5, 5), &[]);
    assert!(parse(&macho(&[text.clone()], 0x200, 0)).is_none());
    // No segment to load.
    assert!(parse(&macho(&[main_cmd(0)], 0x200, 0)).is_none());
    let guard = segment("__PAGEZERO", (0, 0x1000), (0, 0), (0, 0), &[]);
    assert!(parse(&macho(&[guard, main_cmd(0)], 0x200, 0)).is_none());
    assert!(parse(&macho(&[text, main_cmd(0)], 0x200, 0)).is_some());
}

/// An `LC_UNIXTHREAD` command with some registers of another kind before those
/// of 64-bit ARM, whose program counter is `pc`.
fn thread_cmd(pc: u64) -> Vec<u8> {
    let mut b = Vec::new();
    w32(&mut b, 17);
    w32(&mut b, 2);
    w64(&mut b, 0x7777);
    w32(&mut b, 6);
    w32(&mut b, 68);
    for i in 0..32u64 {
        w64(&mut b, 0x1_0000 + i);
    }
    w64(&mut b, pc);
    w64(&mut b, 0);
    cmd(0x5, &b)
}

#[test]
fn a_thread_command_starts_at_its_program_counter() {
    let text = segment("__TEXT", (0x1000, 0x1000), (0, 0x200), (5, 5), &[]);
    let file = macho(&[text.clone(), thread_cmd(0x1234)], 0x400, 0);
    let image = parse(&file).unwrap();
    assert_eq!(image.entry, EntryPoint::VirtualAddress(0x1234));
    assert_eq!(image.entry_va(), Some(0x1234));
    assert_eq!(MachO::parse(&file).unwrap().entry(), 0x1234);
    assert_eq!(parse_thread(&thread_cmd(0x1234)), Some(0x1234));
    // A state that ends before the program counter.
    assert_eq!(parse_thread(&thread_cmd(0x1234)[..0x110]), None);
    assert_eq!(parse_thread(&main_cmd(8)), None);
    let mut short = Vec::new();
    w32(&mut short, 6);
    w32(&mut short, 64);
    assert_eq!(parse_thread(&cmd(0x5, &short)), None);
    assert_eq!(parse_thread(&cmd(0x5, &[])), None);
    // The first command that gives an entry point counts.
    let both = macho(&[text.clone(), main_cmd(0x10), thread_cmd(0x1234)], 0x400, 0);
    assert_eq!(parse(&both).unwrap().entry, EntryPoint::FileOffset(0x10));
    assert_eq!(MachO::parse(&both).unwrap().entry(), 0x1010);
    let both = macho(&[text, thread_cmd(0x1234), main_cmd(0x10)], 0x400, 0);
    assert_eq!(parse(&both).unwrap().entry, EntryPoint::VirtualAddress(0x1234));
}

#[test]
fn a_program_for_another_processor_is_refused() {
    let mut file = Vec::new();
    for x in [
        0xfeed_facfu32, 0x0100_0007, 3, 2, 2, 96, 0, 0, 0x19, 72, 0x4554_5f5f, 0x5458, 0, 0, 0, 1,
        0x4000, 0, 0, 0, 0, 0, 5, 5, 0, 0, 0x8000_0028, 24, 0x1000, 0, 0, 0,
    ] {
        w32(&mut file, x);
    }
    assert!(is_macho(&file));
    assert!(arm64_slice(&file).is_none());
    assert!(parse(&file).is_none());
    file[4..8].copy_from_slice(&CPU_TYPE_ARM64.to_le_bytes());
    assert_eq!(arm64_slice(&file), Some(&file[..]));
    assert_eq!(parse(&file).unwrap().entry, EntryPoint::FileOffset(0x1000));
}

#[test]
fn thin_and_fat_files_are_mach_o() {
    let mut file = Vec::new();
    for x in [0xcafe_babeu32, 1, 0x0100_000c, 0, 28, 32, 0] {
        file.extend_from_slice(&x.to_be_bytes());
    }
    for x in [0xfeed_facfu32, 0x0100_000c, 0, 2, 0, 0, 0, 0] {
        w32(&mut file, x);
    }
    assert!(is_macho(&file));
    assert!(is_macho(&file[28..]));
    assert!(!is_macho(&file[..20]));
    assert!(is_macho(&fat(true, &[(CPU_TYPE_ARM64, &program())])));
}

/// A FAT file with the given entries, each at a multiple of 0x1000.
fn fat(wide: bool, arches: &[(u32, &[u8])]) -> Vec<u8> {
    let mut v = Vec::new();
    let magic: u32 = if wide { 0xcafe_babf } else { 0xcafe_babe };
    v.extend_from_slice(&magic.to_be_bytes());
    v.extend_from_slice(&(arches.len() as u32).to_be_bytes());
    for (i, a) in arches.iter().enumerate() {
        let off = 0x1000 * (i + 1);
        v.extend_from_slice(&a.0.to_be_bytes());
        v.extend_from_slice(&0u32.to_be_bytes());
        if wide {
            v.extend_from_slice(&(off as u64).to_be_bytes());
            v.extend_from_slice(&(a.1.len() as u64).to_be_bytes());
            v.extend_from_slice(&12u32.to_be_bytes());
            v.extend_from_slice(&0u32.to_be_bytes());
        } else {
            v.extend_from_slice(&(off as u32).to_be_bytes());
            v.extend_from_slice(&(a.1.len() as u32).to_be_bytes());
            v.extend_from_slice(&12u32.to_be_bytes());
        }
    }
    for (i, a) in arches.iter().enumerate() {
        v.resize(0x1000 * (i + 1), 0);
        v.extend_from_slice(a.1);
    }
    v
}

#[test]
fn fat_files_give_their_arm64_slice() {
    let thin = program();
    let other = vec![7u8; 100];
    for wide in [false, true] {
        let file = fat(wide, &[(0x0100_0007, &other), (CPU_TYPE_ARM64, &thin)]);
        assert_eq!(arm64_slice(&file), Some(&thin[..]));
        assert_eq!(parse(&file).unwrap().entry_va(), Some(0x1_0000_0600));
        assert!(arm64_slice(&fat(wide, &[(0x0100_0007, &other)])).is_none());
        // A slice that leaves the file.
        let cut = &file[..file.len() - 1];
        assert!(arm64_slice(cut).is_none());
    }
    assert_eq!(arm64_slice(&thin), Some(&thin[..]));
}

#[test]
fn the_first_arm64_entry_counts() {
    let a = [1u8];
    let b = [2u8];
    let arches = vec![
        ArchRecord { cputype: 7, data: Some(&a[..]) },
        ArchRecord { cputype: CPU_TYPE_ARM64, data: Some(&b[..]) },
        ArchRecord { cputype: CPU_TYPE_ARM64, data: None },
    ];
    assert_eq!(find_arm64(&arches), Some(Some(&b[..])));
    assert_eq!(find_arm64(&vec![]), None);
    assert_eq!(find_arm64(&vec![arches[2]]), Some(None));
}

#[test]
fn load_commands_are_read() {
    assert_eq!(parse_lc_str(b"abcdef\0g", 2), "cdef");
    assert_eq!(parse_lc_str(b"abc", 9), "");
    assert_eq!(parse_lc_str(&[0xff, 0xfe, 0], 0), "");
    let u = cmd(0x1b, &[9u8; 16]);
    assert!(has_cmd(&u, LC_UUID, 24));
    assert!(!has_cmd(&u, LC_UUID, 25));
    assert_eq!(parse_uuid(&u), Some([9u8; 16]));
    assert_eq!(parse_uuid(&u[..16]), None);
    assert_eq!(parse_main(&main_cmd(0x1234)), Some(0x1234));
    assert_eq!(parse_main(&u), None);
    assert!(parse_dylib_ref(&u, LC_LOAD_DYLIB).is_none());
    assert_eq!(parse_dylib_ref(&dylib(0xc, "a"), LC_LOAD_DYLIB).unwrap().name, "a");
    assert_eq!(parse_rpath(&u), None);
    let pair = [&5u32.to_le_bytes()[..], &6u32.to_le_bytes()[..]].concat();
    let c = parse_chained(&cmd(0x8000_0034, &pair)).unwrap();
    assert_eq!((c.dataoff, c.datasize), (5, 6));
    assert_eq!(parse_chained(&u), None);
    let r = parse_range(&cmd(0x1d, &pair), LC_CODE_SIGNATURE, 16).unwrap();
    assert_eq!((r.offset, r.size), (5, 6));
    assert_eq!(parse_range(&cmd(0x1d, &pair), LC_CODE_SIGNATURE, 24), None);
    assert_eq!(parse_build_version(&u), None);
    let mut words = Vec::new();
    for i in 1..11u32 {
        w32(&mut words, i);
    }
    for kind in [0x22u32, 0x8000_0022] {
        let d = parse_dyld_info(&cmd(kind, &words)).unwrap();
        assert_eq!((d.rebase_off, d.rebase_size, d.bind_off, d.bind_size), (1, 2, 3, 4));
        assert_eq!((d.lazy_bind_off, d.lazy_bind_size), (7, 8));
        assert_eq!((d.export_off, d.export_size), (9, 10));
    }
    assert_eq!(parse_dyld_info(&u), None);
}

#[test]
fn an_image_is_built_from_records() {
    let code = [1u8, 2, 3];
    let segs = vec![
        SegmentRecord {
            name: Some(String::from("__DATA")),
            vmaddr: 0x8000,
            vmsize: 0x10,
            file_range: (4, 0),
            maxprot: 3,
            initprot: 1,
            data: None,
        },
        SegmentRecord {
            name: Some(String::from("__TEXT")),
            vmaddr: 0x4000,
            vmsize: 0x20,
            file_range: (0x10, 3),
            maxprot: 7,
            initprot: 5,
            data: Some(&code[..]),
        },
    ];
    let sects = vec![SectionRecord {
        name: Some(String::from("__stray")),
        segment_name: Some(String::from("__NOWHERE")),
        addr: 1,
        size: 1,
        file_range: None,
        flags: 0,
    }];
    let first = main_cmd(8);
    let second = main_cmd(0x15);
    let cmds: Vec<&[u8]> = vec![&second, &first];
    let image = build_image(&segs, &sects, &cmds, 99).unwrap();
    assert_eq!(image.entry, EntryPoint::FileOffset(0x15));
    assert_eq!(image.link_base, 0x4000);
    assert_eq!(image.segments[0].data.len(), 0);
    assert_eq!(image.segments[1].data, &code[..]);
    assert_eq!(image.segments[0].sections.len() + image.segments[1].sections.len(), 0);
    assert_eq!(image.entry_va(), Some(0x4005));
    assert_eq!(image.image_span(), 0x4010);
    let cmds: Vec<&[u8]> = vec![&first];
    assert_eq!(build_image(&segs, &sects, &cmds, 99).unwrap().entry_va(), Some(0x4000));
    let none: Vec<&[u8]> = Vec::new();
    assert!(build_image(&segs, &sects, &none, 99).is_none());
}

#[test]
fn an_entry_without_text_or_beyond_the_last_address() {
    let far = SegmentRecord {
        name: Some(String::from("__TEXT")),
        vmaddr: u64::MAX - 1,
        vmsize: 1,
        file_range: (0, 0),
        maxprot: 0,
        initprot: 0,
        data: None,
    };
    let m = main_cmd(0x10);
    let cmds: Vec<&[u8]> = vec![&m];
    let image = build_image(&vec![far], &vec![], &cmds, 0).unwrap();
    assert!(!image.entry_fits());
    let bare = SegmentRecord {
        name: None,
        vmaddr: 0x1000,
        vmsize: 1,
        file_range: (0, 0),
        maxprot: 0,
        initprot: 0,
        data: None,
    };
    let image = build_image(&vec![bare], &vec![], &cmds, 0).unwrap();
    assert!(image.entry_fits());
    assert_eq!(image.entry_va(), None);
}

fn ram(base: u64, size: usize, fill: u8) -> PhysMem {
    PhysMem { base, bytes: vec![fill; size] }
}

#[test]
fn a_loaded_image_is_in_memory_byte_for_byte() {
    let file = program();
    let image = parse(&file).unwrap();
    let mut mem = ram(0x5000_0000, 0x4000, 0xee);
    assert_eq!(load_image(&mut mem, &image, 0x5000_1000), Ok(()));
    assert_eq!(&mem.bytes[..0x1000], &[0xee; 0x1000][..]);
    assert_eq!(&mem.bytes[0x1000..0x1800], &file[..0x800]);
    assert_eq!(&mem.bytes[0x1800..0x2000], &[0; 0x800][..]);
    assert_eq!(&mem.bytes[0x2000..0x2100], &file[0x800..0x900]);
    assert_eq!(&mem.bytes[0x2100..0x3000], &[0; 0xf00][..]);
    assert_eq!(&mem.bytes[0x3000..], &[0xee; 0x1000][..]);
    let mut small = ram(0x5000_0000, 0x1000, 0);
    assert_eq!(load_image(&mut small, &image, 0x5000_0000), Err(Stop::Fault(0x5000_0000)));
}

#[test]
fn a_program_is_ready_to_run() {
    let file = program();
    let mut mem = ram(0x5000_0000, 0x2_0000, 0);
    let mut console = Console::new();
    let launch = load_and_run(&mut mem, &mut console, &file, 0x5000_0000).unwrap().unwrap();
    assert_eq!(launch.frame.pc, 0x5000_0600);
    assert_eq!(launch.frame.sp, 0x5001_2000);
    assert_eq!(launch.frame.pstate, 0);
    assert_eq!(launch.span, 0x2000);
    let log = String::from_utf8(console.out).unwrap();
    assert!(log.starts_with("xnu-rs: loading user image link_base=0x0x0000000100000000"));
    assert!(log.ends_with("stack_top=0x0x0000000050012000\nxnu-rs: ERET to EL0\n"));
    let mut console = Console::new();
    assert!(matches!(load_and_run(&mut mem, &mut console, b"no", 0x5000_0000), Ok(None)));
    assert_eq!(console.out, b"xnu-rs: failed to parse user Mach-O\n");
    assert!(matches!(
        load_and_run(&mut mem, &mut console, &file, u64::MAX - 0xfff),
        Err(Stop::Fault(_)) | Err(Stop::Overflow)
    ));
}

#[test]
fn a_new_stack_holds_arguments_and_paths() {
    let mut mem = ram(0x1000, 0x1000, 0xcc);
    let sp = setup_darwin_stack(&mut mem, 0x2000, 0x5000_0000, b"app\0", b"executable_path=x\0").unwrap();
    // The argument lies below the top, the other path at a multiple of eight below it.
    let arg = 0x2000 - 4;
    let exe = (arg - 18) / 8 * 8;
    assert_eq!(sp, (exe - 56) / 16 * 16);
    let words = [0x5000_0000u64, 1, arg, 0, 0, exe, 0];
    for i in 0..7 {
        assert_eq!(mem.load64(sp + 8 * i), Ok(words[i as usize]));
    }
    assert_eq!(&mem.bytes[(arg - 0x1000) as usize..], b"app\0");
    let at = (exe - 0x1000) as usize;
    assert_eq!(&mem.bytes[at..at + 18], b"executable_path=x\0");
    assert_eq!(setup_darwin_stack(&mut mem, 8, 0, b"app\0", b"exe\0"), Err(Stop::Overflow));
    assert_eq!(setup_darwin_stack(&mut mem, 0x1_0000, 0, b"a\0", b"e\0"), Err(Stop::Fault(0xfffe)));
}

#[test]
fn dependencies_are_logged() {
    let file = program();
    let image = parse(&file).unwrap();
    let mut console = Console::new();
    log_deps(&mut console, &image, "prog");
    let mut want = String::from(
        "xnu-rs: deps for prog:\n  LOAD   /usr/lib/libSystem.B.dylib\n  WEAK   \
         /usr/lib/libweak.dylib\n  RPATH  @loader_path/x\n  UUID   ",
    );
    for i in 1..17 {
        want.push_str(&format!("0x{:016x}", i));
    }
    want.push('\n');
    assert_eq!(String::from_utf8(console.out).unwrap(), want);
}

/// Memory at 0x1_0000 with fixups for one page at file offset 0x100: a chain of
/// three slots at 0x800.
fn chained() -> PhysMem {
    let mut mem = ram(0x1_0000, 0x2000, 0);
    let header = 0x1_0100;
    mem.store32(header + 4, 0x20).unwrap();
    let starts = header + 0x20;
    mem.store32(starts, 2).unwrap();
    mem.store32(starts + 4, 0).unwrap();
    mem.store32(starts + 8, 0x10).unwrap();
    let info = starts + 0x10;
    mem.store(info + 4, &0x1000u16.to_le_bytes()).unwrap();
    mem.store(info + 6, &12u16.to_le_bytes()).unwrap();
    mem.store64(info + 8, 0x800).unwrap();
    mem.store(info + 20, &2u16.to_le_bytes()).unwrap();
    mem.store(info + 22, &0x0u16.to_le_bytes()).unwrap();
    mem.store(info + 24, &0xffffu16.to_le_bytes()).unwrap();
    // A plain pointer, next two slots on; an import, next one slot on; an
    // authenticated pointer, the last.
    mem.store64(0x1_0800, (2 << 51) | (0xab << 32) | 0x1234).unwrap();
    mem.store64(0x1_0810, (1 << 51) | (1 << 62) | 7).unwrap();
    mem.store64(0x1_0818, (1 << 63) | (0x77 << 32) | 0x5678).unwrap();
    mem
}

#[test]
fn chains_are_rebased() {
    let mut mem = chained();
    assert_eq!(apply_chains(&mut mem, 0x1_0000, 0x1000_0000, 0x100), Ok(()));
    assert_eq!(mem.load64(0x1_0800), Ok(0xab00_0000_1000_1234));
    assert_eq!(mem.load64(0x1_0810), Ok((1 << 51) | (1 << 62) | 7));
    assert_eq!(mem.load64(0x1_0818), Ok(0x1000_5678));
}

#[test]
fn chains_that_leave_memory_stop() {
    let mut mem = chained();
    assert_eq!(apply_chains(&mut mem, 0x9_0000, 0, 0x100), Err(Stop::Fault(0x9_0104)));
    let mut mem = chained();
    assert_eq!(apply_chains(&mut mem, u64::MAX, 0, 0x100), Err(Stop::Overflow));
    let mut mem = chained();
    assert_eq!(apply_chains(&mut mem, 0x1_0000, u64::MAX, 0x100), Err(Stop::Overflow));
}

#[test]
fn fixups_of_a_file_are_applied() {
    let text = segment("__TEXT", (0, 0x1000), (0, 0x400), (5, 5), &[]);
    let pair = [&0x100u32.to_le_bytes()[..], &0x40u32.to_le_bytes()[..]].concat();
    let fix = cmd(0x8000_0034, &pair);
    let file = macho(&[text.clone(), main_cmd(0), fix.clone()], 0x400, 0);
    let mut mem = chained();
    assert_eq!(apply_arm64e_userland(&file, &mut mem, 0x1_0000, 0x10), Ok(()));
    assert_eq!(mem.load64(0x1_0818), Ok(0x5688));
    let without = macho(&[text, main_cmd(0)], 0x400, 0);
    let mut mem = chained();
    let before = mem.bytes.clone();
    assert_eq!(apply_arm64e_userland(&without, &mut mem, 0x1_0000, 0x10), Ok(()));
    assert_eq!(mem.bytes, before);
    let cmds: Vec<&[u8]> = vec![&fix];
    assert_eq!(find_fixups(&cmds), Some(0x100));
    let short: Vec<&[u8]> = vec![&fix[..12], &fix];
    assert_eq!(find_fixups(&short), None);
}

#[test]
fn a_boot_image_has_entry_and_segments() {
    let file = program();
    assert!(is_macho(&file));
    assert!(!is_elf(&file));
    let image = MachO::parse(&file).unwrap();
    assert_eq!(image.entry(), 0x1_0000_0600);
    let segs = image.segments();
    assert_eq!(segs.len(), 3);
    assert_eq!((segs[1].vmaddr(), segs[1].vmsize()), (0x1_0000_0000, 0x1000));
    assert_eq!((segs[2].fileoff(), segs[2].filesize()), (0x800, 0x100));
    assert_eq!(segs[2].data(), Some(&file[0x800..0x900]));
    assert_eq!(segs[0].data(), Some(&file[..0]));
    assert!(matches!(MachO::parse(b"no"), Err(ImageError::NotMachO)));
    let far = macho(
        &[segment("__TEXT", (u64::MAX, 1), (0, 0), (5, 5), &[]), main_cmd(0x10)],
        0x200,
        0,
    );
    assert!(matches!(MachO::parse(&far), Err(ImageError::EntryOverflow)));
    let cut = macho(&[segment("__X", (0, 1), (0, 0x1000), (5, 5), &[])], 0x200, 0);
    assert_eq!(MachO::parse(&cut).unwrap().segments()[0].data(), None);
    assert_eq!(MachO::parse(&cut).unwrap().entry(), 0);
}

#[test]
fn a_kernel_image_has_entry_and_segments() {
    let text = segment("__TEXT", (0x4008_0000, 0x1000), (0, 0x200), (5, 5), &[]);
    let data = segment("__DATA", (0x4008_1000, 0x2000), (0x200, 0x80), (3, 3), &[]);
    let file = macho(&[text, data, main_cmd(0x180)], 0x280, 0x33);
    assert!(check_entry(&file));
    assert!(kernel_image::is_macho(&file));
    let image = MachOImage::new(&file).parse().unwrap();
    assert_eq!(image.entry, 0x4008_0180);
    assert_eq!(image.segments.len(), 2);
    assert_eq!((image.segments[1].vmaddr, image.segments[1].vmsize), (0x4008_1000, 0x2000));
    assert_eq!((image.segments[1].fileoff, image.segments[1].filesize), (0x200, 0x80));
    assert_eq!(image.segments[1].data, &file[0x200..0x280]);
    let junk = [0u8; 40];
    assert!(check_entry(&junk));
    assert!(!kernel_image::is_macho(&junk));
    assert!(matches!(MachOImage::new(&junk).parse(), Err(ParseError)));
}

#[test]
fn an_entry_that_is_no_address_is_noticed() {
    let low = segment("__TEXT", (0x100, 0x1000), (0x200, 0), (5, 5), &[]);
    assert!(!check_entry(&macho(&[low, main_cmd(0)], 0x200, 0)));
    let high = segment("__TEXT", (u64::MAX, 0), (0, 0), (5, 5), &[]);
    assert!(!check_entry(&macho(&[high.clone(), main_cmd(1)], 0x200, 0)));
    assert!(check_entry(&macho(&[high, main_cmd(0)], 0x200, 0)));
    assert!(check_entry(&macho(&[main_cmd(1)], 0x200, 0)));
}

/// An ELF file with the given entry and program headers.
fn elf(entry: u64, headers: &[(u32, u32, u64, u64, u64, u64)], size: usize) -> Vec<u8> {
    let mut v = vec![0x7f, b'E', b'L', b'F', 2, 1, 1, 0, 0, 0, 0, 0, 0, 0, 0, 0];
    v.extend_from_slice(&2u16.to_le_bytes());
    v.extend_from_slice(&183u16.to_le_bytes());
    w32(&mut v, 1);
    w64(&mut v, entry);
    w64(&mut v, 64);
    w64(&mut v, 0);
    w32(&mut v, 0);
    for x in [64u16, 56, headers.len() as u16, 64, 0, 0] {
        v.extend_from_slice(&x.to_le_bytes());
    }
    for h in headers {
        w32(&mut v, h.0);
        w32(&mut v, h.1);
        for x in [h.2, h.3, h.3, h.4, h.5, 0x1000] {
            w64(&mut v, x);
        }
    }
    v.resize(size, 0x11);
    v
}

#[test]
fn elf_files_are_told_apart() {
    let file = elf(0x4008_0040, &[(1, 5, 0, 0x4008_0000, 0x100, 0x100)], 0x100);
    assert!(is_elf(&file));
    assert!(!is_macho(&file));
    assert!(kernel_image::is_elf(&file));
    assert!(!kernel_image::is_macho(&file));
    assert!(matches!(ElfImage::new(&file).parse(), Ok(0x4008_0040)));
    assert!(matches!(ElfImage::new(b"no").parse(), Err(ParseError)));
    assert!(!kernel_image::is_elf(b"no"));
    assert!(!is_elf(b"no"));
}

#[test]
fn an_image_without_segments_spans_nothing() {
    let image = UserImage {
        segments: Vec::new(),
        entry: EntryPoint::VirtualAddress(5),
        link_base: 0,
        dylib_deps: Vec::new(),
        weak_dylib_deps: Vec::new(),
        dylib_id: None,
        rpaths: Vec::new(),
        uuid: None,
        chained_fixups: None,
        dyld_info: None,
        code_signature: None,
        build_version: None,
        encryption_info: None,
    };
    assert_eq!(image.image_span(), 0);
    assert_eq!(image.entry_va(), Some(5));
}
