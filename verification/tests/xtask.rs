//! The build tasks: root file system, conversion, commands.

use xnu_rs::kernel::arch::uart::Console;
use xnu_rs::kernel::fs::xnrsfs::{
    cut, find_entry, get_file_info, list_entries, list_files, parse_header, read_bytes, read_file,
    Ask, FileQuery, ReadPlan,
};
use xnu_rs::loader::parse::parse;
use xnu_rs::xtask::artifact::{choose_artifact, startup_script, test_build, Artifact};
use xnu_rs::xtask::commands::{check, clippy, exit_code, qemu_args};
use xnu_rs::xtask::elf::ElfSegment;
use xnu_rs::xtask::macho::{
    align_usize, convert_elf_to_macho, decimal_digits, emit_macho, plan_macho, segment_name,
    vm_prot, ConvertError,
};
use xnu_rs::xtask::partition::{Partition, SeekError, SeekTo};
use xnu_rs::xtask::rootfs::{padding, plan_rootfs, split_arg};

#[test]
fn arguments_split_at_the_first_colon() {
    assert_eq!(split_arg("bin/ls:/tmp/a:b"), Some(("bin/ls", "/tmp/a:b")));
    assert_eq!(split_arg(":x"), Some(("", "x")));
    assert_eq!(split_arg("caf\u{e9}:"), Some(("caf\u{e9}", "")));
    assert_eq!(split_arg("none"), None);
}

/// Builds the image of files as the plan says.
fn image(files: &[(&str, Vec<u8>)]) -> Vec<u8> {
    let names: Vec<String> = files.iter().map(|f| String::from(f.0)).collect();
    let sizes: Vec<u64> = files.iter().map(|f| f.1.len() as u64).collect();
    let plan = plan_rootfs(&names, sizes).unwrap();
    let mut out = plan.head.clone();
    for i in 0..files.len() {
        assert_eq!(out.len() as u64, plan.offsets[i]);
        out.extend_from_slice(&files[i].1);
        let pad = padding(&plan, i, files[i].1.len() as u64);
        out.resize(out.len() + pad as usize, 0);
    }
    assert_eq!(out.len() as u64, plan.total);
    out
}

/// Runs a query against an image to its end.
fn run(mut q: FileQuery, disk: &[u8], console: &mut Console) -> Ask {
    let mut reply: Vec<u8> = disk[..512].to_vec();
    loop {
        match q.step(console, Some(&reply)) {
            Ask::Read { offset, size } => {
                let plan = read_bytes(offset, size).unwrap();
                let from = plan.lba as usize * 512;
                let mut sectors = disk[from..].to_vec();
                sectors.resize(plan.sectors as usize * 512, 0);
                reply = cut(plan, &sectors, size as usize).to_vec();
            }
            other => return other,
        }
    }
}

#[test]
fn files_of_an_image_read_back() {
    let a = vec![1u8; 5000];
    let b = b"hello".to_vec();
    let disk = image(&[("bin/a", a.clone()), ("etc/b", b.clone()), ("empty", Vec::new())]);
    let mut console = Console::new();
    assert!(matches!(run(read_file(String::from("bin/a")), &disk, &mut console), Ask::Data(d) if d == a));
    assert!(matches!(run(read_file(String::from("etc/b")), &disk, &mut console), Ask::Data(d) if d == b));
    assert!(matches!(run(read_file(String::from("empty")), &disk, &mut console), Ask::Data(d) if d.is_empty()));
    assert!(matches!(run(read_file(String::from("nope")), &disk, &mut console), Ask::Missing));
    assert!(matches!(
        run(get_file_info(String::from("etc/b")), &disk, &mut console),
        Ask::Place { offset: 0x3000, size: 5 }
    ));
    assert_eq!(parse_header(&disk), Some(3));
    assert_eq!(find_entry(&disk[8..], 3, "bin/a"), Some((0x1000, 5000)));
    assert_eq!(find_entry(&disk[8..], 0, "bin/a"), None);
}

#[test]
fn long_names_are_cut() {
    let disk = image(&[(&"n".repeat(70), vec![1])]);
    assert_eq!(find_entry(&disk[8..], 1, &"n".repeat(63)), Some((0x1000, 1)));
    assert_eq!(find_entry(&disk[8..], 1, &"n".repeat(70)), None);
    assert_eq!(disk[8 + 63], 0);
}

#[test]
fn images_that_are_too_large_are_refused() {
    let names = vec![String::from("a"), String::from("b")];
    assert!(plan_rootfs(&names, vec![u64::MAX, 1]).is_none());
    assert!(plan_rootfs(&names, vec![1, u64::MAX - 0x2ffe]).is_none());
    let plan = plan_rootfs(&names, vec![0x1000, 1]).unwrap();
    assert_eq!(plan.offsets, vec![0x1000, 0x2000]);
    assert_eq!(plan.total, 0x3000);
    assert_eq!(padding(&plan, 1, 1), 0xfff);
}

#[test]
fn failing_queries_say_why() {
    let mut console = Console::new();
    let mut q = read_file(String::from("x"));
    assert!(matches!(q.step(&mut console, None), Ask::Missing));
    assert_eq!(console.out, b"xnrsfs: disk read error\n");
    let mut console = Console::new();
    let mut q = read_file(String::from("x"));
    assert!(matches!(q.step(&mut console, Some(&[0u8; 512])), Ask::Missing));
    assert_eq!(console.out, b"xnrsfs: bad magic\n");
    let mut console = Console::new();
    let mut q = get_file_info(String::from("x"));
    assert!(matches!(q.step(&mut console, None), Ask::Missing));
    assert_eq!(console.out, b"");
    assert_eq!(parse_header(&[0; 8]), None);
}

#[test]
fn sector_plans() {
    assert_eq!(read_bytes(1000, 100), Some(ReadPlan { lba: 1, skip: 488, sectors: 2 }));
    assert_eq!(read_bytes(512, 512), Some(ReadPlan { lba: 1, skip: 0, sectors: 1 }));
    assert_eq!(read_bytes(7, 0).unwrap().sectors, 0);
    assert_eq!(read_bytes(0, u64::MAX), None);
    let sectors: Vec<u8> = (0..=255u8).cycle().take(1024).collect();
    let plan = read_bytes(1000, 3).unwrap();
    assert_eq!(cut(plan, &sectors, 3), &[232, 233, 234]);
}

#[test]
fn files_are_listed() {
    let disk = image(&[("a", vec![0; 3]), ("b", vec![0; 16])]);
    let mut console = Console::new();
    let n = list_files(&mut console, Some(&disk[..512])).unwrap();
    list_entries(&mut console, &disk[8..], n);
    let log = String::from_utf8(console.out).unwrap();
    assert!(log.contains("  a ("));
    assert!(log.contains("0x0000000000000010"));
    assert!(list_files(&mut Console::new(), None).is_none());
    assert!(list_files(&mut Console::new(), Some(&[0; 8])).is_none());
}

fn w32(v: &mut Vec<u8>, x: u32) {
    v.extend_from_slice(&x.to_le_bytes());
}

fn w64(v: &mut Vec<u8>, x: u64) {
    v.extend_from_slice(&x.to_le_bytes());
}

/// A 64-bit little-endian ELF file with the given program headers.
fn elf(entry: u64, headers: &[ElfSegment], size: usize) -> Vec<u8> {
    let mut v = vec![0x7f, b'E', b'L', b'F', 2, 1, 1, 0, 0, 0, 0, 0, 0, 0, 0, 0];
    v.extend_from_slice(&2u16.to_le_bytes());
    v.extend_from_slice(&183u16.to_le_bytes());
    w32(&mut v, 1);
    w64(&mut v, entry);
    w64(&mut v, 64);
    w64(&mut v, 0);
    w32(&mut v, 0);
    for x in [64u16, 56, headers.len() as u16, 64, 0, 0] {
        v.extend_from_slice(&x.to_le_bytes());
    }
    for h in headers {
        w32(&mut v, h.p_type);
        w32(&mut v, h.p_flags);
        for x in [h.p_offset, h.p_vaddr, h.p_vaddr, h.p_filesz, h.p_memsz, 0x1000] {
            w64(&mut v, x);
        }
    }
    let from = v.len();
    v.resize(size, 0);
    for i in from..size {
        v[i] = i as u8;
    }
    v
}

fn load(flags: u32, offset: u64, vaddr: u64, filesz: u64, memsz: u64) -> ElfSegment {
    ElfSegment {
        p_type: 1,
        p_flags: flags,
        p_offset: offset,
        p_vaddr: vaddr,
        p_filesz: filesz,
        p_memsz: memsz,
    }
}

#[test]
fn a_converted_kernel_reads_back() {
    let file = elf(
        0x4008_0010,
        &[load(5, 0x200, 0x4008_0000, 0x80, 0x80), load(6, 0x300, 0x4008_1000, 0x40, 0x2000)],
        0x400,
    );
    let out = convert_elf_to_macho(&file).unwrap();
    let image = parse(&out).unwrap();
    assert_eq!(image.segments.len(), 2);
    let text = &image.segments[0];
    assert_eq!(text.name_str(), "__TEXT");
    assert_eq!((text.vmaddr, text.vmsize, text.initprot), (0x4008_0000, 0x80, 5));
    assert_eq!(text.data, &file[0x200..0x280]);
    assert_eq!(text.fileoff, 0x1000);
    let data = &image.segments[1];
    assert_eq!(data.name_str(), "__DATA");
    assert_eq!((data.vmaddr, data.vmsize, data.maxprot), (0x4008_1000, 0x2000, 3));
    assert_eq!(data.data, &file[0x300..0x340]);
    assert_eq!(image.entry_va(), Some(0x4008_0010));
}

#[test]
fn conversion_errors() {
    assert_eq!(convert_elf_to_macho(b"no"), Err(ConvertError::NotElf));
    assert_eq!(convert_elf_to_macho(&elf(0, &[], 0x100)), Err(ConvertError::NoLoadSegments));
    let data_only = elf(0, &[load(6, 0x80, 0, 0x10, 0x10)], 0x100);
    assert_eq!(convert_elf_to_macho(&data_only), Err(ConvertError::NoText));
    let outside = elf(0x10, &[load(5, 0x80, 0, 0x1000, 0x1000)], 0x100);
    assert_eq!(convert_elf_to_macho(&outside), Err(ConvertError::SegmentOutsideFile));
    let early = elf(0x10, &[load(5, 0x80, 0x4000_0000, 0x10, 0x10)], 0x100);
    assert_eq!(convert_elf_to_macho(&early), Err(ConvertError::BadEntry));
    let huge = vec![load(5, 0, 0, u64::MAX - 0xfff, 1)];
    assert!(matches!(plan_macho(&huge, 0), Err(ConvertError::FileSizeOverflow)));
    let two = vec![load(5, 0, 0, u64::MAX - 0x1ffe, 1), load(5, 0, 0, 1, 1)];
    assert!(matches!(plan_macho(&two, 0), Err(ConvertError::AlignmentOverflow)));
    assert_eq!(align_usize(u64::MAX), Err(ConvertError::AlignmentOverflow));
    assert_eq!(align_usize(1), Ok(0x1000));
}

#[test]
fn a_layout_is_written_as_planned() {
    let src: Vec<u8> = (0..64u8).collect();
    let layout = plan_macho(&vec![load(1, 8, 0x100, 4, 16)], 0x102).unwrap();
    assert_eq!(layout.segments.len(), 1);
    assert_eq!(layout.entryoff, 0x102);
    let out = emit_macho(&src, &layout);
    assert_eq!(out.len() as u64, layout.size);
    assert_eq!(&out[0x1000..0x1004], &[8, 9, 10, 11]);
    assert_eq!(&out[..4], &0xfeed_facfu32.to_le_bytes());
    assert_eq!(&out[16..20], &2u32.to_le_bytes());
    assert_eq!(&out[20..24], &(72u32 + 24).to_le_bytes());
}

#[test]
fn names_and_protections_of_segments() {
    assert_eq!(decimal_digits(0), b"0");
    assert_eq!(decimal_digits(1230), b"1230");
    assert_eq!(&segment_name(3, 5)[..7], b"__TEXT\0");
    assert_eq!(&segment_name(3, 6)[..7], b"__DATA\0");
    assert_eq!(&segment_name(12, 4)[..8], b"__SEG12\0");
    assert_eq!(vm_prot(4), 1);
    assert_eq!(vm_prot(2), 2);
    assert_eq!(vm_prot(1), 4);
    assert_eq!(vm_prot(7), 7);
}

#[test]
fn accesses_stay_inside_a_partition() {
    let mut p = Partition::new(0x1000, 100);
    assert_eq!(p.access(60), Some((0x1000, 60)));
    p.advance(60);
    assert_eq!(p.access(60), Some((0x103c, 40)));
    p.advance(40);
    assert_eq!(p.access(1), None);
    assert_eq!(p.seek(SeekTo::Start(10)), Ok(10));
    assert_eq!(p.seek(SeekTo::Current(-4)), Ok(6));
    assert_eq!(p.seek(SeekTo::Current(-7)), Err(SeekError));
    assert_eq!(p.pos, 6);
    assert_eq!(p.seek(SeekTo::End(-100)), Ok(0));
    assert_eq!(p.seek(SeekTo::End(1)), Err(SeekError));
    assert_eq!(p.seek(SeekTo::Start(101)), Err(SeekError));
    assert_eq!(p.seek(SeekTo::Start(100)), Ok(100));
}

fn file(name: &str, modified: i128) -> Artifact {
    Artifact { file_name: String::from(name), modified }
}

#[test]
fn the_newest_build_is_chosen() {
    let files = vec![
        file("bootloader.efi", 5),
        file("bootloader-abc.efi", 9),
        file("libbootloader-x.efi", 9),
        file("bootloader-abc.d", 20),
        file("other.efi", 30),
    ];
    assert_eq!(choose_artifact(&files, "bootloader"), Some(1));
    assert_eq!(choose_artifact(&files, "nothing"), None);
    assert_eq!(choose_artifact(&vec![], "bootloader"), None);
    assert_eq!(choose_artifact(&vec![file(".efi", 1)], ""), None);
    let old = vec![file("bootloader-a.efi", -20), file("bootloader-b.efi", -10)];
    assert_eq!(choose_artifact(&old, "bootloader"), Some(1));
    assert!(test_build("bootloader-abc.efi", "bootloader"));
    assert!(test_build("lib-bootloader-abc.efi", "bootloader"));
    assert!(!test_build("xbootloader.efi", "bootloader"));
}

#[test]
fn the_start_script_runs_the_boot_loader() {
    let script = startup_script();
    let units: Vec<u16> =
        script.chunks(2).map(|c| u16::from_le_bytes([c[0], c[1]])).collect();
    assert_eq!(units[0], 0xfeff);
    assert_eq!(String::from_utf16(&units[1..]).unwrap(), "\\EFI\\BOOT\\BOOTAA64.EFI\r\n");
}

#[test]
fn command_lines() {
    let runs = check();
    assert_eq!(runs.len(), 6);
    assert_eq!(runs[0], vec!["check", "-p", "kernel", "--target", "aarch64-unknown-none"]);
    assert_eq!(runs[5], vec!["check", "-p", "xtask"]);
    let extra = vec![String::from("--"), String::from("-D")];
    let runs = clippy(&extra);
    assert_eq!(
        runs[1],
        vec!["clippy", "-p", "bootloader", "--target", "aarch64-unknown-uefi", "--", "-D"]
    );
    let with = qemu_args("fw.fd", true);
    let without = qemu_args("fw.fd", false);
    assert_eq!(without.len() + 4, with.len());
    assert_eq!(&with[13..15], &["-bios", "fw.fd"]);
    assert_eq!(with[with.len() - 1], "virtio-blk-device,drive=rootfs");
}

#[test]
fn exit_codes() {
    assert_eq!(exit_code(Some(true), false), 0);
    assert_eq!(exit_code(Some(false), true), 0);
    assert_eq!(exit_code(Some(false), false), 1);
    assert_eq!(exit_code(None, true), 1);
}
