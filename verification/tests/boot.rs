//! The boot loader: device trees and where the kernel goes.

use xnu_rs::boot::adt::{build_apple_device_tree, fdt_len, qemu_virt_memory_reg, write_adt_node};
use xnu_rs::boot::device_tree::{read_be_u32, AdtNode, AdtProp, FdtParser, LoadError};
use xnu_rs::boot::kernel_image::KernelSegment;
use xnu_rs::boot::plan::{
    allocation_pages, cache_range, copied_segments, fill_boot_args, kernel_top, load_ranges,
    memory_extent, merge_ranges, next_cache_line, stack_top, synced_segments, LoadRange,
    MemoryDescriptor,
};
use xnu_rs::kernel::arch::uart::Console;
use xnu_rs::kernel::boot_args::BootArgs;
use xnu_rs::kernel::device_tree::{align_up_4, dump, read_le_u32, AppleDeviceTree, Node, Property};
use xnu_rs::kernel::start::validate_boot_args;
use xnu_rs::mem::{PhysMem, Stop};

/// Flattened tree structure tokens.
fn begin(out: &mut Vec<u8>, name: &str) {
    out.extend_from_slice(&1u32.to_be_bytes());
    out.extend_from_slice(name.as_bytes());
    out.push(0);
    while out.len() % 4 != 0 {
        out.push(0);
    }
}

fn prop(out: &mut Vec<u8>, nameoff: u32, value: &[u8]) {
    out.extend_from_slice(&3u32.to_be_bytes());
    out.extend_from_slice(&(value.len() as u32).to_be_bytes());
    out.extend_from_slice(&nameoff.to_be_bytes());
    out.extend_from_slice(value);
    while out.len() % 4 != 0 {
        out.push(0);
    }
}

fn end(out: &mut Vec<u8>) {
    out.extend_from_slice(&2u32.to_be_bytes());
}

/// A flattened device tree with the given structure and strings.
fn fdt(structure: &[u8], strings: &[u8]) -> Vec<u8> {
    let total = 40 + structure.len() + strings.len();
    let mut v = Vec::new();
    for x in [
        0xd00d_feedu32,
        total as u32,
        40,
        (40 + structure.len()) as u32,
        0,
        17,
        16,
        0,
        strings.len() as u32,
        structure.len() as u32,
    ] {
        v.extend_from_slice(&x.to_be_bytes());
    }
    v.extend_from_slice(structure);
    v.extend_from_slice(strings);
    v
}

/// A root with a property and two children, the second with its own name property.
fn small_tree() -> Vec<u8> {
    let mut s = Vec::new();
    begin(&mut s, "");
    prop(&mut s, 0, b"virt\0");
    begin(&mut s, "cpus");
    end(&mut s);
    s.extend_from_slice(&4u32.to_be_bytes());
    begin(&mut s, "memory@40000000");
    prop(&mut s, 6, b"mem");
    prop(&mut s, 11, &[0, 0, 0, 1]);
    end(&mut s);
    end(&mut s);
    s.extend_from_slice(&9u32.to_be_bytes());
    fdt(&s, b"model\0name\0reg\0")
}

#[test]
fn a_flattened_tree_is_read() {
    let b = small_tree();
    let root = FdtParser::new(&b).unwrap().parse().unwrap();
    assert_eq!(root.props.len(), 2);
    assert_eq!((root.props[0].name.as_str(), &root.props[0].value[..]), ("name", &b"/"[..]));
    assert_eq!((root.props[1].name.as_str(), &root.props[1].value[..]), ("model", &b"virt\0"[..]));
    assert_eq!(root.children.len(), 2);
    assert_eq!(root.children[0].props[0].value, b"cpus");
    let memory = &root.children[1];
    assert_eq!(memory.props.len(), 2);
    assert_eq!(memory.props[0].value, b"mem");
    assert_eq!(memory.props[1].name, "reg");
    assert_eq!(memory.props[1].value, [0, 0, 0, 1]);
}

#[test]
fn malformed_flattened_trees_are_refused() {
    assert!(matches!(FdtParser::new(&[]), Err(LoadError)));
    let mut bad_magic = small_tree();
    bad_magic[0] = 0;
    assert!(FdtParser::new(&bad_magic).is_err());
    let mut too_long = small_tree();
    too_long[7] = 0xff;
    assert!(FdtParser::new(&too_long).is_err());
    // A property name that is not in the strings.
    let mut s = Vec::new();
    begin(&mut s, "");
    prop(&mut s, 100, b"x");
    end(&mut s);
    let stray = fdt(&s, b"model\0");
    assert!(FdtParser::new(&stray).unwrap().parse().is_err());
    // A node without an end.
    let mut s = Vec::new();
    begin(&mut s, "");
    let open = fdt(&s, b"model\0");
    assert!(FdtParser::new(&open).unwrap().parse().is_err());
    // A token that does not exist.
    s.extend_from_slice(&77u32.to_be_bytes());
    let odd = fdt(&s, b"model\0");
    assert!(FdtParser::new(&odd).unwrap().parse().is_err());
}

#[test]
fn words_and_lengths_of_a_flattened_tree() {
    assert_eq!(read_be_u32(&[1, 2, 3, 4, 5], 1), Some(0x0203_0405));
    assert_eq!(read_be_u32(&[1, 2, 3, 4, 5], 2), None);
    let b = small_tree();
    assert_eq!(fdt_len(&b), Some(b.len() as u32));
    assert_eq!(fdt_len(&b[..4]), None);
    let mut short = b.clone();
    short[4..8].copy_from_slice(&39u32.to_be_bytes());
    assert_eq!(fdt_len(&short), None);
    short[0] = 1;
    assert_eq!(fdt_len(&short), None);
}

#[test]
fn property_names_have_a_limit() {
    let long = "x".repeat(32);
    assert!(AdtProp::new(&long, &[]).is_err());
    assert!(AdtProp::new_owned(long, Vec::new()).is_err());
    let p = AdtProp::new(&"x".repeat(31), &[1, 2]).unwrap();
    assert_eq!(p.value, [1, 2]);
    let q = AdtProp::new_owned(String::from("reg"), vec![3]).unwrap();
    assert_eq!((q.name.as_str(), q.value), ("reg", vec![3]));
}

#[test]
fn a_node_is_written_field_by_field() {
    let child = AdtNode { props: Vec::new(), children: Vec::new() };
    let node = AdtNode {
        props: vec![AdtProp { name: String::from("ab"), value: vec![1, 2, 3, 4, 5] }],
        children: vec![child],
    };
    let mut out = vec![9u8; 4];
    assert_eq!(write_adt_node(&node, &mut out), Ok(()));
    let mut want = vec![9u8; 4];
    want.extend_from_slice(&[1, 0, 0, 0, 1, 0, 0, 0]);
    want.extend_from_slice(b"ab");
    want.extend_from_slice(&[0; 30]);
    want.extend_from_slice(&[5, 0, 0, 0, 1, 2, 3, 4, 5, 0, 0, 0]);
    want.extend_from_slice(&[0; 8]);
    assert_eq!(out, want);
    let bad = AdtNode {
        props: vec![AdtProp { name: "y".repeat(32), value: Vec::new() }],
        children: Vec::new(),
    };
    assert_eq!(write_adt_node(&bad, &mut Vec::new()), Err(LoadError));
}

#[test]
fn a_written_tree_reads_back() {
    let bytes = build_apple_device_tree(Some(&small_tree())).unwrap();
    let tree = AppleDeviceTree::new(&bytes).unwrap();
    let root = tree.root();
    assert_eq!(root.property_count(), Ok(2));
    assert_eq!(root.child_count(), Ok(2));
    assert_eq!(root.total_len(), Ok(bytes.len()));
    let first = Property::parse(&bytes, 8).unwrap();
    assert_eq!((first.name, first.value), ("name", &b"/"[..]));
    let second = Property::parse(&bytes, first.end).unwrap();
    assert_eq!((second.name, second.value), ("model", &b"virt\0"[..]));
    assert_eq!(root.properties_end(), Ok(second.end));
    let memory = root.child_at(1).unwrap();
    let name = Property::parse(memory.bytes, 8).unwrap();
    assert_eq!((name.name, name.value), ("name", &b"mem"[..]));
    let reg = Property::parse(memory.bytes, name.end).unwrap();
    assert_eq!((reg.name, reg.value), ("reg", &[0u8, 0, 0, 1][..]));
    assert!(root.child_at(2).is_err());
    assert!(build_apple_device_tree(Some(&[1, 2, 3])).is_err());
}

#[test]
fn the_built_in_tree() {
    let bytes = build_apple_device_tree(None).unwrap();
    let root = AppleDeviceTree::new(&bytes).unwrap().root();
    assert_eq!((root.property_count(), root.child_count()), (Ok(5), Ok(2)));
    let memory = root.child_at(1).unwrap();
    let name = Property::parse(memory.bytes, 8).unwrap();
    let kind = Property::parse(memory.bytes, name.end).unwrap();
    let reg = Property::parse(memory.bytes, kind.end).unwrap();
    assert_eq!(reg.value, &qemu_virt_memory_reg()[..]);
    assert_eq!(reg.value, &[0, 0, 0, 0, 0x40, 0, 0, 0, 0, 0, 0, 0, 0x40, 0, 0, 0]);
}

#[test]
fn reading_stops_at_the_end_of_the_bytes() {
    assert_eq!(read_le_u32(&[1, 2, 3, 4], 0), Ok(0x0403_0201));
    assert_eq!(read_le_u32(&[1, 2, 3, 4], 1), Err(()));
    assert_eq!(read_le_u32(&[1, 2, 3, 4], usize::MAX), Err(()));
    assert_eq!(align_up_4(5), Some(8));
    assert_eq!(align_up_4(8), Some(8));
    assert_eq!(align_up_4(usize::MAX - 1), None);
    assert!(AppleDeviceTree::new(&[0; 7]).is_err());
    let cut = [1u8, 0, 0, 0, 0, 0, 0, 0, 1];
    let node = Node { bytes: &cut };
    assert!(node.properties_end().is_err());
    assert!(node.total_len().is_err());
    assert!(Property::parse(&cut, 8).is_err());
}

#[test]
fn a_tree_is_dumped() {
    let mut out = Vec::new();
    let node = AdtNode {
        props: vec![
            AdtProp { name: String::from("name"), value: b"cpu\0".to_vec() },
            AdtProp { name: String::from("reg"), value: vec![1, 2] },
        ],
        children: vec![AdtNode { props: Vec::new(), children: Vec::new() }],
    };
    write_adt_node(&node, &mut out).unwrap();
    let mut console = Console::new();
    dump(&mut console, &out);
    assert_eq!(
        String::from_utf8(console.out).unwrap(),
        "xnu-rs: Apple device tree\n\
         node props=0x0000000000000002 children=0x0000000000000001\n  \
         name len=0x0000000000000004 value=\"cpu\"\n  \
         reg len=0x0000000000000002\n  \
         node props=0x0000000000000000 children=0x0000000000000000\n"
    );
    let mut console = Console::new();
    dump(&mut console, &out[..20]);
    let log = String::from_utf8(console.out).unwrap();
    assert!(log.ends_with("xnu-rs: Apple device tree dump truncated/malformed\n"));
    let mut console = Console::new();
    dump(&mut console, &[1, 2]);
    assert_eq!(console.out, b"xnu-rs: malformed Apple device tree\n");
}

fn seg(vmaddr: u64, vmsize: u64, filesize: u64) -> KernelSegment<'static> {
    KernelSegment { vmaddr, vmsize, fileoff: 0, filesize, data: &[] }
}

#[test]
fn segments_become_page_ranges() {
    let segs = vec![seg(0x1010, 0x10, 0), seg(0x5000, 0, 0), seg(0x2000, 0x1001, 1)];
    let ranges = load_ranges(&segs).unwrap();
    assert_eq!(
        ranges,
        vec![LoadRange { start: 0x1000, end: 0x2000 }, LoadRange { start: 0x2000, end: 0x4000 }]
    );
    assert!(load_ranges(&vec![seg(u64::MAX, 1, 0)]).is_err());
    assert!(load_ranges(&vec![seg(u64::MAX - 10, 1, 0)]).is_err());
}

#[test]
fn ranges_are_sorted_and_joined() {
    let r = |start: u64, end: u64| LoadRange { start, end };
    let merged = merge_ranges(&vec![r(0x9000, 0xa000), r(0x1000, 0x3000), r(0x3000, 0x4000), r(0x2000, 0x3000)]);
    assert_eq!(merged, vec![r(0x1000, 0x4000), r(0x9000, 0xa000)]);
    assert_eq!(merge_ranges(&vec![]), vec![]);
}

#[test]
fn every_page_of_a_segment_is_allocated_once() {
    let segs = vec![seg(0x3ff0, 0x20, 0), seg(0x1000, 0x2000, 0)];
    assert_eq!(allocation_pages(&segs).unwrap(), vec![0x1000, 0x2000, 0x3000, 0x4000]);
    assert!(allocation_pages(&vec![seg(u64::MAX, 1, 0)]).is_err());
}

#[test]
fn segments_to_copy_and_to_sync() {
    let segs = vec![seg(0, 0, 0), seg(0, 5, 0), seg(0, 0, 7), seg(0, 1, 1)];
    assert_eq!(copied_segments(&segs), vec![2, 3]);
    assert_eq!(synced_segments(&segs), vec![1, 3]);
}

#[test]
fn addresses_around_the_kernel() {
    assert_eq!(cache_range(0x1041, 0x10), (0x1040, 0x1051));
    assert_eq!(cache_range(u64::MAX, 2).1, u64::MAX);
    assert_eq!(next_cache_line(0x1040), 0x1080);
    assert_eq!(next_cache_line(u64::MAX), u64::MAX);
    assert_eq!(kernel_top(&vec![seg(0x1000, 0x10, 0), seg(0x800, 0x900, 0)]), Ok(0x1100));
    assert_eq!(kernel_top(&vec![]), Ok(0));
    assert_eq!(kernel_top(&vec![seg(u64::MAX, 1, 0)]), Err(LoadError));
    assert_eq!(stack_top(0x4000), Ok(0x1_4000));
    assert_eq!(stack_top(u64::MAX), Err(LoadError));
}

#[test]
fn boot_arguments_tell_the_memory_extent() {
    let d = |phys_start: u64, page_count: u64| MemoryDescriptor { phys_start, page_count };
    let map = vec![d(0x8000, 2), d(0x1000, 1), d(0x4000, 0)];
    assert_eq!(memory_extent(&map), Ok((0x1000, 0x9000)));
    assert_eq!(memory_extent(&vec![]), Err(LoadError));
    assert_eq!(memory_extent(&vec![d(u64::MAX - 5, 1)]), Err(LoadError));
    assert_eq!(memory_extent(&vec![d(0, u64::MAX)]), Err(LoadError));
    let args = fill_boot_args(&map, 0x77, 0x88, 99).unwrap();
    assert_eq!((args.revision, args.version), (2, 2));
    assert_eq!((args.phys_base, args.mem_size, args.mem_size_actual), (0x1000, 0x9000, 0x9000));
    assert_eq!((args.top_of_kernel_data, args.device_tree_p, args.device_tree_length), (0x77, 0x88, 99));
    assert_eq!((args.virt_base, args.machine_type, args.boot_flags), (0, 0, 0));
    assert_eq!(args.command_line, [0u8; 1024]);
    assert!(fill_boot_args(&vec![], 0, 0, 0).is_err());
    assert_eq!(BootArgs::zeroed().mem_size, 0);
}

#[test]
fn the_kernel_reports_its_boot_arguments() {
    let mem = PhysMem { base: 0x1000, bytes: vec![0u8; 16] };
    let mut console = Console::new();
    assert_eq!(validate_boot_args(&mut console, &mem, None), Ok(()));
    assert_eq!(console.out, b"xnu-rs: boot_args=NULL\n");
    let mut args = BootArgs::zeroed();
    args.version = 7;
    args.device_tree_length = 8;
    let mut console = Console::new();
    assert_eq!(validate_boot_args(&mut console, &mem, Some(args)), Ok(()));
    assert_eq!(
        String::from_utf8(console.out).unwrap(),
        "xnu-rs: boot_args revision=0x0000000000000002 version=0x0000000000000007\n\
         xnu-rs: unsupported boot_args revision/version\n\
         xnu-rs: phys_base=0x0000000000000000 mem_size=0x0000000000000000 \
         top_of_kernel_data=0x0000000000000000\n\
         xnu-rs: device_tree_p=0x0000000000000000 length=0x0000000000000008\n\
         xnu-rs: no Apple device tree\n"
    );
    args.version = 2;
    args.device_tree_p = 0x1004;
    let mut console = Console::new();
    assert_eq!(validate_boot_args(&mut console, &mem, Some(args)), Ok(()));
    let log = String::from_utf8(console.out).unwrap();
    assert!(!log.contains("unsupported"));
    assert!(log.ends_with(
        "xnu-rs: adt root properties=0x0000000000000000 children=0x0000000000000000\n\
         xnu-rs: Apple device tree\nnode props=0x0000000000000000 children=0x0000000000000000\n"
    ));
    args.device_tree_p = 0x2000;
    assert_eq!(validate_boot_args(&mut Console::new(), &mem, Some(args)), Err(Stop::Fault(0x2000)));
}
