//! The kernel: memory, ports, threads, devices.

use xnu_rs::align::page_align;
use xnu_rs::bytes::{
    bytes_eq, find_nul, push_be32, push_be64, push_le16, push_le32, push_le64, push_zeros,
    read_be32, read_le16, read_le32, read_le64, write_at, zeroed,
};
use xnu_rs::kernel::arch::context::TrapFrame;
use xnu_rs::kernel::arch::gic::{
    ack, disable_irq, enable_irq, eoi, handle_irq, init_cpu_interface, init_distributor, send_ipi,
    RegWrite,
};
use xnu_rs::kernel::arch::mmu::{init_kernel_tables, KernelTables, MapFlags, ProcessPageTable};
use xnu_rs::kernel::arch::smp::{
    boot_secondaries, cpu_on, report_start, secondary_main, this_cpu, PsciCall,
};
use xnu_rs::kernel::arch::uart::Console;
use xnu_rs::kernel::drivers::blk::{report_probe, BlkReq, Probe, VirtioBlk};
use xnu_rs::kernel::drivers::transport::{
    init_queue, setup_queue, slot_base, Chain, RegOp, VirtQueue, VirtioMmio, VirtqUsed,
    VirtqUsedElem, MAGIC,
};
use xnu_rs::kernel::heap::{FreeList, KernelAllocator, HEAP_SIZE};
use xnu_rs::kernel::ipc::mach_msg::{recv, send};
use xnu_rs::kernel::ipc::mach_port::{NameEntry, Port, PortNamespace};
use xnu_rs::kernel::ipc::rights::RightKind;
use xnu_rs::kernel::mach::task;
use xnu_rs::kernel::mm::frame;
use xnu_rs::kernel::mm::frame::{alloc_frame, free_frame, FrameAllocator};
use xnu_rs::kernel::mm::mapping::VmMapping;
use xnu_rs::kernel::mm::vma::{Vma, VmaList};
use xnu_rs::kernel::sched::runqueue::{init_runqueue, schedule, yield_now, RunQueue, Scheduler, Switch};
use xnu_rs::kernel::sched::task::{current_pid, init_task_table, register_task, Task, TaskTable};
use xnu_rs::kernel::sched::thread::{KernelContext, Thread, ThreadState};
use xnu_rs::kernel::util::bitfield::{bitfield_extract, bitfield_insert};
use xnu_rs::kernel::util::error::KernelError;
use xnu_rs::mem::{PhysMem, Stop};
use xnu_rs::text::{str_eq, utf8_or_empty};

#[test]
fn numbers_and_bytes() {
    let mut v = Vec::new();
    push_le16(&mut v, 0x0102);
    push_le32(&mut v, 0x0304_0506);
    push_le64(&mut v, 0x0708_090a_0b0c_0d0e);
    push_be32(&mut v, 0x1112_1314);
    push_be64(&mut v, 0x2122_2324_2526_2728);
    push_zeros(&mut v, 2);
    assert_eq!(read_le16(&v, 0), 0x0102);
    assert_eq!(read_le32(&v, 2), 0x0304_0506);
    assert_eq!(read_le64(&v, 6), 0x0708_090a_0b0c_0d0e);
    assert_eq!(read_be32(&v, 14), 0x1112_1314);
    assert_eq!(v[18], 0x21);
    assert_eq!(v.len(), 28);
    write_at(&mut v, 26, &[9, 8]);
    assert_eq!(&v[26..], &[9, 8]);
    assert_eq!(zeroed(3), vec![0, 0, 0]);
    assert!(bytes_eq(b"ab", b"ab") && !bytes_eq(b"ab", b"ac") && !bytes_eq(b"a", b"ab"));
    assert_eq!((find_nul(b"ab\0c"), find_nul(b"abc")), (2, 3));
    assert_eq!((page_align(1), page_align(0x1000), page_align(u64::MAX)), (Some(0x1000), Some(0x1000), None));
}

#[test]
fn texts_and_bytes() {
    assert_eq!(utf8_or_empty(b"caf\xc3\xa9"), "caf\u{e9}");
    assert_eq!(utf8_or_empty(b"\xff"), "");
    assert!(str_eq("a", "a") && !str_eq("a", "b"));
}

#[test]
fn bit_fields() {
    assert_eq!(bitfield_extract(0xabcd, 11, 4), 0xbc);
    assert_eq!(bitfield_insert(0xffff, 11, 4, 0x12), 0xf12f);
    assert_eq!(bitfield_extract(bitfield_insert(u64::MAX, 62, 1, 5), 62, 1), 5);
    assert_eq!(bitfield_insert(0, 3, 0, 0xff), 0xf);
}

#[test]
fn error_numbers() {
    let all = [
        (KernelError::PermissionDenied, -1),
        (KernelError::NotFound, -2),
        (KernelError::Io, -5),
        (KernelError::BadFd, -9),
        (KernelError::OutOfMemory, -12),
        (KernelError::Fault, -14),
        (KernelError::InvalidAddress, -22),
        (KernelError::Again, -35),
        (KernelError::NoSys, -78),
    ];
    for (e, n) in all {
        assert_eq!(i64::from(e), n);
    }
}

#[test]
fn heap_blocks_come_from_the_front() {
    let mut list = FreeList::new();
    assert_eq!(list.allocate(8, 8), None);
    list.init(0x1000);
    assert_eq!(list.allocate(8, 0x10), Some(0x1000));
    assert_eq!(list.allocate(0x100, 0x10), Some(0x1100));
    // The gap before the aligned block is used next.
    assert_eq!(list.allocate(8, 0xf0), Some(0x1010));
    assert_eq!(list.allocate(8, HEAP_SIZE), None);
    // A span without neighbours goes behind the regions that are there.
    list.dealloc(0x1010, 0xf0);
    assert_eq!(list.allocate(8, 0xf0), Some(0x1110));
    assert_eq!(list.allocate(8, HEAP_SIZE - 0x200), Some(0x1200));
    assert_eq!(list.allocate(8, 0xf0), Some(0x1010));
    assert_eq!(list.allocate(8, 1), None);
}

#[test]
fn heap_spans_join_again() {
    let mut list = FreeList::new();
    list.init(0x1000);
    let a = list.allocate(16, 0x100).unwrap();
    let b = list.allocate(16, 0x100).unwrap();
    assert_eq!((a, b), (0x1000, 0x1100));
    list.dealloc(b, 0x100);
    list.dealloc(a, 0x100);
    assert_eq!(list.allocate(16, HEAP_SIZE), Some(0x1000));
    assert_eq!(list.allocate(16, 1), None);
}

#[test]
fn a_span_joins_the_regions_on_both_sides() {
    for order in [[0x3000, 0x1000], [0x1000, 0x3000]] {
        let mut list = FreeList::new();
        list.dealloc(order[0], 0x1000);
        list.dealloc(order[1], 0x1000);
        list.dealloc(0x2000, 0x1000);
        assert_eq!(list.allocate(16, 0x3000), Some(0x1000));
        assert_eq!(list.allocate(1, 1), None);
    }
}

#[test]
fn empty_blocks_and_high_regions() {
    let mut list = FreeList::new();
    list.dealloc(usize::MAX - 0x1fff, 0x1000);
    assert_eq!(list.allocate(16, 0x1001), None);
    assert_eq!(list.allocate(16, 0), Some(usize::MAX - 0x1fff));
    assert_eq!(list.allocate(16, 0x1000), Some(usize::MAX - 0x1fff));
    assert_eq!(list.allocate(1, 0), None);
    // An empty block in the middle cuts the region in two.
    list.dealloc(0x1010, 0x100);
    assert_eq!(list.allocate(0x20, 0), Some(0x1020));
    assert_eq!(list.allocate(1, 0x100), None);
    assert_eq!(list.allocate(1, 0xf0), Some(0x1020));
    assert_eq!(list.allocate(1, 0x10), Some(0x1010));
}

#[test]
fn heap_blocks_do_not_overlap() {
    let mut list = FreeList::new();
    list.init(0x1000);
    let mut blocks: Vec<(usize, usize)> = Vec::new();
    for i in 1..60usize {
        let size = 24 * i;
        blocks.push((list.allocate(1 << (i % 7), size).unwrap(), size));
        if i % 3 == 0 {
            let (addr, size) = blocks.remove(i / 3);
            list.dealloc(addr, size);
        }
    }
    for a in &blocks {
        for b in &blocks {
            assert!(a == b || a.0 + a.1 <= b.0 || b.0 + b.1 <= a.0);
        }
    }
    for (addr, size) in blocks {
        list.dealloc(addr, size);
    }
    assert_eq!(list.allocate(16, HEAP_SIZE), Some(0x1000));
}

#[test]
fn the_kernel_allocator_sets_itself_up() {
    let mut a = KernelAllocator::new();
    assert_eq!(a.allocate(0x2000, 8, 16), Some(0x2000));
    assert_eq!(a.allocate(0x9000, 8, 16), Some(0x2010));
    a.dealloc(0x2010, 16);
    assert_eq!(a.allocate(0x2000, 8, 16), Some(0x2010));
}

#[test]
fn frames_of_the_kernel_are_reserved() {
    let mut a = FrameAllocator::new();
    assert_eq!(alloc_frame(&mut a), None);
    frame::init(&mut a, 0x4000_0000, 0x6000, 0x4000_0800, 0x4000_1001);
    // Frames 0 and 1 hold the kernel.
    assert_eq!(alloc_frame(&mut a), Some(0x4000_2000));
    assert_eq!(alloc_frame(&mut a), Some(0x4000_3000));
    free_frame(&mut a, 0x4000_2abc);
    assert_eq!(alloc_frame(&mut a), Some(0x4000_2000));
    assert_eq!(alloc_frame(&mut a), Some(0x4000_4000));
    assert_eq!(alloc_frame(&mut a), Some(0x4000_5000));
    assert_eq!(alloc_frame(&mut a), None);
    free_frame(&mut a, 0x1000);
    free_frame(&mut a, 0x4000_6000);
    assert_eq!(alloc_frame(&mut a), None);
}

#[test]
fn frames_come_out_once_and_in_order() {
    let mut a = FrameAllocator::new();
    frame::init(&mut a, 0x4000_0000, 100 * 0x1000, 0, 0);
    let mut last = 0;
    for i in 0..100 {
        let pa = alloc_frame(&mut a).unwrap();
        assert_eq!(pa, 0x4000_0000 + i * 0x1000);
        assert!(pa > last);
        last = pa;
    }
    assert_eq!(alloc_frame(&mut a), None);
    assert_eq!(alloc_frame(&mut a), None);
}

fn area(start: u64, end: u64, prot: u32) -> Vma {
    Vma { start, end, prot }
}

#[test]
fn areas_are_found_by_address() {
    let mut list = VmaList::new();
    list.insert(area(0x3000, 0x4000, 1));
    list.insert(area(0x1000, 0x2000, 3));
    assert_eq!(list.find(0x1000), Some(&area(0x1000, 0x2000, 3)));
    assert_eq!(list.find(0x1fff), Some(&area(0x1000, 0x2000, 3)));
    assert_eq!(list.find(0x2000), None);
    assert_eq!(list.find(0x3800), Some(&area(0x3000, 0x4000, 1)));
    assert_eq!(VmaList::default().find(0), None);
}

#[test]
fn removed_ranges_are_clear() {
    let mut list = VmaList::new();
    list.insert(area(0x1000, 0x2000, 1));
    list.insert(area(0x2000, 0x5000, 2));
    list.insert(area(0x6000, 0x7000, 4));
    list.remove_range(0x1800, 0x3000);
    assert_eq!(list.find(0x1900), None);
    assert_eq!(list.find(0x2fff), None);
    assert_eq!(list.find(0x6000), Some(&area(0x6000, 0x7000, 4)));
}

/// Reads a table entry.
fn entry(mem: &PhysMem, table: u64, i: u64) -> u64 {
    mem.load64(table + 8 * i).unwrap()
}

/// Follows the tables for an address.
fn walk(mem: &PhysMem, root: u64, va: u64) -> Option<u64> {
    let mut table = root;
    for shift in [30, 21, 12] {
        let e = entry(mem, table, (va >> shift) & 511);
        if e & 1 == 0 {
            return None;
        }
        table = e & 0xffff_ffff_f000;
    }
    Some(table + va % 0x1000)
}

#[test]
fn mapped_pages_translate() {
    let mut mem = PhysMem { base: 0x4000_0000, bytes: vec![0xaa; 0x8000] };
    let mut frames = FrameAllocator::new();
    frame::init(&mut frames, 0x4000_0000, 0x8000, 0, 0);
    let table = ProcessPageTable::new(&mut mem, &mut frames, 7).unwrap().unwrap();
    assert_eq!(table.root_pa, 0x4000_0000);
    assert_eq!(walk(&mem, table.root_pa, 0x1000), None);
    let flags = MapFlags { read: true, write: false, execute: true, user: true };
    assert_eq!(table.map(&mut mem, &mut frames, 0x40_0000, 0x5000_0000, 0x1800, flags), Ok(true));
    assert_eq!(walk(&mem, table.root_pa, 0x40_0123), Some(0x5000_0123));
    assert_eq!(walk(&mem, table.root_pa, 0x40_1fff), Some(0x5000_1fff));
    assert_eq!(walk(&mem, table.root_pa, 0x40_2000), None);
    // Read only, for user space, not executed by the kernel.
    let l3 = entry(&mem, entry(&mem, table.root_pa, 0) & !0xfff, 2) & !0xfff;
    assert_eq!(entry(&mem, l3, 0), 0x5000_0000 | 0x20_0000_0000_0000 | 0x400 | 0x300 | 0xc0 | 3);
    assert_eq!(table.activate(), 0x4000_0000 | (7 << 48));
    let mapping = VmMapping { va: 0x8000, pa: 0x9000, size: 0x1000, flags };
    assert_eq!(table.map(&mut mem, &mut frames, mapping.va, mapping.pa, mapping.size, mapping.flags), Ok(true));
    assert_eq!(walk(&mem, table.root_pa, 0x40_0123), Some(0x5000_0123));
    assert_eq!(walk(&mem, table.root_pa, 0x8001), Some(0x9001));
}

#[test]
fn mapping_fails_without_frames() {
    let mut mem = PhysMem { base: 0x4000_0000, bytes: vec![0; 0x2000] };
    let mut frames = FrameAllocator::new();
    frame::init(&mut frames, 0x4000_0000, 0x2000, 0, 0);
    let table = ProcessPageTable::new(&mut mem, &mut frames, 0).unwrap().unwrap();
    let flags = MapFlags { read: true, write: true, execute: false, user: false };
    assert_eq!(table.map(&mut mem, &mut frames, 0x1000, 0x1000, 0x1000, flags), Ok(false));
    assert!(matches!(ProcessPageTable::new(&mut mem, &mut frames, 0), Ok(None)));
    let far = ProcessPageTable { root_pa: 0x9000_0000, asid: 0 };
    assert_eq!(far.map(&mut mem, &mut frames, 0, 0, 1, flags), Err(Stop::Fault(0x9000_0000)));
}

#[test]
fn the_kernel_map_is_the_identity() {
    let mut t = KernelTables::new();
    init_kernel_tables(&mut t, 0x1000, 0x2000, 0x3000);
    assert_eq!((t.l1[0], t.l1[1], t.l1[2], t.l1[3]), (0x1003, 0x2003, 0x3003, 0));
    for i in 0..512u64 {
        assert_eq!(t.l2_0gb[i as usize] & 0xffff_ffe0_0000, i << 21);
        assert_eq!(t.l2_1gb[i as usize] & 0xffff_ffe0_0000, 0x4000_0000 + (i << 21));
        assert_eq!(t.l2_2gb[i as usize] & 0xffff_ffe0_0000, 0x8000_0000 + (i << 21));
        // Memory is normal, what is below it is made of devices.
        assert_eq!(t.l2_0gb[i as usize] & 0xfff, 0x705);
        assert_eq!(t.l2_1gb[i as usize] & 0xfff, 0x701);
    }
}

#[test]
fn port_names_and_rights() {
    let mut ns = PortNamespace::new();
    let (receive, right) = ns.new_port_pair();
    let a = ns.lookup(receive).unwrap();
    let b = ns.lookup(right).unwrap();
    assert_eq!(a.port, b.port);
    assert_ne!(a.kind, b.kind);
    assert_eq!(receive, 5);
    assert_eq!(right, 6);
    let port = ns.open_port();
    ns.insert_at(50, port, RightKind::SendOnce);
    assert_eq!(ns.lookup(50), Some(NameEntry { kind: RightKind::SendOnce, port }));
    assert!(ns.deallocate(50));
    assert!(!ns.deallocate(50));
    assert_eq!(ns.lookup(50), None);
    assert_eq!(ns.insert(port, RightKind::Send), 7);
    assert!(ns.lookup(receive).is_some());
}

#[test]
fn new_port_names_are_fresh() {
    let mut ns = PortNamespace::new();
    let port = ns.open_port();
    ns.insert_at(5, port, RightKind::Receive);
    ns.insert_at(7, port, RightKind::Send);
    assert_eq!(ns.insert(port, RightKind::Send), 6);
    assert_eq!(ns.insert(port, RightKind::Send), 8);
    assert_eq!(ns.lookup(5), Some(NameEntry { kind: RightKind::Receive, port }));
    // The name of the right to send to the bootstrap port is passed over.
    let mut ns = PortNamespace::new();
    task::init(&mut ns);
    for _ in 5..104u32 {
        ns.insert(port, RightKind::Send);
    }
    let kept = ns.lookup(104);
    assert_eq!(ns.insert(port, RightKind::Receive), 105);
    assert_eq!(ns.lookup(104), kept);
}

#[test]
fn port_queues_keep_their_order() {
    let mut ns = PortNamespace::new();
    let port = ns.open_port();
    assert_eq!(ns.first_len(port), None);
    ns.enqueue(port, vec![1, 2]);
    ns.enqueue(port, vec![3]);
    assert_eq!(ns.first_len(port), Some(2));
    assert_eq!(ns.dequeue(port), vec![1, 2]);
    assert_eq!(ns.dequeue(port), vec![3]);
    let mut p = Port::new();
    assert_eq!(p.pop(), None);
    p.push(vec![9]);
    assert_eq!((p.first_len(), p.pop(), p.first_len()), (Some(1), Some(vec![9]), None));
}

/// A message of `size` bytes to the port behind `name`.
fn message(name: u32, size: usize) -> PhysMem {
    let mut mem = PhysMem { base: 0x1000, bytes: (0..0x200).map(|i| i as u8).collect() };
    mem.store32(0x1008, name).unwrap();
    assert!(size <= 0x200);
    mem
}

#[test]
fn received_messages_are_those_sent() {
    let mut ns = PortNamespace::new();
    let port = ns.open_port();
    let receive = ns.insert(port, RightKind::Receive);
    let right = ns.insert(port, RightKind::Send);
    let mut mem = message(right, 40);
    assert_eq!(send(&mut ns, &mem, 0x1000, 40), Ok(0));
    let sent = mem.bytes[..40].to_vec();
    assert_eq!(recv(&mut ns, &mut mem, receive, 0x1100, 39), Ok(0x1000_4004));
    assert_eq!(recv(&mut ns, &mut mem, receive, 0x1100, 64), Ok(0));
    assert_eq!(&mem.bytes[0x100..0x128], &sent[..]);
    assert_eq!(mem.bytes[0x128], 0x28);
    assert_eq!(recv(&mut ns, &mut mem, receive, 0x1100, 64), Ok(0x1000_4003));
    assert_eq!(send(&mut ns, &mem, 0x9000, 40), Err(Stop::Fault(0x9000)));
}

#[test]
fn a_send_once_right_is_used_up() {
    let mut ns = PortNamespace::new();
    let port = ns.open_port();
    let once = ns.insert(port, RightKind::SendOnce);
    let mem = message(once, 24);
    assert_eq!(send(&mut ns, &mem, 0x1000, 24), Ok(0));
    assert_eq!(ns.lookup(once), None);
    assert_eq!(send(&mut ns, &mem, 0x1000, 24), Ok(0x1000_0003));
    assert_eq!(ns.dequeue(port), mem.bytes[..24].to_vec());
}

#[test]
fn well_known_ports() {
    let mut ns = PortNamespace::new();
    task::init(&mut ns);
    for name in 1..5 {
        assert!(ns.lookup(name).is_some());
    }
    let boot = ns.lookup(4).unwrap();
    let sender = ns.lookup(104).unwrap();
    assert_eq!(boot.port, sender.port);
    assert_eq!(sender.kind, RightKind::Send);
}

fn threads(n: u32) -> Scheduler {
    let mut list = Vec::new();
    for tid in 0..n {
        list.push(Thread::new_user(tid + 10, 0x1000, 0x2000, 0x3000));
    }
    Scheduler { threads: list, runqueue: None, current: None }
}

#[test]
fn new_threads() {
    let t = Thread::new_user(3, 0x1000, 0x2000, 0x3000);
    assert_eq!((t.tid, t.trap_frame.pc, t.trap_frame.sp), (3, 0x1000, 0x2000));
    assert_eq!(t.state, ThreadState::Ready);
    assert_eq!(t.kernel_ctx, KernelContext::zeroed());
    let idle = Thread::new_idle(0, 0x8000, 0x4444);
    assert_eq!((idle.kernel_ctx.lr, idle.kernel_ctx.sp), (0x4444, 0x8000));
    let frame = TrapFrame::new_user(1, 2);
    assert_eq!((frame.pc, frame.sp, frame.pstate, frame.x[30]), (1, 2, 0, 0));
}

#[test]
fn threads_take_turns() {
    let mut s = threads(3);
    assert_eq!(schedule(&mut s), None);
    init_runqueue(&mut s);
    for t in 0..3 {
        s.runqueue.as_mut().unwrap().push(t);
    }
    assert_eq!(schedule(&mut s), Some(Switch { from: None, to: 0 }));
    assert_eq!(s.threads[0].state, ThreadState::Running);
    assert_eq!(current_pid(&s), 10);
    assert_eq!(yield_now(&mut s), Some(Switch { from: Some(0), to: 1 }));
    assert_eq!(s.threads[0].state, ThreadState::Ready);
    assert_eq!(yield_now(&mut s), Some(Switch { from: Some(1), to: 2 }));
    assert_eq!(yield_now(&mut s), Some(Switch { from: Some(2), to: 0 }));
    // A dead thread gets no more turns.
    s.threads[0].state = ThreadState::Dead;
    assert_eq!(schedule(&mut s), Some(Switch { from: Some(0), to: 1 }));
    assert_eq!(schedule(&mut s), Some(Switch { from: Some(1), to: 2 }));
    assert_eq!(schedule(&mut s), Some(Switch { from: Some(2), to: 1 }));
    assert_eq!(s.threads[0].state, ThreadState::Dead);
}

#[test]
fn run_queues_are_in_order() {
    let mut q = RunQueue::new();
    assert_eq!(q.pop_next(), None);
    q.push(4);
    q.push(2);
    assert_eq!((q.pop_next(), q.pop_next(), q.pop_next()), (Some(4), Some(2), None));
    assert_eq!(RunQueue::default().pop_next(), None);
    assert_eq!(current_pid(&threads(1)), 0);
}

#[test]
fn tasks_get_numbers() {
    let mut next = 1;
    let a = Task::new(&mut next);
    let b = Task::new(&mut next);
    assert_eq!((a.pid, b.pid, next), (1, 2, 3));
    let mut last = u32::MAX;
    assert_eq!((Task::new(&mut last).pid, last), (u32::MAX, 0));
    let mut table = TaskTable::new();
    register_task(&mut table, a);
    init_task_table(&mut table);
    register_task(&mut table, b);
}

#[test]
fn a_request_reaches_the_device() {
    let mut q = VirtQueue::new(0x5000_0000);
    let before = q.desc[0].next;
    let chain = q.submit(0x100, 0x200, 0x300, true);
    assert_eq!(chain, Chain { first: 0, last: 2 });
    assert_eq!((q.desc[0].addr, q.desc[0].len, q.desc[0].flags, q.desc[0].next), (0x100, 16, 1, 1));
    assert_eq!((q.desc[1].addr, q.desc[1].len, q.desc[1].flags, q.desc[1].next), (0x200, 512, 3, 2));
    assert_eq!((q.desc[2].addr, q.desc[2].len, q.desc[2].flags), (0x300, 1, 2));
    assert_eq!((q.avail.idx, q.avail.ring[0], q.free_head), (1, 0, 3));
    assert_eq!((q.avail.flags, q.avail.used_event), (0, 0));
    // Giving the descriptors back makes them the first to be used again.
    q.release(chain);
    assert_eq!((q.free_head, q.desc[0].next), (0, before));
    let again = q.submit(1, 2, 3, false);
    assert_eq!(again, chain);
    assert_eq!(q.desc[1].flags, 1);
    assert_eq!((q.avail.idx, q.avail.ring[1]), (2, 0));
    let mut used = VirtqUsed {
        flags: 0,
        idx: 0,
        ring: [VirtqUsedElem { id: 0, len: 0 }; 16],
        avail_event: 0,
    };
    assert_eq!(q.poll_used(&used), None);
    used.idx = 1;
    used.ring[0] = VirtqUsedElem { id: 9, len: 513 };
    assert_eq!(q.poll_used(&used), Some(9));
    assert_eq!(q.poll_used(&used), None);
}

#[test]
fn blocks_are_read_and_written() {
    let mmio = VirtioMmio { base: slot_base(1), queue: VirtQueue::new(0x5000_0000) };
    assert_eq!(mmio.base, 0x0a00_0200);
    let mut disk = VirtioBlk { mmio };
    let r = disk.read_block(77, 0x100, 0x200, 0x300);
    assert_eq!(r.header, BlkReq { type_: 0, reserved: 0, sector: 77 });
    assert_eq!(r.status, 0xff);
    assert_eq!(disk.mmio.queue.desc[1].flags, 3);
    assert!(disk.finish(r, 0));
    let w = disk.write_block(78, 0x100, 0x200, 0x300);
    assert_eq!(w.header, BlkReq { type_: 1, reserved: 0, sector: 78 });
    assert_eq!(w.chain, r.chain);
    assert_eq!(disk.mmio.queue.desc[1].flags, 1);
    assert!(!disk.finish(w, 2));
}

#[test]
fn queues_are_set_up() {
    let ops = setup_queue();
    assert_eq!(ops.len(), 6);
    assert_eq!(ops[0], RegOp::Write { offset: 0x70, val: 0 });
    assert_eq!(ops[2], RegOp::Read { offset: 0x10 });
    let (ops, queue) = init_queue(64, 0x5000_3000).unwrap();
    assert_eq!(ops[0], RegOp::Write { offset: 0x38, val: 16 });
    assert_eq!(ops[2], RegOp::Write { offset: 0x40, val: 0x5_0003 });
    assert_eq!(ops[3], RegOp::Write { offset: 0x70, val: 7 });
    assert_eq!(queue.base_pa, 0x5000_3000);
    assert_eq!((queue.avail.flags, queue.avail.used_event), (0, 0));
    assert_eq!(queue.avail.ring, [0u16; 16]);
    assert!(init_queue(15, 0x5000_3000).is_none());
}

#[test]
fn the_disk_is_searched_slot_by_slot() {
    let p = Probe::start();
    let p = p.on_magic(0);
    assert_eq!(p, Probe::Magic(1));
    let p = p.on_magic(MAGIC);
    assert_eq!(p, Probe::Kind(1));
    assert_eq!(p.on_kind(3, 2), Probe::Magic(2));
    assert_eq!(p.on_kind(1, 1), Probe::Magic(2));
    let p = p.on_kind(1, 2);
    assert_eq!(p, Probe::Queue(1));
    assert_eq!(p.on_queue(false), Probe::Magic(2));
    assert_eq!(p.on_queue(true), Probe::Found(1));
    assert_eq!(Probe::Magic(31).on_magic(0), Probe::NotFound);
    let mut c = Console::new();
    report_probe(&mut c, Some(1));
    report_probe(&mut c, None);
    assert!(!c.out.is_empty());
}

#[test]
fn interrupt_controller_registers() {
    let writes = init_distributor(1);
    // Two words of 32, twice; sixteen of four, twice; then it is enabled.
    assert_eq!(writes.len(), 2 + 2 + 16 + 16 + 1);
    assert_eq!(writes[0], RegWrite { offset: 0x80, val: u32::MAX });
    assert_eq!(writes[4], RegWrite { offset: 0x400, val: 0xa0a0_a0a0 });
    assert_eq!(writes[36], RegWrite { offset: 0, val: 1 });
    assert!(!init_cpu_interface().is_empty());
    assert_eq!(enable_irq(33), RegWrite { offset: 0x104, val: 2 });
    assert_eq!(disable_irq(64), RegWrite { offset: 0x188, val: 1 });
    assert_eq!(ack(0xffff_f821), 0x21);
    assert_eq!(eoi(33), RegWrite { offset: 0x10, val: 33 });
    assert_eq!(send_ipi(0b110).offset, 0xf00);
    assert_eq!(send_ipi(0b110).val & 0x00ff_0000, 0b110 << 16);
    let mut c = Console::new();
    assert_eq!(handle_irq(&mut c, 1023), None);
    assert_eq!(handle_irq(&mut c, 0), Some(RegWrite { offset: 0x10, val: 0 }));
    assert_eq!(c.out, b"");
    assert_eq!(handle_irq(&mut c, 5), Some(RegWrite { offset: 0x10, val: 5 }));
    assert_eq!(c.out, b"xnu-rs: unhandled IRQ 0x0000000000000005\n");
}

#[test]
fn other_processors_are_started() {
    assert_eq!(boot_secondaries(4), vec![1, 2, 3]);
    assert_eq!(boot_secondaries(9), vec![1, 2, 3]);
    assert_eq!(boot_secondaries(1), vec![]);
    assert_eq!(boot_secondaries(0), vec![]);
    assert_eq!(
        cpu_on(2, 0x1000, 0x2_0000),
        PsciCall { func: 0x8400_0003, arg1: 2, arg2: 0x1000, arg3: 0x3_0000 }
    );
    assert_eq!(this_cpu(0x8000_0003), 3);
    let mut c = Console::new();
    report_start(&mut c, 1, 0);
    report_start(&mut c, 2, 5);
    secondary_main(&mut c, 3);
    assert_eq!(
        String::from_utf8(c.out).unwrap(),
        "xnu-rs: cpu0x0000000000000001 online\n\
         xnu-rs: cpu0x0000000000000002 psci_call failed ret=0x0000000000000005\n\
         xnu-rs: cpu0x0000000000000003 secondary_main\n"
    );
}
