//! System calls.

use xnu_rs::kernel::arch::context::TrapFrame;
use xnu_rs::kernel::arch::exception::{exception_el1_sync, exception_lower_el_sync};
use xnu_rs::kernel::arch::machine::{Flow, LookupFor, Machine, ReadFor, CARRY};
use xnu_rs::kernel::arch::syscall::dispatch::{dispatch, resume_lookup, resume_read};
use xnu_rs::kernel::arch::syscall::files::{get_user_string, is_dev_fd, make_random, read_from_fd, FdRead};
use xnu_rs::kernel::arch::syscall::info::{find_sysctl, Sysctl};
use xnu_rs::kernel::arch::uart::{
    write_bytes, write_hex_u64, write_hex_usize, write_line, write_str_hex_nl, write_uuid, Console,
};
use xnu_rs::kernel::ipc::mach_port::PortNamespace;
use xnu_rs::kernel::mach::task;
use xnu_rs::kernel::syscall::context::{SyscallContext, System};
use xnu_rs::kernel::syscall::dispatch as system_calls;
use xnu_rs::kernel::syscall::dispatch::Route;
use xnu_rs::mem::{PhysMem, Stop};

const RAM: u64 = 0x6000_0000;

fn machine() -> Machine {
    Machine::new(PhysMem { base: RAM, bytes: vec![0xee; 0x1_0000] })
}

/// Makes a call with the given number and arguments.
fn call(m: &mut Machine, nr: u64, args: &[u64]) -> (TrapFrame, Flow) {
    let mut frame = TrapFrame::new_user(0x1000, 0x2000);
    frame.x[16] = nr;
    for i in 0..args.len() {
        frame.x[i] = args[i];
    }
    let flow = dispatch(m, &mut frame, 12345);
    (frame, flow)
}

/// The result of a call that goes back to the program: value and error flag.
fn result(m: &mut Machine, nr: u64, args: &[u64]) -> (u64, bool) {
    let (frame, flow) = call(m, nr, args);
    assert!(matches!(flow, Flow::Resume));
    (frame.x[0], frame.pstate & CARRY != 0)
}

fn log(m: &Machine) -> String {
    String::from_utf8(m.console.out.clone()).unwrap()
}

#[test]
fn console_text() {
    let mut c = Console::new();
    write_hex_u64(&mut c, 0x1234_abcd);
    write_str_hex_nl(&mut c, " v=", u64::MAX);
    write_line(&mut c, &["a", "", "bc"]);
    write_bytes(&mut c, b"!");
    write_hex_usize(&mut c, 16);
    assert_eq!(
        String::from_utf8(c.out).unwrap(),
        "0x000000001234abcd v=0xffffffffffffffff\nabc!0x0000000000000010"
    );
    let mut c = Console::new();
    write_uuid(&mut c, &[0, 0x11, 0x22, 0x33, 0x44, 0x55, 0x66, 0x77, 0x88, 0x99, 0xaa, 0xbb, 0xcc, 0xdd, 0xee, 0xff]);
    assert_eq!(String::from_utf8(c.out).unwrap(), "00112233-4455-6677-8899-aabbccddeeff");
}

#[test]
fn memory_is_bounded() {
    let mut mem = PhysMem { base: 0x1000, bytes: vec![0; 16] };
    assert_eq!(mem.store64(0x1008, 0x0102_0304_0506_0708), Ok(()));
    assert_eq!(mem.load64(0x1008), Ok(0x0102_0304_0506_0708));
    assert_eq!(mem.load32(0x1008), Ok(0x0506_0708));
    assert_eq!(mem.load16(0x100e), Ok(0x0102));
    assert_eq!(mem.load8(0x100f), Ok(1));
    assert_eq!(mem.load8(0x1010), Err(Stop::Fault(0x1010)));
    assert_eq!(mem.load64(0x1009), Err(Stop::Fault(0x1009)));
    assert_eq!(mem.store32(0xfff, 1), Err(Stop::Fault(0xfff)));
    assert!(mem.covers(0x1000, 16));
    assert!(!mem.covers(0x1000, 17));
    assert!(!mem.covers(u64::MAX, 2));
    assert_eq!(mem.clear(0x100c, 4), Ok(()));
    assert_eq!(mem.load64(0x1008), Ok(0x0506_0708));
}

#[test]
fn files_open_read_and_close() {
    let mut m = machine();
    m.mem.store(RAM, b"/bin/ls\0").unwrap();
    let (mut frame, flow) = call(&mut m, 5, &[RAM]);
    let path = match flow {
        Flow::Lookup { path, lookup_for: LookupFor::Open } => path,
        _ => panic!("a lookup"),
    };
    assert_eq!(path, "/bin/ls");
    let flow = resume_lookup(&mut m, &mut frame, path, LookupFor::Open, Some((0x1000, 10)));
    assert!(matches!(flow, Flow::Resume));
    assert_eq!(frame.x[0], 0);
    // The first descriptor is the console, so open another file.
    let (mut frame, flow) = call(&mut m, 5, &[RAM]);
    assert!(matches!(flow, Flow::Lookup { .. }));
    resume_lookup(&mut m, &mut frame, String::from("/bin/ls"), LookupFor::Open, Some((0x2000, 10)));
    assert_eq!(frame.x[0], 1);
    let (mut frame, flow) = call(&mut m, 3, &[1, RAM + 0x100, 4]);
    let want = ReadFor::Read { fd: 1, buf: RAM + 0x100 };
    assert!(matches!(flow, Flow::Read { offset: 0x2000, len: 4, read_for } if read_for == want));
    resume_read(&mut m, &mut frame, want, Some(b"abcd"));
    assert_eq!(frame.x[0], 4);
    assert_eq!(&m.mem.bytes[0x100..0x104], b"abcd");
    // The position moved on; the read is cut at the end of the file.
    let (_, flow) = call(&mut m, 3, &[1, RAM + 0x100, 100]);
    assert!(matches!(flow, Flow::Read { offset: 0x2004, len: 6, .. }));
    let (mut frame, _) = call(&mut m, 3, &[1, RAM + 0x100, 100]);
    resume_read(&mut m, &mut frame, want, None);
    assert_eq!((frame.x[0], frame.pstate & CARRY != 0), (5, true));
    // Closing frees the descriptor, and the lowest free one is taken next.
    assert_eq!(result(&mut m, 6, &[0]), (0, false));
    assert_eq!(result(&mut m, 6, &[0]), (9, true));
    assert_eq!(read_from_fd(&m, 0, 1, 0), FdRead::Error(9));
    let (mut frame, _) = call(&mut m, 5, &[RAM]);
    resume_lookup(&mut m, &mut frame, String::from("x"), LookupFor::Open, Some((0, 0)));
    assert_eq!(frame.x[0], 0);
    let (mut frame, _) = call(&mut m, 5, &[RAM]);
    resume_lookup(&mut m, &mut frame, String::from("x"), LookupFor::Open, None);
    assert_eq!((frame.x[0], frame.pstate & CARRY != 0), (2, true));
}

/// Opens a file: its descriptor.
fn open_file(m: &mut Machine) -> u64 {
    let mut frame = TrapFrame::new_user(0, 0);
    let flow = resume_lookup(m, &mut frame, String::from("f"), LookupFor::Open, Some((8, 9)));
    assert!(matches!(flow, Flow::Resume));
    frame.x[0]
}

#[test]
fn files_never_get_the_descriptor_of_a_device() {
    let mut m = machine();
    for i in 0..100 {
        assert_eq!(open_file(&mut m), i);
    }
    assert_eq!(open_file(&mut m), 104);
    assert_eq!(open_file(&mut m), 105);
    assert!(m.files[100].is_none() && m.files[103].is_none());
    assert_eq!(result(&mut m, 6, &[99]), (0, false));
    assert_eq!(open_file(&mut m), 99);
    // The table grows behind its end.
    for i in 106..257 {
        assert_eq!(open_file(&mut m), i);
    }
    assert_eq!(m.files.len(), 257);
    // A short table is filled up to the first slot behind the devices.
    let mut m = machine();
    m.files.truncate(100);
    for _ in 0..100 {
        open_file(&mut m);
    }
    assert_eq!(open_file(&mut m), 104);
    assert_eq!(m.files.len(), 105);
    assert!(m.files[100].is_none() && m.files[104].is_some());
}

#[test]
fn paths_of_user_programs() {
    let mut m = machine();
    m.mem.store(RAM, b"/dev/zero\0").unwrap();
    assert_eq!(get_user_string(&m.mem, RAM), Ok(Some(String::from("/dev/zero"))));
    assert_eq!(get_user_string(&m.mem, 0), Ok(None));
    assert_eq!(get_user_string(&m.mem, RAM + 0x100), Ok(None));
    assert_eq!(get_user_string(&m.mem, RAM + 0x1_0000 - 1), Err(Stop::Fault(RAM + 0x1_0000)));
    m.mem.store(RAM + 0x20, &[0xe9, 0]).unwrap();
    assert_eq!(get_user_string(&m.mem, RAM + 0x20), Ok(Some(String::from("\u{e9}"))));
    assert_eq!(result(&mut m, 5, &[RAM]), (103, false));
    assert_eq!(result(&mut m, 5, &[0]), (22, true));
    assert!(matches!(call(&mut m, 5, &[RAM + 0x1_0000]).1, Flow::Stopped(Stop::Fault(_))));
}

#[test]
fn devices_read_and_write() {
    let mut m = machine();
    assert!(is_dev_fd(100) && is_dev_fd(103) && !is_dev_fd(99) && !is_dev_fd(104));
    assert_eq!(result(&mut m, 3, &[103, RAM, 4]), (4, false));
    assert_eq!(&m.mem.bytes[..5], &[0, 0, 0, 0, 0xee]);
    assert_eq!(result(&mut m, 3, &[102, RAM, 4]), (4, false));
    assert_eq!(m.mem.bytes[..4], make_random(12345, 4)[..]);
    assert_eq!(result(&mut m, 3, &[100, RAM, 4]), (0, false));
    assert_eq!(result(&mut m, 3, &[7, RAM, 4]), (9, true));
    assert_eq!(result(&mut m, 3, &[7, 0, 4]), (22, true));
    assert_eq!(result(&mut m, 3, &[500, RAM, 4]), (9, true));
    assert_eq!(result(&mut m, 6, &[100]), (0, false));
    let mut m = machine();
    m.mem.store(RAM, b"hello").unwrap();
    assert_eq!(result(&mut m, 4, &[1, RAM, 5]), (5, false));
    assert_eq!(result(&mut m, 4, &[9, RAM, 5]), (9, true));
    assert_eq!(result(&mut m, 4, &[1, RAM, 65537]), (9, true));
    assert_eq!(log(&m), "hello");
}

#[test]
fn random_bytes_by_shifts() {
    let bytes = make_random(1, 2);
    let mut s: u64 = 1;
    for b in bytes {
        s ^= s << 13;
        s ^= s >> 7;
        s ^= s << 17;
        assert_eq!(b, s as u8);
    }
}

#[test]
fn gathered_writes() {
    let mut m = machine();
    m.mem.store(RAM, b"abcdef").unwrap();
    for (i, v) in [RAM, 2, 0, 9, RAM + 3, 3].iter().enumerate() {
        m.mem.store64(RAM + 0x100 + 8 * i as u64, *v).unwrap();
    }
    assert_eq!(result(&mut m, 121, &[1, RAM + 0x100, 3]), (5, false));
    assert_eq!(log(&m), "abdef");
    assert_eq!(result(&mut m, 121, &[5, RAM + 0x100, 3]), (0, false));
    assert!(matches!(call(&mut m, 121, &[1, 8, 1]).1, Flow::Stopped(Stop::Fault(8))));
}

#[test]
fn positions_in_files() {
    let mut m = machine();
    let mut frame = TrapFrame::new_user(0, 0);
    resume_lookup(&mut m, &mut frame, String::from("f"), LookupFor::Open, Some((0x100, 50)));
    assert_eq!(result(&mut m, 199, &[0, 20, 0]), (20, false));
    assert_eq!(result(&mut m, 199, &[0, 5, 1]), (25, false));
    assert_eq!(result(&mut m, 199, &[0, (-10i64) as u64, 2]), (40, false));
    assert_eq!(result(&mut m, 199, &[0, (-60i64) as u64, 2]), (22, true));
    assert_eq!(result(&mut m, 199, &[0, 0, 7]), (22, true));
    assert_eq!(result(&mut m, 199, &[9, 0, 0]), (9, true));
    assert!(matches!(
        call(&mut m, 199, &[0, i64::MAX as u64, 1]).1,
        Flow::Stopped(Stop::Overflow)
    ));
    let (_, flow) = call(&mut m, 153, &[0, RAM, 8, 45]);
    assert!(matches!(
        flow,
        Flow::Read { offset: 0x12d, len: 5, read_for: ReadFor::Pread { buf: RAM } }
    ));
    assert_eq!(result(&mut m, 153, &[0, RAM, 8, 50]), (0, false));
    assert_eq!(result(&mut m, 153, &[0, 0, 8, 50]), (22, true));
    assert_eq!(result(&mut m, 153, &[3, RAM, 8, 50]), (9, true));
}

#[test]
fn attributes_of_files() {
    let mut m = machine();
    let mut frame = TrapFrame::new_user(0, 0);
    resume_lookup(&mut m, &mut frame, String::from("f"), LookupFor::Open, Some((0x100, 50)));
    assert_eq!(result(&mut m, 339, &[0, RAM]), (0, false));
    assert_eq!(m.mem.load16(RAM + 4), Ok(0x81ed));
    assert_eq!(m.mem.load64(RAM + 96), Ok(50));
    assert_eq!(m.mem.load32(RAM + 112), Ok(4096));
    assert_eq!(m.mem.load8(RAM + 144), Ok(0xee));
    assert_eq!(result(&mut m, 339, &[100, RAM]), (0, false));
    assert_eq!(m.mem.load16(RAM + 4), Ok(0x21b6));
    assert_eq!(result(&mut m, 339, &[77, RAM]).1, true);
    m.mem.store(RAM + 0x200, b"/etc/x\0").unwrap();
    let (mut frame, flow) = call(&mut m, 338, &[RAM + 0x200, RAM]);
    let (path, lookup_for) = match flow {
        Flow::Lookup { path, lookup_for } => (path, lookup_for),
        _ => panic!("a lookup"),
    };
    assert_eq!((path.as_str(), lookup_for), ("/etc/x", LookupFor::Stat { st: RAM }));
    resume_lookup(&mut m, &mut frame, path, lookup_for, Some((0, 77)));
    assert_eq!((frame.x[0], m.mem.load64(RAM + 96)), (0, Ok(77)));
}

#[test]
fn mappings_follow_each_other() {
    let mut m = machine();
    assert_eq!(result(&mut m, 197, &[0, 0x800, 3, 0x1000, 0, 0]), (RAM, false));
    assert_eq!(result(&mut m, 197, &[0, 0x1001, 3, 0x1000, 0, 0]), (RAM + 0x1000, false));
    assert_eq!(result(&mut m, 197, &[0, 1, 3, 0x1000, 0, 0]), (RAM + 0x3000, false));
    assert_eq!(m.mem.bytes[..0x4000], vec![0u8; 0x4000][..]);
    assert_eq!(m.mem.bytes[0x4000], 0xee);
    assert_eq!(result(&mut m, 197, &[0, 0x6000_0000, 3, 0x1000, 0, 0]), (12, true));
    assert_eq!(result(&mut m, 197, &[0x1000, 0x1000, 3, 0x1010, 0, 0]), (12, true));
    assert_eq!(result(&mut m, 197, &[RAM, 0x1000, 3, 0x1010, 0, 0]), (RAM, false));
    assert!(matches!(call(&mut m, 197, &[0, u64::MAX, 3, 0x1000]).1, Flow::Stopped(Stop::Overflow)));
    // A mapping of a file: its bytes, and zeros behind them.
    let mut frame = TrapFrame::new_user(0, 0);
    resume_lookup(&mut m, &mut frame, String::from("f"), LookupFor::Open, Some((0x100, 50)));
    let (mut frame, flow) = call(&mut m, 197, &[0, 0x10, 3, 0, 0, 46]);
    let want = ReadFor::Mmap { dest: RAM + 0x4000, len: 0x10 };
    assert!(matches!(flow, Flow::Read { offset: 0x12e, len: 4, read_for } if read_for == want));
    resume_read(&mut m, &mut frame, want, Some(b"wxyz"));
    assert_eq!(frame.x[0], RAM + 0x4000);
    assert_eq!(&m.mem.bytes[0x4000..0x4006], b"wxyz\0\0");
    let (mut frame, _) = call(&mut m, 197, &[0, 0x10, 3, 0, 0, 46]);
    resume_read(&mut m, &mut frame, want, None);
    assert_eq!((frame.x[0], frame.pstate & CARRY != 0), (5, true));
    assert_eq!(result(&mut m, 197, &[0, 0x10, 3, 0, 200, 0]), (9, true));
}

#[test]
fn information_calls() {
    let mut m = machine();
    assert_eq!(result(&mut m, 116, &[RAM]), (0, false));
    assert_eq!(&m.mem.bytes[..13], &[0, 0, 0, 0, 0, 0, 0, 0, 0, 0, 0, 0, 0xee]);
    assert_eq!(result(&mut m, 194, &[8, RAM]), (0, false));
    assert_eq!(m.mem.load64(RAM + 8), Ok(u64::MAX));
    assert_eq!(result(&mut m, 54, &[1, 0x4008_7468, RAM]), (0, false));
    assert_eq!((m.mem.load16(RAM), m.mem.load16(RAM + 2)), (Ok(24), Ok(80)));
    assert_eq!(result(&mut m, 520, &[RAM, 3]), (0, false));
    assert_eq!(m.mem.bytes[..3], make_random(12345, 3)[..]);
    assert_eq!(result(&mut m, 20, &[]), (1, false));
    assert_eq!(result(&mut m, 24, &[]), (0, false));
    assert_eq!(result(&mut m, 92, &[0, 3]), (2, false));
    assert_eq!(result(&mut m, 97, &[]).1, true);
    assert_eq!(result(&mut m, 9999, &[]), (38, true));
    assert!(matches!(call(&mut m, 116, &[1]).1, Flow::Stopped(Stop::Fault(1))));
}

#[test]
fn sysctl_values() {
    assert!(matches!(find_sysctl(1, 1), Sysctl::Text("Darwin\0")));
    assert!(matches!(find_sysctl(6, 7), Sysctl::Word(4096)));
    assert!(matches!(find_sysctl(6, 24), Sysctl::Long(0x8000_0000)));
    assert!(matches!(find_sysctl(9, 9), Sysctl::Unknown));
    let mut m = machine();
    m.mem.store32(RAM, 6).unwrap();
    m.mem.store32(RAM + 4, 7).unwrap();
    assert_eq!(result(&mut m, 202, &[RAM, 2, RAM + 0x10, RAM + 0x20]), (0, false));
    assert_eq!(m.mem.load32(RAM + 0x10), Ok(4096));
    assert_eq!(m.mem.load64(RAM + 0x20), Ok(4));
    m.mem.store32(RAM, 1).unwrap();
    m.mem.store32(RAM + 4, 1).unwrap();
    assert_eq!(result(&mut m, 202, &[RAM, 2, RAM + 0x10, RAM + 0x20]), (0, false));
    assert_eq!(&m.mem.bytes[0x10..0x17], b"Darwin\0");
    assert_eq!(result(&mut m, 202, &[RAM, 0, RAM + 0x10, 0]), (22, true));
    m.mem.store32(RAM, 99).unwrap();
    assert_eq!(result(&mut m, 202, &[RAM, 2, 0, 0]), (2, true));
}

#[test]
fn ending_a_program() {
    let mut m = machine();
    assert!(matches!(call(&mut m, 1, &[3]).1, Flow::Halt));
    assert_eq!(log(&m), "xnu-rs: user exit(0x0x0000000000000003)\n");
    let mut m = machine();
    m.mem.store(RAM, b"why\0").unwrap();
    assert!(matches!(call(&mut m, 521, &[1, 2, 0, 3, RAM]).1, Flow::Halt));
    assert!(log(&m).ends_with(" reason=\"why\" ***\n"));
}

fn trap(n: i64) -> u64 {
    n as u64
}

#[test]
fn mach_traps() {
    let mut m = machine();
    assert_eq!(result(&mut m, trap(-3), &[]).0, 12345);
    assert_eq!(result(&mut m, trap(-28), &[]).0, 1);
    assert_eq!(result(&mut m, trap(-27), &[]).0, 2);
    assert_eq!(result(&mut m, trap(-20), &[]).0, 3);
    assert_eq!(result(&mut m, trap(-26), &[]).0, 10);
    assert_eq!(result(&mut m, trap(-16), &[0, 0, RAM]).0, 0);
    assert_eq!(m.mem.load32(RAM), Ok(11));
    assert_eq!(result(&mut m, trap(-4), &[RAM]).0, 0);
    assert_eq!(m.mem.load64(RAM), Ok(0x1_0000_0001));
    assert_eq!(result(&mut m, trap(-10), &[0, RAM + 8, 1]).0, 0);
    assert_eq!(m.mem.load64(RAM + 8), Ok(RAM));
    assert_eq!(result(&mut m, trap(-10), &[0, 0, 0x7000_0000]).0, 3);
    assert_eq!(result(&mut m, trap(-31), &[]).0, 0);
    assert_eq!(result(&mut m, trap(-999), &[]).0, u64::MAX);
}

#[test]
fn the_thread_pointer_is_kept() {
    let mut m = machine();
    assert_eq!(result(&mut m, 0x8000_0000, &[0xabc, 0, 0, 2]).0, 0);
    assert_eq!(result(&mut m, 0x8000_0000, &[0, 0, 0, 3]).0, 0xabc);
    assert_eq!(result(&mut m, 0x8000_0000, &[0, 0, 0, 0]).0, 0);
    assert_eq!(result(&mut m, 0x8000_0000, &[0, 0, 0, 9]).0, u64::MAX);
}

#[test]
fn exceptions_of_user_programs() {
    let mut m = machine();
    let mut frame = TrapFrame::new_user(0x4000, 0x8000);
    frame.x[16] = 20;
    assert!(matches!(exception_lower_el_sync(&mut m, &mut frame, 0x15 << 26, 0, 0), Flow::Resume));
    assert_eq!(frame.x[0], 1);
    let flow = exception_lower_el_sync(&mut m, &mut frame, (0x24 << 26) | 0x46, 0xdead, 0);
    assert!(matches!(flow, Flow::Halt));
    let text = log(&m);
    assert!(text.contains("FAR=0x0x000000000000dead ELR=0x0x0000000000004000\n"));
    assert!(text.contains("  WRITE fault, DFSC=0x0x0000000000000006 (translation L2)\n"));
    assert!(text.contains(" x30=0x0x0000000000000000\n sp=0x0x0000000000008000\n"));
    let mut c = Console::new();
    exception_el1_sync(&mut c, &frame, 0x25 << 26);
    assert!(!c.out.is_empty());
}

fn system() -> System {
    let mut names = PortNamespace::new();
    task::init(&mut names);
    System { machine: machine(), names }
}

/// Makes a call through the context interface.
fn system_call(s: &mut System, nr: u64, args: &[u64]) -> (u64, Route) {
    let mut all = [0u64; 8];
    all[..args.len()].copy_from_slice(args);
    let mut ctx = SyscallContext::new(nr, all);
    let route = system_calls::dispatch(s, &mut ctx, 777).unwrap();
    (ctx.return_val(), route)
}

#[test]
fn contexts_hold_results() {
    let mut ctx = SyscallContext::new(4, [1, 2, 3, 4, 5, 6, 7, 8]);
    assert_eq!((ctx.nr(), ctx.arg(0), ctx.arg(7)), (4, 1, 8));
    ctx.set_return(9);
    assert_eq!((ctx.return_val(), ctx.has_error()), (9, false));
    ctx.set_error(22);
    assert_eq!((ctx.return_val(), ctx.has_error()), (22, true));
}

#[test]
fn system_calls_are_routed() {
    let mut s = system();
    assert_eq!(system_call(&mut s, 4, &[]).1, Route::Bsd(4));
    assert_eq!(system_call(&mut s, trap(-3), &[]), (777, Route::Done));
    assert_eq!(system_call(&mut s, 0x8000_0000, &[0x55, 0, 0, 2]), (0, Route::Done));
    assert_eq!(system_call(&mut s, 0x8000_0000, &[0, 0, 0, 3]), (0x55, Route::Done));
    assert_eq!(system_call(&mut s, trap(-28), &[]).0, 1);
}

#[test]
fn a_message_goes_through_a_port() {
    let mut s = system();
    let receive = system_call(&mut s, trap(-26), &[]).0 as u32;
    let send = system_call(&mut s, trap(-23), &[0, receive as u64]).0 as u32;
    assert_ne!(send, receive);
    // A header and eight more bytes, to the port behind `send`.
    s.machine.mem.clear(RAM, 64).unwrap();
    s.machine.mem.store32(RAM + 8, send).unwrap();
    s.machine.mem.store64(RAM + 24, 0x1122_3344_5566_7788).unwrap();
    assert_eq!(system_call(&mut s, trap(-31), &[RAM, 1, 32, 0, 0]).0, 0);
    let at = RAM + 0x100;
    assert_eq!(system_call(&mut s, trap(-31), &[at, 2, 0, 16, receive as u64]).0, 0x1000_4004);
    assert_eq!(system_call(&mut s, trap(-31), &[at, 2, 0, 64, receive as u64]).0, 0);
    assert_eq!(s.machine.mem.load64(at + 24), Ok(0x1122_3344_5566_7788));
    assert_eq!(system_call(&mut s, trap(-31), &[at, 2, 0, 64, receive as u64]).0, 0x1000_4003);
    s.machine.mem.store32(RAM + 8, 0x9999).unwrap();
    assert_eq!(system_call(&mut s, trap(-31), &[RAM, 1, 32, 0, 0]).0, 0x1000_0003);
    // Without its name the port is gone.
    assert_eq!(system_call(&mut s, trap(-18), &[0, send as u64]).0, 0);
    s.machine.mem.store32(RAM + 8, send).unwrap();
    assert_eq!(system_call(&mut s, trap(-31), &[RAM, 1, 32, 0, 0]).0, 0x1000_0003);
    assert_eq!(system_call(&mut s, trap(-23), &[0, 0x7777]).0, 0);
}
