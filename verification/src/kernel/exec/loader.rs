//! Placing a user program in memory.

use crate::align;
use crate::bytes;
use crate::kernel::arch::context::{Frame, TrapFrame};
use crate::kernel::arch::uart;
use crate::kernel::arch::uart::Console;
use crate::loader::image;
use crate::loader::image::{ImageView, SegmentView, UserImage};
use crate::loader::parse;
use crate::mem::{Memory, PhysMem, Stop};
use vstd::prelude::*;

verus! {

/// Bytes of a user stack.
pub const STACK_SIZE: u64 = 0x1_0000;

/// How many bytes of a segment are copied.
pub open spec fn copy_len(s: SegmentView) -> int {
    if s.data.len() < s.vmsize {
        s.data.len() as int
    } else {
        s.vmsize as int
    }
}

/// Memory after the first `n` segments have been copied into place, each as far
/// from `load_base` as it is linked from the link base.
pub open spec fn copied(
    m: Memory,
    segs: Seq<SegmentView>,
    n: int,
    link_base: u64,
    load_base: u64,
) -> Result<Memory, Stop>
    decreases n,
{
    if n <= 0 {
        Ok(m)
    } else {
        match copied(m, segs, n - 1, link_base, load_base) {
            Err(e) => Err(e),
            Ok(before) => {
                let s = segs[n - 1];
                let dst = load_base + (s.vmaddr - link_base);
                if s.vmaddr < link_base || dst > u64::MAX {
                    Err(Stop::Overflow)
                } else if copy_len(s) == 0 {
                    Ok(before)
                } else if !before.covers(dst, copy_len(s)) {
                    Err(Stop::Fault(dst as u64))
                } else {
                    Ok(before.put(dst, s.data.take(copy_len(s))))
                }
            },
        }
    }
}

/// Memory after an image has been placed at `load_base`: zeros, then the bytes of
/// the segments.
pub open spec fn placed(m: Memory, image: ImageView, load_base: u64) -> Result<Memory, Stop> {
    let n = image.segments.len() as int;
    if image.span() == 0 {
        copied(m, image.segments, n, image.link_base, load_base)
    } else if !m.covers(load_base as int, image.span()) {
        Err(Stop::Fault(load_base))
    } else {
        copied(
            m.put(load_base as int, bytes::zeros(image.span() as nat)),
            image.segments,
            n,
            image.link_base,
            load_base,
        )
    }
}

/// Copies segment `i` into place.
fn copy_segment(m: &mut PhysMem, image: &UserImage, i: usize, load_base: u64) -> (r: Result<
    (),
    Stop,
>)
    requires
        i < image.segments@.len(),
    ensures
        ({
            let s = image@.segments[i as int];
            let dst = load_base + (s.vmaddr - image.link_base);
            if s.vmaddr < image.link_base || dst > u64::MAX {
                r == Err::<(), Stop>(Stop::Overflow)
            } else if copy_len(s) == 0 {
                r is Ok && final(m)@ == old(m)@
            } else if !old(m)@.covers(dst, copy_len(s)) {
                r == Err::<(), Stop>(Stop::Fault(dst as u64))
            } else {
                r is Ok && final(m)@ == old(m)@.put(dst, s.data.take(copy_len(s)))
            }
        }),
{
    let s = &image.segments[i];
    assert(image@.segments[i as int] == s@);
    let dst: u64 = match s.vmaddr.checked_sub(image.link_base) {
        Some(offset) => match load_base.checked_add(offset) {
            Some(d) => d,
            None => {
                return Err(Stop::Overflow);
            },
        },
        None => {
            return Err(Stop::Overflow);
        },
    };
    assert(s.data@.len() == s.data.len());
    let len: usize = if (s.data.len() as u64) < s.vmsize {
        s.data.len()
    } else {
        s.vmsize as usize
    };
    if len == 0 {
        return Ok(());
    }
    let part: &[u8] = &s.data[0..len];
    assert(part@ =~= s@.data.take(copy_len(s@)));
    m.store(dst, part)
}

/// Places an image at `load_base`.
pub fn load_image(m: &mut PhysMem, image: &UserImage, load_base: u64) -> (r: Result<(), Stop>)
    ensures
        match placed(old(m)@, image@, load_base) {
            Ok(after) => r is Ok && final(m)@ == after,
            Err(e) => r == Err::<(), Stop>(e),
        },
{
    let span: u64 = image.image_span();
    if span != 0 {
        match m.clear(load_base, span) {
            Ok(()) => {},
            Err(e) => {
                return Err(e);
            },
        }
    }
    copy_segments(m, image, load_base)
}

/// Copies all segments into place.
fn copy_segments(m: &mut PhysMem, image: &UserImage, load_base: u64) -> (r: Result<(), Stop>)
    ensures
        match copied(
            old(m)@,
            image@.segments,
            image@.segments.len() as int,
            image.link_base,
            load_base,
        ) {
            Ok(after) => r is Ok && final(m)@ == after,
            Err(e) => r == Err::<(), Stop>(e),
        },
{
    let mut i: usize = 0;
    while i < image.segments.len()
        invariant
            i <= image.segments@.len(),
            copied(old(m)@, image@.segments, i as int, image.link_base, load_base) == Ok::<
                Memory,
                Stop,
            >(m@),
        decreases image.segments@.len() - i,
    {
        match copy_segment(m, image, i, load_base) {
            Ok(()) => {},
            Err(e) => {
                proof {
                    lemma_copied_err(
                        old(m)@,
                        image@.segments,
                        i + 1,
                        image@.segments.len() as int,
                        image.link_base,
                        load_base,
                        e,
                    );
                }
                return Err(e);
            },
        }
        i += 1;
    }
    Ok(())
}

/// A failure ends the copying.
proof fn lemma_copied_err(
    m: Memory,
    segs: Seq<SegmentView>,
    k: int,
    n: int,
    link_base: u64,
    load_base: u64,
    e: Stop,
)
    requires
        0 <= k <= n,
        copied(m, segs, k, link_base, load_base) == Err::<Memory, Stop>(e),
    ensures
        copied(m, segs, n, link_base, load_base) == Err::<Memory, Stop>(e),
    decreases n,
{
    if k < n {
        lemma_copied_err(m, segs, k, n - 1, link_base, load_base, e);
    }
}

/// Where a program starts.
pub struct Launch {
    /// What user space is entered with.
    pub frame: TrapFrame,
    /// How many bytes from the load base on have to be made fit to run.
    pub span: u64,
}

/// Where a program starts: entry and stack. The stack lies on the pages behind
/// the image.
pub open spec fn start_of(image: ImageView, load_base: u64) -> Result<(u64, u64), Stop> {
    let entry = match image.entry_address() {
        Some(va) => va,
        None => 0,
    };
    let at = load_base + (entry - image.link_base);
    let top = align::page_up(load_base + image.span()) + STACK_SIZE;
    if entry > u64::MAX || entry < image.link_base || at > u64::MAX || load_base + image.span()
        + 0xfff > u64::MAX || top > u64::MAX {
        Err(Stop::Overflow)
    } else {
        Ok((at as u64, top as u64))
    }
}

/// Finds entry and stack.
fn find_start(image: &UserImage, load_base: u64) -> (r: Result<(u64, u64), Stop>)
    ensures
        r == start_of(image@, load_base),
{
    if !image.entry_fits() {
        return Err(Stop::Overflow);
    }
    let entry: u64 = match image.entry_va() {
        Some(va) => va,
        None => 0,
    };
    let at: u64 = match entry.checked_sub(image.link_base) {
        Some(offset) => match load_base.checked_add(offset) {
            Some(a) => a,
            None => {
                return Err(Stop::Overflow);
            },
        },
        None => {
            return Err(Stop::Overflow);
        },
    };
    let end: u64 = match load_base.checked_add(image.image_span()) {
        Some(e) => e,
        None => {
            return Err(Stop::Overflow);
        },
    };
    match align::page_align(end) {
        Some(base) => match base.checked_add(STACK_SIZE) {
            Some(top) => Ok((at, top)),
            None => Err(Stop::Overflow),
        },
        None => Err(Stop::Overflow),
    }
}

/// What the console says before an image is placed.
pub open spec fn loading_log(log: Seq<u8>, image: ImageView, load_base: u64) -> Seq<u8> {
    let a = uart::put_hex(
        uart::put_str(log, "xnu-rs: loading user image link_base=0x"@),
        image.link_base,
    );
    let b = uart::put_hex(uart::put_str(a, " span=0x"@), image.span() as u64);
    let c = uart::put_hex(uart::put_str(b, " load_base=0x"@), load_base);
    uart::put_str(c, "\n"@)
}

/// What the console says before a program starts.
pub open spec fn starting_log(log: Seq<u8>, entry: u64, stack_top: u64) -> Seq<u8> {
    let a = uart::put_hex(uart::put_str(log, "xnu-rs: entry_phys=0x"@), entry);
    let b = uart::put_hex(uart::put_str(a, " stack_top=0x"@), stack_top);
    uart::put_str(uart::put_str(b, "\n"@), "xnu-rs: ERET to EL0\n"@)
}

/// Loads a program and gets it ready to run; none if the file is not a program.
/// The caller makes the memory fit to run and enters user space.
pub fn load_and_run(m: &mut PhysMem, console: &mut Console, bytes: &[u8], load_base: u64) -> (r:
    Result<Option<Launch>, Stop>)
    ensures
        match parse::parsed(bytes@) {
            None => {
                &&& r matches Ok(None)
                &&& final(m)@ == old(m)@
                &&& final(console)@ == uart::put_str(
                    old(console)@,
                    "xnu-rs: failed to parse user Mach-O\n"@,
                )
            },
            Some(image) => {
                let log = loading_log(old(console)@, image, load_base);
                match (placed(old(m)@, image, load_base), start_of(image, load_base)) {
                    (Err(e), _) => r matches Err(f) && f == e && final(console)@ == log,
                    (Ok(_), Err(e)) => r matches Err(f) && f == e && final(console)@ == log,
                    (Ok(after), Ok((entry, top))) => {
                        &&& r matches Ok(Some(launch)) && launch.frame@ == (Frame {
                            x: Seq::new(31, |i: int| 0u64),
                            sp: top,
                            pc: entry,
                            pstate: 0,
                        }) && launch.span == image.span()
                        &&& final(m)@ == after
                        &&& final(console)@ == starting_log(log, entry, top)
                    },
                }
            },
        },
{
    let image = match parse::parse(bytes) {
        Some(i) => i,
        None => {
            uart::write_str(console, "xnu-rs: failed to parse user Mach-O\n");
            return Ok(None);
        },
    };
    let span: u64 = image.image_span();
    uart::write_str(console, "xnu-rs: loading user image link_base=0x");
    uart::write_hex_u64(console, image.link_base);
    uart::write_str(console, " span=0x");
    uart::write_hex_u64(console, span);
    uart::write_str(console, " load_base=0x");
    uart::write_hex_u64(console, load_base);
    uart::write_str(console, "\n");
    match load_image(m, &image, load_base) {
        Ok(()) => {},
        Err(e) => {
            return Err(e);
        },
    }
    let (entry, top) = match find_start(&image, load_base) {
        Ok(s) => s,
        Err(e) => {
            return Err(e);
        },
    };
    uart::write_str(console, "xnu-rs: entry_phys=0x");
    uart::write_hex_u64(console, entry);
    uart::write_str(console, " stack_top=0x");
    uart::write_hex_u64(console, top);
    uart::write_str(console, "\n");
    let frame = TrapFrame::new_user(entry, top);
    uart::write_str(console, "xnu-rs: ERET to EL0\n");
    Ok(Some(Launch { frame, span }))
}

/// The byte at `offset` of an image of which `n` segments have been copied: that
/// of the last segment that has one there, else zero.
pub open spec fn image_byte(segs: Seq<SegmentView>, n: int, link_base: u64, offset: int) -> u8
    decreases n,
{
    if n <= 0 {
        0
    } else {
        let s = segs[n - 1];
        let at = offset - (s.vmaddr - link_base);
        if 0 <= at < copy_len(s) {
            s.data[at]
        } else {
            image_byte(segs, n - 1, link_base, offset)
        }
    }
}

/// An image that has been placed is in memory byte for byte, with zeros where no
/// segment has a byte, and the memory around it is as it was.
pub proof fn law_image_is_in_memory(m: Memory, image: ImageView, load_base: u64, a: int)
    requires
        placed(m, image, load_base) is Ok,
        image.span() > 0,
        m.base <= a < m.base + m.bytes.len(),
        forall|i: int|
            0 <= i < image.segments.len() ==> (#[trigger] image.segments[i]).vmaddr
                + image.segments[i].vmsize <= u64::MAX,
    ensures
        ({
            let after = placed(m, image, load_base)->Ok_0;
            &&& after.base == m.base
            &&& after.bytes.len() == m.bytes.len()
            &&& after.bytes[a - m.base] == if load_base <= a < load_base + image.span() {
                image_byte(
                    image.segments,
                    image.segments.len() as int,
                    image.link_base,
                    a - load_base,
                )
            } else {
                m.bytes[a - m.base]
            }
        }),
{
    let zeroed = m.put(load_base as int, bytes::zeros(image.span() as nat));
    assert forall|i: int| 0 <= i < image.segments.len() implies (
    #[trigger] image.segments[i]).vmaddr + image.segments[i].vmsize <= image.link_base
        + image.span() by {
        lemma_highest(image.segments, i, image.link_base as int);
    }
    lemma_copied_bytes(zeroed, image, image.segments.len() as int, load_base, a);
}

/// No segment ends behind the highest end.
proof fn lemma_highest(segs: Seq<SegmentView>, i: int, none: int)
    requires
        0 <= i < segs.len(),
    ensures
        image::segment_end(segs[i]) <= image::highest_end(segs, none),
    decreases segs.len(),
{
    if i < segs.len() - 1 {
        lemma_highest(segs.drop_last(), i, none);
    }
}

proof fn lemma_copied_bytes(m: Memory, image: ImageView, n: int, load_base: u64, a: int)
    requires
        0 <= n <= image.segments.len(),
        copied(m, image.segments, n, image.link_base, load_base) is Ok,
        m.base <= a < m.base + m.bytes.len(),
        load_base <= a < load_base + image.span() ==> m.bytes[a - m.base] == 0,
        forall|i: int|
            0 <= i < image.segments.len() ==> (#[trigger] image.segments[i]).vmaddr
                + image.segments[i].vmsize <= image.link_base + image.span(),
    ensures
        ({
            let after = copied(m, image.segments, n, image.link_base, load_base)->Ok_0;
            &&& after.base == m.base
            &&& after.bytes.len() == m.bytes.len()
            &&& after.bytes[a - m.base] == if load_base <= a < load_base + image.span() {
                image_byte(image.segments, n, image.link_base, a - load_base)
            } else {
                m.bytes[a - m.base]
            }
        }),
    decreases n,
{
    if n > 0 {
        lemma_copied_bytes(m, image, n - 1, load_base, a);
        let s = image.segments[n - 1];
        assert(s.vmaddr + s.vmsize <= image.link_base + image.span());
    }
}

/// Rounds down to a multiple of `align`.
fn align_down(x: u64, align: u64) -> (r: u64)
    requires
        align > 0,
    ensures
        r == x - x % align,
{
    assert(x % align <= x) by (nonlinear_arith)
        requires
            align > 0,
    ;
    x - x % align
}

/// The words of the table at the bottom of a new stack.
pub open spec fn table_words(mach_header: u64, arg: u64, exe: u64) -> Seq<u64> {
    seq![mach_header, 1, arg, 0, 0, exe, 0]
}

/// The bytes of the first `n` words.
pub open spec fn words_bytes(w: Seq<u64>, n: int) -> Seq<u8>
    decreases n,
{
    if n <= 0 {
        Seq::empty()
    } else {
        words_bytes(w, n - 1) + bytes::le64_bytes(w[n - 1])
    }
}

/// The table at the bottom of a new stack.
pub open spec fn stack_table(mach_header: u64, arg: u64, exe: u64) -> Seq<u8> {
    words_bytes(table_words(mach_header, arg, exe), 7)
}

/// The addresses in a new stack: those of the two strings, and of the table.
pub open spec fn stack_places(stack_top: u64, app_len: int, exe_len: int) -> (int, int, int) {
    let arg = stack_top - app_len;
    let below = arg - exe_len;
    let exe = below - below % 8;
    let sp = (exe - 56) - (exe - 56) % 16;
    (arg, exe, sp)
}

/// Memory after a stack has been laid out below `stack_top`.
pub open spec fn stack_laid(
    m: Memory,
    stack_top: u64,
    mach_header: u64,
    app_path: Seq<u8>,
    exe_path: Seq<u8>,
) -> Result<Memory, Stop> {
    let (arg, exe, sp) = stack_places(stack_top, app_path.len() as int, exe_path.len() as int);
    if arg - exe_path.len() < 0 || exe - 56 < 0 {
        Err(Stop::Overflow)
    } else if !m.covers(arg, app_path.len() as int) {
        Err(Stop::Fault(arg as u64))
    } else if !m.covers(exe, exe_path.len() as int) {
        Err(Stop::Fault(exe as u64))
    } else if !m.covers(sp, 56) {
        Err(Stop::Fault(sp as u64))
    } else {
        Ok(
            m.put(arg, app_path).put(exe, exe_path).put(
                sp,
                stack_table(mach_header, arg as u64, exe as u64),
            ),
        )
    }
}

/// Lays out a stack below `stack_top` and gives the stack pointer. From there up
/// lie the address of the image, the number of arguments, the argument, a zero,
/// the end of the environment, the path of the program, and a zero; the strings
/// lie above.
pub fn setup_darwin_stack(
    m: &mut PhysMem,
    stack_top: u64,
    mach_header: u64,
    app_path: &[u8],
    exe_path: &[u8],
) -> (r: Result<u64, Stop>)
    ensures
        match stack_laid(old(m)@, stack_top, mach_header, app_path@, exe_path@) {
            Ok(after) => {
                &&& r matches Ok(sp) && sp == stack_places(
                    stack_top,
                    app_path@.len() as int,
                    exe_path@.len() as int,
                ).2
                &&& final(m)@ == after
            },
            Err(e) => r == Err::<u64, Stop>(e),
        },
{
    assert(app_path@.len() == app_path.len());
    assert(exe_path@.len() == exe_path.len());
    let arg: u64 = match stack_top.checked_sub(app_path.len() as u64) {
        Some(a) => a,
        None => {
            return Err(Stop::Overflow);
        },
    };
    let exe: u64 = match arg.checked_sub(exe_path.len() as u64) {
        Some(b) => align_down(b, 8),
        None => {
            return Err(Stop::Overflow);
        },
    };
    let sp: u64 = match exe.checked_sub(56) {
        Some(b) => align_down(b, 16),
        None => {
            return Err(Stop::Overflow);
        },
    };
    match m.store(arg, app_path) {
        Ok(()) => {},
        Err(e) => {
            return Err(e);
        },
    }
    match m.store(exe, exe_path) {
        Ok(()) => {},
        Err(e) => {
            return Err(e);
        },
    }
    let table: Vec<u8> = build_table(mach_header, arg, exe);
    match m.store(sp, &table) {
        Ok(()) => Ok(sp),
        Err(e) => Err(e),
    }
}

/// Writes the table at the bottom of a new stack.
fn build_table(mach_header: u64, arg: u64, exe: u64) -> (r: Vec<u8>)
    ensures
        r@ == stack_table(mach_header, arg, exe),
        r@.len() == 56,
{
    let words: [u64; 7] = [mach_header, 1, arg, 0, 0, exe, 0];
    assert(words@ =~= table_words(mach_header, arg, exe));
    let mut table: Vec<u8> = Vec::new();
    let mut i: usize = 0;
    while i < 7
        invariant
            i <= 7,
            table@ == words_bytes(words@, i as int),
        decreases 7 - i,
    {
        bytes::push_le64(&mut table, words[i]);
        i += 1;
    }
    proof {
        lemma_words(words@, 7, 0);
    }
    table
}

/// Each word is read back from the bytes.
proof fn lemma_words(w: Seq<u64>, n: int, k: int)
    requires
        0 <= k < n <= w.len(),
    ensures
        words_bytes(w, n).len() == 8 * n,
        bytes::le64(words_bytes(w, n), 8 * k) == w[k],
    decreases n,
{
    let before = words_bytes(w, n - 1);
    let all = words_bytes(w, n);
    let last = bytes::le64_bytes(w[n - 1]);
    bytes::lemma_le64_roundtrip(w[n - 1]);
    if n > 1 {
        lemma_words(w, n - 1, if k < n - 1 {
            k
        } else {
            0
        });
    }
    if k < n - 1 {
        assert forall|i: int| 0 <= i < 8 implies all[8 * k + i] == #[trigger] before[8 * k
            + i] by {}
        bytes::lemma_le_window(all, 8 * k, before, 8 * k, 8);
    } else {
        assert forall|i: int| 0 <= i < 8 implies all[8 * k + i] == #[trigger] last[0 + i] by {}
        bytes::lemma_le_window(all, 8 * k, last, 0, 8);
    }
}

/// A stack that has been laid out has its pointer on a multiple of 16. The words
/// there are the address of the image, the number of arguments, the argument, two
/// zeros, the path of the program and a zero, and the two addresses lead to the
/// two strings.
pub proof fn law_stack_layout(
    m: Memory,
    stack_top: u64,
    mach_header: u64,
    app_path: Seq<u8>,
    exe_path: Seq<u8>,
    k: int,
)
    requires
        stack_laid(m, stack_top, mach_header, app_path, exe_path) is Ok,
        0 <= k < 7,
    ensures
        ({
            let after = stack_laid(m, stack_top, mach_header, app_path, exe_path)->Ok_0;
            let (arg, exe, sp) = stack_places(
                stack_top,
                app_path.len() as int,
                exe_path.len() as int,
            );
            &&& sp % 16 == 0
            &&& after.get64(sp + 8 * k) == Some(
                table_words(mach_header, arg as u64, exe as u64)[k] as int,
            )
            &&& after.slice(arg, app_path.len() as int) == app_path
            &&& after.slice(exe, exe_path.len() as int) == exe_path
            &&& arg + app_path.len() == stack_top
        }),
{
    let after = stack_laid(m, stack_top, mach_header, app_path, exe_path)->Ok_0;
    let (arg, exe, sp) = stack_places(stack_top, app_path.len() as int, exe_path.len() as int);
    let table = stack_table(mach_header, arg as u64, exe as u64);
    lemma_words(table_words(mach_header, arg as u64, exe as u64), 7, k);
    lemma_three_puts(m, arg, app_path, exe, exe_path, sp, table);
    let at = sp + 8 * k - m.base;
    assert forall|i: int| 0 <= i < 8 implies after.bytes[at + i] == #[trigger] table[8 * k
        + i] by {
        assert(after.slice(sp, 56)[8 * k + i] == after.bytes[at + i]);
    }
    bytes::lemma_le_window(after.bytes, at, table, 8 * k, 8);
}

/// Three pieces written one below the other are all there.
proof fn lemma_three_puts(
    m: Memory,
    a: int,
    x: Seq<u8>,
    b: int,
    y: Seq<u8>,
    c: int,
    z: Seq<u8>,
)
    requires
        c + z.len() <= b,
        b + y.len() <= a,
        m.covers(a, x.len() as int),
        m.covers(b, y.len() as int),
        m.covers(c, z.len() as int),
    ensures
        ({
            let after = m.put(a, x).put(b, y).put(c, z);
            &&& after.base == m.base && after.bytes.len() == m.bytes.len()
            &&& after.slice(a, x.len() as int) == x
            &&& after.slice(b, y.len() as int) == y
            &&& after.slice(c, z.len() as int) == z
        }),
{
    let after = m.put(a, x).put(b, y).put(c, z);
    assert(after.slice(a, x.len() as int) =~= x);
    assert(after.slice(b, y.len() as int) =~= y);
    assert(after.slice(c, z.len() as int) =~= z);
}

} // verus!
