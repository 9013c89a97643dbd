//! What the console is told of processors, interrupts and programs.

use crate::kernel::arch::gic;
use crate::kernel::arch::smp;
use crate::kernel::arch::uart;
use crate::kernel::exec::loader;
use crate::kernel::sched::thread;
use crate::loader::image::ImageView;
use vstd::prelude::*;
use vstd::utf8::*;

verus! {

/// A word and a number at the end of the log.
proof fn lemma_labelled(log: Seq<u8>, text: Seq<char>, n: u64)
    ensures
        uart::put_hex(uart::put_str(log, text), n) == log + encode_utf8(text) + uart::put_hex(
            Seq::empty(),
            n,
        ),
{
    assert(uart::put_hex(uart::put_str(log, text), n) =~= log + encode_utf8(text) + uart::put_hex(
        Seq::empty(),
        n,
    ));
}

/// An interrupt that nobody handles is told with its number. Nothing is said of
/// one that is none, or that is the call of another processor.
pub proof fn law_unhandled_interrupt_is_told(log: Seq<u8>, irq: int)
    ensures
        irq == 0 || irq == 1023 ==> gic::irq_log(log, irq) == log,
        irq != 0 && irq != 1023 ==> gic::irq_log(log, irq) == log + encode_utf8(
            "xnu-rs: unhandled IRQ "@,
        ) + uart::put_hex(Seq::empty(), irq as u64) + encode_utf8("\n"@),
{
    lemma_labelled(log, "xnu-rs: unhandled IRQ "@, irq as u64);
}

/// A processor that started is told, and one that did not, with the code that
/// came back.
pub proof fn law_processor_start_is_told(log: Seq<u8>, cpu: u32, ret: u64)
    ensures
        smp::started_log(log, cpu, ret) == log + encode_utf8("xnu-rs: cpu"@) + uart::put_hex(
            Seq::empty(),
            cpu as u64,
        ) + (if ret == 0 {
            encode_utf8(" online\n"@)
        } else {
            encode_utf8(" psci_call failed ret="@) + uart::put_hex(Seq::empty(), ret) + encode_utf8(
                "\n"@,
            )
        }),
{
    lemma_labelled(log, "xnu-rs: cpu"@, cpu as u64);
    let a = log + encode_utf8("xnu-rs: cpu"@) + uart::put_hex(Seq::empty(), cpu as u64);
    lemma_labelled(a, " psci_call failed ret="@, ret);
    if ret != 0 {
        assert(a + encode_utf8(" psci_call failed ret="@) + uart::put_hex(Seq::empty(), ret)
            + encode_utf8("\n"@) =~= a + (encode_utf8(" psci_call failed ret="@) + uart::put_hex(
            Seq::empty(),
            ret,
        ) + encode_utf8("\n"@)));
    }
}

/// Of a program it is told where it was linked to, how much memory it takes and
/// where it is loaded; then where it starts and where its stack is.
pub proof fn law_program_start_is_told(
    log: Seq<u8>,
    image: ImageView,
    base: u64,
    entry: u64,
    stack_top: u64,
)
    ensures
        loader::loading_log(log, image, base) == log + encode_utf8(
            "xnu-rs: loading user image link_base=0x"@,
        ) + uart::put_hex(Seq::empty(), image.link_base) + encode_utf8(" span=0x"@) + uart::put_hex(
            Seq::empty(),
            image.span() as u64,
        ) + encode_utf8(" load_base=0x"@) + uart::put_hex(Seq::empty(), base) + encode_utf8("\n"@),
        loader::starting_log(log, entry, stack_top) == log + encode_utf8("xnu-rs: entry_phys=0x"@)
            + uart::put_hex(Seq::empty(), entry) + encode_utf8(" stack_top=0x"@) + uart::put_hex(
            Seq::empty(),
            stack_top,
        ) + encode_utf8("\n"@) + encode_utf8("xnu-rs: ERET to EL0\n"@),
{
    lemma_labelled(log, "xnu-rs: loading user image link_base=0x"@, image.link_base);
    let a = log + encode_utf8("xnu-rs: loading user image link_base=0x"@) + uart::put_hex(
        Seq::empty(),
        image.link_base,
    );
    lemma_labelled(a, " span=0x"@, image.span() as u64);
    let b = a + encode_utf8(" span=0x"@) + uart::put_hex(Seq::empty(), image.span() as u64);
    lemma_labelled(b, " load_base=0x"@, base);
    lemma_labelled(log, "xnu-rs: entry_phys=0x"@, entry);
    let c = log + encode_utf8("xnu-rs: entry_phys=0x"@) + uart::put_hex(Seq::empty(), entry);
    lemma_labelled(c, " stack_top=0x"@, stack_top);
}

/// A thread starts at its entry with its stack, in user mode, and with nothing in
/// its registers.
pub proof fn law_thread_starts_clean(entry: u64, sp: u64, i: int)
    requires
        0 <= i < 31,
    ensures
        ({
            let f = thread::start_frame(entry, sp);
            &&& f.pc == entry
            &&& f.sp == sp
            &&& f.pstate == 0
            &&& f.x.len() == 31
            &&& f.x[i] == 0
        }),
{
}

} // verus!
