//! Threads.

use crate::kernel::arch::context::{Frame, TrapFrame};
use vstd::prelude::*;

verus! {

/// The registers that a switch between threads saves.
#[derive(Clone, Copy, Debug, PartialEq, Eq, Structural)]
pub struct KernelContext {
    pub x19: u64,
    pub x20: u64,
    pub x21: u64,
    pub x22: u64,
    pub x23: u64,
    pub x24: u64,
    pub x25: u64,
    pub x26: u64,
    pub x27: u64,
    pub x28: u64,
    /// Frame pointer.
    pub x29: u64,
    /// Return address.
    pub lr: u64,
    /// Stack pointer.
    pub sp: u64,
}

/// A context that returns to `lr` with stack `sp`; all else is zero.
pub open spec fn context(lr: u64, sp: u64) -> KernelContext {
    KernelContext {
        x19: 0,
        x20: 0,
        x21: 0,
        x22: 0,
        x23: 0,
        x24: 0,
        x25: 0,
        x26: 0,
        x27: 0,
        x28: 0,
        x29: 0,
        lr,
        sp,
    }
}

impl KernelContext {
    /// A context of zeros.
    #[must_use]
    pub fn zeroed() -> (r: Self)
        ensures
            r == context(0, 0),
    {
        KernelContext {
            x19: 0,
            x20: 0,
            x21: 0,
            x22: 0,
            x23: 0,
            x24: 0,
            x25: 0,
            x26: 0,
            x27: 0,
            x28: 0,
            x29: 0,
            lr: 0,
            sp: 0,
        }
    }
}

/// What a thread is doing.
#[derive(Clone, Copy, Debug, PartialEq, Eq, Structural)]
pub enum ThreadState {
    Ready,
    Running,
    Blocked,
    Dead,
}

/// A thread: what it resumes with in user space and in the kernel.
pub struct Thread {
    /// The number of the thread.
    pub tid: u32,
    /// What it resumes with in user space.
    pub trap_frame: TrapFrame,
    /// What it resumes with in the kernel.
    pub kernel_ctx: KernelContext,
    /// Top of its kernel stack.
    pub kernel_stack_top: u64,
    /// What it is doing.
    pub state: ThreadState,
}

/// What a `Thread` holds.
#[verifier::ext_equal]
pub struct ThreadView {
    pub tid: u32,
    pub trap_frame: Frame,
    pub kernel_ctx: KernelContext,
    pub kernel_stack_top: u64,
    pub state: ThreadState,
}

impl View for Thread {
    type V = ThreadView;

    open spec fn view(&self) -> ThreadView {
        ThreadView {
            tid: self.tid,
            trap_frame: self.trap_frame@,
            kernel_ctx: self.kernel_ctx,
            kernel_stack_top: self.kernel_stack_top,
            state: self.state,
        }
    }
}

/// The frame with which user code starts.
pub open spec fn start_frame(entry: u64, sp: u64) -> Frame {
    Frame { x: Seq::new(31, |i: int| 0u64), sp, pc: entry, pstate: 0 }
}

impl Thread {
    /// A thread that enters user space at `entry` with stack `user_sp`.
    #[must_use]
    pub fn new_user(tid: u32, entry: u64, user_sp: u64, kernel_stack_top: u64) -> (r: Self)
        ensures
            r@ == (ThreadView {
                tid,
                trap_frame: start_frame(entry, user_sp),
                kernel_ctx: context(0, 0),
                kernel_stack_top,
                state: ThreadState::Ready,
            }),
    {
        Thread {
            tid,
            trap_frame: TrapFrame::new_user(entry, user_sp),
            kernel_ctx: KernelContext::zeroed(),
            kernel_stack_top,
            state: ThreadState::Ready,
        }
    }

    /// The idle thread: its first switch resumes at `idle_loop`, on its own
    /// stack.
    #[must_use]
    pub fn new_idle(tid: u32, kernel_stack_top: u64, idle_loop: u64) -> (r: Self)
        ensures
            r@ == (ThreadView {
                tid,
                trap_frame: start_frame(0, 0),
                kernel_ctx: context(idle_loop, kernel_stack_top),
                kernel_stack_top,
                state: ThreadState::Ready,
            }),
    {
        let mut ctx = KernelContext::zeroed();
        ctx.lr = idle_loop;
        ctx.sp = kernel_stack_top;
        Thread {
            tid,
            trap_frame: TrapFrame::new_user(0, 0),
            kernel_ctx: ctx,
            kernel_stack_top,
            state: ThreadState::Ready,
        }
    }
}

} // verus!
