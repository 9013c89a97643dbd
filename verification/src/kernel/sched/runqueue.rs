//! The queue of threads that are ready, and the switch to the next one.

use crate::kernel::sched::thread::{Thread, ThreadState, ThreadView};
use std::collections::VecDeque;
use vstd::prelude::*;

verus! {

/// Threads that are ready, by their places in the table, in the order in which
/// they became so.
pub struct RunQueue {
    queue: VecDeque<usize>,
}

impl View for RunQueue {
    type V = Seq<usize>;

    closed spec fn view(&self) -> Seq<usize> {
        self.queue@
    }
}

impl RunQueue {
    /// A queue without threads.
    #[must_use]
    pub fn new() -> (r: Self)
        ensures
            r@ == Seq::<usize>::empty(),
    {
        RunQueue { queue: VecDeque::new() }
    }

    /// Adds a thread at the back.
    pub fn push(&mut self, thread: usize)
        ensures
            final(self)@ == old(self)@.push(thread),
    {
        self.queue.push_back(thread);
    }

    /// Takes the thread at the front.
    pub fn pop_next(&mut self) -> (r: Option<usize>)
        ensures
            match r {
                Some(t) => {
                    &&& old(self)@.len() > 0
                    &&& t == old(self)@[0]
                    &&& final(self)@ == old(self)@.drop_first()
                },
                None => old(self)@.len() == 0 && final(self)@ == old(self)@,
            },
    {
        let r = self.queue.pop_front();
        if r.is_some() {
            assert(self@ =~= old(self)@.drop_first());
        }
        r
    }
}

impl Default for RunQueue {
    fn default() -> (r: Self)
        ensures
            r@ == Seq::<usize>::empty(),
    {
        Self::new()
    }
}

/// The threads, the queue of those that are ready, and the one that runs.
pub struct Scheduler {
    /// All threads.
    pub threads: Vec<Thread>,
    /// The queue, once it is set up.
    pub runqueue: Option<RunQueue>,
    /// The thread that runs, if there is one.
    pub current: Option<usize>,
}

/// What a `Scheduler` holds.
#[verifier::ext_equal]
pub struct SchedulerView {
    pub threads: Seq<ThreadView>,
    pub queue: Option<Seq<usize>>,
    pub current: Option<usize>,
}

impl View for Scheduler {
    type V = SchedulerView;

    open spec fn view(&self) -> SchedulerView {
        SchedulerView {
            threads: Seq::new(self.threads@.len(), |i: int| self.threads@[i]@),
            queue: match self.runqueue {
                Some(q) => Some(q@),
                None => None,
            },
            current: self.current,
        }
    }
}

/// The processor's change from one thread to another.
#[derive(Clone, Copy, Debug, PartialEq, Eq, Structural)]
pub struct Switch {
    /// The thread whose registers are saved, if there is one.
    pub from: Option<usize>,
    /// The thread whose registers are loaded.
    pub to: usize,
}

/// Whether all places in a queue are places in a table of `n` threads.
pub open spec fn in_table(q: Seq<usize>, n: nat) -> bool {
    forall|i: int| 0 <= i < q.len() ==> (#[trigger] q[i]) < n
}

impl SchedulerView {
    /// Whether the thread that runs and those in the queue are in the table.
    pub open spec fn wf(self) -> bool {
        &&& match self.current {
            Some(c) => c < self.threads.len(),
            None => true,
        }
        &&& match self.queue {
            Some(q) => in_table(q, self.threads.len()),
            None => true,
        }
    }

    /// With a thread in another state.
    pub open spec fn set(self, t: int, state: ThreadState) -> SchedulerView {
        SchedulerView {
            threads: self.threads.update(t, ThreadView { state, ..self.threads[t] }),
            ..self
        }
    }

    /// Whether the thread that runs goes on living.
    pub open spec fn lives(self) -> bool {
        self.current matches Some(c) && self.threads[c as int].state != ThreadState::Dead
    }

    /// With the thread that runs marked as ready, unless it is dead.
    pub open spec fn parked(self) -> SchedulerView {
        if self.lives() {
            self.set(self.current->0 as int, ThreadState::Ready)
        } else {
            self
        }
    }

    /// What follows when the processor is given up: the thread that runs is
    /// ready and goes to the back of the queue, unless it is dead, and the one at
    /// the front runs. With an empty queue there is no switch.
    pub open spec fn scheduled(self) -> (SchedulerView, Option<Switch>) {
        match self.queue {
            None => (self, None),
            Some(q) => if q.len() == 0 {
                (self.parked(), None)
            } else {
                let next = q[0];
                let rest = q.drop_first();
                (
                    SchedulerView {
                        queue: Some(
                            if self.lives() {
                                rest.push(self.current->0)
                            } else {
                                rest
                            },
                        ),
                        current: Some(next),
                        ..self.parked().set(next as int, ThreadState::Running)
                    },
                    Some(Switch { from: self.current, to: next }),
                )
            },
        }
    }
}

/// Sets the queue up, unless that has been done.
pub fn init_runqueue(s: &mut Scheduler)
    ensures
        final(s)@ == (SchedulerView {
            queue: match old(s)@.queue {
                Some(q) => Some(q),
                None => Some(Seq::empty()),
            },
            ..old(s)@
        }),
{
    if s.runqueue.is_none() {
        s.runqueue = Some(RunQueue::new());
    }
}

/// Puts a thread into another state.
fn set_state(s: &mut Scheduler, t: usize, state: ThreadState)
    requires
        t < old(s)@.threads.len(),
    ensures
        final(s)@ == old(s)@.set(t as int, state),
{
    let thread = &mut s.threads[t];
    thread.state = state;
    assert(s@.threads =~= old(s)@.set(t as int, state).threads);
}

/// Picks the thread that runs next. The switch that is returned is for the
/// caller to carry out.
pub fn schedule(s: &mut Scheduler) -> (r: Option<Switch>)
    requires
        old(s)@.wf(),
    ensures
        final(s)@.wf(),
        (final(s)@, r) == old(s)@.scheduled(),
{
    let mut q: RunQueue = match s.runqueue.take() {
        Some(q) => q,
        None => {
            return None;
        },
    };
    let ghost ready = q@;
    assert(old(s)@.queue == Some(ready));
    assert(s@.threads =~= old(s)@.threads);
    assert(in_table(ready, s@.threads.len()));
    let from: Option<usize> = s.current;
    let next: Option<usize> = q.pop_next();
    if let Some(to) = next {
        assert(ready[0] == to);
        assert(in_table(q@, s@.threads.len()));
    }
    if let Some(c) = from {
        if s.threads[c].state != ThreadState::Dead {
            set_state(s, c, ThreadState::Ready);
            if next.is_some() {
                q.push(c);
            }
        }
    }
    s.runqueue = Some(q);
    match next {
        None => None,
        Some(to) => {
            set_state(s, to, ThreadState::Running);
            s.current = Some(to);
            Some(Switch { from, to })
        },
    }
}

/// Gives the processor up to the next thread that is ready.
pub fn yield_now(s: &mut Scheduler) -> (r: Option<Switch>)
    requires
        old(s)@.wf(),
    ensures
        final(s)@.wf(),
        (final(s)@, r) == old(s)@.scheduled(),
{
    schedule(s)
}

/// Which threads are ready or running.
pub open spec fn alive(s: SchedulerView) -> Seq<usize> {
    let waiting = match s.queue {
        Some(q) => q,
        None => Seq::empty(),
    };
    if s.lives() {
        seq![s.current->0] + waiting
    } else {
        waiting
    }
}

/// Giving the processor up loses no thread and makes none: those that are ready
/// or running afterwards are the ones that were, the thread that ran behind all
/// the others. So each gets its turn.
pub proof fn law_no_thread_is_lost(s: SchedulerView)
    requires
        s.wf(),
        s.queue matches Some(q) && q.len() > 0 && forall|i: int|
            #![trigger q[i]]
            0 <= i < q.len() ==> s.current != Some(q[i]) && s.threads[q[i] as int].state
                != ThreadState::Dead,
    ensures
        alive(s.scheduled().0) == if s.lives() {
            alive(s).drop_first().push(s.current->0)
        } else {
            alive(s)
        },
        s.scheduled().1 matches Some(w) && w.to == s.queue->0[0] && w.from == s.current,
{
    let q = s.queue->0;
    let next = q[0];
    let after = s.scheduled().0;
    assert(after.lives());
    assert(q =~= seq![next] + q.drop_first());
    if s.lives() {
        assert(alive(s).drop_first() =~= q);
        assert(alive(after) =~= q.push(s.current->0));
    } else {
        assert(alive(after) =~= q);
    }
}

/// The queue is first in, first out: a thread that is added at the back comes out
/// after all those before it.
pub proof fn law_fifo(q: Seq<usize>, t: usize)
    ensures
        q.push(t)[q.len() as int] == t,
        q.len() > 0 ==> q.push(t)[0] == q[0] && q.push(t).drop_first() == q.drop_first().push(t),
{
    if q.len() > 0 {
        assert(q.push(t).drop_first() =~= q.drop_first().push(t));
    }
}

/// A switch leaves all threads as they are but for their states: the one that ran
/// is ready, unless it is dead, the next one runs, and all others are in the
/// state they were in.
pub proof fn law_switch_changes_states(s: SchedulerView, t: usize)
    requires
        s.wf(),
        s.queue matches Some(q) && q.len() > 0 && s.current != Some(q[0]),
        t < s.threads.len(),
    ensures
        ({
            let (n, w) = s.scheduled();
            let next = s.queue->0[0];
            let before = s.threads[t as int];
            let after = n.threads[t as int];
            &&& w is Some
            &&& n.current == Some(next)
            &&& n.threads.len() == s.threads.len()
            &&& after.tid == before.tid
            &&& after.trap_frame == before.trap_frame
            &&& after.kernel_ctx == before.kernel_ctx
            &&& after.kernel_stack_top == before.kernel_stack_top
            &&& t == next ==> after.state == ThreadState::Running
            &&& s.current == Some(t) && before.state != ThreadState::Dead ==> after.state
                == ThreadState::Ready
            &&& s.current == Some(t) && before.state == ThreadState::Dead ==> after.state
                == ThreadState::Dead
            &&& t != next && s.current != Some(t) ==> after.state == before.state
        }),
{
}

/// With no other thread ready there is no switch: the thread that runs goes on,
/// and the queue stays empty.
pub proof fn law_nobody_else_is_ready(s: SchedulerView)
    requires
        s.wf(),
        s.queue matches Some(q) ==> q.len() == 0,
    ensures
        s.scheduled().1 is None,
        s.scheduled().0.current == s.current,
        s.scheduled().0.queue == s.queue,
        s.scheduled().0.threads.len() == s.threads.len(),
{
}

} // verus!
