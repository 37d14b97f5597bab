//! The executor's shared state and the operations that tasks, wakers, workers
//! and the reactor perform on it. Each operation is one step under exclusive
//! access; the caller supplies the locking, the threads and the system calls.
use vstd::prelude::*;
use crate::config::{FREELIST_MAX, MAX_TASK_SLOTS};
use crate::handle::gen_width;
use crate::reactor::{
    dispatch_spec, PollFd, Registration, Registry, register_spec, unregister_spec,
};
use crate::run_queue::{near_top, top_first, RunQueue, SCAN_LIMIT};
use crate::handle::index_of;
use crate::task_table::{
    claim_spec, empty_slot, finish_spec, generations_grow, lemma_parked_task_runs_again, live_count,
    names_slot, register_outcome, Advance, Claim, PollEnd, Slot, TaskTable,
};

verus! {

/// What a worker should do next.
pub enum Job<T> {
    /// Nothing is scheduled: block in the reactor.
    Idle,
    /// The handle taken names no task; nothing to do.
    Stale(u64),
    /// The handle's task is being advanced elsewhere; it will run again.
    Busy(u64),
    /// Advance the task; `finish_task` takes the outcome.
    Run(u64, T),
}

/// The job a worker gets for handle `h` claimed with result `c`.
pub open spec fn job_of<T>(h: u64, c: Claim<T>) -> Job<T> {
    match c {
        Claim::Stale => Job::Stale(h),
        Claim::Busy => Job::Busy(h),
        Claim::Run(t) => Job::Run(h, t),
    }
}

/// The wake counter after one more wake; it stops at its maximum.
pub open spec fn bumped(pending: usize) -> usize {
    if pending < usize::MAX {
        (pending + 1) as usize
    } else {
        pending
    }
}

/// The state shared by all workers: tasks of type `T`, wakers of type `W`.
pub struct Executor<T, W> {
    pub tasks: TaskTable<T>,
    pub queue: RunQueue,
    pub registry: Registry<W>,
    /// The event descriptor that unblocks the reactor, or -1 before it exists.
    pub eventfd: i32,
    /// Wakes since the reactor last drained the event descriptor.
    pub pending: usize,
    /// A further descriptor that workers may be asked to wait on, or -1.
    pub extra_wait_fd: i32,
}

impl<T, W> Executor<T, W> {
    pub open spec fn wf(&self) -> bool {
        self.tasks.wf() && self.queue.wf() && self.registry.wf()
    }

    /// An executor with `MAX_TASK_SLOTS` empty task slots.
    pub fn new() -> (ex: Self)
        ensures
            ex.wf(),
            ex.tasks@.len() == MAX_TASK_SLOTS,
            forall|i: int| 0 <= i < MAX_TASK_SLOTS ==> #[trigger] ex.tasks@[i] == empty_slot::<T>(),
            live_count(ex.tasks@) == 0,
            ex.queue@.len() == 0,
            ex.registry@.len() == 0,
            ex.eventfd == -1,
            ex.pending == 0,
            ex.extra_wait_fd == -1,
    {
        Self::with_capacity(MAX_TASK_SLOTS)
    }

    /// An executor with `capacity` empty task slots.
    pub fn with_capacity(capacity: usize) -> (ex: Self)
        requires
            capacity < gen_width(),
        ensures
            ex.wf(),
            ex.tasks@.len() == capacity,
            forall|i: int| 0 <= i < capacity ==> #[trigger] ex.tasks@[i] == empty_slot::<T>(),
            live_count(ex.tasks@) == 0,
            ex.tasks.spawned() == 0,
            ex.tasks.completed() == 0,
            ex.queue@ == Seq::<u64>::empty(),
            ex.registry@.len() == 0,
            ex.eventfd == -1,
            ex.pending == 0,
            ex.extra_wait_fd == -1,
    {
        let tasks = TaskTable::new(capacity);
        proof {
            assert forall|i: int| 0 <= i < capacity implies #[trigger] tasks@[i].state is Vacant by {
                assert(tasks@[i] == crate::task_table::empty_slot::<T>());
            }
            lemma_all_vacant(tasks@);
        }
        Executor {
            tasks,
            queue: RunQueue::new(FREELIST_MAX),
            registry: Registry::new(),
            eventfd: -1,
            pending: 0,
            extra_wait_fd: -1,
        }
    }

    /// Tasks registered and not yet completed.
    pub fn outstanding(&self) -> (n: usize)
        requires
            self.wf(),
        ensures
            n == live_count(self.tasks@),
    {
        self.tasks.live()
    }

    /// Registers `task` and schedules it, as `spawn_task` does.
    pub fn enqueue_task(&mut self, task: T) -> (r: Option<(u64, bool)>)
        requires
            old(self).wf(),
        ensures
            final(self).wf(),
            spawned(old(self), final(self), task, r),
    {
        spawn_task(self, task)
    }
}

proof fn lemma_all_vacant<T>(s: Seq<crate::task_table::Slot<T>>)
    requires
        forall|i: int| 0 <= i < s.len() ==> #[trigger] s[i].state is Vacant,
    ensures
        live_count(s) == 0,
    decreases s.len(),
{
    if s.len() > 0 {
        assert forall|i: int| 0 <= i < s.drop_last().len() implies #[trigger] s.drop_last()[i].state is Vacant by {
            assert(s.drop_last()[i] == s[i]);
        }
        lemma_all_vacant(s.drop_last());
    }
}

/// Everything but the task table is as it was.
pub open spec fn same_but_tasks<T, W>(a: &Executor<T, W>, b: &Executor<T, W>) -> bool {
    &&& b.queue@ == a.queue@
    &&& b.registry@ == a.registry@
    &&& b.eventfd == a.eventfd
    &&& b.pending == a.pending
    &&& b.extra_wait_fd == a.extra_wait_fd
}

/// Everything but the run queue and the wake counter is as it was.
pub open spec fn same_but_schedule<T, W>(a: &Executor<T, W>, b: &Executor<T, W>) -> bool {
    &&& b.tasks@ == a.tasks@
    &&& b.tasks.spawned() == a.tasks.spawned()
    &&& b.tasks.completed() == a.tasks.completed()
    &&& b.registry@ == a.registry@
    &&& b.eventfd == a.eventfd
    &&& b.extra_wait_fd == a.extra_wait_fd
}

/// `h` was scheduled on `a`, giving `b`; `signal` tells whether the event
/// descriptor must be written (the first wake since the last drain).
pub open spec fn woken<T, W>(a: &Executor<T, W>, b: &Executor<T, W>, h: u64, signal: bool) -> bool {
    &&& same_but_schedule(a, b)
    &&& b.queue@ == a.queue@.push(h)
    &&& signal == (a.pending == 0)
    &&& b.pending == bumped(a.pending)
}

/// `spawn_task(task)` on `a` gave `b` and `r`.
pub open spec fn spawned<T, W>(a: &Executor<T, W>, b: &Executor<T, W>, task: T, r: Option<(u64, bool)>) -> bool {
    &&& register_outcome(a.tasks@, b.tasks@, task, match r {
        Some(p) => Some(p.0),
        None => None,
    })
    &&& b.tasks.completed() == a.tasks.completed()
    &&& b.tasks.spawned() == a.tasks.spawned() + if r is Some {
        1nat
    } else {
        0nat
    }
    &&& b.registry@ == a.registry@
    &&& b.eventfd == a.eventfd
    &&& b.extra_wait_fd == a.extra_wait_fd
    &&& match r {
        Some((h, signal)) => {
            &&& b.queue@ == a.queue@.push(h)
            &&& signal == (a.pending == 0)
            &&& b.pending == bumped(a.pending)
        },
        None => b.queue@ == a.queue@ && b.pending == a.pending,
    }
}

/// Registers `task` in a free slot and returns its handle, without
/// scheduling it. `None` when every slot is taken.
pub fn register_task<T, W>(ex: &mut Executor<T, W>, task: T) -> (r: Option<u64>)
    requires
        old(ex).wf(),
    ensures
        final(ex).wf(),
        register_outcome(old(ex).tasks@, final(ex).tasks@, task, r),
        final(ex).tasks.spawned() == old(ex).tasks.spawned() + if r is Some {
            1nat
        } else {
            0nat
        },
        final(ex).tasks.completed() == old(ex).tasks.completed(),
        same_but_tasks(old(ex), final(ex)),
{
    ex.tasks.register_task(task)
}

/// Registers `task` and schedules its handle. Returns the handle and whether
/// the event descriptor must be written; `None` when every slot is taken.
pub fn spawn_task<T, W>(ex: &mut Executor<T, W>, task: T) -> (r: Option<(u64, bool)>)
    requires
        old(ex).wf(),
    ensures
        final(ex).wf(),
        spawned(old(ex), final(ex), task, r),
{
    match register_task(ex, task) {
        None => None,
        Some(h) => {
            let signal = wake_handle(ex, h);
            Some((h, signal))
        },
    }
}

/// Schedules handle `h` and counts the wake. Returns true exactly when no wake
/// was pending, that is when the event descriptor must be written.
pub fn wake_handle<T, W>(ex: &mut Executor<T, W>, h: u64) -> (signal: bool)
    requires
        old(ex).wf(),
    ensures
        final(ex).wf(),
        woken(old(ex), final(ex), h, signal),
{
    ex.queue.push(h);
    let signal = ex.pending == 0;
    if ex.pending < usize::MAX {
        ex.pending = ex.pending + 1;
    }
    signal
}

/// Takes the most recently scheduled handle, if any.
pub fn take_scheduled_task<T, W>(ex: &mut Executor<T, W>) -> (r: Option<u64>)
    requires
        old(ex).wf(),
    ensures
        final(ex).wf(),
        same_but_schedule(old(ex), final(ex)),
        final(ex).pending == old(ex).pending,
        old(ex).queue@.len() == 0 ==> r is None && final(ex).queue@ == old(ex).queue@,
        old(ex).queue@.len() > 0 ==> r == Some(old(ex).queue@.last()) && final(ex).queue@
            == old(ex).queue@.drop_last(),
{
    ex.queue.pop()
}

/// Whether `target` is among the `SCAN_LIMIT` most recently scheduled handles.
pub fn is_handle_scheduled<T, W>(ex: &Executor<T, W>, target: u64) -> (r: bool)
    requires
        ex.wf(),
    ensures
        r == near_top(ex.queue@, target, SCAN_LIMIT as nat),
{
    ex.queue.contains_near_top(target)
}

/// Up to `limit` scheduled handles, most recent first.
pub fn dump_scheduled<T, W>(ex: &Executor<T, W>, limit: usize) -> (r: Vec<u64>)
    requires
        ex.wf(),
    ensures
        r@ == top_first(ex.queue@, limit as nat),
{
    ex.queue.peek_top(limit)
}

/// A worker's next step: take the most recent handle and claim its task.
pub fn next_task<T, W>(ex: &mut Executor<T, W>) -> (r: Job<T>)
    requires
        old(ex).wf(),
    ensures
        final(ex).wf(),
        final(ex).registry@ == old(ex).registry@,
        final(ex).pending == old(ex).pending,
        final(ex).eventfd == old(ex).eventfd,
        final(ex).tasks.spawned() == old(ex).tasks.spawned(),
        final(ex).tasks.completed() == old(ex).tasks.completed(),
        generations_grow(old(ex).tasks@, final(ex).tasks@),
        old(ex).queue@.len() == 0 ==> r is Idle && final(ex).queue@ == old(ex).queue@
            && final(ex).tasks@ == old(ex).tasks@,
        old(ex).queue@.len() > 0 ==> {
            let h = old(ex).queue@.last();
            let (slots, c) = claim_spec(old(ex).tasks@, h);
            &&& final(ex).queue@ == old(ex).queue@.drop_last()
            &&& final(ex).tasks@ == slots
            &&& r == job_of(h, c)
        },
{
    match take_scheduled_task(ex) {
        None => Job::Idle,
        Some(h) => match ex.tasks.begin_poll(h) {
            Claim::Stale => Job::Stale(h),
            Claim::Busy => Job::Busy(h),
            Claim::Run(t) => Job::Run(h, t),
        },
    }
}

/// Hands back the outcome of advancing the task named by `h`. A task that was
/// claimed again while it ran is parked and scheduled once more. Returns what
/// became of the task and whether the event descriptor must be written.
pub fn finish_task<T, W>(ex: &mut Executor<T, W>, h: u64, adv: Advance<T>) -> (r: (PollEnd, bool))
    requires
        old(ex).wf(),
    ensures
        final(ex).wf(),
        (final(ex).tasks@, r.0) == finish_spec(old(ex).tasks@, h, adv),
        final(ex).tasks.spawned() == old(ex).tasks.spawned(),
        final(ex).tasks.completed() == old(ex).tasks.completed() + if r.0 == PollEnd::Completed {
            1nat
        } else {
            0nat
        },
        final(ex).registry@ == old(ex).registry@,
        final(ex).eventfd == old(ex).eventfd,
        r.0 == PollEnd::Rewoken ==> {
            &&& final(ex).queue@ == old(ex).queue@.push(h)
            &&& r.1 == (old(ex).pending == 0)
            &&& final(ex).pending == bumped(old(ex).pending)
        },
        r.0 != PollEnd::Rewoken ==> final(ex).queue@ == old(ex).queue@ && !r.1 && final(ex).pending
            == old(ex).pending,
{
    let end = ex.tasks.end_poll(h, adv);
    match end {
        PollEnd::Rewoken => {
            let signal = wake_handle(ex, h);
            (end, signal)
        },
        _ => (end, false),
    }
}

/// Adds waker `w` for readiness of `fd` on `events`.
pub fn register_fd_waker<T, W>(ex: &mut Executor<T, W>, fd: i32, events: i16, w: W)
    requires
        old(ex).wf(),
    ensures
        final(ex).wf(),
        final(ex).registry@ == register_spec(old(ex).registry@, fd, events, w),
        same_but_registry(old(ex), final(ex)),
{
    ex.registry.register(fd, events, w);
}

/// Drops every registration for `fd`. The caller then writes the event
/// descriptor so that the reactor rebuilds its poll set.
pub fn unregister_fd<T, W>(ex: &mut Executor<T, W>, fd: i32)
    requires
        old(ex).wf(),
    ensures
        final(ex).wf(),
        final(ex).registry@ == unregister_spec(old(ex).registry@, fd),
        same_but_registry(old(ex), final(ex)),
{
    ex.registry.unregister(fd);
}

/// Everything but the registry is as it was.
pub open spec fn same_but_registry<T, W>(a: &Executor<T, W>, b: &Executor<T, W>) -> bool {
    &&& b.tasks@ == a.tasks@
    &&& b.tasks.spawned() == a.tasks.spawned()
    &&& b.tasks.completed() == a.tasks.completed()
    &&& b.queue@ == a.queue@
    &&& b.eventfd == a.eventfd
    &&& b.pending == a.pending
    &&& b.extra_wait_fd == a.extra_wait_fd
}

/// Each registered descriptor with its event mask, in registry order.
pub fn fd_snapshot<T, W>(ex: &Executor<T, W>) -> (r: Vec<(i32, i16)>)
    ensures
        r@.len() == ex.registry@.len(),
        forall|k: int|
            0 <= k < r@.len() ==> #[trigger] r@[k] == (ex.registry@[k].fd, ex.registry@[k].events),
{
    ex.registry.snapshot()
}

/// The poll results `fds` without their first entry, the event descriptor's.
pub open spec fn registered_results(fds: Seq<PollFd>) -> Seq<PollFd> {
    if fds.len() == 0 {
        fds
    } else {
        fds.subrange(1, fds.len() as int)
    }
}

/// Delivers one round of poll results. `fds[0]` is the event descriptor's
/// entry: when it is ready the wake counter is reset and the first component
/// of the result asks the caller to drain the descriptor. Every later ready
/// entry detaches its descriptor's record; their wakers are returned, in
/// order, for the caller to invoke.
pub fn schedule_ready<T, W>(ex: &mut Executor<T, W>, fds: &Vec<PollFd>) -> (r: (bool, Vec<W>))
    requires
        old(ex).wf(),
    ensures
        final(ex).wf(),
        r.0 == (fds@.len() > 0 && fds@[0].revents != 0),
        final(ex).pending == if r.0 {
            0
        } else {
            old(ex).pending
        },
        (final(ex).registry@, r.1@) == dispatch_spec(old(ex).registry@, registered_results(fds@)),
        final(ex).tasks@ == old(ex).tasks@,
        final(ex).tasks.spawned() == old(ex).tasks.spawned(),
        final(ex).tasks.completed() == old(ex).tasks.completed(),
        final(ex).queue@ == old(ex).queue@,
        final(ex).eventfd == old(ex).eventfd,
{
    if fds.len() == 0 {
        assert(dispatch_spec(ex.registry@, registered_results(fds@)) == (ex.registry@, Seq::<W>::empty()));
        return (false, Vec::new());
    }
    let drain = fds[0].revents != 0;
    if drain {
        ex.pending = 0;
    }
    let wakers = ex.registry.dispatch(fds, 1);
    (drain, wakers)
}

/// Settles the wake counter after reading `count` from the event descriptor.
/// Returns true when wakes arrived beyond those read, so that the descriptor
/// must be written again.
pub fn note_eventfd_read<T, W>(ex: &mut Executor<T, W>, count: u64) -> (again: bool)
    ensures
        again == (old(ex).pending as int > count as int),
        final(ex).pending == if again {
            (old(ex).pending - count) as usize
        } else {
            0
        },
        final(ex).tasks == old(ex).tasks,
        final(ex).queue == old(ex).queue,
        final(ex).registry == old(ex).registry,
        final(ex).eventfd == old(ex).eventfd,
        final(ex).extra_wait_fd == old(ex).extra_wait_fd,
{
    let prev = ex.pending as u64;
    if prev > count {
        ex.pending = (prev - count) as usize;
        true
    } else {
        ex.pending = 0;
        false
    }
}

/// Installs a freshly created event descriptor `created` (negative when
/// creation failed). Returns the descriptor to use, -1 if there is none, and
/// a descriptor to close: `created`, when one was already installed.
pub fn ensure_eventfd<T, W>(ex: &mut Executor<T, W>, created: i32) -> (r: (i32, Option<i32>))
    ensures
        old(ex).eventfd >= 0 ==> {
            &&& final(ex).eventfd == old(ex).eventfd
            &&& r.0 == old(ex).eventfd
            &&& r.1 == if created >= 0 {
                Some(created)
            } else {
                None::<i32>
            }
        },
        old(ex).eventfd < 0 && created >= 0 ==> final(ex).eventfd == created && r == (created, None::<i32>),
        old(ex).eventfd < 0 && created < 0 ==> final(ex).eventfd == old(ex).eventfd && r == (-1i32, None::<i32>),
        final(ex).tasks == old(ex).tasks,
        final(ex).queue == old(ex).queue,
        final(ex).registry == old(ex).registry,
        final(ex).pending == old(ex).pending,
        final(ex).extra_wait_fd == old(ex).extra_wait_fd,
{
    if ex.eventfd >= 0 {
        if created >= 0 {
            (ex.eventfd, Some(created))
        } else {
            (ex.eventfd, None)
        }
    } else if created >= 0 {
        ex.eventfd = created;
        (created, None)
    } else {
        (-1, None)
    }
}

/// Forgets the event descriptor and returns it, if there was one, to be closed.
pub fn close_eventfd<T, W>(ex: &mut Executor<T, W>) -> (r: Option<i32>)
    ensures
        final(ex).eventfd == -1,
        r == if old(ex).eventfd >= 0 {
            Some(old(ex).eventfd)
        } else {
            None::<i32>
        },
        final(ex).tasks == old(ex).tasks,
        final(ex).queue == old(ex).queue,
        final(ex).registry == old(ex).registry,
        final(ex).pending == old(ex).pending,
        final(ex).extra_wait_fd == old(ex).extra_wait_fd,
{
    let fd = ex.eventfd;
    ex.eventfd = -1;
    if fd >= 0 {
        Some(fd)
    } else {
        None
    }
}

/// The installed event descriptor, or -1.
pub fn get_eventfd<T, W>(ex: &Executor<T, W>) -> (r: i32)
    ensures
        r == ex.eventfd,
{
    ex.eventfd
}

/// Records a further descriptor for workers to wait on.
pub fn set_extra_wait_fd<T, W>(ex: &mut Executor<T, W>, fd: i32)
    ensures
        final(ex).extra_wait_fd == fd,
        final(ex).tasks == old(ex).tasks,
        final(ex).queue == old(ex).queue,
        final(ex).registry == old(ex).registry,
        final(ex).pending == old(ex).pending,
        final(ex).eventfd == old(ex).eventfd,
{
    ex.extra_wait_fd = fd;
}

/// The further descriptor to wait on, or -1.
pub fn get_extra_wait_fd<T, W>(ex: &Executor<T, W>) -> (r: i32)
    ensures
        r == ex.extra_wait_fd,
{
    ex.extra_wait_fd
}

/// A task that parks is advanced again once a waker fires: after it parks,
/// waking its handle puts the handle on top of the run queue, and the next
/// worker step (`next_task`) takes that handle and gets the task to advance.
pub proof fn lemma_woken_task_runs_again<T>(slots: Seq<Slot<T>>, queue: Seq<u64>, h: u64, t: T)
    requires
        names_slot(slots, h),
        slots[index_of(h as nat) as int].state is Running,
    ensures
        ({
            let (s1, end) = finish_spec(slots, h, Advance::Pending(t));
            let q1 = queue.push(h);
            &&& end == PollEnd::Parked || end == PollEnd::Rewoken
            &&& q1.last() == h
            &&& job_of(q1.last(), claim_spec(s1, q1.last()).1) == Job::Run(h, t)
        }),
{
    lemma_parked_task_runs_again(slots, h, t);
}

} // verus!
