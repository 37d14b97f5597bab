//! The task table: a fixed array of slots, each holding at most one task and a
//! generation counter, with a stack of slot indices freed by completed tasks.
//!
//! Polling a task is split in two: `begin_poll` takes the task out of its slot
//! (the slot is then `Running`), the caller advances it, and `end_poll` either
//! parks it again or frees the slot. A claim that arrives while the task is out
//! is remembered, so that the task is advanced once more after it parks.
use vstd::prelude::*;
use crate::handle::{
    encode_handle, gen_width, handle_generation, handle_index, handle_of, index_of, tag_of,
    lemma_handle_round_trip,
};

verus! {

/// What a slot holds.
pub enum SlotState<T> {
    /// No task.
    Vacant,
    /// A task waiting to be advanced.
    Parked(T),
    /// The task is being advanced; the flag records a claim made meanwhile.
    Running(bool),
}

pub struct Slot<T> {
    pub generation: u64,
    pub state: SlotState<T>,
}

/// Result of claiming a handle for polling.
pub enum Claim<T> {
    /// The handle names no task: its slot is empty or reassigned.
    Stale,
    /// The task is being advanced elsewhere; it will be advanced again.
    Busy,
    /// The task, taken out of its slot for advancing.
    Run(T),
}

/// What advancing a task produced.
pub enum Advance<T> {
    Pending(T),
    Completed,
}

/// What `end_poll` did with a task handed back.
#[derive(PartialEq, Eq, Structural, Clone, Copy, Debug)]
pub enum PollEnd {
    /// Parked until a waker schedules it.
    Parked,
    /// Parked, and claimed while it ran: it must be scheduled again.
    Rewoken,
    /// Completed; its slot is free.
    Completed,
    /// The handle did not name a running task; nothing changed.
    Ignored,
}

pub open spec fn is_occupied<T>(s: Slot<T>) -> bool {
    !(s.state is Vacant)
}

/// A slot that can take a new task: empty, with its generation not exhausted.
pub open spec fn is_usable<T>(s: Slot<T>) -> bool {
    s.state is Vacant && s.generation < u64::MAX
}

/// Number of occupied slots.
pub open spec fn live_count<T>(s: Seq<Slot<T>>) -> nat
    decreases s.len(),
{
    if s.len() == 0 {
        0
    } else {
        live_count(s.drop_last()) + if is_occupied(s.last()) {
            1nat
        } else {
            0nat
        }
    }
}

/// A slot at `generation` accepts a handle tagged `tag`: the tag is the
/// generation the handle was issued under, or one step behind it.
pub open spec fn tag_accepts(generation: nat, tag: nat) -> bool {
    generation % gen_width() == tag || generation % gen_width() == (tag + 1) % gen_width()
}

/// `h` points into the table and its tag matches the slot's generation.
pub open spec fn names_slot<T>(slots: Seq<Slot<T>>, h: u64) -> bool {
    &&& index_of(h as nat) < slots.len()
    &&& tag_accepts(slots[index_of(h as nat) as int].generation as nat, tag_of(h as nat))
}

/// Slots and result after claiming `h`.
pub open spec fn claim_spec<T>(slots: Seq<Slot<T>>, h: u64) -> (Seq<Slot<T>>, Claim<T>) {
    let i = index_of(h as nat) as int;
    if !names_slot(slots, h) {
        (slots, Claim::Stale)
    } else {
        match slots[i].state {
            SlotState::Vacant => (slots, Claim::Stale),
            SlotState::Running(_) => (
                slots.update(
                    i,
                    Slot { generation: slots[i].generation, state: SlotState::Running(true) },
                ),
                Claim::Busy,
            ),
            SlotState::Parked(t) => (
                slots.update(
                    i,
                    Slot { generation: slots[i].generation, state: SlotState::Running(false) },
                ),
                Claim::Run(t),
            ),
        }
    }
}

/// Slots and result after handing back the outcome of advancing `h`.
pub open spec fn finish_spec<T>(slots: Seq<Slot<T>>, h: u64, adv: Advance<T>) -> (
    Seq<Slot<T>>,
    PollEnd,
) {
    let i = index_of(h as nat) as int;
    if !names_slot(slots, h) {
        (slots, PollEnd::Ignored)
    } else {
        match slots[i].state {
            SlotState::Running(rewoken) => match adv {
                Advance::Completed => (
                    slots.update(i, Slot { generation: slots[i].generation, state: SlotState::Vacant }),
                    PollEnd::Completed,
                ),
                Advance::Pending(t) => (
                    slots.update(i, Slot { generation: slots[i].generation, state: SlotState::Parked(t) }),
                    if rewoken {
                        PollEnd::Rewoken
                    } else {
                        PollEnd::Parked
                    },
                ),
            },
            _ => (slots, PollEnd::Ignored),
        }
    }
}

/// A slot as a new table has it.
pub open spec fn empty_slot<T>() -> Slot<T> {
    Slot { generation: 0, state: SlotState::Vacant }
}

/// `s` with `task` stored in slot `i` and that slot's generation advanced.
pub open spec fn assign_slot<T>(s: Seq<Slot<T>>, i: int, task: T) -> Seq<Slot<T>> {
    s.update(i, Slot { generation: (s[i].generation + 1) as u64, state: SlotState::Parked(task) })
}

/// Registering `task` in `before` gave `after` and `r`: on `Some(h)`, `h`
/// names a slot that could take a task, at the generation it had, and the task
/// is stored there under the next generation; on `None` no slot could take it
/// and nothing changed.
pub open spec fn register_outcome<T>(
    before: Seq<Slot<T>>,
    after: Seq<Slot<T>>,
    task: T,
    r: Option<u64>,
) -> bool {
    match r {
        Some(h) => {
            let i = index_of(h as nat) as int;
            &&& i < before.len()
            &&& is_usable(before[i])
            &&& h as nat == handle_of(i as nat, before[i].generation as nat)
            &&& after == assign_slot(before, i, task)
        },
        None => {
            &&& forall|i: int| 0 <= i < before.len() ==> !is_usable(#[trigger] before[i])
            &&& after == before
        },
    }
}

/// No slot's generation went down, and the table kept its size.
pub open spec fn generations_grow<T>(a: Seq<Slot<T>>, b: Seq<Slot<T>>) -> bool {
    &&& a.len() == b.len()
    &&& forall|i: int| 0 <= i < a.len() ==> #[trigger] a[i].generation <= b[i].generation
}

pub proof fn lemma_live_count_update<T>(s: Seq<Slot<T>>, i: int, x: Slot<T>)
    requires
        0 <= i < s.len(),
    ensures
        live_count(s.update(i, x)) + (if is_occupied(s[i]) { 1nat } else { 0nat }) == live_count(s)
            + (if is_occupied(x) { 1nat } else { 0nat }),
    decreases s.len(),
{
    let u = s.update(i, x);
    if i == s.len() - 1 {
        assert(u.drop_last() =~= s.drop_last());
    } else {
        lemma_live_count_update(s.drop_last(), i, x);
        assert(u.drop_last() =~= s.drop_last().update(i, x));
    }
}

pub proof fn lemma_live_count_bound<T>(s: Seq<Slot<T>>)
    ensures
        live_count(s) <= s.len(),
    decreases s.len(),
{
    if s.len() > 0 {
        lemma_live_count_bound(s.drop_last());
    }
}

pub struct TaskTable<T> {
    slots: Vec<Slot<T>>,
    free: Vec<usize>,
    live: usize,
    spawned: Ghost<nat>,
    completed: Ghost<nat>,
}

impl<T> View for TaskTable<T> {
    type V = Seq<Slot<T>>;

    closed spec fn view(&self) -> Seq<Slot<T>> {
        self.slots@
    }
}

impl<T> TaskTable<T> {
    /// Tasks registered over the table's lifetime.
    pub closed spec fn spawned(&self) -> nat {
        self.spawned@
    }

    /// Tasks whose advance returned `Completed` over the table's lifetime.
    pub closed spec fn completed(&self) -> nat {
        self.completed@
    }

    pub closed spec fn wf(&self) -> bool {
        &&& self.slots@.len() < gen_width()
        &&& forall|k: int| 0 <= k < self.free@.len() ==> #[trigger] self.free@[k] < self.slots@.len()
        &&& self.live as nat == live_count(self.slots@)
        &&& self.spawned@ == self.completed@ + self.live
    }

    /// A table of `capacity` empty slots, all at generation zero.
    pub fn new(capacity: usize) -> (t: Self)
        requires
            capacity < gen_width(),
        ensures
            t.wf(),
            t@.len() == capacity,
            forall|i: int| 0 <= i < capacity ==> #[trigger] t@[i] == empty_slot::<T>(),
            t.spawned() == 0,
            t.completed() == 0,
    {
        let mut slots: Vec<Slot<T>> = Vec::new();
        let mut i: usize = 0;
        while i < capacity
            invariant
                i <= capacity,
                slots@.len() == i,
                forall|j: int| 0 <= j < i ==> #[trigger] slots@[j] == empty_slot::<T>(),
                live_count(slots@) == 0,
            decreases capacity - i,
        {
            let ghost prev = slots@;
            slots.push(Slot { generation: 0, state: SlotState::Vacant });
            assert(slots@.drop_last() =~= prev);
            i = i + 1;
        }
        TaskTable { slots, free: Vec::new(), live: 0, spawned: Ghost(0), completed: Ghost(0) }
    }

    /// Number of slots.
    pub fn capacity(&self) -> (n: usize)
        ensures
            n == self@.len(),
    {
        self.slots.len()
    }

    /// Number of occupied slots: tasks registered and not yet completed.
    pub fn live(&self) -> (n: usize)
        requires
            self.wf(),
        ensures
            n == live_count(self@),
    {
        self.live
    }

    /// The generation counter of slot `i`.
    pub fn generation(&self, i: usize) -> (g: u64)
        requires
            i < self@.len(),
        ensures
            g == self@[i as int].generation,
    {
        self.slots[i].generation
    }

    fn slot_usable(&self, i: usize) -> (b: bool)
        requires
            i < self@.len(),
        ensures
            b == is_usable(self@[i as int]),
    {
        match self.slots[i].state {
            SlotState::Vacant => self.slots[i].generation < u64::MAX,
            _ => false,
        }
    }

    /// Stores `task` in an empty slot, advancing the slot's generation by one,
    /// and returns the handle that names it. Which empty slot is the table's
    /// choice (recently freed slots are preferred). Returns `None`, dropping
    /// the task, exactly when no slot can take it.
    pub fn register_task(&mut self, task: T) -> (r: Option<u64>)
        requires
            old(self).wf(),
        ensures
            final(self).wf(),
            generations_grow(old(self)@, final(self)@),
            register_outcome(old(self)@, final(self)@, task, r),
            final(self).spawned() == old(self).spawned() + if r is Some {
                1nat
            } else {
                0nat
            },
            final(self).completed() == old(self).completed(),
    {
        let mut chosen: Option<usize> = None;
        loop
            invariant
                self.slots@ == old(self).slots@,
                self.live == old(self).live,
                self.spawned == old(self).spawned,
                self.completed == old(self).completed,
                forall|k: int| 0 <= k < self.free@.len() ==> #[trigger] self.free@[k] < self.slots@.len(),
                chosen matches Some(c) ==> c < self.slots@.len() && is_usable(self.slots@[c as int]),
            decreases self.free@.len(),
        {
            match self.free.pop() {
                None => {
                    break;
                },
                Some(i) => {
                    if self.slot_usable(i) {
                        chosen = Some(i);
                        break;
                    }
                },
            }
        }
        if chosen.is_none() {
            let mut i: usize = 0;
            while i < self.slots.len() && chosen.is_none()
                invariant
                    i <= self.slots@.len(),
                    chosen is None ==> forall|j: int|
                        0 <= j < i ==> !is_usable(#[trigger] self.slots@[j]),
                    chosen matches Some(c) ==> c < self.slots@.len() && is_usable(
                        self.slots@[c as int],
                    ),
                decreases self.slots@.len() - i,
            {
                if self.slot_usable(i) {
                    chosen = Some(i);
                }
                i = i + 1;
            }
        }
        match chosen {
            None => None,
            Some(i) => {
                let g = self.slots[i].generation;
                let ghost before = self.slots@;
                let new_slot = Slot { generation: g + 1, state: SlotState::Parked(task) };
                proof {
                    lemma_live_count_update(before, i as int, new_slot);
                    lemma_live_count_bound(before.update(i as int, new_slot));
                }
                self.slots.set(i, new_slot);
                self.live = self.live + 1;
                self.spawned = Ghost(self.spawned@ + 1);
                let h = encode_handle(i as u64, g);
                proof {
                    lemma_handle_round_trip(i as nat, g as nat);
                }
                Some(h)
            },
        }
    }

    fn accepts(&self, h: u64) -> (r: Option<usize>)
        ensures
            match r {
                Some(i) => names_slot(self@, h) && i as nat == index_of(h as nat),
                None => !names_slot(self@, h),
            },
    {
        let idx = handle_index(h);
        let tag = handle_generation(h);
        if idx >= self.slots.len() as u64 {
            return None;
        }
        let i = idx as usize;
        let cur = self.slots[i].generation;
        let low = cur & 0xFFFF_FFFFu64;
        let next = if tag == 0xFFFF_FFFFu64 {
            0
        } else {
            tag + 1
        };
        assert(low == cur % 0x1_0000_0000) by (bit_vector)
            requires
                low == cur & 0xFFFF_FFFFu64,
        ;
        if low == tag || low == next {
            Some(i)
        } else {
            None
        }
    }

    /// Claims the task named by `h` for advancing (the first half of polling
    /// a handle). A stale handle changes nothing.
    pub fn begin_poll(&mut self, h: u64) -> (r: Claim<T>)
        requires
            old(self).wf(),
        ensures
            final(self).wf(),
            (final(self)@, r) == claim_spec(old(self)@, h),
            generations_grow(old(self)@, final(self)@),
            final(self).spawned() == old(self).spawned(),
            final(self).completed() == old(self).completed(),
    {
        let i = match self.accepts(h) {
            None => {
                return Claim::Stale;
            },
            Some(i) => i,
        };
        let g = self.slots[i].generation;
        let ghost before = self.slots@;
        let mut cur = Slot { generation: g, state: SlotState::Vacant };
        self.slots.set_and_swap(i, &mut cur);
        match cur.state {
            SlotState::Vacant => {
                assert(self.slots@ =~= before);
                Claim::Stale
            },
            SlotState::Running(_) => {
                let s = Slot { generation: g, state: SlotState::Running(true) };
                proof {
                    lemma_live_count_update(before, i as int, s);
                }
                self.slots.set(i, s);
                assert(self.slots@ =~= before.update(i as int, s));
                Claim::Busy
            },
            SlotState::Parked(t) => {
                let s = Slot { generation: g, state: SlotState::Running(false) };
                proof {
                    lemma_live_count_update(before, i as int, s);
                }
                self.slots.set(i, s);
                assert(self.slots@ =~= before.update(i as int, s));
                Claim::Run(t)
            },
        }
    }

    /// Hands back the outcome of advancing the task named by `h` (the second
    /// half of polling). A completed task frees its slot, whose index goes on
    /// the free stack; a pending one is parked again.
    pub fn end_poll(&mut self, h: u64, adv: Advance<T>) -> (r: PollEnd)
        requires
            old(self).wf(),
        ensures
            final(self).wf(),
            (final(self)@, r) == finish_spec(old(self)@, h, adv),
            generations_grow(old(self)@, final(self)@),
            final(self).spawned() == old(self).spawned(),
            final(self).completed() == old(self).completed() + if r == PollEnd::Completed {
                1nat
            } else {
                0nat
            },
    {
        let i = match self.accepts(h) {
            None => {
                return PollEnd::Ignored;
            },
            Some(i) => i,
        };
        let rewoken = match self.slots[i].state {
            SlotState::Running(b) => b,
            _ => {
                return PollEnd::Ignored;
            },
        };
        let g = self.slots[i].generation;
        let ghost before = self.slots@;
        match adv {
            Advance::Completed => {
                let s = Slot { generation: g, state: SlotState::Vacant };
                proof {
                    lemma_live_count_update(before, i as int, s);
                }
                self.slots.set(i, s);
                self.live = self.live - 1;
                self.completed = Ghost(self.completed@ + 1);
                self.free.push(i);
                PollEnd::Completed
            },
            Advance::Pending(t) => {
                let s = Slot { generation: g, state: SlotState::Parked(t) };
                proof {
                    lemma_live_count_update(before, i as int, s);
                }
                self.slots.set(i, s);
                if rewoken {
                    PollEnd::Rewoken
                } else {
                    PollEnd::Parked
                }
            },
        }
    }
}

/// Every task registered has completed or still occupies its slot; so once no
/// slot is occupied, as many advances have returned `Completed` as handles
/// were handed out.
pub proof fn lemma_completions_match_spawns<T>(t: &TaskTable<T>)
    requires
        t.wf(),
    ensures
        t.spawned() == t.completed() + live_count(t@),
        live_count(t@) == 0 ==> t.completed() == t.spawned(),
{
}

/// Generations only grow: the relation holds across any run of operations.
pub proof fn lemma_generations_grow_trans<T>(a: Seq<Slot<T>>, b: Seq<Slot<T>>, c: Seq<Slot<T>>)
    requires
        generations_grow(a, b),
        generations_grow(b, c),
    ensures
        generations_grow(a, c),
{
    assert forall|i: int| 0 <= i < a.len() implies #[trigger] a[i].generation <= c[i].generation by {
        assert(a[i].generation <= b[i].generation);
    }
}

/// The handle issued when `task` is stored in slot `i` names that task: the
/// first claim through it takes exactly that task out.
pub proof fn lemma_handle_names_its_task<T>(s: Seq<Slot<T>>, i: int, task: T, h: u64)
    requires
        0 <= i < s.len(),
        is_usable(s[i]),
        h as nat == handle_of(i as nat, s[i].generation as nat),
    ensures
        ({
            let s1 = assign_slot(s, i, task);
            claim_spec(s1, h) == (
                s1.update(i, Slot { generation: s1[i].generation, state: SlotState::Running(false) }),
                Claim::Run(task),
            )
        }),
{
    lemma_handle_round_trip(i as nat, s[i].generation as nat);
    let g = s[i].generation as nat;
    vstd::arithmetic::div_mod::lemma_mod_bound(g as int, gen_width() as int);
    vstd::arithmetic::div_mod::lemma_add_mod_noop(g as int, 1, gen_width() as int);
    vstd::arithmetic::div_mod::lemma_small_mod(1, gen_width());
    vstd::arithmetic::div_mod::lemma_mod_twice(g as int, gen_width() as int);
}

proof fn lemma_mod_distinct(g: nat, d: nat, e: nat)
    requires
        e < d,
        d < e + gen_width(),
    ensures
        (g + d) % gen_width() != (g + e) % gen_width(),
{
    let w = gen_width() as int;
    vstd::arithmetic::div_mod::lemma_fundamental_div_mod((g + d) as int, w);
    vstd::arithmetic::div_mod::lemma_fundamental_div_mod((g + e) as int, w);
    if (g + d) % gen_width() == (g + e) % gen_width() {
        let q1 = (g + d) as int / w;
        let q2 = (g + e) as int / w;
        assert(d - e == w * (q1 - q2)) by (nonlinear_arith)
            requires
                (g + d) as int == w * q1 + (g + d) as int % w,
                (g + e) as int == w * q2 + (g + e) as int % w,
                (g + d) as int % w == (g + e) as int % w,
        ;
        assert(false) by (nonlinear_arith)
            requires
                d - e == w * (q1 - q2),
                0 < d - e < w,
        ;
    }
}

/// Once its task has completed, a handle names nothing: a handle issued at
/// generation `g` of slot `i` claims nothing, and finishing through it changes
/// nothing, while the slot stands empty at `g + 1` or has since been given to
/// later tasks, up to `2^32 - 2` of them.
pub proof fn lemma_completed_handle_is_stale<T>(s: Seq<Slot<T>>, i: int, g: u64, h: u64, adv: Advance<T>)
    requires
        0 <= i < s.len(),
        h as nat == handle_of(i as nat, g as nat),
        (s[i].generation == g + 1 && s[i].state is Vacant) || (g + 2 <= s[i].generation < g
            + gen_width()),
    ensures
        claim_spec(s, h) == (s, Claim::<T>::Stale),
        finish_spec(s, h, adv) == (s, PollEnd::Ignored),
{
    lemma_handle_round_trip(i as nat, g as nat);
    if s[i].generation >= g + 2 {
        let d = (s[i].generation - g) as nat;
        lemma_mod_distinct(g as nat, d, 0);
        lemma_mod_distinct(g as nat, d, 1);
        vstd::arithmetic::div_mod::lemma_mod_twice(g as int, gen_width() as int);
        vstd::arithmetic::div_mod::lemma_add_mod_noop(g as int, 1, gen_width() as int);
        vstd::arithmetic::div_mod::lemma_small_mod(1, gen_width());
        vstd::arithmetic::div_mod::lemma_add_mod_noop(g as int, 0, gen_width() as int);
        vstd::arithmetic::div_mod::lemma_mod_twice((g + 1) as int, gen_width() as int);
        assert(!tag_accepts(s[i].generation as nat, tag_of(h as nat)));
    }
}

/// A task that parks is advanced again once woken: after it parks, claiming
/// its handle takes it out again. If its handle was claimed while it ran (a
/// wake that arrived meanwhile), parking reports that it must be scheduled
/// again.
pub proof fn lemma_parked_task_runs_again<T>(s: Seq<Slot<T>>, h: u64, t: T)
    requires
        names_slot(s, h),
        s[index_of(h as nat) as int].state is Running,
    ensures
        ({
            let i = index_of(h as nat) as int;
            let (s1, end) = finish_spec(s, h, Advance::Pending(t));
            &&& end == PollEnd::Parked || end == PollEnd::Rewoken
            &&& (end == PollEnd::Rewoken <==> s[i].state == SlotState::<T>::Running(true))
            &&& claim_spec(s1, h).1 == Claim::Run(t)
        }),
{
}

/// A repeated claim is harmless: claiming a handle whose task is out (a
/// duplicate wake) returns `Busy`, keeps the generation, touches no task, and
/// only marks the slot to run once more; further claims change nothing more.
pub proof fn lemma_repeated_claim_is_harmless<T>(s: Seq<Slot<T>>, h: u64)
    ensures
        ({
            let i = index_of(h as nat) as int;
            let (s1, c1) = claim_spec(s, h);
            let (s2, c2) = claim_spec(s1, h);
            c1 !is Stale ==> {
                &&& c2 is Busy
                &&& s2 == s1.update(
                    i,
                    Slot { generation: s1[i].generation, state: SlotState::Running(true) },
                )
                &&& claim_spec(s2, h) == (s2, Claim::<T>::Busy)
            }
        }),
{
    let i = index_of(h as nat) as int;
    let (s1, c1) = claim_spec(s, h);
    if c1 !is Stale {
        let (s2, c2) = claim_spec(s1, h);
        assert(s2.update(i, Slot { generation: s2[i].generation, state: SlotState::Running(true) })
            =~= s2);
    }
}

} // verus!
