//! The readiness registry: at most one record per file descriptor, each with
//! an event mask and the wakers waiting on it. A poll round hands each ready
//! descriptor's wakers out once and drops its record.
use vstd::prelude::*;

verus! {

/// Readable.
pub const POLLIN: i16 = 0x0001;

/// Writable.
pub const POLLOUT: i16 = 0x0004;

/// One entry of a poll set, laid out as the kernel expects it.
#[derive(PartialEq, Eq, Structural, Clone, Copy, Debug)]
pub struct PollFd {
    pub fd: i32,
    pub events: i16,
    pub revents: i16,
}

/// A record of the registry: a descriptor, its event mask and its waiters.
pub struct IoEntry<W> {
    pub fd: i32,
    pub events: i16,
    pub waiters: Vec<W>,
}

/// The mathematical form of an `IoEntry`.
pub struct Registration<W> {
    pub fd: i32,
    pub events: i16,
    pub waiters: Seq<W>,
}

impl<W> View for IoEntry<W> {
    type V = Registration<W>;

    open spec fn view(&self) -> Registration<W> {
        Registration { fd: self.fd, events: self.events, waiters: self.waiters@ }
    }
}

/// Index of the record for `fd` in `s`, or -1.
pub open spec fn position<W>(s: Seq<Registration<W>>, fd: i32) -> int
    decreases s.len(),
{
    if s.len() == 0 {
        -1
    } else if s.last().fd == fd {
        s.len() - 1
    } else {
        position(s.drop_last(), fd)
    }
}

/// No two records share a descriptor.
pub open spec fn unique_fds<W>(s: Seq<Registration<W>>) -> bool {
    forall|i: int, j: int| 0 <= i < s.len() && 0 <= j < s.len() && i != j ==> #[trigger] s[i].fd != #[trigger] s[j].fd
}

/// `s` after adding waker `w` for `fd`: appended to the record for `fd`, whose
/// mask stays, or in a new record with mask `events`.
pub open spec fn register_spec<W>(s: Seq<Registration<W>>, fd: i32, events: i16, w: W) -> Seq<
    Registration<W>,
> {
    let p = position(s, fd);
    if p >= 0 {
        s.update(p, Registration { fd, events: s[p].events, waiters: s[p].waiters.push(w) })
    } else {
        s.push(Registration { fd, events, waiters: seq![w] })
    }
}

/// `s` without the record for `fd`.
pub open spec fn unregister_spec<W>(s: Seq<Registration<W>>, fd: i32) -> Seq<Registration<W>> {
    let p = position(s, fd);
    if p >= 0 {
        s.remove(p)
    } else {
        s
    }
}

/// The waiters detached from the record for `fd`, which is dropped.
pub open spec fn take_spec<W>(s: Seq<Registration<W>>, fd: i32) -> (Seq<Registration<W>>, Seq<W>) {
    let p = position(s, fd);
    if p >= 0 {
        (s.remove(p), s[p].waiters)
    } else {
        (s, Seq::empty())
    }
}

/// Registry and wakers after delivering the poll results `fds` in order: each
/// entry with nonzero returned events detaches its descriptor's waiters.
pub open spec fn dispatch_spec<W>(s: Seq<Registration<W>>, fds: Seq<PollFd>) -> (
    Seq<Registration<W>>,
    Seq<W>,
)
    decreases fds.len(),
{
    if fds.len() == 0 {
        (s, Seq::empty())
    } else {
        let (s1, w1) = dispatch_spec(s, fds.drop_last());
        if fds.last().revents != 0 {
            let (s2, w2) = take_spec(s1, fds.last().fd);
            (s2, w1 + w2)
        } else {
            (s1, w1)
        }
    }
}

/// The poll set for event descriptor `evt` and registry snapshot `snap`: the
/// event descriptor first, waiting to be readable, then each snapshot entry.
pub open spec fn poll_set_spec(evt: i32, snap: Seq<(i32, i16)>) -> Seq<PollFd> {
    seq![PollFd { fd: evt, events: POLLIN, revents: 0 }] + Seq::new(
        snap.len(),
        |k: int| PollFd { fd: snap[k].0, events: snap[k].1, revents: 0 },
    )
}

pub proof fn lemma_position<W>(s: Seq<Registration<W>>, fd: i32)
    ensures
        -1 <= position(s, fd) < s.len(),
        position(s, fd) >= 0 ==> s[position(s, fd)].fd == fd,
        position(s, fd) < 0 ==> forall|j: int| 0 <= j < s.len() ==> #[trigger] s[j].fd != fd,
    decreases s.len(),
{
    if s.len() > 0 {
        lemma_position(s.drop_last(), fd);
        if s.last().fd != fd {
            assert forall|j: int| 0 <= j < s.len() && position(s, fd) < 0 implies #[trigger] s[j].fd
                != fd by {
                if j < s.len() - 1 {
                    assert(s[j] == s.drop_last()[j]);
                }
            }
        }
    }
}

/// With unique descriptors, the record holding `fd` is the one `position` finds.
pub proof fn lemma_position_unique<W>(s: Seq<Registration<W>>, fd: i32, i: int)
    requires
        unique_fds(s),
        0 <= i < s.len(),
        s[i].fd == fd,
    ensures
        position(s, fd) == i,
{
    lemma_position(s, fd);
    if position(s, fd) < 0 {
        assert(s[i].fd != fd);
    }
}

pub proof fn lemma_unique_remove<W>(s: Seq<Registration<W>>, p: int)
    requires
        unique_fds(s),
        0 <= p < s.len(),
    ensures
        unique_fds(s.remove(p)),
{
    let r = s.remove(p);
    assert forall|i: int, j: int| 0 <= i < r.len() && 0 <= j < r.len() && i != j implies #[trigger] r[i].fd
        != #[trigger] r[j].fd by {
        let a = if i < p { i } else { i + 1 };
        let b = if j < p { j } else { j + 1 };
        assert(r[i] == s[a]);
        assert(r[j] == s[b]);
    }
}

pub proof fn lemma_register_unique<W>(s: Seq<Registration<W>>, fd: i32, events: i16, w: W)
    requires
        unique_fds(s),
    ensures
        unique_fds(register_spec(s, fd, events, w)),
{
    lemma_position(s, fd);
    let r = register_spec(s, fd, events, w);
    assert forall|i: int, j: int| 0 <= i < r.len() && 0 <= j < r.len() && i != j implies #[trigger] r[i].fd
        != #[trigger] r[j].fd by {
        if i < s.len() {
            assert(r[i].fd == s[i].fd);
        }
        if j < s.len() {
            assert(r[j].fd == s[j].fd);
        }
    }
}

pub proof fn lemma_dispatch_unique<W>(s: Seq<Registration<W>>, fds: Seq<PollFd>)
    requires
        unique_fds(s),
    ensures
        unique_fds(dispatch_spec(s, fds).0),
    decreases fds.len(),
{
    if fds.len() > 0 {
        lemma_dispatch_unique(s, fds.drop_last());
        let s1 = dispatch_spec(s, fds.drop_last()).0;
        lemma_position(s1, fds.last().fd);
        if position(s1, fds.last().fd) >= 0 {
            lemma_unique_remove(s1, position(s1, fds.last().fd));
        }
    }
}

pub struct Registry<W> {
    entries: Vec<IoEntry<W>>,
}

impl<W> View for Registry<W> {
    type V = Seq<Registration<W>>;

    closed spec fn view(&self) -> Seq<Registration<W>> {
        self.entries@.map_values(|e: IoEntry<W>| e@)
    }
}

impl<W> Registry<W> {
    pub open spec fn wf(&self) -> bool {
        unique_fds(self@)
    }

    pub fn new() -> (r: Self)
        ensures
            r.wf(),
            r@ == Seq::<Registration<W>>::empty(),
    {
        let r = Registry { entries: Vec::new() };
        assert(r@ =~= Seq::<Registration<W>>::empty());
        r
    }

    fn find(&self, fd: i32) -> (r: Option<usize>)
        requires
            self.wf(),
        ensures
            match r {
                Some(i) => i == position(self@, fd) && i < self@.len(),
                None => position(self@, fd) < 0,
            },
    {
        let mut i: usize = 0;
        while i < self.entries.len()
            invariant
                self.wf(),
                i <= self.entries@.len(),
                self@.len() == self.entries@.len(),
                forall|j: int| 0 <= j < i ==> #[trigger] self@[j].fd != fd,
            decreases self.entries@.len() - i,
        {
            if self.entries[i].fd == fd {
                proof {
                    lemma_position_unique(self@, fd, i as int);
                }
                return Some(i);
            }
            i = i + 1;
        }
        proof {
            lemma_position(self@, fd);
            if position(self@, fd) >= 0 {
                assert(self@[position(self@, fd)].fd == fd);
            }
        }
        None
    }

    /// Adds waker `w` for `fd`: to the record for `fd` if there is one (its
    /// mask stays), else in a new record with mask `events`.
    pub fn register(&mut self, fd: i32, events: i16, w: W)
        requires
            old(self).wf(),
        ensures
            final(self).wf(),
            final(self)@ == register_spec(old(self)@, fd, events, w),
    {
        proof {
            lemma_register_unique(self@, fd, events, w);
        }
        let ghost before = self@;
        proof {
            lemma_position(before, fd);
        }
        match self.find(fd) {
            Some(i) => {
                let mut e = IoEntry { fd, events: 0, waiters: Vec::new() };
                self.entries.set_and_swap(i, &mut e);
                assert(e@ == before[i as int]);
                e.waiters.push(w);
                self.entries.set(i, e);
                assert(self@ =~= register_spec(before, fd, events, w));
            },
            None => {
                let mut v: Vec<W> = Vec::new();
                v.push(w);
                self.entries.push(IoEntry { fd, events, waiters: v });
                assert(self@ =~= register_spec(before, fd, events, w));
            },
        }
    }

    /// Drops the record for `fd`, with its waiters.
    pub fn unregister(&mut self, fd: i32)
        requires
            old(self).wf(),
        ensures
            final(self).wf(),
            final(self)@ == unregister_spec(old(self)@, fd),
    {
        let ghost before = self@;
        match self.find(fd) {
            Some(i) => {
                proof {
                    lemma_unique_remove(before, i as int);
                }
                let _ = self.entries.remove(i);
                assert(self@ =~= before.remove(i as int));
            },
            None => {},
        }
    }

    /// Drops the record for `fd` and returns its waiters.
    pub fn take(&mut self, fd: i32) -> (r: Vec<W>)
        requires
            old(self).wf(),
        ensures
            final(self).wf(),
            (final(self)@, r@) == take_spec(old(self)@, fd),
    {
        let ghost before = self@;
        match self.find(fd) {
            Some(i) => {
                proof {
                    lemma_unique_remove(before, i as int);
                }
                let e = self.entries.remove(i);
                assert(self@ =~= before.remove(i as int));
                assert(e@ == before[i as int]);
                e.waiters
            },
            None => Vec::new(),
        }
    }

    /// Each record's descriptor and mask, in registry order.
    pub fn snapshot(&self) -> (r: Vec<(i32, i16)>)
        ensures
            r@.len() == self@.len(),
            forall|k: int| 0 <= k < r@.len() ==> #[trigger] r@[k] == (self@[k].fd, self@[k].events),
    {
        let mut out: Vec<(i32, i16)> = Vec::new();
        let mut i: usize = 0;
        while i < self.entries.len()
            invariant
                i <= self.entries@.len(),
                self@.len() == self.entries@.len(),
                out@.len() == i,
                forall|k: int| 0 <= k < i ==> #[trigger] out@[k] == (self@[k].fd, self@[k].events),
            decreases self.entries@.len() - i,
        {
            out.push((self.entries[i].fd, self.entries[i].events));
            i = i + 1;
        }
        out
    }

    /// Delivers the poll results `fds[from..]` in order, and returns the
    /// wakers of the ready descriptors.
    pub fn dispatch(&mut self, fds: &Vec<PollFd>, from: usize) -> (r: Vec<W>)
        requires
            old(self).wf(),
            from <= fds@.len(),
        ensures
            final(self).wf(),
            (final(self)@, r@) == dispatch_spec(old(self)@, fds@.subrange(from as int, fds@.len() as int)),
    {
        let ghost start = self@;
        let mut out: Vec<W> = Vec::new();
        let mut k: usize = from;
        assert(fds@.subrange(from as int, from as int) =~= Seq::<PollFd>::empty());
        while k < fds.len()
            invariant
                from <= k <= fds@.len(),
                self.wf(),
                (self@, out@) == dispatch_spec(start, fds@.subrange(from as int, k as int)),
            decreases fds@.len() - k,
        {
            let ghost sub = fds@.subrange(from as int, k as int + 1);
            assert(sub.drop_last() =~= fds@.subrange(from as int, k as int));
            assert(sub.last() == fds@[k as int]);
            let pf = fds[k];
            if pf.revents != 0 {
                let mut w = self.take(pf.fd);
                out.append(&mut w);
            }
            k = k + 1;
        }
        out
    }
}

/// Builds the poll set: the event descriptor `evt` first, waiting to be
/// readable, then one entry per snapshot record.
pub fn build_poll_set(evt: i32, snap: &Vec<(i32, i16)>) -> (r: Vec<PollFd>)
    ensures
        r@ == poll_set_spec(evt, snap@),
{
    let mut out: Vec<PollFd> = Vec::new();
    out.push(PollFd { fd: evt, events: POLLIN, revents: 0 });
    let mut i: usize = 0;
    while i < snap.len()
        invariant
            i <= snap@.len(),
            out@ == poll_set_spec(evt, snap@.subrange(0, i as int)),
        decreases snap@.len() - i,
    {
        let (fd, ev) = snap[i];
        out.push(PollFd { fd, events: ev, revents: 0 });
        i = i + 1;
        assert(out@ =~= poll_set_spec(evt, snap@.subrange(0, i as int)));
    }
    assert(snap@.subrange(0, snap@.len() as int) =~= snap@);
    out
}

/// `fd` has no record in `s`.
pub open spec fn absent<W>(s: Seq<Registration<W>>, fd: i32) -> bool {
    forall|j: int| 0 <= j < s.len() ==> #[trigger] s[j].fd != fd
}

/// Every waiter of `r` is among `out`.
pub open spec fn all_handed_out<W>(r: Registration<W>, out: Seq<W>) -> bool {
    forall|m: int| 0 <= m < r.waiters.len() ==> out.contains(#[trigger] r.waiters[m])
}

proof fn lemma_take_keeps_others<W>(s: Seq<Registration<W>>, fd: i32, x: Registration<W>)
    requires
        unique_fds(s),
        s.contains(x),
        x.fd != fd,
    ensures
        take_spec(s, fd).0.contains(x),
{
    lemma_position(s, fd);
    let p = position(s, fd);
    if p >= 0 {
        let j = choose|j: int| 0 <= j < s.len() && s[j] == x;
        let r = s.remove(p);
        if j < p {
            assert(r[j] == x);
        } else {
            assert(j != p);
            assert(r[j - 1] == x);
        }
    }
}

proof fn lemma_take_subset<W>(s: Seq<Registration<W>>, fd: i32, x: Registration<W>)
    requires
        take_spec(s, fd).0.contains(x),
    ensures
        s.contains(x),
{
    lemma_position(s, fd);
    let p = position(s, fd);
    if p >= 0 {
        let r = s.remove(p);
        let j = choose|j: int| 0 <= j < r.len() && r[j] == x;
        if j < p {
            assert(s[j] == x);
        } else {
            assert(s[j + 1] == x);
        }
    }
}

/// What one poll round does to each record: records left are records that
/// were there; a record that was there is still there or has all its waiters
/// handed out; and no descriptor reported ready keeps a record.
pub proof fn lemma_dispatch_delivers<W>(s: Seq<Registration<W>>, fds: Seq<PollFd>)
    requires
        unique_fds(s),
    ensures
        ({
            let (s2, out) = dispatch_spec(s, fds);
            &&& forall|x: Registration<W>| s2.contains(x) ==> s.contains(x)
            &&& forall|x: Registration<W>| #[trigger] s.contains(x) ==> s2.contains(x) || all_handed_out(x, out)
            &&& forall|k: int| 0 <= k < fds.len() && #[trigger] fds[k].revents != 0 ==> absent(s2, fds[k].fd)
        }),
    decreases fds.len(),
{
    if fds.len() > 0 {
        let pre = fds.drop_last();
        lemma_dispatch_delivers(s, pre);
        lemma_dispatch_unique(s, pre);
        let (s1, w1) = dispatch_spec(s, pre);
        let (s2, out) = dispatch_spec(s, fds);
        let x = fds.last();
        if x.revents != 0 {
            let (t2, w2) = take_spec(s1, x.fd);
            assert(s2 == t2 && out == w1 + w2);
            lemma_position(s1, x.fd);
            let p = position(s1, x.fd);
            assert forall|y: Registration<W>| s2.contains(y) implies s.contains(y) by {
                lemma_take_subset(s1, x.fd, y);
            }
            assert forall|y: Registration<W>| #[trigger] s.contains(y) implies s2.contains(y)
                || all_handed_out(y, out) by {
                if s1.contains(y) {
                    if y.fd == x.fd {
                        let j = choose|j: int| 0 <= j < s1.len() && s1[j] == y;
                        lemma_position_unique(s1, x.fd, j);
                        assert forall|m: int| 0 <= m < y.waiters.len() implies out.contains(
                            #[trigger] y.waiters[m],
                        ) by {
                            assert(out[w1.len() + m] == y.waiters[m]);
                        }
                    } else {
                        lemma_take_keeps_others(s1, x.fd, y);
                    }
                } else {
                    assert forall|m: int| 0 <= m < y.waiters.len() implies out.contains(
                        #[trigger] y.waiters[m],
                    ) by {
                        let n = choose|n: int| 0 <= n < w1.len() && w1[n] == y.waiters[m];
                        assert(out[n] == y.waiters[m]);
                    }
                }
            }
            assert forall|k: int| 0 <= k < fds.len() && #[trigger] fds[k].revents != 0 implies absent(
                s2,
                fds[k].fd,
            ) by {
                assert forall|j: int| 0 <= j < s2.len() implies #[trigger] s2[j].fd != fds[k].fd by {
                    assert(s2.contains(s2[j]));
                    lemma_take_subset(s1, x.fd, s2[j]);
                    if k < fds.len() - 1 {
                        assert(pre[k] == fds[k]);
                        let i = choose|i: int| 0 <= i < s1.len() && s1[i] == s2[j];
                        assert(s1[i].fd != pre[k].fd);
                    } else {
                        if p >= 0 {
                            lemma_unique_remove(s1, p);
                            let i = choose|i: int| 0 <= i < s1.len() && s1[i] == s2[j];
                            if s2[j].fd == x.fd {
                                lemma_position_unique(s1, x.fd, i);
                                let r = s1.remove(p);
                                if j < p {
                                    assert(r[j] == s1[j]);
                                    assert(s1[j].fd == s1[p].fd);
                                } else {
                                    assert(r[j] == s1[j + 1]);
                                    assert(s1[j + 1].fd == s1[p].fd);
                                }
                            }
                        }
                    }
                }
            }
        } else {
            assert forall|k: int| 0 <= k < fds.len() && #[trigger] fds[k].revents != 0 implies absent(
                s2,
                fds[k].fd,
            ) by {
                assert(pre[k] == fds[k]);
            }
        }
    }
}

/// A waker registered for `fd` is invoked when `fd` is next reported ready:
/// after `w` is registered, a poll round that reports `fd` ready hands out
/// every waker registered for `fd`, `w` among them, and leaves no record for
/// `fd`.
pub proof fn lemma_ready_fd_wakes_all<W>(s: Seq<Registration<W>>, fd: i32, events: i16, w: W, fds: Seq<PollFd>, k: int)
    requires
        unique_fds(s),
        0 <= k < fds.len(),
        fds[k].fd == fd,
        fds[k].revents != 0,
    ensures
        ({
            let s1 = register_spec(s, fd, events, w);
            let p = position(s1, fd);
            let (s2, out) = dispatch_spec(s1, fds);
            &&& 0 <= p < s1.len()
            &&& s1[p].waiters.last() == w
            &&& all_handed_out(s1[p], out)
            &&& out.contains(w)
            &&& absent(s2, fd)
        }),
{
    lemma_position(s, fd);
    lemma_register_unique(s, fd, events, w);
    let s1 = register_spec(s, fd, events, w);
    let p0 = position(s, fd);
    if p0 >= 0 {
        lemma_position_unique(s1, fd, p0);
    } else {
        lemma_position_unique(s1, fd, s.len() as int);
    }
    let p = position(s1, fd);
    lemma_dispatch_delivers(s1, fds);
    let (s2, out) = dispatch_spec(s1, fds);
    assert(s1.contains(s1[p]));
    if s2.contains(s1[p]) {
        let j = choose|j: int| 0 <= j < s2.len() && s2[j] == s1[p];
        assert(s2[j].fd != fds[k].fd);
    }
    assert(s1[p].waiters[s1[p].waiters.len() - 1] == w);
}

} // verus!
