//! The run queue: a LIFO stack of scheduled task handles, linked through an
//! arena of nodes by index. The last handle pushed is the first one taken.
//! Every push is kept, so a handle woken twice is taken twice. Nodes taken off
//! the stack are kept for reuse up to a fixed number of spares.
use vstd::prelude::*;

verus! {

/// How deep `contains_near_top` looks into the stack.
pub const SCAN_LIMIT: usize = 4096;

/// Whether `target` is among the `limit` entries nearest the top of `q`.
pub open spec fn near_top(q: Seq<u64>, target: u64, limit: nat) -> bool {
    exists|k: int| 0 <= k < q.len() && k < limit && #[trigger] q[q.len() - 1 - k] == target
}

/// The `n` entries nearest the top of `q`, top first.
pub open spec fn top_first(q: Seq<u64>, n: nat) -> Seq<u64> {
    Seq::new(
        if n < q.len() {
            n
        } else {
            q.len()
        },
        |k: int| q[q.len() - 1 - k],
    )
}

/// Link value that ends a chain of nodes.
pub const NIL: usize = usize::MAX;

/// A node of the queue's arena: a handle and the index of the next node.
#[derive(Clone, Copy)]
pub struct Node {
    pub handle: u64,
    pub next: usize,
}

/// Nodes `chain` link up in order, each pointing at the one before it, the
/// first at `NIL`.
pub open spec fn linked(nodes: Seq<Node>, chain: Seq<usize>) -> bool {
    &&& forall|k: int| 0 <= k < chain.len() ==> #[trigger] chain[k] < nodes.len()
    &&& forall|k: int|
        0 <= k < chain.len() ==> #[trigger] nodes[chain[k] as int].next == if k == 0 {
            NIL
        } else {
            chain[k - 1]
        }
    &&& forall|i: int, j: int| 0 <= i < j < chain.len() ==> chain[i] != chain[j]
}

/// The handles carried by the nodes of `chain`, in chain order.
pub open spec fn handles_of(nodes: Seq<Node>, chain: Seq<usize>) -> Seq<u64> {
    Seq::new(chain.len(), |k: int| nodes[chain[k] as int].handle)
}

/// The run queue, kept as a linked stack of nodes in an arena. A node taken
/// off the stack is kept for reuse while fewer than `cap` spare nodes are
/// held; past that it is abandoned, as memory handed back to a bump allocator
/// is.
pub struct RunQueue {
    nodes: Vec<Node>,
    head: usize,
    free_head: usize,
    spare: usize,
    cap: usize,
    chain: Ghost<Seq<usize>>,
    free: Ghost<Seq<usize>>,
}

impl View for RunQueue {
    type V = Seq<u64>;

    /// Scheduled handles, bottom first; the top of the stack is the last.
    closed spec fn view(&self) -> Seq<u64> {
        handles_of(self.nodes@, self.chain@)
    }
}

impl RunQueue {
    pub closed spec fn wf(&self) -> bool {
        &&& self.nodes@.len() <= usize::MAX
        &&& linked(self.nodes@, self.chain@)
        &&& linked(self.nodes@, self.free@)
        &&& self.head == if self.chain@.len() == 0 {
            NIL
        } else {
            self.chain@.last()
        }
        &&& self.free_head == if self.free@.len() == 0 {
            NIL
        } else {
            self.free@.last()
        }
        &&& forall|i: int, j: int|
            0 <= i < self.chain@.len() && 0 <= j < self.free@.len() ==> self.chain@[i] != self.free@[j]
        &&& self.spare == self.free@.len()
        &&& self.spare <= self.cap
    }

    /// Spare nodes held for reuse.
    pub closed spec fn spare_nodes(&self) -> nat {
        self.spare as nat
    }

    /// The most spare nodes held.
    pub closed spec fn spare_cap(&self) -> nat {
        self.cap as nat
    }

    /// An empty queue that keeps at most `cap` spare nodes.
    pub fn new(cap: usize) -> (q: Self)
        ensures
            q.wf(),
            q@ == Seq::<u64>::empty(),
            q.spare_nodes() == 0,
            q.spare_cap() == cap,
    {
        let q = RunQueue {
            nodes: Vec::new(),
            head: NIL,
            free_head: NIL,
            spare: 0,
            cap,
            chain: Ghost(Seq::empty()),
            free: Ghost(Seq::empty()),
        };
        assert(q@ =~= Seq::<u64>::empty());
        q
    }

    /// Spare nodes held for reuse.
    pub fn spare(&self) -> (n: usize)
        requires
            self.wf(),
        ensures
            n == self.spare_nodes(),
            n <= self.spare_cap(),
    {
        self.spare
    }

    /// Schedules `h`, on a spare node when there is one.
    pub fn push(&mut self, h: u64)
        requires
            old(self).wf(),
        ensures
            final(self).wf(),
            final(self)@ == old(self)@.push(h),
            final(self).spare_cap() == old(self).spare_cap(),
            final(self).spare_nodes() == if old(self).spare_nodes() > 0 {
                (old(self).spare_nodes() - 1) as nat
            } else {
                0
            },
    {
        let ghost nodes0 = self.nodes@;
        let ghost chain0 = self.chain@;
        let idx: usize;
        if self.free_head != NIL {
            idx = self.free_head;
            self.free_head = self.nodes[idx].next;
            self.spare = self.spare - 1;
            proof {
                self.free@ = self.free@.drop_last();
            }
        } else {
            self.nodes.push(Node { handle: 0, next: NIL });
            idx = self.nodes.len() - 1;
        }
        let ghost nodes1 = self.nodes@;
        assert forall|k: int| 0 <= k < chain0.len() implies #[trigger] nodes1[chain0[k] as int] == nodes0[chain0[k] as int] && chain0[k] != idx by {
            if old(self).free_head != NIL {
                assert(old(self).free@.last() == idx);
            }
        }
        self.nodes.set(idx, Node { handle: h, next: self.head });
        self.head = idx;
        proof {
            self.chain@ = chain0.push(idx);
            assert forall|j: int| 0 <= j < self.free@.len() implies #[trigger] self.free@[j] != idx by {
                if old(self).free_head != NIL {
                    assert(old(self).free@[j] == self.free@[j]);
                    assert(old(self).free@.last() == idx);
                }
            }
        }
        assert(self@ =~= old(self)@.push(h));
    }

    /// Takes the most recently scheduled handle.
    pub fn pop(&mut self) -> (r: Option<u64>)
        requires
            old(self).wf(),
        ensures
            final(self).wf(),
            old(self)@.len() == 0 ==> r is None && final(self)@ == old(self)@,
            old(self)@.len() > 0 ==> r == Some(old(self)@.last()) && final(self)@
                == old(self)@.drop_last(),
            final(self).spare_cap() == old(self).spare_cap(),
            old(self)@.len() > 0 ==> final(self).spare_nodes() == if old(self).spare_nodes()
                < old(self).spare_cap() {
                old(self).spare_nodes() + 1
            } else {
                old(self).spare_nodes()
            },
            old(self)@.len() == 0 ==> final(self).spare_nodes() == old(self).spare_nodes(),
    {
        if self.head == NIL {
            return None;
        }
        let idx = self.head;
        let node = self.nodes[idx];
        self.head = node.next;
        proof {
            self.chain@ = self.chain@.drop_last();
        }
        assert(self@ =~= old(self)@.drop_last());
        if self.spare < self.cap {
            let ghost nodes0 = self.nodes@;
            self.nodes.set(idx, Node { handle: node.handle, next: self.free_head });
            self.free_head = idx;
            self.spare = self.spare + 1;
            proof {
                assert forall|j: int| 0 <= j < self.free@.len() implies #[trigger] self.free@[j] != idx by {
                    assert(old(self).chain@[old(self).chain@.len() - 1] == idx);
                }
                assert forall|k: int| 0 <= k < self.chain@.len() implies #[trigger] self.chain@[k] != idx by {
                    assert(old(self).chain@[k] == self.chain@[k]);
                }
                self.free@ = self.free@.push(idx);
            }
            assert(self@ =~= old(self)@.drop_last());
        }
        Some(node.handle)
    }

    /// Whether `target` is among the `SCAN_LIMIT` entries nearest the top.
    pub fn contains_near_top(&self, target: u64) -> (r: bool)
        requires
            self.wf(),
        ensures
            r == near_top(self@, target, SCAN_LIMIT as nat),
    {
        let ghost n = self.chain@.len();
        let mut cur = self.head;
        let mut k: usize = 0;
        while cur != NIL && k < SCAN_LIMIT
            invariant
                self.wf(),
                n == self.chain@.len(),
                k <= n,
                cur == if k == n {
                    NIL
                } else {
                    self.chain@[n - 1 - k]
                },
                forall|j: int| 0 <= j < k ==> #[trigger] self@[n - 1 - j] != target,
            decreases n - k,
        {
            let node = self.nodes[cur];
            if node.handle == target {
                assert(k < n);
                assert(self@.len() == n);
                assert(self@[self@.len() - 1 - k] == target);
                return true;
            }
            cur = node.next;
            k = k + 1;
        }
        proof {
            if near_top(self@, target, SCAN_LIMIT as nat) {
                let j = choose|j: int|
                    0 <= j < self@.len() && j < SCAN_LIMIT && #[trigger] self@[self@.len() - 1 - j]
                        == target;
                assert(j < k);
            }
        }
        false
    }

    /// Up to `limit` handles from the top of the stack, top first.
    pub fn peek_top(&self, limit: usize) -> (r: Vec<u64>)
        requires
            self.wf(),
        ensures
            r@ == top_first(self@, limit as nat),
    {
        let ghost n = self.chain@.len();
        let mut out: Vec<u64> = Vec::new();
        let mut cur = self.head;
        let mut k: usize = 0;
        while cur != NIL && k < limit
            invariant
                self.wf(),
                n == self.chain@.len(),
                k <= n,
                k <= limit,
                cur == if k == n {
                    NIL
                } else {
                    self.chain@[n - 1 - k]
                },
                out@ == top_first(self@, k as nat),
            decreases n - k,
        {
            let node = self.nodes[cur];
            out.push(node.handle);
            cur = node.next;
            k = k + 1;
            assert(out@ =~= top_first(self@, k as nat));
        }
        assert(out@ =~= top_first(self@, limit as nat));
        out
    }
}

/// Handles taken by `n` pops from `q`, in the order taken, and what is left.
pub open spec fn pop_many(q: Seq<u64>, n: nat) -> (Seq<u64>, Seq<u64>)
    decreases n,
{
    if n == 0 || q.len() == 0 {
        (Seq::empty(), q)
    } else {
        let (taken, rest) = pop_many(q.drop_last(), (n - 1) as nat);
        (seq![q.last()] + taken, rest)
    }
}

/// Pushing `hs` onto a queue `q` and then popping `hs.len()` times takes the
/// handles back in reverse order and leaves `q` as it was; in particular an
/// empty queue is empty again.
pub proof fn lemma_push_pop_round_trip(q: Seq<u64>, hs: Seq<u64>)
    ensures
        pop_many(q + hs, hs.len()) == (hs.reverse(), q),
    decreases hs.len(),
{
    if hs.len() > 0 {
        let (taken, rest) = pop_many((q + hs).drop_last(), (hs.len() - 1) as nat);
        assert((q + hs).drop_last() =~= q + hs.drop_last());
        lemma_push_pop_round_trip(q, hs.drop_last());
        assert((q + hs).last() == hs.last());
        assert(seq![hs.last()] + hs.drop_last().reverse() =~= hs.reverse());
    } else {
        assert(q + hs =~= q);
        assert(hs.reverse() =~= Seq::<u64>::empty());
    }
}

} // verus!
