//! The bump allocator: one region, a cursor that only moves forward, no
//! reclamation. `bump_step` is the whole allocation rule, so that a lock-free
//! caller can retry it against a shared cursor.
use vstd::prelude::*;

verus! {

/// The least multiple of `a` that is at least `x`.
pub open spec fn round_up(x: nat, a: nat) -> nat
    recommends
        a > 0,
{
    if x % a == 0 {
        x
    } else {
        (x + (a - x % a)) as nat
    }
}

/// The alignment actually used: at least one.
pub open spec fn eff_align(align: nat) -> nat {
    if align == 0 {
        1
    } else {
        align
    }
}

/// Outcome of one allocation of `size` bytes aligned to `align` with the
/// cursor at `cur` and the region ending at `end`: the address handed out and
/// the new cursor, or `None` when the region cannot hold the block. A
/// zero-sized request gets the alignment itself as its address and leaves the
/// cursor where it is.
pub open spec fn bump_spec(cur: nat, end: nat, size: nat, align: nat) -> Option<(nat, nat)> {
    let a = eff_align(align);
    if size == 0 {
        Some((a, cur))
    } else if round_up(cur, a) + size <= end {
        Some((round_up(cur, a), round_up(cur, a) + size))
    } else {
        None
    }
}

/// Rounds `x` up to a multiple of `align`; `None` when that overflows.
pub fn align_up(x: usize, align: usize) -> (r: Option<usize>)
    requires
        align > 0,
    ensures
        match r {
            Some(v) => v == round_up(x as nat, align as nat),
            None => round_up(x as nat, align as nat) > usize::MAX,
        },
{
    let rem = x % align;
    if rem == 0 {
        Some(x)
    } else {
        x.checked_add(align - rem)
    }
}

/// One allocation step, as `bump_spec` states it.
pub fn bump_step(cur: usize, end: usize, size: usize, align: usize) -> (r: Option<(usize, usize)>)
    ensures
        match bump_spec(cur as nat, end as nat, size as nat, align as nat) {
            Some((p, next)) => r == Some((p as usize, next as usize)),
            None => r is None,
        },
{
    let a = if align == 0 {
        1
    } else {
        align
    };
    if size == 0 {
        return Some((a, cur));
    }
    match align_up(cur, a) {
        None => None,
        Some(p) => match p.checked_add(size) {
            None => None,
            Some(next) => {
                if next > end {
                    None
                } else {
                    Some((p, next))
                }
            },
        },
    }
}

/// A region `[base, end)` with a cursor.
pub struct BumpAllocator {
    base: usize,
    cur: usize,
    end: usize,
}

impl BumpAllocator {
    pub closed spec fn spec_base(&self) -> nat {
        self.base as nat
    }

    pub closed spec fn spec_cur(&self) -> nat {
        self.cur as nat
    }

    pub closed spec fn spec_end(&self) -> nat {
        self.end as nat
    }

    pub closed spec fn wf(&self) -> bool {
        self.base <= self.cur <= self.end
    }

    /// An allocator over the `len` bytes starting at `base`.
    pub fn new(base: usize, len: usize) -> (b: Self)
        requires
            base + len <= usize::MAX,
        ensures
            b.wf(),
            b.spec_base() == base,
            b.spec_cur() == base,
            b.spec_end() == base + len,
    {
        BumpAllocator { base, cur: base, end: base + len }
    }

    /// Bytes handed out so far, alignment padding included.
    pub fn used(&self) -> (n: usize)
        requires
            self.wf(),
        ensures
            n == self.spec_cur() - self.spec_base(),
    {
        self.cur - self.base
    }

    /// Allocates `size` bytes aligned to `align` (zero counts as one). A
    /// zero-sized request returns the alignment without moving the cursor;
    /// `None` when the region is exhausted.
    pub fn allocate(&mut self, size: usize, align: usize) -> (r: Option<usize>)
        requires
            old(self).wf(),
        ensures
            final(self).wf(),
            final(self).spec_base() == old(self).spec_base(),
            final(self).spec_end() == old(self).spec_end(),
            match bump_spec(old(self).spec_cur(), old(self).spec_end(), size as nat, align as nat) {
                Some((p, next)) => r == Some(p as usize) && final(self).spec_cur() == next,
                None => r is None && final(self).spec_cur() == old(self).spec_cur(),
            },
    {
        match bump_step(self.cur, self.end, size, align) {
            None => None,
            Some((p, next)) => {
                proof {
                    let a = eff_align(align as nat);
                    if size > 0 {
                        assert(round_up(self.cur as nat, a) >= self.cur) by {
                            vstd::arithmetic::div_mod::lemma_mod_bound(self.cur as int, a as int);
                        }
                    }
                }
                self.cur = next;
                Some(p)
            },
        }
    }
}

} // verus!
