//! Command-line argument parsing: decimal counts and dotted-decimal IPv4
//! addresses. An argument ends at its first NUL byte or at the end of the
//! slice.
use vstd::prelude::*;

verus! {

pub open spec fn is_digit(c: u8) -> bool {
    48 <= c <= 57
}

/// End of the run of digits that starts the argument, looking at no more than
/// its first 64 bytes.
pub open spec fn digit_run(s: Seq<u8>, i: int) -> int
    decreases s.len() - i,
{
    if 0 <= i < s.len() && i < 64 && is_digit(s[i]) {
        digit_run(s, i + 1)
    } else {
        i
    }
}

/// Decimal value of a run of digits.
pub open spec fn dec_value(s: Seq<u8>) -> nat
    decreases s.len(),
{
    if s.len() == 0 {
        0
    } else {
        dec_value(s.drop_last()) * 10 + (s.last() - 48) as nat
    }
}

/// The count an argument gives: the value of its leading digits, `None` when
/// it has none or the value does not fit.
pub open spec fn count_spec(s: Seq<u8>) -> Option<usize> {
    let k = digit_run(s, 0);
    if k == 0 || dec_value(s.subrange(0, k)) > usize::MAX {
        None
    } else {
        Some(dec_value(s.subrange(0, k)) as usize)
    }
}

/// Parses the leading decimal digits of an argument.
pub fn parse_cstring_usize(s: &[u8]) -> (r: Option<usize>)
    ensures
        r == count_spec(s@),
{
    let n = s.len();
    let mut i: usize = 0;
    let mut acc: usize = 0;
    let mut fits = true;
    assert(s@.subrange(0, 0) =~= Seq::<u8>::empty());
    while i < n && i < 64 && s[i] >= 48 && s[i] <= 57
        invariant
            n == s@.len(),
            i <= n,
            i <= 64,
            digit_run(s@, 0) == digit_run(s@, i as int),
            forall|k: int| 0 <= k < i ==> is_digit(#[trigger] s@[k]),
            fits ==> acc == dec_value(s@.subrange(0, i as int)),
            !fits ==> dec_value(s@.subrange(0, i as int)) > usize::MAX,
        decreases n - i,
    {
        let d = (s[i] - 48) as usize;
        let ghost prev = s@.subrange(0, i as int);
        assert(s@.subrange(0, i + 1).drop_last() =~= prev);
        if fits {
            match acc.checked_mul(10) {
                None => {
                    fits = false;
                },
                Some(m) => match m.checked_add(d) {
                    None => {
                        fits = false;
                    },
                    Some(v) => {
                        acc = v;
                    },
                },
            }
        } else {
            assert(dec_value(prev) * 10 + d >= dec_value(prev)) by (nonlinear_arith);
        }
        i = i + 1;
    }
    if i == 0 {
        None
    } else if fits {
        Some(acc)
    } else {
        None
    }
}

/// Where the argument ends: its first NUL byte, or its length.
pub open spec fn arg_end(s: Seq<u8>, i: int) -> int
    decreases s.len() - i,
{
    if 0 <= i < s.len() && s[i] != 0 {
        arg_end(s, i + 1)
    } else {
        i
    }
}

pub open spec fn pow256(k: nat) -> nat
    decreases k,
{
    if k == 0 {
        1
    } else {
        256 * pow256((k - 1) as nat)
    }
}

/// Reading `t` left to right: the dots seen, the value of the field in
/// progress, and the packed value of the fields closed so far; `None` once a
/// byte is neither digit nor dot, a field exceeds 255, or a fourth dot comes.
pub open spec fn ip_fold(t: Seq<u8>) -> Option<(nat, nat, nat)>
    decreases t.len(),
{
    if t.len() == 0 {
        Some((0, 0, 0))
    } else {
        match ip_fold(t.drop_last()) {
            None => None,
            Some((dots, acc, packed)) => {
                let c = t.last();
                if c == 46u8 {
                    if dots >= 3 {
                        None
                    } else {
                        Some((dots + 1, 0, packed + acc * pow256(dots)))
                    }
                } else if is_digit(c) {
                    let a = acc * 10 + (c - 48) as nat;
                    if a > 255 {
                        None
                    } else {
                        Some((dots, a, packed))
                    }
                } else {
                    None
                }
            },
        }
    }
}

/// The address an argument gives: four dot-separated decimal fields (an empty
/// field counts as zero), each at most 255, the first in the lowest byte. The
/// argument must end within its first 128 bytes.
pub open spec fn ip_spec(s: Seq<u8>) -> Option<u32> {
    let n = arg_end(s, 0);
    if n >= 128 {
        None
    } else {
        match ip_fold(s.subrange(0, n)) {
            Some((dots, acc, packed)) => if dots == 3 {
                Some((packed + acc * pow256(3)) as u32)
            } else {
                None
            },
            None => None,
        }
    }
}

/// Parses a dotted-decimal IPv4 address, packed in memory order.
pub fn parse_cstring_ip(s: &[u8]) -> (r: Option<u32>)
    ensures
        r == ip_spec(s@),
{
    let n = s.len();
    let mut i: usize = 0;
    let mut dots: u32 = 0;
    let mut acc: u32 = 0;
    let mut packed: u32 = 0;
    let mut shift: u32 = 1;
    assert(s@.subrange(0, 0) =~= Seq::<u8>::empty());
    while i < n && s[i] != 0
        invariant
            n == s@.len(),
            i <= n,
            arg_end(s@, 0) == arg_end(s@, i as int),
            forall|k: int| 0 <= k < i ==> #[trigger] s@[k] != 0,
            ip_fold(s@.subrange(0, i as int)) == Some((dots as nat, acc as nat, packed as nat)),
            shift == pow256(dots as nat),
            dots <= 3,
            acc <= 255,
            packed < shift,
            i <= 128,
        decreases n - i,
    {
        if i == 128 {
            proof {
                lemma_arg_end_at_least(s@, i as int);
            }
            return None;
        }
        let c = s[i];
        let ghost prev = s@.subrange(0, i as int);
        assert(s@.subrange(0, i + 1).drop_last() =~= prev);
        assert(s@.subrange(0, i + 1).last() == c);
        if c == 46u8 {
            if dots >= 3 {
                proof {
                    lemma_arg_end_at_least(s@, i as int + 1);
                    lemma_fold_none_sticks(s@, i as int + 1, arg_end(s@, 0));
                }
                return None;
            }
            proof {
                reveal_with_fuel(pow256, 4);
                assert(packed + acc * shift < 256 * shift) by (nonlinear_arith)
                    requires
                        packed < shift,
                        acc <= 255,
                ;
                assert(256 * shift <= pow256(3) * 256) by {
                    assert(pow256(3) == 16777216);
                }
            }
            packed = packed + acc * shift;
            acc = 0;
            dots = dots + 1;
            if dots < 4 {
                proof {
                    reveal_with_fuel(pow256, 4);
                }
                shift = if dots == 1 {
                    256
                } else if dots == 2 {
                    65536
                } else {
                    16777216
                };
            }
        } else if c >= 48 && c <= 57 {
            let a = acc * 10 + (c - 48) as u32;
            if a > 255 {
                proof {
                    lemma_arg_end_at_least(s@, i as int + 1);
                    lemma_fold_none_sticks(s@, i as int + 1, arg_end(s@, 0));
                }
                return None;
            }
            acc = a;
        } else {
            proof {
                lemma_arg_end_at_least(s@, i as int + 1);
                lemma_fold_none_sticks(s@, i as int + 1, arg_end(s@, 0));
            }
            return None;
        }
        i = i + 1;
    }
    proof {
        lemma_arg_end_from(s@, i as int);
    }
    if i >= 128 || dots != 3 {
        return None;
    }
    proof {
        reveal_with_fuel(pow256, 4);
        assert(packed + acc * 16777216 <= 0xFFFF_FFFF) by (nonlinear_arith)
            requires
                packed < 16777216,
                acc <= 255,
        ;
    }
    Some(packed + acc * 16777216)
}

proof fn lemma_arg_end_from(s: Seq<u8>, j: int)
    requires
        0 <= j <= s.len(),
    ensures
        j <= arg_end(s, j) <= s.len(),
        (j == s.len() || s[j] == 0) ==> arg_end(s, j) == j,
    decreases s.len() - j,
{
    if 0 <= j < s.len() && s[j] != 0 {
        lemma_arg_end_from(s, j + 1);
    }
}

proof fn lemma_arg_end_at_least(s: Seq<u8>, i: int)
    requires
        0 <= i <= s.len(),
        forall|k: int| 0 <= k < i ==> #[trigger] s[k] != 0,
        arg_end(s, 0) == arg_end(s, i - 1) || i == 0,
    ensures
        arg_end(s, 0) >= i,
        arg_end(s, 0) <= s.len(),
{
    if i > 0 {
        assert(s[i - 1] != 0);
        assert(arg_end(s, i - 1) == arg_end(s, i));
    }
    lemma_arg_end_from(s, i);
}

proof fn lemma_fold_none_sticks(s: Seq<u8>, i: int, m: int)
    requires
        0 <= i <= m <= s.len(),
        ip_fold(s.subrange(0, i)) is None,
    ensures
        ip_fold(s.subrange(0, m)) is None,
    decreases m - i,
{
    if m > i {
        lemma_fold_none_sticks(s, i, m - 1);
        assert(s.subrange(0, m).drop_last() =~= s.subrange(0, m - 1));
    }
}

} // verus!
