//! Small byte-buffer helpers.
use vstd::prelude::*;

verus! {

/// A zeroed buffer of `len` bytes.
pub fn vec_with_len(len: usize) -> (v: Vec<u8>)
    ensures
        v@ == Seq::new(len as nat, |i: int| 0u8),
{
    let mut v: Vec<u8> = Vec::new();
    let mut i: usize = 0;
    while i < len
        invariant
            i <= len,
            v@ == Seq::new(i as nat, |k: int| 0u8),
        decreases len - i,
    {
        v.push(0u8);
        i = i + 1;
        assert(v@ =~= Seq::new(i as nat, |k: int| 0u8));
    }
    v
}

/// Shortens `v` to `new_len` bytes; a longer `new_len` leaves it as it is.
pub fn set_vec_len(v: &mut Vec<u8>, new_len: usize)
    ensures
        final(v)@ == if new_len < old(v)@.len() {
            old(v)@.subrange(0, new_len as int)
        } else {
            old(v)@
        },
{
    v.truncate(new_len);
}

} // verus!
