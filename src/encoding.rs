//! Base64 (standard alphabet, `=` padding), used for the WebSocket accept key.
use vstd::prelude::*;

verus! {

/// The base64 digit for `v < 64`.
pub open spec fn b64_digit(v: nat) -> char {
    if v < 26 {
        ((65 + v) as u8) as char
    } else if v < 52 {
        ((97 + (v - 26)) as u8) as char
    } else if v < 62 {
        ((48 + (v - 52)) as u8) as char
    } else if v == 62 {
        '+'
    } else {
        '/'
    }
}

/// The four digits for the 24-bit group `t`.
pub open spec fn quad(t: nat) -> Seq<char> {
    seq![b64_digit((t / 262144) % 64), b64_digit((t / 4096) % 64), b64_digit((t / 64) % 64), b64_digit(t % 64)]
}

/// Base64 text of `src`.
pub open spec fn base64(src: Seq<u8>) -> Seq<char>
    decreases src.len(),
{
    if src.len() >= 3 {
        quad(src[0] as nat * 65536 + src[1] as nat * 256 + src[2] as nat) + base64(
            src.subrange(3, src.len() as int),
        )
    } else if src.len() == 2 {
        quad(src[0] as nat * 65536 + src[1] as nat * 256).subrange(0, 3) + seq!['=']
    } else if src.len() == 1 {
        quad(src[0] as nat * 65536).subrange(0, 2) + seq!['=', '=']
    } else {
        Seq::empty()
    }
}

/// Relies on `String::push`: appends one character.
#[verifier::external_body]
fn push_char(s: &mut String, c: char)
    ensures
        final(s)@ == old(s)@.push(c),
{
    s.push(c);
}

fn digit_char(v: u32) -> (c: char)
    requires
        v < 64,
    ensures
        c == b64_digit(v as nat),
{
    if v < 26 {
        ((65 + v) as u8) as char
    } else if v < 52 {
        ((97 + (v - 26)) as u8) as char
    } else if v < 62 {
        ((48 + (v - 52)) as u8) as char
    } else if v == 62 {
        '+'
    } else {
        '/'
    }
}

proof fn lemma_base64_split(src: Seq<u8>, i: int, m: nat)
    requires
        0 <= i <= src.len(),
        i == 3 * m,
    ensures
        base64(src) == base64_prefix(src, i) + base64(src.subrange(i, src.len() as int)),
    decreases i,
{
    if i == 0 {
        assert(src.subrange(0, src.len() as int) =~= src);
        assert(base64_prefix(src, 0) =~= Seq::<char>::empty());
        assert(Seq::<char>::empty() + base64(src) =~= base64(src));
    } else {
        lemma_base64_split(src, i - 3, (m - 1) as nat);
        let rest = src.subrange(i - 3, src.len() as int);
        assert(rest.subrange(3, rest.len() as int) =~= src.subrange(i, src.len() as int));
        assert(rest[0] == src[i - 3] && rest[1] == src[i - 2] && rest[2] == src[i - 1]);
        assert(base64_prefix(src, i) =~= base64_prefix(src, i - 3) + quad(
            src[i - 3] as nat * 65536 + src[i - 2] as nat * 256 + src[i - 1] as nat,
        ));
    }
}

/// Digits of the first `i` bytes, `i` a multiple of three.
pub open spec fn base64_prefix(src: Seq<u8>, i: int) -> Seq<char>
    decreases i,
{
    if i < 3 {
        Seq::empty()
    } else {
        base64_prefix(src, i - 3) + quad(
            src[i - 3] as nat * 65536 + src[i - 2] as nat * 256 + src[i - 1] as nat,
        )
    }
}

fn push_digits(out: &mut String, t: u32, count: usize)
    requires
        t < 16777216,
        count <= 4,
    ensures
        final(out)@ == old(out)@ + quad(t as nat).subrange(0, count as int),
{
    let ghost start = out@;
    let q = [t / 262144 % 64, t / 4096 % 64, t / 64 % 64, t % 64];
    let mut k: usize = 0;
    while k < count
        invariant
            k <= count <= 4,
            q@ == seq![t / 262144 % 64, t / 4096 % 64, t / 64 % 64, t % 64],
            out@ == start + quad(t as nat).subrange(0, k as int),
        decreases count - k,
    {
        let c = digit_char(q[k]);
        push_char(out, c);
        k = k + 1;
        assert(out@ =~= start + quad(t as nat).subrange(0, k as int));
    }
}

/// Encodes `src` as base64 with `=` padding.
pub fn base64_encode(src: &[u8]) -> (r: String)
    ensures
        r@ == base64(src@),
{
    let mut out = String::new();
    let n = src.len();
    let mut i: usize = 0;
    let ghost mut m: nat = 0;
    assert(out@ =~= base64_prefix(src@, 0));
    while n - i >= 3
        invariant
            n == src@.len(),
            i <= n,
            i == 3 * m,
            out@ == base64_prefix(src@, i as int),
        decreases n - i,
    {
        let a = src[i] as u32;
        let b = src[i + 1] as u32;
        let c = src[i + 2] as u32;
        let t = a * 65536 + b * 256 + c;
        push_digits(&mut out, t, 4);
        proof {
            assert(quad(t as nat).subrange(0, 4) =~= quad(t as nat));
            assert(base64_prefix(src@, i + 3) == base64_prefix(src@, i as int) + quad(
                src@[i as int] as nat * 65536 + src@[i + 1] as nat * 256 + src@[i + 2] as nat,
            ));
        }
        i = i + 3;
        proof {
            m = m + 1;
        }
    }
    proof {
        lemma_base64_split(src@, i as int, m);
    }
    let ghost rest = src@.subrange(i as int, n as int);
    let rem = n - i;
    if rem == 1 {
        let t = (src[i] as u32) * 65536;
        assert(rest[0] == src@[i as int]);
        push_digits(&mut out, t, 2);
        push_char(&mut out, '=');
        push_char(&mut out, '=');
        assert(out@ =~= base64_prefix(src@, i as int) + base64(rest));
    } else if rem == 2 {
        let t = (src[i] as u32) * 65536 + (src[i + 1] as u32) * 256;
        assert(rest[0] == src@[i as int] && rest[1] == src@[i + 1]);
        push_digits(&mut out, t, 3);
        push_char(&mut out, '=');
        assert(out@ =~= base64_prefix(src@, i as int) + base64(rest));
    } else {
        assert(base64(rest) =~= Seq::<char>::empty());
        assert(out@ =~= base64_prefix(src@, i as int) + base64(rest));
    }
    out
}

} // verus!
