//! SHA-1 (FIPS 180-4), as the WebSocket handshake needs it.
use vstd::prelude::*;

verus! {

/// `v` rotated left by `s` bits, `0 < s < 32`.
pub open spec fn rol(v: u32, s: u32) -> u32 {
    (v << s) | (v >> ((32 - s) as u32))
}

fn rotl(v: u32, s: u32) -> (r: u32)
    requires
        0 < s < 32,
    ensures
        r == rol(v, s),
{
    (v << s) | (v >> (32 - s))
}

/// Count of zero bytes between the 0x80 marker and the length field.
pub open spec fn zero_pad(len: nat) -> nat {
    let m = (len + 1) % 64;
    if m <= 56 {
        (56 - m) as nat
    } else {
        (120 - m) as nat
    }
}

/// Big-endian bytes of a 64-bit value.
pub open spec fn be64(x: u64) -> Seq<u8> {
    Seq::new(8, |m: int| ((x >> ((7 - m) * 8) as u64) & 0xff) as u8)
}

/// The padded message: the input, 0x80, zeros, then the input's length in
/// bits (modulo 2^64) as 8 big-endian bytes.
pub open spec fn padded(msg: Seq<u8>) -> Seq<u8> {
    msg + seq![0x80u8] + Seq::new(zero_pad(msg.len()), |i: int| 0u8) + be64(
        ((msg.len() * 8) % 0x1_0000_0000_0000_0000) as u64,
    )
}

/// Word `j` of a 64-byte block, big-endian.
pub open spec fn word(b: Seq<u8>, j: int) -> u32 {
    ((b[4 * j] as u32) << 24u32) | ((b[4 * j + 1] as u32) << 16u32) | ((b[4 * j + 2] as u32)
        << 8u32) | (b[4 * j + 3] as u32)
}

/// Entry `i` of the message schedule of `block`.
pub open spec fn sched(block: Seq<u8>, i: nat) -> u32
    decreases i,
{
    if i < 16 {
        word(block, i as int)
    } else {
        rol(
            sched(block, (i - 3) as nat) ^ sched(block, (i - 8) as nat) ^ sched(block, (i - 14) as nat)
                ^ sched(block, (i - 16) as nat),
            1,
        )
    }
}

pub struct Sha1State {
    pub a: u32,
    pub b: u32,
    pub c: u32,
    pub d: u32,
    pub e: u32,
}

pub open spec fn round_f(i: nat, b: u32, c: u32, d: u32) -> u32 {
    if i < 20 {
        (b & c) | ((!b) & d)
    } else if i < 40 {
        b ^ c ^ d
    } else if i < 60 {
        (b & c) | (b & d) | (c & d)
    } else {
        b ^ c ^ d
    }
}

pub open spec fn round_k(i: nat) -> u32 {
    if i < 20 {
        0x5A827999
    } else if i < 40 {
        0x6ED9EBA1
    } else if i < 60 {
        0x8F1BBCDC
    } else {
        0xCA62C1D6
    }
}

/// One round on state `s` with round index `i` and schedule word `w`.
pub open spec fn round(s: Sha1State, i: nat, w: u32) -> Sha1State {
    let t = rol(s.a, 5).wrapping_add(round_f(i, s.b, s.c, s.d)).wrapping_add(s.e).wrapping_add(
        round_k(i),
    ).wrapping_add(w);
    Sha1State { a: t, b: s.a, c: rol(s.b, 30), d: s.c, e: s.d }
}

/// The state after the first `n` rounds over `block`, from `h`.
pub open spec fn rounds(h: Sha1State, block: Seq<u8>, n: nat) -> Sha1State
    decreases n,
{
    if n == 0 {
        h
    } else {
        round(rounds(h, block, (n - 1) as nat), (n - 1) as nat, sched(block, (n - 1) as nat))
    }
}

/// The chaining value after one block.
pub open spec fn compress(h: Sha1State, block: Seq<u8>) -> Sha1State {
    let r = rounds(h, block, 80);
    Sha1State {
        a: h.a.wrapping_add(r.a),
        b: h.b.wrapping_add(r.b),
        c: h.c.wrapping_add(r.c),
        d: h.d.wrapping_add(r.d),
        e: h.e.wrapping_add(r.e),
    }
}

pub open spec fn initial() -> Sha1State {
    Sha1State { a: 0x67452301, b: 0xEFCDAB89, c: 0x98BADCFE, d: 0x10325476, e: 0xC3D2E1F0 }
}

/// The chaining value after the first `n` blocks of `p`.
pub open spec fn chain(p: Seq<u8>, n: nat) -> Sha1State
    decreases n,
{
    if n == 0 {
        initial()
    } else {
        compress(chain(p, (n - 1) as nat), p.subrange(64 * (n - 1), 64 * n as int))
    }
}

/// Big-endian bytes of a 32-bit word.
pub open spec fn be32(x: u32) -> Seq<u8> {
    seq![((x >> 24u32) & 0xff) as u8, ((x >> 16u32) & 0xff) as u8, ((x >> 8u32) & 0xff) as u8, (x & 0xff) as u8]
}

/// SHA-1 digest of `msg`.
pub open spec fn sha1_spec(msg: Seq<u8>) -> Seq<u8> {
    let h = chain(padded(msg), padded(msg).len() / 64);
    be32(h.a) + be32(h.b) + be32(h.c) + be32(h.d) + be32(h.e)
}

fn pad_message(input: &[u8]) -> (m: Vec<u8>)
    ensures
        m@ == padded(input@),
        m@.len() % 64 == 0,
{
    let mut msg: Vec<u8> = Vec::new();
    crate::text::push_all(&mut msg, input);
    let len = input.len();
    let bit_len: u64 = (len as u64).wrapping_mul(8);
    proof {
        assert(bit_len == ((input@.len() * 8) % 0x1_0000_0000_0000_0000) as u64);
    }
    msg.push(0x80u8);
    let m = (len % 64 + 1) % 64;
    let zeros: usize = if m <= 56 {
        56 - m
    } else {
        120 - m
    };
    assert(m == (len + 1) % 64) by {
        vstd::arithmetic::div_mod::lemma_add_mod_noop(len as int, 1, 64);
        vstd::arithmetic::div_mod::lemma_mod_twice(len as int, 64);
        vstd::arithmetic::div_mod::lemma_small_mod(1, 64);
    }
    let ghost base = msg@;
    let mut i: usize = 0;
    while i < zeros
        invariant
            i <= zeros,
            msg@ == base + Seq::new(i as nat, |k: int| 0u8),
        decreases zeros - i,
    {
        msg.push(0u8);
        i = i + 1;
        assert(msg@ =~= base + Seq::new(i as nat, |k: int| 0u8));
    }
    let ghost base2 = msg@;
    let mut j: usize = 0;
    while j < 8
        invariant
            j <= 8,
            msg@ == base2 + be64(bit_len).subrange(0, j as int),
        decreases 8 - j,
    {
        let shift: u64 = ((7 - j) * 8) as u64;
        msg.push(((bit_len >> shift) & 0xff) as u8);
        j = j + 1;
        assert(msg@ =~= base2 + be64(bit_len).subrange(0, j as int));
    }
    assert(be64(bit_len).subrange(0, 8) =~= be64(bit_len));
    assert(msg@ =~= padded(input@));
    assert(msg@.len() == len + 1 + zeros + 8);
    assert((len + 1 + zeros + 8) % 64 == 0) by {
        vstd::arithmetic::div_mod::lemma_fundamental_div_mod((len + 1) as int, 64);
        let q = (len + 1) as int / 64;
        if m <= 56 {
            assert(len + 1 + zeros + 8 == 64 * q + 64);
        } else {
            assert(len + 1 + zeros + 8 == 64 * q + 128);
        }
        vstd::arithmetic::div_mod::lemma_mod_multiples_basic(q + 1, 64);
        vstd::arithmetic::div_mod::lemma_mod_multiples_basic(q + 2, 64);
        assert(64 * q + 64 == (q + 1) * 64) by (nonlinear_arith);
        assert(64 * q + 128 == (q + 2) * 64) by (nonlinear_arith);
    }
    msg
}

fn schedule(msg: &Vec<u8>, off: usize) -> (w: Vec<u32>)
    requires
        off + 64 <= msg@.len(),
    ensures
        w@.len() == 80,
        forall|i: int| 0 <= i < 80 ==> #[trigger] w@[i] == sched(msg@.subrange(off as int, off + 64), i as nat),
{
    let ghost block = msg@.subrange(off as int, off + 64);
    let ml = msg.len();
    let mut w: Vec<u32> = Vec::new();
    let mut i: usize = 0;
    while i < 16
        invariant
            ml == msg@.len(),
            off + 64 <= msg@.len(),
            block == msg@.subrange(off as int, off + 64),
            i <= 16,
            w@.len() == i,
            forall|k: int| 0 <= k < i ==> #[trigger] w@[k] == sched(block, k as nat),
        decreases 16 - i,
    {
        let j = off + 4 * i;
        let v = ((msg[j] as u32) << 24u32) | ((msg[j + 1] as u32) << 16u32) | ((msg[j + 2] as u32)
            << 8u32) | (msg[j + 3] as u32);
        assert(block[4 * i as int] == msg@[j as int]);
        assert(block[4 * i + 1] == msg@[j + 1]);
        assert(block[4 * i + 2] == msg@[j + 2]);
        assert(block[4 * i + 3] == msg@[j + 3]);
        w.push(v);
        i = i + 1;
    }
    while i < 80
        invariant
            16 <= i <= 80,
            w@.len() == i,
            forall|k: int| 0 <= k < i ==> #[trigger] w@[k] == sched(block, k as nat),
        decreases 80 - i,
    {
        let v = rotl(w[i - 3] ^ w[i - 8] ^ w[i - 14] ^ w[i - 16], 1);
        w.push(v);
        i = i + 1;
    }
    w
}

fn compress_block(h: &Sha1State, msg: &Vec<u8>, off: usize) -> (r: Sha1State)
    requires
        off + 64 <= msg@.len(),
    ensures
        r == compress(*h, msg@.subrange(off as int, off + 64)),
{
    let ghost block = msg@.subrange(off as int, off + 64);
    let w = schedule(msg, off);
    let mut s = Sha1State { a: h.a, b: h.b, c: h.c, d: h.d, e: h.e };
    let mut i: usize = 0;
    while i < 80
        invariant
            i <= 80,
            w@.len() == 80,
            forall|k: int| 0 <= k < 80 ==> #[trigger] w@[k] == sched(block, k as nat),
            s == rounds(*h, block, i as nat),
        decreases 80 - i,
    {
        let f: u32;
        let k: u32;
        if i < 20 {
            f = (s.b & s.c) | ((!s.b) & s.d);
            k = 0x5A827999;
        } else if i < 40 {
            f = s.b ^ s.c ^ s.d;
            k = 0x6ED9EBA1;
        } else if i < 60 {
            f = (s.b & s.c) | (s.b & s.d) | (s.c & s.d);
            k = 0x8F1BBCDC;
        } else {
            f = s.b ^ s.c ^ s.d;
            k = 0xCA62C1D6;
        }
        let t = rotl(s.a, 5).wrapping_add(f).wrapping_add(s.e).wrapping_add(k).wrapping_add(w[i]);
        s = Sha1State { a: t, b: s.a, c: rotl(s.b, 30), d: s.c, e: s.d };
        i = i + 1;
    }
    Sha1State {
        a: h.a.wrapping_add(s.a),
        b: h.b.wrapping_add(s.b),
        c: h.c.wrapping_add(s.c),
        d: h.d.wrapping_add(s.d),
        e: h.e.wrapping_add(s.e),
    }
}

fn push_be32(out: &mut Vec<u8>, x: u32)
    ensures
        final(out)@ == old(out)@ + be32(x),
{
    let ghost start = out@;
    out.push(((x >> 24u32) & 0xff) as u8);
    out.push(((x >> 16u32) & 0xff) as u8);
    out.push(((x >> 8u32) & 0xff) as u8);
    out.push((x & 0xff) as u8);
    assert(out@ =~= start + be32(x));
}

/// SHA-1 digest of `input`.
pub fn sha1(input: &[u8]) -> (r: [u8; 20])
    ensures
        r@ == sha1_spec(input@),
{
    let msg = pad_message(input);
    let ml = msg.len();
    let n = ml / 64;
    let mut h = Sha1State { a: 0x67452301, b: 0xEFCDAB89, c: 0x98BADCFE, d: 0x10325476, e: 0xC3D2E1F0 };
    let mut c: usize = 0;
    while c < n
        invariant
            msg@ == padded(input@),
            ml == msg@.len(),
            n == msg@.len() / 64,
            msg@.len() % 64 == 0,
            c <= n,
            h == chain(msg@, c as nat),
        decreases n - c,
    {
        assert(64 * c + 64 <= msg@.len()) by {
            vstd::arithmetic::div_mod::lemma_fundamental_div_mod(msg@.len() as int, 64);
            assert(64 * (c + 1) <= 64 * n) by (nonlinear_arith)
                requires
                    c + 1 <= n,
            ;
        }
        h = compress_block(&h, &msg, 64 * c);
        c = c + 1;
    }
    let mut out: Vec<u8> = Vec::new();
    push_be32(&mut out, h.a);
    push_be32(&mut out, h.b);
    push_be32(&mut out, h.c);
    push_be32(&mut out, h.d);
    push_be32(&mut out, h.e);
    let mut res: [u8; 20] = [0u8; 20];
    let mut i: usize = 0;
    while i < 20
        invariant
            i <= 20,
            out@ == sha1_spec(input@),
            out@.len() == 20,
            res@.len() == 20,
            forall|k: int| 0 <= k < i ==> res@[k] == out@[k],
        decreases 20 - i,
    {
        res[i] = out[i];
        i = i + 1;
    }
    assert(res@ =~= out@);
    res
}

} // verus!
