//! Byte-level formats of the HTTP front end: header lookup in a raw request
//! and WebSocket frames (RFC 6455 framing).
use vstd::prelude::*;
use vstd::string::StringSliceAdditionalSpecFns;

verus! {

/// Index of the first byte from `j` on that is neither `:` nor a space.
pub open spec fn skip_sep(req: Seq<u8>, j: int) -> int
    decreases req.len() - j,
{
    if 0 <= j < req.len() && (req[j] == 58u8 || req[j] == 32u8) {
        skip_sep(req, j + 1)
    } else {
        j
    }
}

/// Where the header value starting at `k` ends: the first CRLF from `k` on,
/// or the last byte of the request when there is none.
pub open spec fn line_end(req: Seq<u8>, k: int) -> int
    decreases req.len() - k,
{
    if k + 1 < req.len() {
        if req[k] == 13u8 && req[k + 1] == 10u8 {
            k
        } else {
            line_end(req, k + 1)
        }
    } else {
        k
    }
}

/// Bounds of the value of the first occurrence of `name` at or after `i` that
/// is followed by at least one more byte.
pub open spec fn header_from(req: Seq<u8>, name: Seq<u8>, i: int) -> Option<(int, int)>
    decreases req.len() - i,
{
    if 0 <= i && i + name.len() < req.len() {
        if req.subrange(i, i + name.len()) == name {
            let j = skip_sep(req, i + name.len());
            Some((j, line_end(req, j)))
        } else {
            header_from(req, name, i + 1)
        }
    } else {
        None
    }
}

pub proof fn lemma_skip_sep_bounds(req: Seq<u8>, j: int)
    requires
        0 <= j <= req.len(),
    ensures
        j <= skip_sep(req, j) <= req.len(),
    decreases req.len() - j,
{
    if 0 <= j < req.len() && (req[j] == 58u8 || req[j] == 32u8) {
        lemma_skip_sep_bounds(req, j + 1);
    }
}

pub proof fn lemma_line_end_bounds(req: Seq<u8>, k: int)
    requires
        0 <= k <= req.len(),
    ensures
        k <= line_end(req, k) <= req.len(),
    decreases req.len() - k,
{
    if k + 1 < req.len() && !(req[k] == 13u8 && req[k + 1] == 10u8) {
        lemma_line_end_bounds(req, k + 1);
    }
}

fn bytes_match_at(hay: &[u8], at: usize, needle: &[u8]) -> (r: bool)
    requires
        at + needle@.len() <= hay@.len(),
    ensures
        r == (hay@.subrange(at as int, at + needle@.len()) == needle@),
{
    let hl = hay.len();
    let mut k: usize = 0;
    while k < needle.len()
        invariant
            hl == hay@.len(),
            at + needle@.len() <= hay@.len(),
            k <= needle@.len(),
            forall|m: int| 0 <= m < k ==> hay@[at + m] == needle@[m],
        decreases needle@.len() - k,
    {
        if hay[at + k] != needle[k] {
            assert(hay@.subrange(at as int, at + needle@.len())[k as int] != needle@[k as int]);
            return false;
        }
        k = k + 1;
    }
    assert(hay@.subrange(at as int, at + needle@.len()) =~= needle@);
    true
}

/// Finds header `name` in a raw request and returns its value: the bytes after
/// the name and any `:` or spaces, up to the next CRLF. Only occurrences
/// followed by at least one more byte count.
pub fn find_header_value<'a>(req: &'a [u8], name: &str) -> (r: Option<&'a [u8]>)
    ensures
        match header_from(req@, name.spec_bytes(), 0) {
            Some((j, k)) => r matches Some(v) && v@ == req@.subrange(j, k),
            None => r is None,
        },
{
    let needle = name.as_bytes();
    let n = needle.len();
    let len = req.len();
    let mut i: usize = 0;
    while i < len && n < len - i
        invariant
            n == needle@.len(),
            len == req@.len(),
            needle@ == name.spec_bytes(),
            header_from(req@, needle@, 0) == header_from(req@, needle@, i as int),
        decreases len - i,
    {
        if bytes_match_at(req, i, needle) {
            let mut j = i + n;
            proof {
                lemma_skip_sep_bounds(req@, j as int);
            }
            while j < len && (req[j] == 58u8 || req[j] == 32u8)
                invariant
                    i + n <= j <= len,
                    len == req@.len(),
                    skip_sep(req@, (i + n) as int) == skip_sep(req@, j as int),
                decreases len - j,
            {
                j = j + 1;
            }
            let mut k = j;
            proof {
                lemma_line_end_bounds(req@, j as int);
            }
            while len > 0 && k < len - 1
                invariant
                    j <= k <= len,
                    len == req@.len(),
                    line_end(req@, j as int) == line_end(req@, k as int),
                ensures
                    j <= k <= len,
                    line_end(req@, j as int) == k,
                decreases len - k,
            {
                if req[k] == 13u8 && req[k + 1] == 10u8 {
                    break;
                }
                k = k + 1;
            }
            assert(skip_sep(req@, j as int) == j);
            assert(req@.subrange(i as int, i + n) == name.spec_bytes());
            return Some(vstd::slice::slice_subrange(req, j, k));
        }
        i = i + 1;
    }
    None
}

/// Big-endian value of a byte sequence.
pub open spec fn be_value(s: Seq<u8>) -> nat
    decreases s.len(),
{
    if s.len() == 0 {
        0
    } else {
        be_value(s.drop_last()) * 256 + s.last() as nat
    }
}

pub open spec fn pow256(k: nat) -> nat
    decreases k,
{
    if k == 0 {
        1
    } else {
        256 * pow256((k - 1) as nat)
    }
}

/// Payload length and the index after the length field, from a frame's
/// second byte on; `None` when the length field is incomplete.
pub open spec fn frame_len_field(buf: Seq<u8>) -> Option<(nat, nat)> {
    let l7 = buf[1] % 128;
    if l7 == 126 {
        if buf.len() < 4 {
            None
        } else {
            Some((be_value(buf.subrange(2, 4)), 4))
        }
    } else if l7 == 127 {
        if buf.len() < 10 {
            None
        } else {
            Some((be_value(buf.subrange(2, 10)), 10))
        }
    } else {
        Some((l7 as nat, 2))
    }
}

/// The payload bytes `buf[start..start + n]`, unmasked with the key at
/// `key` when `masked`.
pub open spec fn unmasked(buf: Seq<u8>, start: int, n: nat, masked: bool, key: int) -> Seq<u8> {
    Seq::new(
        n,
        |i: int|
            if masked {
                buf[start + i] ^ buf[key + i % 4]
            } else {
                buf[start + i]
            },
    )
}

/// The first frame in `buf`: bytes it spans, FIN flag, opcode and unmasked
/// payload; `None` when `buf` does not yet hold a whole frame.
pub open spec fn frame_spec(buf: Seq<u8>) -> Option<(nat, bool, u8, Seq<u8>)> {
    if buf.len() < 2 {
        None
    } else {
        match frame_len_field(buf) {
            None => None,
            Some((plen, pos)) => {
                let masked = buf[1] >= 128;
                let start = if masked {
                    pos + 4
                } else {
                    pos
                };
                if buf.len() < start + plen {
                    None
                } else {
                    Some(
                        (
                            start + plen,
                            buf[0] >= 128,
                            buf[0] % 16,
                            unmasked(buf, start as int, plen, masked, pos as int),
                        ),
                    )
                }
            },
        }
    }
}

/// Parses the first WebSocket frame in `buf`: returns the number of bytes it
/// spans, its FIN flag, its opcode and its payload, unmasked when a mask key
/// is present; `None` when `buf` does not yet hold a whole frame.
pub fn parse_websocket_frame(buf: &[u8]) -> (r: Option<(usize, bool, u8, Vec<u8>)>)
    ensures
        match frame_spec(buf@) {
            Some((total, fin, op, payload)) => r matches Some((t, f, o, p)) && t == total && f == fin
                && o == op && p@ == payload,
            None => r is None,
        },
{
    let len = buf.len();
    if len < 2 {
        return None;
    }
    let b1 = buf[0];
    let b2 = buf[1];
    let fin = b1 >= 128;
    let opcode = b1 % 16;
    let masked = b2 >= 128;
    let l7 = b2 % 128;
    let mut plen: u64;
    let mut pos: usize;
    if l7 == 126 {
        if len < 4 {
            return None;
        }
        plen = (buf[2] as u64) * 256 + (buf[3] as u64);
        pos = 4;
        proof {
            let s = buf@.subrange(2, 4);
            assert(s.drop_last().drop_last() =~= Seq::<u8>::empty());
            assert(be_value(s) == be_value(s.drop_last()) * 256 + buf@[3]);
            assert(be_value(s.drop_last()) == be_value(s.drop_last().drop_last()) * 256 + buf@[2]);
        }
    } else if l7 == 127 {
        if len < 10 {
            return None;
        }
        plen = 0;
        pos = 2;
        proof {
            assert(buf@.subrange(2, 2) =~= Seq::<u8>::empty());
        }
        while pos < 10
            invariant
                2 <= pos <= 10,
                len == buf@.len(),
                len >= 10,
                plen == be_value(buf@.subrange(2, pos as int)),
                plen < pow256((pos - 2) as nat),
            decreases 10 - pos,
        {
            proof {
                let s = buf@.subrange(2, pos as int + 1);
                assert(s.drop_last() =~= buf@.subrange(2, pos as int));
                reveal_with_fuel(pow256, 8);
                let p = pow256((pos - 2) as nat);
                assert(p <= pow256(7));
                assert(pow256(7) == 0x100_0000_0000_0000nat);
                assert(plen * 256 + buf@[pos as int] < 256 * p) by (nonlinear_arith)
                    requires
                        plen < p,
                        buf@[pos as int] < 256,
                ;
            }
            plen = plen * 256 + (buf[pos] as u64);
            pos = pos + 1;
        }
    } else {
        plen = l7 as u64;
        pos = 2;
    }
    let key_pos = pos;
    let start: usize = if masked {
        if len < pos + 4 {
            return None;
        }
        pos + 4
    } else {
        pos
    };
    if ((len - start) as u64) < plen {
        return None;
    }
    let n = plen as usize;
    let total = start + n;
    let mut payload: Vec<u8> = Vec::new();
    let mut i: usize = 0;
    while i < n
        invariant
            start + n == total,
            total <= len,
            len == buf@.len(),
            key_pos + 4 <= len || !masked,
            i <= n,
            payload@ == unmasked(buf@, start as int, n as nat, masked, key_pos as int).subrange(0, i as int),
        decreases n - i,
    {
        let b = if masked {
            buf[start + i] ^ buf[key_pos + i % 4]
        } else {
            buf[start + i]
        };
        payload.push(b);
        i = i + 1;
        assert(payload@ =~= unmasked(buf@, start as int, n as nat, masked, key_pos as int).subrange(0, i as int));
    }
    assert(payload@ =~= unmasked(buf@, start as int, n as nat, masked, key_pos as int));
    Some((total, fin, opcode, payload))
}

/// The length field of a server frame carrying `l` payload bytes.
pub open spec fn len_field(l: nat) -> Seq<u8> {
    if l < 126 {
        seq![l as u8]
    } else if l < 65536 {
        seq![126u8, (l / 256) as u8, (l % 256) as u8]
    } else {
        seq![127u8] + Seq::new(8, |i: int| ((l / pow256((7 - i) as nat)) % 256) as u8)
    }
}

/// An unmasked, final frame with `opcode` and `payload`.
pub open spec fn frame_bytes(opcode: u8, payload: Seq<u8>) -> Seq<u8> {
    seq![0x80u8 | opcode] + len_field(payload.len()) + payload
}

/// Builds an unmasked, final WebSocket frame (server to client).
pub fn build_websocket_frame(opcode: u8, payload: &[u8]) -> (r: Vec<u8>)
    ensures
        r@ == frame_bytes(opcode, payload@),
{
    let mut out: Vec<u8> = Vec::new();
    out.push(0x80u8 | opcode);
    let l = payload.len();
    if l < 126 {
        out.push(l as u8);
    } else if l < 65536 {
        out.push(126u8);
        out.push((l / 256) as u8);
        out.push((l % 256) as u8);
    } else {
        out.push(127u8);
        let v = l as u64;
        let mut le: Vec<u8> = Vec::new();
        let mut tmp: u64 = v;
        let mut k: usize = 0;
        assert(pow256(0) == 1);
        assert(v as nat / 1 == v as nat);
        while k < 8
            invariant
                k <= 8,
                le@.len() == k,
                tmp == v as nat / pow256(k as nat),
                forall|m: int| 0 <= m < k ==> #[trigger] le@[m] == ((v as nat / pow256(m as nat)) % 256) as u8,
            decreases 8 - k,
        {
            le.push((tmp % 256) as u8);
            proof {
                lemma_pow256_pos(k as nat);
                vstd::arithmetic::div_mod::lemma_div_denominator(v as int, pow256(k as nat) as int, 256);
                assert(pow256(k as nat + 1) == 256 * pow256(k as nat));
                assert(pow256(k as nat) * 256 == 256 * pow256(k as nat)) by (nonlinear_arith);
            }
            tmp = tmp / 256;
            k = k + 1;
        }
        let ghost start = out@;
        let mut m: usize = 0;
        while m < 8
            invariant
                m <= 8,
                le@.len() == 8,
                forall|q: int| 0 <= q < 8 ==> #[trigger] le@[q] == ((v as nat / pow256(q as nat)) % 256) as u8,
                out@ == start + Seq::new(8, |i: int| ((v as nat / pow256((7 - i) as nat)) % 256) as u8).subrange(0, m as int),
            decreases 8 - m,
        {
            out.push(le[7 - m]);
            m = m + 1;
            assert(out@ =~= start + Seq::new(8, |i: int| ((v as nat / pow256((7 - i) as nat)) % 256) as u8).subrange(0, m as int));
        }
    }
    let ghost head = out@;
    assert(head =~= seq![0x80u8 | opcode] + len_field(l as nat));
    crate::text::push_all(&mut out, payload);
    out
}

pub proof fn lemma_pow256_pos(k: nat)
    ensures
        pow256(k) > 0,
    decreases k,
{
    if k > 0 {
        lemma_pow256_pos((k - 1) as nat);
    }
}

} // verus!
