//! The HTTP front end's decisions: which route a request takes, the WebSocket
//! handshake, and what an echo session sends for each frame it receives.
//! Receiving and sending bytes happens elsewhere.
use vstd::prelude::*;
use vstd::string::StringSliceAdditionalSpecFns;
use crate::digest::{sha1, sha1_spec};
use crate::encoding::{base64, base64_encode};
use crate::text::push_all;
use crate::wire::{build_websocket_frame, frame_bytes, frame_spec, parse_websocket_frame};

verus! {

/// Where a request goes.
#[derive(PartialEq, Eq, Structural, Clone, Copy, Debug)]
pub enum Route {
    Index,
    WebSocket,
    NotFound,
}

/// `buf` starts with `p`.
pub open spec fn starts(buf: Seq<u8>, p: Seq<u8>) -> bool {
    p.len() <= buf.len() && buf.subrange(0, p.len() as int) == p
}

/// The route of a request: the index page, the WebSocket endpoint
/// (`/term` or `/ws`), or nothing.
pub open spec fn route_spec(buf: Seq<u8>) -> Route {
    if starts(buf, "GET / ".spec_bytes()) || starts(buf, "GET /HTTP".spec_bytes()) {
        Route::Index
    } else if starts(buf, "GET /term".spec_bytes()) || starts(buf, "GET /ws".spec_bytes()) {
        Route::WebSocket
    } else {
        Route::NotFound
    }
}

fn starts_with(buf: &[u8], p: &[u8]) -> (r: bool)
    ensures
        r == starts(buf@, p@),
{
    if p.len() > buf.len() {
        return false;
    }
    let mut i: usize = 0;
    while i < p.len()
        invariant
            p@.len() <= buf@.len(),
            i <= p@.len(),
            forall|k: int| 0 <= k < i ==> buf@[k] == p@[k],
        decreases p@.len() - i,
    {
        if buf[i] != p[i] {
            assert(buf@.subrange(0, p@.len() as int)[i as int] != p@[i as int]);
            return false;
        }
        i = i + 1;
    }
    assert(buf@.subrange(0, p@.len() as int) =~= p@);
    true
}

/// Picks the route of a raw request.
pub fn route_request(buf: &[u8]) -> (r: Route)
    ensures
        r == route_spec(buf@),
{
    if starts_with(buf, "GET / ".as_bytes()) || starts_with(buf, "GET /HTTP".as_bytes()) {
        Route::Index
    } else if starts_with(buf, "GET /term".as_bytes()) || starts_with(buf, "GET /ws".as_bytes()) {
        Route::WebSocket
    } else {
        Route::NotFound
    }
}

/// `buf` holds a blank line (CRLF CRLF), so the request head is complete.
pub open spec fn has_head_end(buf: Seq<u8>) -> bool {
    exists|i: int| 0 <= i && i + 4 <= buf.len() && #[trigger] buf.subrange(i, i + 4) == seq![13u8, 10u8, 13u8, 10u8]
}

/// Whether the request head in `buf` is complete.
pub fn has_complete_headers(buf: &[u8]) -> (r: bool)
    ensures
        r == has_head_end(buf@),
{
    let n = buf.len();
    let mut i: usize = 0;
    while n >= 4 && i <= n - 4
        invariant
            n == buf@.len(),
            forall|k: int| 0 <= k < i ==> #[trigger] buf@.subrange(k, k + 4) != seq![13u8, 10u8, 13u8, 10u8],
        decreases n - i,
    {
        if buf[i] == 13 && buf[i + 1] == 10 && buf[i + 2] == 13 && buf[i + 3] == 10 {
            assert(buf@.subrange(i as int, i + 4) =~= seq![13u8, 10u8, 13u8, 10u8]);
            return true;
        }
        assert(buf@.subrange(i as int, i + 4)[0] == buf@[i as int]);
        assert(buf@.subrange(i as int, i + 4)[3] == buf@[i + 3]);
        i = i + 1;
    }
    proof {
        if has_head_end(buf@) {
            let k = choose|k: int| 0 <= k && k + 4 <= buf@.len() && #[trigger] buf@.subrange(k, k + 4)
                == seq![13u8, 10u8, 13u8, 10u8];
            assert(k < i);
        }
    }
    false
}

/// `s` without leading spaces.
pub open spec fn trim_lead(s: Seq<u8>) -> Seq<u8>
    decreases s.len(),
{
    if s.len() > 0 && s[0] == 32u8 {
        trim_lead(s.drop_first())
    } else {
        s
    }
}

/// `s` without trailing spaces.
pub open spec fn trim_trail(s: Seq<u8>) -> Seq<u8>
    decreases s.len(),
{
    if s.len() > 0 && s.last() == 32u8 {
        trim_trail(s.drop_last())
    } else {
        s
    }
}

/// The `Sec-WebSocket-Accept` value for the client key `key`: base64 of the
/// SHA-1 of the key, trimmed of spaces, followed by the protocol's GUID.
pub open spec fn accept_spec(key: Seq<u8>) -> Seq<char> {
    base64(sha1_spec(trim_trail(trim_lead(key)) + "258EAFA5-E914-47DA-95CA-C5AB0DC85B11".spec_bytes()))
}

/// Computes the `Sec-WebSocket-Accept` value for a client key.
pub fn websocket_accept_key(key: &[u8]) -> (r: String)
    ensures
        r@ == accept_spec(key@),
{
    let n = key.len();
    let mut lo: usize = 0;
    assert(key@.subrange(0, n as int) =~= key@);
    while lo < n && key[lo] == 32u8
        invariant
            n == key@.len(),
            lo <= n,
            trim_lead(key@) == trim_lead(key@.subrange(lo as int, n as int)),
        decreases n - lo,
    {
        assert(key@.subrange(lo as int, n as int).drop_first() =~= key@.subrange(lo + 1, n as int));
        lo = lo + 1;
    }
    let ghost led = key@.subrange(lo as int, n as int);
    assert(trim_lead(led) == led);
    let mut hi: usize = n;
    while hi > lo && key[hi - 1] == 32u8
        invariant
            n == key@.len(),
            lo <= hi <= n,
            led == key@.subrange(lo as int, n as int),
            trim_trail(led) == trim_trail(key@.subrange(lo as int, hi as int)),
        decreases hi - lo,
    {
        assert(key@.subrange(lo as int, hi as int).drop_last() =~= key@.subrange(lo as int, hi - 1));
        hi = hi - 1;
    }
    let ghost trimmed = key@.subrange(lo as int, hi as int);
    assert(trim_trail(trimmed) == trimmed);
    let mut combined: Vec<u8> = Vec::new();
    push_all(&mut combined, vstd::slice::slice_subrange(key, lo, hi));
    push_all(&mut combined, "258EAFA5-E914-47DA-95CA-C5AB0DC85B11".as_bytes());
    let digest = sha1(combined.as_slice());
    base64_encode(&digest)
}

/// The `101 Switching Protocols` response carrying `accept`.
pub open spec fn handshake_spec(accept: Seq<u8>) -> Seq<u8> {
    "HTTP/1.1 101 Switching Protocols\r\nUpgrade: websocket\r\nConnection: Upgrade\r\nSec-WebSocket-Accept: ".spec_bytes()
        + accept + "\r\n\r\n".spec_bytes()
}

/// Builds the handshake response for the accept value `accept`.
pub fn handshake_response(accept: &str) -> (r: Vec<u8>)
    ensures
        r@ == handshake_spec(accept.spec_bytes()),
{
    let mut v: Vec<u8> = Vec::new();
    push_all(
        &mut v,
        "HTTP/1.1 101 Switching Protocols\r\nUpgrade: websocket\r\nConnection: Upgrade\r\nSec-WebSocket-Accept: ".as_bytes(),
    );
    push_all(&mut v, accept.as_bytes());
    push_all(&mut v, "\r\n\r\n".as_bytes());
    v
}

/// A fragmented message in progress: its opcode and the payload so far.
pub type Partial = (Option<u8>, Seq<u8>);

/// What an echo of `payload` sends: the payload in a binary frame, then an
/// empty ping.
pub open spec fn echo_spec(payload: Seq<u8>) -> Seq<Seq<u8>> {
    seq![frame_bytes(2, payload), seq![0x89u8, 0u8]]
}

/// The session's reaction to one frame: the new fragment state, the frames to
/// send, and whether the connection is to be closed.
pub open spec fn on_frame(st: Partial, fin: bool, op: u8, payload: Seq<u8>) -> (Partial, Seq<Seq<u8>>, bool) {
    if op == 0 {
        match st.0 {
            None => (st, Seq::empty(), false),
            Some(o) => {
                let all = st.1 + payload;
                if fin {
                    (
                        (None, Seq::empty()),
                        if o == 1 || o == 2 {
                            echo_spec(all)
                        } else {
                            Seq::empty()
                        },
                        false,
                    )
                } else {
                    ((Some(o), all), Seq::empty(), false)
                }
            },
        }
    } else if op == 1 || op == 2 {
        if fin {
            (st, echo_spec(payload), false)
        } else {
            ((Some(op), payload), Seq::empty(), false)
        }
    } else if op == 8 {
        (st, Seq::empty(), true)
    } else if op == 9 {
        (st, seq![frame_bytes(0xA, payload)], false)
    } else {
        (st, Seq::empty(), false)
    }
}

/// Handles every whole frame at the front of `buf` in order, stopping after a
/// close frame: the final fragment state, the bytes left over, the frames to
/// send, and whether to close.
pub open spec fn drain_frames(st: Partial, buf: Seq<u8>) -> (Partial, Seq<u8>, Seq<Seq<u8>>, bool)
    decreases buf.len(),
{
    match frame_spec(buf) {
        None => (st, buf, Seq::empty(), false),
        Some((total, fin, op, p)) => {
            let (st1, out1, close) = on_frame(st, fin, op, p);
            let rest = buf.subrange(total as int, buf.len() as int);
            if close || total == 0 || total > buf.len() {
                (st1, rest, out1, close)
            } else {
                let (st2, left, out2, c2) = drain_frames(st1, rest);
                (st2, left, out1 + out2, c2)
            }
        },
    }
}

/// Views of a list of byte vectors.
pub open spec fn views(v: Seq<Vec<u8>>) -> Seq<Seq<u8>> {
    v.map_values(|x: Vec<u8>| x@)
}

/// An echo session on one WebSocket connection.
pub struct WsSession {
    acc: Vec<u8>,
    frag_op: Option<u8>,
    frag: Vec<u8>,
}

impl WsSession {
    /// Bytes received and not yet part of a whole frame.
    pub closed spec fn pending(&self) -> Seq<u8> {
        self.acc@
    }

    /// The fragmented message in progress.
    pub closed spec fn partial(&self) -> Partial {
        (self.frag_op, self.frag@)
    }

    pub fn new() -> (s: Self)
        ensures
            s.pending() == Seq::<u8>::empty(),
            s.partial() == (None::<u8>, Seq::<u8>::empty()),
    {
        WsSession { acc: Vec::new(), frag_op: None, frag: Vec::new() }
    }

    fn handle(&mut self, fin: bool, op: u8, payload: Vec<u8>, out: &mut Vec<Vec<u8>>) -> (close: bool)
        ensures
            ({
                let (st, sent, c) = on_frame(old(self).partial(), fin, op, payload@);
                &&& final(self).partial() == st
                &&& views(final(out)@) == views(old(out)@) + sent
                &&& close == c
            }),
            final(self).acc == old(self).acc,
    {
        let ghost start = views(out@);
        if op == 0 {
            match self.frag_op {
                None => {
                    assert(views(out@) =~= start + Seq::<Seq<u8>>::empty());
                    false
                },
                Some(o) => {
                    push_all(&mut self.frag, payload.as_slice());
                    if fin {
                        let mut all: Vec<u8> = Vec::new();
                        core::mem::swap(&mut all, &mut self.frag);
                        self.frag_op = None;
                        if o == 1 || o == 2 {
                            out.push(build_websocket_frame(2, all.as_slice()));
                            let mut ping: Vec<u8> = Vec::new();
                            ping.push(0x89u8);
                            ping.push(0u8);
                            assert(ping@ =~= seq![0x89u8, 0u8]);
                            out.push(ping);
                            assert(views(out@) =~= start + echo_spec(all@));
                        } else {
                            assert(views(out@) =~= start + Seq::<Seq<u8>>::empty());
                        }
                        assert(self.frag@ =~= Seq::<u8>::empty());
                    } else {
                        assert(views(out@) =~= start + Seq::<Seq<u8>>::empty());
                    }
                    false
                },
            }
        } else if op == 1 || op == 2 {
            if fin {
                out.push(build_websocket_frame(2, payload.as_slice()));
                let mut ping: Vec<u8> = Vec::new();
                ping.push(0x89u8);
                ping.push(0u8);
                assert(ping@ =~= seq![0x89u8, 0u8]);
                out.push(ping);
                assert(views(out@) =~= start + echo_spec(payload@));
            } else {
                self.frag_op = Some(op);
                self.frag = payload;
                assert(views(out@) =~= start + Seq::<Seq<u8>>::empty());
            }
            false
        } else if op == 8 {
            assert(views(out@) =~= start + Seq::<Seq<u8>>::empty());
            true
        } else if op == 9 {
            out.push(build_websocket_frame(0xA, payload.as_slice()));
            assert(views(out@) =~= start + seq![frame_bytes(0xA, payload@)]);
            false
        } else {
            assert(views(out@) =~= start + Seq::<Seq<u8>>::empty());
            false
        }
    }

    /// Takes in received bytes and handles every whole frame now available.
    /// Returns the frames to send, in order, and whether the peer asked to
    /// close (frames after a close frame are left unhandled).
    pub fn on_data(&mut self, chunk: &[u8]) -> (r: (Vec<Vec<u8>>, bool))
        ensures
            ({
                let (st, rest, sent, close) = drain_frames(old(self).partial(), old(self).pending() + chunk@);
                &&& final(self).partial() == st
                &&& final(self).pending() == rest
                &&& views(r.0@) == sent
                &&& r.1 == close
            }),
    {
        let ghost all = self.acc@ + chunk@;
        let ghost st0 = self.partial();
        push_all(&mut self.acc, chunk);
        assert(self.acc@ == all);
        assert(self.partial() == st0);
        let mut out: Vec<Vec<u8>> = Vec::new();
        assert(views(out@) =~= Seq::<Seq<u8>>::empty());
        assert(views(out@) + drain_frames(st0, all).2 =~= drain_frames(st0, all).2);
        loop
            invariant
                st0 == old(self).partial(),
                all == old(self).pending() + chunk@,
                ({
                    let (st, rest, sent, close) = drain_frames(st0, all);
                    let (st_here, rest_here, sent_here, close_here) = drain_frames(self.partial(), self.acc@);
                    &&& st == st_here
                    &&& rest == rest_here
                    &&& sent == views(out@) + sent_here
                    &&& close == close_here
                }),
            decreases self.acc@.len(),
        {
            let ghost before = self.acc@;
            let ghost st_before = self.partial();
            let ghost out_before = views(out@);
            match parse_websocket_frame(self.acc.as_slice()) {
                None => {
                    assert(frame_spec(before) is None);
                    assert(drain_frames(st_before, before) == (st_before, before, Seq::<Seq<u8>>::empty(), false));
                    assert(views(out@) + Seq::<Seq<u8>>::empty() =~= views(out@));
                    return (out, false);
                },
                Some((n, fin, op, payload)) => {
                    let ghost fr = frame_spec(before);
                    assert(fr == Some((n as nat, fin, op, payload@)));
                    let mut rest: Vec<u8> = Vec::new();
                    push_all(&mut rest, vstd::slice::slice_subrange(self.acc.as_slice(), n, self.acc.len()));
                    self.acc = rest;
                    assert(self.acc@ == before.subrange(n as int, before.len() as int));
                    let close = self.handle(fin, op, payload, &mut out);
                    assert(n >= 2 && n <= before.len());
                    if close {
                        assert(drain_frames(st_before, before) == (
                            self.partial(),
                            self.acc@,
                            on_frame(st_before, fin, op, payload@).1,
                            true,
                        ));
                        assert(views(out@) =~= out_before + on_frame(st_before, fin, op, payload@).1);
                        assert(out_before + on_frame(st_before, fin, op, payload@).1 + Seq::<Seq<u8>>::empty()
                            =~= out_before + on_frame(st_before, fin, op, payload@).1);
                        return (out, true);
                    }
                    assert(views(out@) + drain_frames(self.partial(), self.acc@).2 =~= out_before + (
                        on_frame(st_before, fin, op, payload@).1 + drain_frames(self.partial(), self.acc@).2));
                },
            }
        }
    }
}

} // verus!
