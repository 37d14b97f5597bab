//! IPv4 socket addresses and the decisions of the non-blocking socket futures.
//! Each future issues its system call elsewhere and hands the raw result to
//! `on_result`, which says whether the future is done or must wait for
//! readiness of a descriptor (and so register a waker for it).
use vstd::prelude::*;
use crate::reactor::{POLLIN, POLLOUT};

verus! {

pub const AF_INET: i32 = 2;

pub const SOCK_STREAM: i32 = 1;

/// Negated `EAGAIN`: the call would block.
pub const WOULD_BLOCK: isize = -11;

/// Negated `EINPROGRESS`: a connect is under way.
pub const IN_PROGRESS: isize = -115;

/// `struct sockaddr_in`, field for field.
pub struct SockAddrIn {
    pub sin_family: u16,
    pub sin_port: u16,
    pub sin_addr: u32,
    pub sin_zero: [u8; 8],
}

/// `x` with its two bytes exchanged.
pub open spec fn swap16(x: u16) -> u16 {
    ((x % 256) * 256 + x / 256) as u16
}

/// Host to network byte order for a 16-bit value on a little-endian host.
pub fn htons(x: u16) -> (r: u16)
    ensures
        r == swap16(x),
{
    (x % 256) * 256 + x / 256
}

/// Network to host byte order for a 16-bit value on a little-endian host.
pub fn ntohs(x: u16) -> (r: u16)
    ensures
        r == swap16(x),
{
    (x % 256) * 256 + x / 256
}

/// The IPv4 socket address for `addr` (already in network order) and the
/// host-order `port`.
pub fn inet4_sockaddr(port: u16, addr: u32) -> (r: SockAddrIn)
    ensures
        r.sin_family == AF_INET,
        r.sin_port == swap16(port),
        r.sin_addr == addr,
        r.sin_zero@ == seq![0u8; 8],
{
    let z: [u8; 8] = [0u8; 8];
    assert(z@ =~= seq![0u8; 8]);
    SockAddrIn { sin_family: 2, sin_port: htons(port), sin_addr: addr, sin_zero: z }
}

/// What a socket future does with a system call's result.
pub enum IoPoll<T> {
    /// Done, with this output.
    Ready(T),
    /// Not yet: register a waker for this descriptor and event mask, then
    /// report pending.
    Pending(i32, i16),
}

/// Waits for a connection on a listening socket.
pub struct AcceptFuture {
    pub fd: i32,
    pub registered: bool,
}

impl AcceptFuture {
    pub fn new(fd: i32) -> (f: Self)
        ensures
            f.fd == fd,
            !f.registered,
    {
        AcceptFuture { fd, registered: false }
    }

    /// `r` is what `accept4` returned: a descriptor, or a negated error.
    pub fn on_result(&mut self, r: isize) -> (p: IoPoll<isize>)
        ensures
            final(self).fd == old(self).fd,
            r == WOULD_BLOCK ==> p == IoPoll::<isize>::Pending(old(self).fd, POLLIN) && final(self).registered,
            r != WOULD_BLOCK ==> p == IoPoll::<isize>::Ready(r) && final(self).registered == old(self).registered,
    {
        if r == WOULD_BLOCK {
            self.registered = true;
            IoPoll::Pending(self.fd, POLLIN)
        } else {
            IoPoll::Ready(r)
        }
    }
}

/// Completes a non-blocking connect.
pub struct ConnectFuture {
    pub fd: i32,
    pub addr: Vec<u8>,
    pub registered: bool,
}

impl ConnectFuture {
    /// `addr` holds the encoded socket address to connect to.
    pub fn new(fd: i32, addr: &[u8]) -> (f: Self)
        ensures
            f.fd == fd,
            f.addr@ == addr@,
            !f.registered,
    {
        let mut v: Vec<u8> = Vec::new();
        crate::text::push_all(&mut v, addr);
        ConnectFuture { fd, addr: v, registered: false }
    }

    /// `r` is what `connect` returned.
    pub fn on_result(&mut self, r: isize) -> (p: IoPoll<isize>)
        ensures
            final(self).fd == old(self).fd,
            final(self).addr@ == old(self).addr@,
            (r == WOULD_BLOCK || r == IN_PROGRESS) ==> p == IoPoll::<isize>::Pending(old(self).fd, POLLOUT)
                && final(self).registered,
            !(r == WOULD_BLOCK || r == IN_PROGRESS) ==> p == IoPoll::<isize>::Ready(r)
                && final(self).registered == old(self).registered,
    {
        if r == WOULD_BLOCK || r == IN_PROGRESS {
            self.registered = true;
            IoPoll::Pending(self.fd, POLLOUT)
        } else {
            IoPoll::Ready(r)
        }
    }
}

/// How many of `cap` buffered bytes a `recvfrom` result `r` delivers.
pub open spec fn received_len(r: int, cap: int) -> int {
    if r <= 0 {
        0
    } else if r <= cap {
        r
    } else {
        cap
    }
}

/// Receives up to a fixed number of bytes.
pub struct RecvFuture {
    pub fd: i32,
    pub buf: Vec<u8>,
    pub registered: bool,
}

impl RecvFuture {
    /// A future that receives up to `cap` bytes into a zeroed buffer.
    pub fn new(fd: i32, cap: usize) -> (f: Self)
        ensures
            f.fd == fd,
            f.buf@ == Seq::new(cap as nat, |i: int| 0u8),
            !f.registered,
    {
        let buf = crate::buffers::vec_with_len(cap);
        RecvFuture { fd, buf, registered: false }
    }

    /// `r` is what `recvfrom` returned after filling `buf`. A positive count
    /// yields the bytes received; end of stream or an error yields nothing.
    pub fn on_result(&mut self, r: isize) -> (p: IoPoll<Vec<u8>>)
        ensures
            final(self).fd == old(self).fd,
            r == WOULD_BLOCK ==> p == IoPoll::<Vec<u8>>::Pending(old(self).fd, POLLIN)
                && final(self).registered && final(self).buf@ == old(self).buf@,
            r != WOULD_BLOCK ==> (p matches IoPoll::Ready(v) && v@ == old(self).buf@.subrange(
                0,
                received_len(r as int, old(self).buf@.len() as int),
            )),
    {
        if r == WOULD_BLOCK {
            self.registered = true;
            return IoPoll::Pending(self.fd, POLLIN);
        }
        let mut out: Vec<u8> = Vec::new();
        core::mem::swap(&mut out, &mut self.buf);
        let keep: usize = if r <= 0 {
            0
        } else if (r as usize) <= out.len() {
            r as usize
        } else {
            out.len()
        };
        out.truncate(keep);
        IoPoll::Ready(out)
    }
}

/// Sends a copy of some bytes.
pub struct SendFuture {
    pub fd: i32,
    pub buf: Vec<u8>,
    pub registered: bool,
}

impl SendFuture {
    pub fn new(fd: i32, data: &[u8]) -> (f: Self)
        ensures
            f.fd == fd,
            f.buf@ == data@,
            !f.registered,
    {
        let mut v: Vec<u8> = Vec::new();
        crate::text::push_all(&mut v, data);
        SendFuture { fd, buf: v, registered: false }
    }

    /// `r` is what `sendto` returned: bytes sent, or a negated error.
    pub fn on_result(&mut self, r: isize) -> (p: IoPoll<isize>)
        ensures
            final(self).fd == old(self).fd,
            final(self).buf@ == old(self).buf@,
            r == WOULD_BLOCK ==> p == IoPoll::<isize>::Pending(old(self).fd, POLLOUT) && final(self).registered,
            r != WOULD_BLOCK ==> p == IoPoll::<isize>::Ready(r) && final(self).registered == old(self).registered,
    {
        if r == WOULD_BLOCK {
            self.registered = true;
            IoPoll::Pending(self.fd, POLLOUT)
        } else {
            IoPoll::Ready(r)
        }
    }
}

} // verus!
