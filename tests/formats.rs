use async_nostd::digest::sha1;
use async_nostd::websocket::websocket_accept_key;
use async_nostd::websocket::handshake_response;
use async_nostd::websocket::{has_complete_headers, route_request, Route};
use async_nostd::websocket::WsSession;
use async_nostd::args::parse_cstring_usize;
use async_nostd::args::parse_cstring_ip;
use async_nostd::buffers::{set_vec_len, vec_with_len};
use async_nostd::bump::{align_up, bump_step, BumpAllocator};
use async_nostd::encoding::base64_encode;
use async_nostd::net::{
    htons, inet4_sockaddr, ntohs, AcceptFuture, ConnectFuture, IoPoll, RecvFuture, SendFuture,
};
use async_nostd::pty::openpty;
use async_nostd::text::{format_isize, format_usize, http_response_headers};
use async_nostd::wire::{build_websocket_frame, find_header_value, parse_websocket_frame};

#[test]
fn format_usize_digits() {
    let (b, n) = format_usize(0);
    assert_eq!(&b[..n], b"0");
    let (b, n) = format_usize(12345);
    assert_eq!(&b[..n], b"12345");
    assert!(b[n..].iter().all(|&x| x == 0));
    let (b, n) = format_usize(usize::MAX);
    assert_eq!(&b[..n], b"18446744073709551615");
}

#[test]
fn format_isize_signs() {
    assert_eq!(format_isize(-42), b"-42".to_vec());
    assert_eq!(format_isize(7), b"7".to_vec());
    assert_eq!(format_isize(i64::MIN), b"-9223372036854775808".to_vec());
}

#[test]
fn response_head_bytes() {
    let h = http_response_headers("200 OK", "text/html; charset=utf-8", 1234);
    assert_eq!(
        h,
        b"HTTP/1.1 200 OK\r\nContent-Type: text/html; charset=utf-8\r\nContent-Length: 1234\r\n\r\n".to_vec()
    );
    let h = http_response_headers("404 Not Found", "text/plain", 0);
    assert_eq!(h, b"HTTP/1.1 404 Not Found\r\nContent-Type: text/plain\r\nContent-Length: 0\r\n\r\n".to_vec());
}

#[test]
fn base64_known_vectors() {
    assert_eq!(base64_encode(b""), "");
    assert_eq!(base64_encode(b"f"), "Zg==");
    assert_eq!(base64_encode(b"fo"), "Zm8=");
    assert_eq!(base64_encode(b"foo"), "Zm9v");
    assert_eq!(base64_encode(b"foobar"), "Zm9vYmFy");
    assert_eq!(base64_encode(&[0xfb, 0xff, 0xbf]), "+/+/");
}

#[test]
fn header_lookup() {
    let req = b"GET /ws HTTP/1.1\r\nHost: x\r\nSec-WebSocket-Key: dGhlIHNhbXBsZSBub25jZQ==\r\n\r\n";
    assert_eq!(find_header_value(req, "Sec-WebSocket-Key"), Some(&b"dGhlIHNhbXBsZSBub25jZQ=="[..]));
    assert_eq!(find_header_value(req, "Host"), Some(&b"x"[..]));
    assert_eq!(find_header_value(req, "Missing"), None);
    // Without a closing CRLF the value stops one byte short of the end.
    assert_eq!(find_header_value(b"Key: abc", "Key"), Some(&b"ab"[..]));
    // A name that ends the request has no value to return.
    assert_eq!(find_header_value(b"Key", "Key"), None);
}

#[test]
fn parse_masked_frame() {
    let f = [0x81, 0x85, 0x37, 0xfa, 0x21, 0x3d, 0x7f, 0x9f, 0x4d, 0x51, 0x58, 0xaa];
    let (n, fin, op, payload) = parse_websocket_frame(&f).unwrap();
    assert_eq!((n, fin, op), (11, true, 1));
    assert_eq!(payload, b"Hello".to_vec());
    assert_eq!(parse_websocket_frame(&f[..10]), None);
    assert_eq!(parse_websocket_frame(&f[..1]), None);
}

#[test]
fn parse_extended_lengths() {
    let mut f = vec![0x02, 126, 0x01, 0x00];
    f.extend(std::iter::repeat(9u8).take(256));
    let (n, fin, op, p) = parse_websocket_frame(&f).unwrap();
    assert_eq!((n, fin, op, p.len()), (260, false, 2, 256));
    let mut g = vec![0x82, 127, 0, 0, 0, 0, 0, 0, 0, 3, 1, 2, 3];
    let (n, _, _, p) = parse_websocket_frame(&g).unwrap();
    assert_eq!((n, p), (13, vec![1, 2, 3]));
    g[9] = 200;
    assert_eq!(parse_websocket_frame(&g), None);
    assert_eq!(parse_websocket_frame(&[0x81, 126, 1]), None);
}

#[test]
fn build_frames() {
    assert_eq!(build_websocket_frame(0xA, b"hi"), vec![0x8A, 2, b'h', b'i']);
    let p = vec![7u8; 300];
    let f = build_websocket_frame(2, &p);
    assert_eq!(&f[..4], &[0x82, 126, 1, 44]);
    assert_eq!(f.len(), 304);
    let big = vec![1u8; 70000];
    let f = build_websocket_frame(1, &big);
    assert_eq!(&f[..10], &[0x81, 127, 0, 0, 0, 0, 0, 1, 0x11, 0x70]);
    let (n, fin, op, q) = parse_websocket_frame(&f).unwrap();
    assert_eq!((n, fin, op, q.len()), (70010, true, 1, 70000));
}

#[test]
fn byte_order_and_sockaddr() {
    assert_eq!(htons(0x1234), 0x3412);
    assert_eq!(ntohs(0x3412), 0x1234);
    assert_eq!(htons(8000), 8000u16.to_be());
    let a = inet4_sockaddr(8000, 0x0100007f);
    assert_eq!(a.sin_family, 2);
    assert_eq!(a.sin_port, 8000u16.to_be());
    assert_eq!(a.sin_addr, 0x0100007f);
    assert_eq!(a.sin_zero, [0u8; 8]);
}

#[test]
fn socket_future_decisions() {
    let mut a = AcceptFuture::new(3);
    assert!(matches!(a.on_result(-11), IoPoll::Pending(3, 1)));
    assert!(a.registered);
    assert!(matches!(a.on_result(5), IoPoll::Ready(5)));
    assert!(matches!(a.on_result(-9), IoPoll::Ready(-9)));
    let mut c = ConnectFuture::new(4, &[1, 2]);
    assert_eq!(c.addr, vec![1, 2]);
    assert!(matches!(c.on_result(-115), IoPoll::Pending(4, 4)));
    assert!(matches!(c.on_result(0), IoPoll::Ready(0)));
    let mut s = SendFuture::new(6, b"abc");
    assert_eq!(s.buf, b"abc".to_vec());
    assert!(matches!(s.on_result(-11), IoPoll::Pending(6, 4)));
    assert!(matches!(s.on_result(3), IoPoll::Ready(3)));
}

#[test]
fn recv_future_results() {
    let mut r = RecvFuture::new(5, 8);
    assert_eq!(r.buf, vec![0u8; 8]);
    r.buf[0] = b'a';
    r.buf[1] = b'b';
    r.buf[2] = b'c';
    assert!(matches!(r.on_result(-11), IoPoll::Pending(5, 1)));
    match r.on_result(2) {
        IoPoll::Ready(v) => assert_eq!(v, b"ab".to_vec()),
        _ => panic!("expected data"),
    }
    let mut r = RecvFuture::new(5, 4);
    assert!(matches!(r.on_result(0), IoPoll::Ready(v) if v.is_empty()));
    let mut r = RecvFuture::new(5, 4);
    assert!(matches!(r.on_result(-104), IoPoll::Ready(v) if v.is_empty()));
}

#[test]
fn bump_allocation() {
    assert_eq!(align_up(13, 8), Some(16));
    assert_eq!(align_up(16, 8), Some(16));
    assert_eq!(align_up(usize::MAX, 16), None);
    assert_eq!(bump_step(100, 200, 0, 8), Some((8, 100)));
    assert_eq!(bump_step(100, 200, 10, 0), Some((100, 110)));
    assert_eq!(bump_step(101, 200, 99, 4), None);
    let mut b = BumpAllocator::new(4096, 64);
    assert_eq!(b.allocate(10, 8), Some(4096));
    assert_eq!(b.allocate(1, 16), Some(4112));
    assert_eq!(b.used(), 17);
    assert_eq!(b.allocate(0, 32), Some(32));
    assert_eq!(b.used(), 17);
    assert_eq!(b.allocate(100, 1), None);
    assert_eq!(b.allocate(47, 1), Some(4113));
    assert_eq!(b.allocate(1, 1), None);
}

#[test]
fn pty_and_buffers() {
    assert_eq!(openpty(), Err(-1));
    assert_eq!(vec_with_len(3), vec![0, 0, 0]);
    let mut v = vec![1, 2, 3, 4];
    set_vec_len(&mut v, 2);
    assert_eq!(v, vec![1, 2]);
    set_vec_len(&mut v, 9);
    assert_eq!(v, vec![1, 2]);
}

fn hex(d: &[u8]) -> String {
    d.iter().map(|b| format!("{:02x}", b)).collect()
}

#[test]
fn sha1_known_digests() {
    assert_eq!(hex(&sha1(b"")), "da39a3ee5e6b4b0d3255bfef95601890afd80709");
    assert_eq!(hex(&sha1(b"abc")), "a9993e364706816aba3e25717850c26c9cd0d89d");
    assert_eq!(
        hex(&sha1(b"abcdbcdecdefdefgefghfghighijhijkijkljklmklmnlmnomnopnopq")),
        "84983e441c3bd26ebaae4aa1f95129e5e54670f1"
    );
    let long = vec![b'a'; 1000];
    assert_eq!(hex(&sha1(&long)), "291e9a6c66994949b57ba5e650361e98fc36b1ba");
}

#[test]
fn websocket_accept_key_matches_rfc() {
    assert_eq!(websocket_accept_key(b"dGhlIHNhbXBsZSBub25jZQ=="), "s3pPLMBiTxaQ9kYGzzhZRbK+xOo=");
    assert_eq!(websocket_accept_key(b"  dGhlIHNhbXBsZSBub25jZQ==  "), "s3pPLMBiTxaQ9kYGzzhZRbK+xOo=");
}

#[test]
fn handshake_bytes() {
    assert_eq!(
        handshake_response("abc="),
        b"HTTP/1.1 101 Switching Protocols\r\nUpgrade: websocket\r\nConnection: Upgrade\r\nSec-WebSocket-Accept: abc=\r\n\r\n".to_vec()
    );
}

#[test]
fn request_routes() {
    assert_eq!(route_request(b"GET / HTTP/1.1\r\n"), Route::Index);
    assert_eq!(route_request(b"GET /HTTP/1.1"), Route::Index);
    assert_eq!(route_request(b"GET /ws HTTP/1.1\r\n"), Route::WebSocket);
    assert_eq!(route_request(b"GET /terminal"), Route::WebSocket);
    assert_eq!(route_request(b"GET /other HTTP/1.1"), Route::NotFound);
    assert_eq!(route_request(b"POST / HTTP/1.1"), Route::NotFound);
    assert_eq!(route_request(b""), Route::NotFound);
    assert!(has_complete_headers(b"GET / HTTP/1.1\r\nHost: a\r\n\r\n"));
    assert!(!has_complete_headers(b"GET / HTTP/1.1\r\nHost: a\r\n"));
    assert!(!has_complete_headers(b"\r\n"));
}

#[test]
fn echo_session_frames() {
    let mut s = WsSession::new();
    // Masked "Hello" text frame, split across two reads.
    let f = [0x81u8, 0x85, 0x37, 0xfa, 0x21, 0x3d, 0x7f, 0x9f, 0x4d, 0x51, 0x58];
    let (out, close) = s.on_data(&f[..4]);
    assert!(out.is_empty());
    assert!(!close);
    let (out, close) = s.on_data(&f[4..]);
    assert!(!close);
    assert_eq!(out, vec![vec![0x82, 5, b'H', b'e', b'l', b'l', b'o'], vec![0x89, 0]]);
    // Fragmented message, then a ping, then a close, then a frame left unhandled.
    let mut data = vec![0x01, 2, b'a', b'b', 0x80, 1, b'c', 0x89, 1, b'p', 0x88, 0, 0x81, 1, b'z'];
    let (out, close) = s.on_data(&data);
    assert!(close);
    assert_eq!(
        out,
        vec![vec![0x82, 3, b'a', b'b', b'c'], vec![0x89, 0], vec![0x8A, 1, b'p']]
    );
    data.clear();
    let mut t = WsSession::new();
    // A continuation with nothing started is ignored.
    let (out, close) = t.on_data(&[0x80, 1, b'x']);
    assert!(out.is_empty() && !close);
}

#[test]
fn count_arguments() {
    assert_eq!(parse_cstring_usize(b"16"), Some(16));
    assert_eq!(parse_cstring_usize(b"0"), Some(0));
    assert_eq!(parse_cstring_usize(b"8080x"), Some(8080));
    assert_eq!(parse_cstring_usize(b"12\0" as &[u8]), Some(12));
    assert_eq!(parse_cstring_usize(b"x1"), None);
    assert_eq!(parse_cstring_usize(b""), None);
    assert_eq!(parse_cstring_usize(b"99999999999999999999999"), None);
}

#[test]
fn address_arguments() {
    assert_eq!(parse_cstring_ip(b"127.0.0.1"), Some(0x0100007f));
    assert_eq!(parse_cstring_ip(b"0.0.0.0\0junk"), Some(0));
    assert_eq!(parse_cstring_ip(b"10.1..2"), Some(0x0200010a));
    assert_eq!(parse_cstring_ip(b"1.2.3"), None);
    assert_eq!(parse_cstring_ip(b"1.2.3.4.5"), None);
    assert_eq!(parse_cstring_ip(b"1.2.3.256"), None);
    assert_eq!(parse_cstring_ip(b"1.2.a.4"), None);
    let long = [b'0'; 130];
    assert_eq!(parse_cstring_ip(&long), None);
}
