//! Decimal rendering of integers and the HTTP response head.
use vstd::prelude::*;
use vstd::string::StringSliceAdditionalSpecFns;

verus! {

/// The ASCII digit for `d < 10`.
pub open spec fn digit(d: nat) -> u8 {
    (48 + d) as u8
}

/// Decimal digits of `n`, most significant first, without leading zeros.
pub open spec fn decimal(n: nat) -> Seq<u8>
    decreases n,
{
    if n < 10 {
        seq![digit(n)]
    } else {
        decimal(n / 10).push(digit(n % 10))
    }
}

pub open spec fn pow10(k: nat) -> nat
    decreases k,
{
    if k == 0 {
        1
    } else {
        10 * pow10((k - 1) as nat)
    }
}

pub proof fn lemma_decimal_len(n: nat, k: nat)
    requires
        k >= 1,
        n < pow10(k),
    ensures
        1 <= decimal(n).len() <= k,
    decreases k,
{
    if n >= 10 {
        assert(k >= 2) by {
            reveal_with_fuel(pow10, 2);
            if k == 1 {
                assert(pow10(1) == 10);
            }
        }
        assert(n / 10 < pow10((k - 1) as nat)) by {
            let p = pow10((k - 1) as nat);
            assert(n < 10 * p);
            assert(n / 10 < p) by (nonlinear_arith)
                requires
                    n < 10 * p,
            ;
        }
        lemma_decimal_len(n / 10, (k - 1) as nat);
    }
}

pub proof fn lemma_u64_decimal_len(n: u64)
    ensures
        1 <= decimal(n as nat).len() <= 20,
{
    reveal_with_fuel(pow10, 21);
    assert(pow10(20) == 100000000000000000000nat);
    lemma_decimal_len(n as nat, 20);
}

/// Appends `src` to `out`.
pub fn push_all(out: &mut Vec<u8>, src: &[u8])
    ensures
        final(out)@ == old(out)@ + src@,
{
    let ghost start = out@;
    let mut i: usize = 0;
    while i < src.len()
        invariant
            i <= src@.len(),
            out@ == start + src@.subrange(0, i as int),
        decreases src@.len() - i,
    {
        out.push(src[i]);
        i = i + 1;
        assert(out@ =~= start + src@.subrange(0, i as int));
    }
    assert(src@.subrange(0, src@.len() as int) =~= src@);
}

/// Decimal digits of `n` as a vector.
pub fn decimal_digits(n: u64) -> (r: Vec<u8>)
    ensures
        r@ == decimal(n as nat),
{
    let mut rev: Vec<u8> = Vec::new();
    let mut num = n;
    assert(rev@.reverse() =~= Seq::<u8>::empty());
    assert(decimal(n as nat) =~= decimal(num as nat) + rev@.reverse());
    loop
        invariant_except_break
            decimal(n as nat) == decimal(num as nat) + rev@.reverse(),
        ensures
            decimal(n as nat) == rev@.reverse(),
        decreases num,
    {
        let d = (num % 10) as u8;
        let ghost old_rev = rev@;
        rev.push(48 + d);
        assert(rev@.reverse() =~= seq![digit(d as nat)] + old_rev.reverse());
        if num < 10 {
            assert(decimal(num as nat) == seq![digit(num as nat)]);
            assert(decimal(n as nat) =~= rev@.reverse());
            break;
        }
        assert(decimal(num as nat) == decimal((num / 10) as nat).push(digit((num % 10) as nat)));
        assert(decimal((num / 10) as nat).push(digit(d as nat)) + old_rev.reverse()
            =~= decimal((num / 10) as nat) + rev@.reverse());
        num = num / 10;
    }
    let mut out: Vec<u8> = Vec::new();
    let n_digits = rev.len();
    let mut j: usize = 0;
    while j < n_digits
        invariant
            n_digits == rev@.len(),
            j <= n_digits,
            out@ == rev@.reverse().subrange(0, j as int),
        decreases n_digits - j,
    {
        out.push(rev[n_digits - 1 - j]);
        j = j + 1;
        assert(out@ =~= rev@.reverse().subrange(0, j as int));
    }
    assert(rev@.reverse().subrange(0, n_digits as int) =~= rev@.reverse());
    out
}

/// Decimal ASCII rendering of `n` into a fixed buffer: the digits fill the
/// first `len` bytes, the rest are zero.
pub fn format_usize(n: usize) -> (r: ([u8; 20], usize))
    ensures
        r.1 == decimal(n as nat).len(),
        r.0@.subrange(0, r.1 as int) == decimal(n as nat),
        forall|k: int| r.1 <= k < 20 ==> r.0@[k] == 0,
{
    proof {
        lemma_u64_decimal_len(n as u64);
    }
    let digits = decimal_digits(n as u64);
    let mut buf: [u8; 20] = [0u8; 20];
    let mut i: usize = 0;
    while i < digits.len()
        invariant
            digits@ == decimal(n as nat),
            digits@.len() <= 20,
            i <= digits@.len(),
            buf@.len() == 20,
            forall|k: int| 0 <= k < i ==> buf@[k] == digits@[k],
            forall|k: int| i <= k < 20 ==> buf@[k] == 0,
        decreases digits@.len() - i,
    {
        buf[i] = digits[i];
        i = i + 1;
    }
    assert(buf@.subrange(0, i as int) =~= decimal(n as nat));
    (buf, i)
}

/// The signed decimal rendering of `n`: a minus sign for negative values,
/// then the digits of its magnitude.
pub open spec fn signed_decimal(n: int) -> Seq<u8> {
    if n < 0 {
        seq![45u8] + decimal((-n) as nat)
    } else {
        decimal(n as nat)
    }
}

/// Signed decimal ASCII rendering of `n`.
pub fn format_isize(n: i64) -> (r: Vec<u8>)
    ensures
        r@ == signed_decimal(n as int),
{
    if n < 0 {
        let mag: u64 = if n == i64::MIN {
            0x8000_0000_0000_0000u64
        } else {
            (-n) as u64
        };
        let mut out: Vec<u8> = Vec::new();
        out.push(45u8);
        let d = decimal_digits(mag);
        push_all(&mut out, d.as_slice());
        out
    } else {
        decimal_digits(n as u64)
    }
}

/// The head of an HTTP/1.1 response with the given status line text, content
/// type and content length, ending with the blank line.
pub open spec fn response_head(status: Seq<u8>, content_type: Seq<u8>, len: nat) -> Seq<u8> {
    "HTTP/1.1 ".spec_bytes() + status + "\r\nContent-Type: ".spec_bytes() + content_type
        + "\r\nContent-Length: ".spec_bytes() + decimal(len) + "\r\n\r\n".spec_bytes()
}

/// Builds the head of an HTTP/1.1 response.
pub fn http_response_headers(status: &str, content_type: &str, content_len: usize) -> (r: Vec<u8>)
    ensures
        r@ == response_head(status.spec_bytes(), content_type.spec_bytes(), content_len as nat),
{
    let mut v: Vec<u8> = Vec::new();
    push_all(&mut v, "HTTP/1.1 ".as_bytes());
    push_all(&mut v, status.as_bytes());
    push_all(&mut v, "\r\nContent-Type: ".as_bytes());
    push_all(&mut v, content_type.as_bytes());
    push_all(&mut v, "\r\nContent-Length: ".as_bytes());
    let d = decimal_digits(content_len as u64);
    push_all(&mut v, d.as_slice());
    push_all(&mut v, "\r\n\r\n".as_bytes());
    v
}

} // verus!
