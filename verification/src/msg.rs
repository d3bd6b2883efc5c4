//! Untyped JSON-RPC units and the byte framing of the wire.
//!
//! A message travels as `Content-Length: <n>\r\n\r\n` followed by `n` bytes
//! of body.  The engine frames outgoing bodies and splits incoming bytes
//! into discrete bodies; what a body means is decided elsewhere.

use vstd::prelude::*;

verus! {

/// A request as received from a server, before semantic decoding.
#[derive(Debug, PartialEq, Eq)]
pub struct RawRequest {
    pub id: u64,
    pub method: String,
    pub params: String,
}

/// A notification as received from a server: a method name and the raw
/// parameter text, kept for the fallback path when no cast applies.
#[derive(Debug, PartialEq, Eq)]
pub struct RawNotification {
    pub method: String,
    pub params: String,
}

/// A response as received from a server: the identifier it answers and
/// the raw outcome (success payload or error payload).
#[derive(Debug, PartialEq, Eq)]
pub struct RawResponse {
    pub id: u64,
    pub result: Option<String>,
    pub error: Option<String>,
}

/// One discrete inbound protocol unit.
#[derive(Debug, PartialEq, Eq)]
pub enum LspMessage {
    Request(RawRequest),
    Notification(RawNotification),
    Response(RawResponse),
}

/// The decimal digits of `n`, most significant first, as ASCII bytes.
pub open spec fn dec_digits(n: nat) -> Seq<u8>
    decreases n,
{
    if n < 10 {
        seq![(48 + n) as u8]
    } else {
        dec_digits(n / 10).push((48 + n % 10) as u8)
    }
}

/// The value of a string of ASCII digits.
pub open spec fn dec_val(s: Seq<u8>) -> int
    decreases s.len(),
{
    if s.len() == 0 {
        0
    } else {
        dec_val(s.drop_last()) * 10 + (s.last() - 48)
    }
}

/// Every byte of `s` is an ASCII digit.
pub open spec fn digits_only(s: Seq<u8>) -> bool {
    forall|i: int| 0 <= i < s.len() ==> 48 <= #[trigger] s[i] <= 57
}

/// The bytes `"Content-Length: "`.
pub open spec fn header_prefix() -> Seq<u8> {
    seq![67u8, 111u8, 110u8, 116u8, 101u8, 110u8, 116u8, 45u8, 76u8, 101u8, 110u8, 103u8, 116u8, 104u8, 58u8, 32u8]
}

/// The bytes `"\r\n\r\n"`.
pub open spec fn crlf2() -> Seq<u8> {
    seq![13u8, 10u8, 13u8, 10u8]
}

/// One fully framed message: header, blank-line separator, body.
pub open spec fn frame_bytes(body: Seq<u8>) -> Seq<u8> {
    header_prefix() + dec_digits(body.len()) + crlf2() + body
}

/// Rendering a number and reading it back is the identity.
pub proof fn lemma_dec_round_trip(n: nat)
    ensures
        dec_val(dec_digits(n)) == n,
        digits_only(dec_digits(n)),
        dec_digits(n).len() >= 1,
    decreases n,
{
    if n < 10 {
        assert(dec_digits(n) =~= seq![(48 + n) as u8]);
        assert(dec_digits(n).drop_last() =~= Seq::<u8>::empty());
        assert((48 + n) as u8 == 48 + n);
        assert(dec_val(dec_digits(n)) == dec_val(Seq::<u8>::empty()) * 10 + (48 + n) - 48);
    } else {
        lemma_dec_round_trip(n / 10);
        assert(dec_digits(n).drop_last() =~= dec_digits(n / 10));
        assert((48 + n % 10) as u8 == 48 + n % 10);
        assert(dec_val(dec_digits(n)) == (n / 10) * 10 + n % 10);
        assert((n / 10) * 10 + n % 10 == n) by (nonlinear_arith);
    }
}

/// A digit string without a leading zero (a single `"0"` aside) is the
/// canonical rendering of its own value.
proof fn lemma_dec_canonical(s: Seq<u8>)
    requires
        digits_only(s),
        s.len() >= 1,
        s.len() > 1 ==> s[0] != 48,
    ensures
        dec_val(s) >= 0,
        s.len() > 1 ==> dec_val(s) >= 10,
        dec_digits(dec_val(s) as nat) == s,
    decreases s.len(),
{
    if s.len() == 1 {
        assert(s.drop_last() =~= Seq::<u8>::empty());
        assert(dec_val(Seq::<u8>::empty()) == 0);
        assert(dec_val(s) == s[0] - 48);
        assert(dec_digits((s[0] - 48) as nat) =~= s);
    } else {
        let t = s.drop_last();
        let d = s.last();
        assert(t[0] == s[0] && t[0] != 48);
        lemma_dec_canonical(t);
        assert(dec_val(s) == dec_val(t) * 10 + (d - 48));
        if t.len() == 1 {
            assert(t.drop_last() =~= Seq::<u8>::empty());
            assert(dec_val(Seq::<u8>::empty()) == 0);
            assert(dec_val(t) == t[0] - 48);
        }
        assert(dec_val(t) >= 1);
        let v = dec_val(s) as nat;
        assert(v / 10 == dec_val(t) && v % 10 == (d - 48)) by (nonlinear_arith)
            requires
                v == dec_val(t) * 10 + (d - 48),
                dec_val(t) >= 1,
                48 <= d <= 57,
        ;
        assert(dec_digits(v) =~= dec_digits(dec_val(t) as nat).push((48 + v % 10) as u8));
        assert((48 + v % 10) as u8 == d);
        assert(dec_digits(v) =~= s);
    }
}

/// A proper prefix of a digit string is worth at most a tenth of the whole.
proof fn lemma_dec_val_prefix(s: Seq<u8>, k: int)
    requires
        digits_only(s),
        0 <= k <= s.len(),
    ensures
        dec_val(s.take(k)) >= 0,
        dec_val(s.take(k)) <= dec_val(s),
        k < s.len() ==> 10 * dec_val(s.take(k)) <= dec_val(s),
    decreases s.len(),
{
    if s.len() == 0 {
        assert(s.take(k) =~= s);
    } else if k == s.len() {
        assert(s.take(k) =~= s);
        lemma_dec_val_prefix(s.drop_last(), k - 1);
    } else {
        assert(s.take(k) =~= s.drop_last().take(k));
        lemma_dec_val_prefix(s.drop_last(), k);
        assert(dec_val(s) == dec_val(s.drop_last()) * 10 + (s.last() - 48));
    }
}

/// The decimal digits of `n`, most significant first.
fn dec_of_usize(n: usize) -> (d: Vec<u8>)
    ensures
        d@ == dec_digits(n as nat),
    decreases n,
{
    if n < 10 {
        let mut v: Vec<u8> = Vec::new();
        v.push(48 + n as u8);
        proof {
            assert(v@ =~= dec_digits(n as nat));
        }
        v
    } else {
        let mut v = dec_of_usize(n / 10);
        v.push(48 + (n % 10) as u8);
        proof {
            assert(v@ =~= dec_digits(n as nat));
        }
        v
    }
}

/// The header bytes `"Content-Length: "`.
fn header_prefix_vec() -> (v: Vec<u8>)
    ensures
        v@ == header_prefix(),
{
    let mut v: Vec<u8> = Vec::new();
    v.push(67);
    v.push(111);
    v.push(110);
    v.push(116);
    v.push(101);
    v.push(110);
    v.push(116);
    v.push(45);
    v.push(76);
    v.push(101);
    v.push(110);
    v.push(103);
    v.push(116);
    v.push(104);
    v.push(58);
    v.push(32);
    proof {
        assert(v@ =~= header_prefix());
    }
    v
}

/// Frame one outgoing body: length-prefixed header, separator, body.
pub fn frame_message(body: &Vec<u8>) -> (out: Vec<u8>)
    ensures
        out@ == frame_bytes(body@),
{
    let mut out = header_prefix_vec();
    let mut digits = dec_of_usize(body.len());
    out.append(&mut digits);
    out.push(13);
    out.push(10);
    out.push(13);
    out.push(10);
    let ghost head = out@;
    proof {
        assert(head =~= header_prefix() + dec_digits(body@.len()) + crlf2());
    }
    let mut i: usize = 0;
    while i < body.len()
        invariant
            0 <= i <= body@.len(),
            out@ == head + body@.take(i as int),
        decreases body@.len() - i,
    {
        out.push(body[i]);
        proof {
            assert(out@ =~= head + body@.take(i as int + 1));
        }
        i += 1;
    }
    proof {
        assert(body@.take(body@.len() as int) =~= body@);
        assert(out@ =~= frame_bytes(body@));
    }
    out
}

/// The canonical rendering of a number does not start with a zero.
proof fn lemma_dec_digits_leading(n: nat)
    ensures
        dec_digits(n).len() >= 1,
        n >= 10 ==> dec_digits(n).len() > 1,
        dec_digits(n)[0] != 48 || n < 10,
    decreases n,
{
    if n >= 10 {
        lemma_dec_digits_leading(n / 10);
        assert(dec_digits(n)[0] == dec_digits(n / 10)[0]);
        if n / 10 < 10 {
            assert(dec_digits(n / 10) =~= seq![(48 + n / 10) as u8]);
            assert(n / 10 >= 1);
            assert((48 + n / 10) as u8 != 48);
        }
    }
}

/// Split one complete frame off the front of `buf`.
///
/// Whatever the parse accepts is a whole frame: the returned body, framed,
/// is exactly the first `used` bytes.  And on any input whose start is a
/// whole frame — the framing of some body, followed by anything — the
/// parse succeeds and returns exactly that body and the frame's length;
/// the remainder `buf[used..]` begins the next frame, so one message never
/// corrupts the framing of the ones after it.
pub fn parse_frame(buf: &Vec<u8>) -> (r: Option<(Vec<u8>, usize)>)
    ensures
        match r {
            Some((b, used)) => used as int <= buf@.len() && buf@.take(used as int) == frame_bytes(
                b@,
            ),
            None => true,
        },
        forall|body: Seq<u8>, rest: Seq<u8>|
            buf@ == frame_bytes(body) + rest ==> (match r {
                Some((b, used)) => b@ == body && used as int == frame_bytes(body).len(),
                None => false,
            }),
{
    proof {
        assert forall|body: Seq<u8>, rest: Seq<u8>| buf@ == frame_bytes(body) + rest implies {
            &&& buf@.len() >= 20 + dec_digits(body.len()).len() + body.len()
            &&& buf@.len() >= 21
            &&& digits_only(dec_digits(body.len()))
            &&& dec_val(dec_digits(body.len())) == body.len()
        } by {
            lemma_dec_round_trip(body.len());
        }
    }
    if buf.len() < 21 {
        return None;
    }
    let header = header_prefix_vec();
    let mut i: usize = 0;
    while i < 16
        invariant
            0 <= i <= 16,
            buf@.len() >= 21,
            header@ == header_prefix(),
            forall|t: int| 0 <= t < i ==> buf@[t] == header_prefix()[t],
        decreases 16 - i,
    {
        if buf[i] != header[i] {
            return None;
        }
        i += 1;
    }
    // scan the digit run after the header
    let mut j: usize = 16;
    let mut acc: usize = 0;
    while j < buf.len() && buf[j] >= 48 && buf[j] <= 57
        invariant
            16 <= j <= buf@.len(),
            buf@.len() >= 21,
            forall|t: int| 16 <= t < j ==> 48 <= #[trigger] buf@[t] <= 57,
            acc as int == dec_val(buf@.subrange(16, j as int)),
        decreases buf@.len() - j,
    {
        if acc > (usize::MAX - 9) / 10 {
            proof {
                lemma_overflow_refutes(buf@, j as int, acc as int);
            }
            return None;
        }
        let d = buf[j] - 48;
        acc = acc * 10 + d as usize;
        proof {
            assert(buf@.subrange(16, j as int + 1).drop_last() =~= buf@.subrange(16, j as int));
        }
        j += 1;
    }
    proof {
        assert forall|body: Seq<u8>, rest: Seq<u8>|
            buf@ == frame_bytes(body) + rest implies j as int == 16 + dec_digits(
            body.len(),
        ).len() && acc as int == body.len() by {
            lemma_dec_round_trip(body.len());
            let dd = dec_digits(body.len());
            if (j as int) < 16 + dd.len() {
                assert(buf@[j as int] == dd[j - 16]);
                assert(48 <= buf@[j as int] <= 57);
                assert(j < buf@.len());
            }
            if (j as int) > 16 + dd.len() {
                assert(buf@[16 + dd.len() as int] == crlf2()[0]);
                assert(48 <= buf@[16 + dd.len() as int] <= 57);
            }
            assert(buf@.subrange(16, j as int) =~= dd);
        }
    }
    if j == 16 {
        return None;
    }
    if buf[16] == 48 && j > 17 {
        // a length with a leading zero is not the canonical framing
        proof {
            assert forall|body: Seq<u8>, rest: Seq<u8>| buf@ != frame_bytes(body) + rest by {
                if buf@ == frame_bytes(body) + rest {
                    lemma_dec_round_trip(body.len());
                    lemma_dec_digits_leading(body.len());
                    assert(buf@[16] == dec_digits(body.len())[0]);
                    assert(dec_digits(body.len()).len() > 1);
                }
            }
        }
        return None;
    }
    if j >= buf.len() || buf.len() - j < 4 {
        return None;
    }
    if !(buf[j] == 13 && buf[j + 1] == 10 && buf[j + 2] == 13 && buf[j + 3] == 10) {
        return None;
    }
    let body_start = j + 4;
    if acc > buf.len() - body_start {
        return None;
    }
    let blen = buf.len();
    let mut b: Vec<u8> = Vec::new();
    let mut t: usize = body_start;
    while t < body_start + acc
        invariant
            blen == buf@.len(),
            body_start + acc <= blen,
            body_start <= t <= body_start + acc,
            b@ == buf@.subrange(body_start as int, t as int),
        decreases body_start + acc - t,
    {
        b.push(buf[t]);
        proof {
            assert(buf@.subrange(body_start as int, t as int + 1) =~= buf@.subrange(
                body_start as int,
                t as int,
            ).push(buf@[t as int]));
        }
        t += 1;
    }
    let used = body_start + acc;
    proof {
        assert forall|body: Seq<u8>, rest: Seq<u8>| buf@ == frame_bytes(body) + rest implies b@
            == body && used as int == frame_bytes(body).len() by {
            lemma_dec_round_trip(body.len());
            let dd = dec_digits(body.len());
            assert(b@ =~= body);
        }
        let s = buf@.subrange(16, j as int);
        lemma_dec_canonical(s);
        assert(b@.len() == acc);
        assert(dec_digits(b@.len()) == s);
        assert(buf@.take(used as int) =~= header_prefix() + s + crlf2() + b@);
    }
    Some((b, used))
}

/// Under any whole-frame decomposition, the digit accumulator cannot
/// approach overflow: a strict digit prefix is worth at most a tenth of
/// the body length, which a real buffer bounds.
proof fn lemma_overflow_refutes(bufv: Seq<u8>, j: int, acc: int)
    requires
        16 <= j < bufv.len(),
        acc == dec_val(bufv.subrange(16, j)),
        forall|t: int| 16 <= t < j ==> 48 <= #[trigger] bufv[t] <= 57,
        48 <= bufv[j] <= 57,
        acc > (usize::MAX - 9) / 10,
        bufv.len() <= usize::MAX,
    ensures
        forall|body: Seq<u8>, rest: Seq<u8>| bufv != frame_bytes(body) + rest,
{
    assert forall|body: Seq<u8>, rest: Seq<u8>| bufv != frame_bytes(body) + rest by {
        if bufv == frame_bytes(body) + rest {
            lemma_dec_round_trip(body.len());
            let dd = dec_digits(body.len());
            if j > 16 + dd.len() {
                assert(bufv[16 + dd.len() as int] == crlf2()[0]);
                assert(48 <= bufv[16 + dd.len() as int] <= 57);
            }
            if j == 16 + dd.len() {
                assert(bufv[j] == crlf2()[0]);
            }
            assert(j < 16 + dd.len());
            assert(bufv.subrange(16, j) =~= dd.take(j - 16));
            lemma_dec_val_prefix(dd, j - 16);
            assert(10 * acc <= body.len());
            assert(body.len() + 20 + dd.len() <= bufv.len());
            let m = usize::MAX as int;
            assert(m - 9 == 10 * ((m - 9) / 10) + (m - 9) % 10) by (nonlinear_arith);
            assert(10 * acc >= 10 * ((m - 9) / 10) + 10);
            assert(false);
        }
    }
}

} // verus!
