//! The wire format between the host and a runtime worker.
//!
//! A request frame is `request_id LF action LF payload LF`; a response frame is
//! `request_id LF payload LF`. No field may hold a line feed. Request ids are
//! written as canonical decimal text.
use vstd::prelude::*;

verus! {

/// The line feed byte that ends every field of a frame.
pub const LF: u8 = 10;

/// No byte of `s` is a line feed.
pub open spec fn no_line_feed(s: Seq<u8>) -> bool {
    forall|i: int| 0 <= i < s.len() ==> s[i] != LF
}

/// The bytes of one request frame.
pub open spec fn request_frame(id: Seq<u8>, action: Seq<u8>, payload: Seq<u8>) -> Seq<u8> {
    id + seq![LF] + action + seq![LF] + payload + seq![LF]
}

/// The ASCII digit for a value below ten.
pub open spec fn digit_byte(d: nat) -> u8 {
    (48 + d) as u8
}

pub open spec fn is_digit(b: u8) -> bool {
    48 <= b <= 57
}

/// Canonical decimal text of `n`: most significant digit first, no leading zero.
pub open spec fn decimal(n: nat) -> Seq<u8>
    decreases n,
{
    if n < 10 {
        seq![digit_byte(n)]
    } else {
        decimal(n / 10).push(digit_byte(n % 10))
    }
}

/// The number that a string of decimal digits denotes.
pub open spec fn digits_value(s: Seq<u8>) -> nat
    decreases s.len(),
{
    if s.len() == 0 {
        0
    } else {
        digits_value(s.drop_last()) * 10 + (s.last() - 48) as nat
    }
}

/// `s` is the text of a request id: canonical decimal digits of a `u64`.
pub open spec fn is_id_text(s: Seq<u8>) -> bool {
    &&& s.len() > 0
    &&& forall|i: int| 0 <= i < s.len() ==> is_digit(#[trigger] s[i])
    &&& (s.len() == 1 || s[0] != 48)
    &&& digits_value(s) <= u64::MAX
}

/// Decimal text is made of digits, starts with no zero unless it is "0", and
/// reads back as the number it was written from.
pub proof fn lemma_decimal(n: nat)
    ensures
        decimal(n).len() > 0,
        forall|i: int| 0 <= i < decimal(n).len() ==> is_digit(#[trigger] decimal(n)[i]),
        n > 0 ==> decimal(n)[0] != 48,
        decimal(n).len() == 1 || decimal(n)[0] != 48,
        digits_value(decimal(n)) == n,
        no_line_feed(decimal(n)),
    decreases n,
{
    if n >= 10 {
        lemma_decimal(n / 10);
        let d = decimal(n / 10);
        assert(decimal(n).drop_last() =~= d);
        assert(decimal(n).last() == digit_byte(n % 10));
        assert(digits_value(decimal(n)) == digits_value(d) * 10 + (n % 10));
        assert forall|i: int| 0 <= i < decimal(n).len() implies is_digit(
            #[trigger] decimal(n)[i],
        ) by {
            if i < d.len() {
                assert(decimal(n)[i] == d[i]);
            }
        }
        assert(decimal(n)[0] == d[0]);
    } else {
        assert(decimal(n).drop_last() =~= Seq::<u8>::empty());
        assert(digits_value(decimal(n)) == digits_value(Seq::<u8>::empty()) * 10 + n);
    }
}

/// A request id, written as decimal text reads back as the same id.
pub proof fn lemma_id_text_round_trip(n: u64)
    ensures
        is_id_text(decimal(n as nat)),
        digits_value(decimal(n as nat)) == n,
{
    lemma_decimal(n as nat);
}

/// Appends the decimal text of `n` to `out`.
pub fn push_decimal(n: u64, out: &mut Vec<u8>)
    ensures
        final(out)@ == old(out)@ + decimal(n as nat),
    decreases n,
{
    if n >= 10 {
        push_decimal(n / 10, out);
    }
    let d: u8 = (n % 10) as u8;
    out.push(48 + d);
    proof {
        if n >= 10 {
            assert(final(out)@ =~= old(out)@ + decimal(n as nat));
        } else {
            assert(final(out)@ =~= old(out)@ + decimal(n as nat));
        }
    }
}

/// The text of a request id.
pub fn request_id_text(n: u64) -> (r: Vec<u8>)
    ensures
        r@ == decimal(n as nat),
{
    let mut out: Vec<u8> = Vec::new();
    push_decimal(n, &mut out);
    assert(out@ =~= decimal(n as nat));
    out
}

/// Reads a request id from its text; `None` unless the line is the canonical
/// decimal text of a `u64`.
pub fn parse_request_id(line: &[u8]) -> (r: Option<u64>)
    ensures
        r is Some <==> is_id_text(line@),
        r is Some ==> r->Some_0 == digits_value(line@),
{
    let n = line.len();
    if n == 0 {
        return None;
    }
    if n > 1 && line[0] == 48 {
        return None;
    }
    let mut acc: u64 = 0;
    let mut overflow = false;
    let mut i: usize = 0;
    while i < n
        invariant
            n == line@.len(),
            0 <= i <= n,
            forall|j: int| 0 <= j < i ==> is_digit(#[trigger] line@[j]),
            !overflow ==> acc == digits_value(line@.take(i as int)),
            overflow ==> digits_value(line@.take(i as int)) > u64::MAX,
        decreases n - i,
    {
        let b = line[i];
        if b < 48 || b > 57 {
            return None;
        }
        let ghost prev = digits_value(line@.take(i as int));
        assert(line@.take(i as int + 1).drop_last() =~= line@.take(i as int));
        assert(digits_value(line@.take(i as int + 1)) == prev * 10 + (b - 48) as nat);
        if !overflow {
            let d: u64 = (b - 48) as u64;
            if acc > (u64::MAX - d) / 10 {
                overflow = true;
                assert(acc * 10 + d > u64::MAX) by (nonlinear_arith)
                    requires
                        acc > (u64::MAX - d) / 10,
                        d <= 9,
                ;
            } else {
                assert(acc * 10 + d <= u64::MAX) by (nonlinear_arith)
                    requires
                        acc <= (u64::MAX - d) / 10,
                        d <= 9,
                ;
                acc = acc * 10 + d;
            }
        }
        i = i + 1;
    }
    assert(line@.take(n as int) =~= line@);
    if overflow {
        None
    } else {
        Some(acc)
    }
}

/// Whether some byte of `s` is a line feed.
pub fn has_line_feed(s: &[u8]) -> (r: bool)
    ensures
        r == !no_line_feed(s@),
{
    let mut i: usize = 0;
    while i < s.len()
        invariant
            0 <= i <= s@.len(),
            forall|j: int| 0 <= j < i ==> s@[j] != LF,
        decreases s@.len() - i,
    {
        if s[i] == LF {
            return true;
        }
        i = i + 1;
    }
    false
}

/// Appends the bytes of `s` to `out`.
fn push_all(out: &mut Vec<u8>, s: &[u8])
    ensures
        final(out)@ == old(out)@ + s@,
{
    let mut i: usize = 0;
    while i < s.len()
        invariant
            0 <= i <= s@.len(),
            out@ == old(out)@ + s@.take(i as int),
        decreases s@.len() - i,
    {
        out.push(s[i]);
        assert(s@.take(i as int + 1) =~= s@.take(i as int).push(s@[i as int]));
        i = i + 1;
    }
    assert(s@.take(s@.len() as int) =~= s@);
}

/// A copy of `s`.
pub fn copy_bytes(s: &[u8]) -> (r: Vec<u8>)
    ensures
        r@ == s@,
{
    let mut out: Vec<u8> = Vec::new();
    push_all(&mut out, s);
    assert(out@ =~= s@);
    out
}

/// Writes the frame of one request; the fields are taken as they are.
pub fn write_request_frame(id: u64, action: &[u8], payload: &[u8]) -> (r: Vec<u8>)
    ensures
        r@ == request_frame(decimal(id as nat), action@, payload@),
{
    let mut out: Vec<u8> = Vec::new();
    push_decimal(id, &mut out);
    out.push(LF);
    push_all(&mut out, action);
    out.push(LF);
    push_all(&mut out, payload);
    out.push(LF);
    assert(out@ =~= request_frame(decimal(id as nat), action@, payload@));
    out
}

/// A request frame whose fields hold no line feed is read back unambiguously
/// from the front of any byte stream: the stream determines the three fields
/// and what follows the frame.
pub proof fn lemma_request_frame_unambiguous(
    id1: Seq<u8>,
    action1: Seq<u8>,
    payload1: Seq<u8>,
    rest1: Seq<u8>,
    id2: Seq<u8>,
    action2: Seq<u8>,
    payload2: Seq<u8>,
    rest2: Seq<u8>,
)
    requires
        no_line_feed(id1),
        no_line_feed(action1),
        no_line_feed(payload1),
        no_line_feed(id2),
        no_line_feed(action2),
        no_line_feed(payload2),
        request_frame(id1, action1, payload1) + rest1 == request_frame(id2, action2, payload2)
            + rest2,
    ensures
        id1 == id2,
        action1 == action2,
        payload1 == payload2,
        rest1 == rest2,
{
    let s1 = request_frame(id1, action1, payload1) + rest1;
    let t1 = action1 + seq![LF] + payload1 + seq![LF] + rest1;
    let t2 = action2 + seq![LF] + payload2 + seq![LF] + rest2;
    assert(s1 =~= id1 + seq![LF] + t1);
    assert(s1 =~= id2 + seq![LF] + t2);
    lemma_line_split(id1, t1, id2, t2);
    let u1 = payload1 + seq![LF] + rest1;
    let u2 = payload2 + seq![LF] + rest2;
    assert(t1 =~= action1 + seq![LF] + u1);
    assert(t2 =~= action2 + seq![LF] + u2);
    lemma_line_split(action1, u1, action2, u2);
    lemma_line_split(payload1, rest1, payload2, rest2);
}

/// Two ways of reading one line off the front of a stream agree.
pub proof fn lemma_line_split(a1: Seq<u8>, r1: Seq<u8>, a2: Seq<u8>, r2: Seq<u8>)
    requires
        no_line_feed(a1),
        no_line_feed(a2),
        a1 + seq![LF] + r1 == a2 + seq![LF] + r2,
    ensures
        a1 == a2,
        r1 == r2,
{
    let s = a1 + seq![LF] + r1;
    if a1.len() < a2.len() {
        assert(s[a1.len() as int] == LF);
        assert((a2 + seq![LF] + r2)[a1.len() as int] == a2[a1.len() as int]);
    } else if a2.len() < a1.len() {
        assert((a2 + seq![LF] + r2)[a2.len() as int] == LF);
        assert(s[a2.len() as int] == a1[a2.len() as int]);
    } else {
        assert(a1 =~= s.take(a1.len() as int));
        assert(a2 =~= (a2 + seq![LF] + r2).take(a2.len() as int));
        assert(r1 =~= s.skip(a1.len() as int + 1));
        assert(r2 =~= (a2 + seq![LF] + r2).skip(a2.len() as int + 1));
    }
}

} // verus!
