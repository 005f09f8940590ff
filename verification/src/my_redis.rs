//! The wire format of a small key-value service: how a reply frame is laid
//! out in bytes, which shard of the store a key belongs to, and what the end
//! of the byte stream means for a reader.
//!
//! Sockets and the store itself belong to the program around the library;
//! it hands over frames and gets back the bytes to send.

use bytes::Bytes;
use vstd::prelude::*;
use vstd::utf8::encode_utf8;

verus! {

/// `bytes::Bytes`, a string of bytes that is shared rather than copied;
/// nothing of its inside is known here.
#[verifier::external_type_specification]
#[verifier::external_body]
pub struct ExBytes(Bytes);

/// The bytes that `data` holds, in order.
pub uninterp spec fn contents(data: Bytes) -> Seq<u8>;

/// `Bytes::as_ref`: the bytes that `data` holds, as a slice.
#[verifier::external_body]
fn as_slice(data: &Bytes) -> (slice: &[u8])
    ensures
        slice@ == contents(*data),
{
    data.as_ref()
}

/// The most decimal digits that a number in a frame may have.
pub const MAX_DECIMAL_DIGITS: usize = 12;

/// A frame of the protocol.
pub enum Frame {
    /// A line of text that reports success.
    Simple(String),
    /// A line of text that reports a failure.
    Error(String),
    /// A number.
    Integer(u64),
    /// A string of bytes, sent with its length in front.
    Bulk(Bytes),
    /// No value.
    Null,
    /// A sequence of frames.
    Array(Vec<Frame>),
}

/// A frame could not be laid out: a number in it has more than
/// `MAX_DECIMAL_DIGITS` digits. `written` holds the bytes that go out before
/// the failure is noticed.
#[derive(Debug, PartialEq, Eq)]
pub struct WriteError {
    pub written: Vec<u8>,
}

/// What the end of the byte stream means for a reader of frames.
#[derive(Clone, Copy, Debug, PartialEq, Eq, Structural)]
pub enum StreamEnd {
    /// Nothing was left in the buffer: the peer has closed the connection
    /// between two frames.
    Closed,
    /// Part of a frame was left in the buffer: the connection was reset by
    /// the peer.
    Reset,
}

/// The line end of the protocol: carriage return, line feed.
pub open spec fn crlf() -> Seq<u8> {
    seq![13u8, 10u8]
}

/// The decimal digits of `val` in ASCII, the most significant first.
pub open spec fn decimal_digits(val: nat) -> Seq<u8>
    decreases val,
{
    if val < 10 {
        seq![(48 + val) as u8]
    } else {
        decimal_digits(val / 10).push((48 + val % 10) as u8)
    }
}

/// Whether `val` has few enough digits to be written.
pub open spec fn writable_decimal(val: nat) -> bool {
    decimal_digits(val).len() <= MAX_DECIMAL_DIGITS
}

/// The byte that announces the kind of `frame`.
pub open spec fn type_byte(frame: Frame) -> u8 {
    match frame {
        Frame::Simple(_) => 43,
        Frame::Error(_) => 45,
        Frame::Integer(_) => 58,
        Frame::Bulk(_) => 36,
        Frame::Null => 36,
        Frame::Array(_) => 42,
    }
}

/// Whether every number in `frame` can be written.
pub open spec fn writable(frame: Frame) -> bool {
    match frame {
        Frame::Integer(val) => writable_decimal(val as nat),
        Frame::Bulk(data) => writable_decimal(contents(data).len()),
        _ => true,
    }
}

/// The bytes of `frame` on the wire, for every frame but an array.
pub open spec fn frame_bytes(frame: Frame) -> Seq<u8> {
    match frame {
        Frame::Simple(text) => seq![43u8] + encode_utf8(text@) + crlf(),
        Frame::Error(text) => seq![45u8] + encode_utf8(text@) + crlf(),
        Frame::Integer(val) => seq![58u8] + decimal_digits(val as nat) + crlf(),
        Frame::Null => seq![36u8, 45u8, 49u8, 13u8, 10u8],
        Frame::Bulk(data) => seq![36u8] + decimal_digits(contents(data).len()) + crlf()
            + contents(data) + crlf(),
        Frame::Array(_) => Seq::empty(),
    }
}

/// A number has at most twelve digits exactly when it is below 10^12, and
/// no number has fewer than one digit or, in 64 bits, more than twenty.
pub proof fn lemma_decimal_digits_len(val: nat)
    ensures
        1 <= decimal_digits(val).len(),
        writable_decimal(val) <==> val < 1_000_000_000_000,
        val <= u64::MAX ==> decimal_digits(val).len() <= 20,
{
    lemma_digits_len_bound(val, 12);
    lemma_digits_len_bound(val, 20);
    assert(pow10(12) == 1_000_000_000_000) by {
        reveal_with_fuel(pow10, 13);
    }
    assert(pow10(20) == 100_000_000_000_000_000_000) by {
        reveal_with_fuel(pow10, 21);
    }
}

/// Ten to the power of `exponent`.
spec fn pow10(exponent: nat) -> nat
    decreases exponent,
{
    if exponent == 0 {
        1
    } else {
        10 * pow10((exponent - 1) as nat)
    }
}

proof fn lemma_digits_len_bound(val: nat, digits: nat)
    requires
        digits >= 1,
    ensures
        1 <= decimal_digits(val).len(),
        decimal_digits(val).len() <= digits <==> val < pow10(digits),
    decreases val,
{
    reveal_with_fuel(pow10, 2);
    if val >= 10 {
        if digits >= 2 {
            lemma_digits_len_bound(val / 10, (digits - 1) as nat);
        } else {
            lemma_digits_len_bound(val / 10, 1);
        }
    } else {
        lemma_pow10_at_least_ten(digits);
    }
}

proof fn lemma_pow10_at_least_ten(digits: nat)
    requires
        digits >= 1,
    ensures
        pow10(digits) >= 10,
    decreases digits,
{
    reveal_with_fuel(pow10, 2);
    if digits > 1 {
        lemma_pow10_at_least_ten((digits - 1) as nat);
    }
}

/// Appends `bytes` to `out`.
fn append(out: &mut Vec<u8>, bytes: &[u8])
    ensures
        final(out)@ == old(out)@ + bytes@,
{
    let mut i: usize = 0;
    while i < bytes.len()
        invariant
            i <= bytes.len(),
            out@ == old(out)@ + bytes@.subrange(0, i as int),
        decreases bytes.len() - i,
    {
        out.push(bytes[i]);
        i = i + 1;
        assert(out@ =~= old(out)@ + bytes@.subrange(0, i as int));
    }
    assert(bytes@.subrange(0, bytes.len() as int) =~= bytes@);
}

/// The digits that are still to be written in front of those written so
/// far, when `rest` is what is left of the number: none when nothing is left.
spec fn leading_digits(rest: nat) -> Seq<u8> {
    if rest == 0 {
        Seq::empty()
    } else {
        decimal_digits(rest)
    }
}

/// The decimal digits of `val`: the last digit first, then the order turned
/// round.
fn digits_of(val: u64) -> (digits: Vec<u8>)
    ensures
        digits@ == decimal_digits(val as nat),
{
    let mut reversed: Vec<u8> = Vec::new();
    reversed.push(48 + (val % 10) as u8);
    let mut rest: u64 = val / 10;
    assert(decimal_digits(val as nat) =~= leading_digits(rest as nat) + reversed@.reverse());
    while rest > 0
        invariant
            reversed@.len() >= 1,
            decimal_digits(val as nat) == leading_digits(rest as nat) + reversed@.reverse(),
        decreases rest,
    {
        let ghost before = reversed@;
        reversed.push(48 + (rest % 10) as u8);
        assert(reversed@.reverse() =~= seq![(48 + rest % 10) as u8] + before.reverse());
        rest = rest / 10;
        assert(decimal_digits(val as nat) =~= leading_digits(rest as nat) + reversed@.reverse());
    }
    let mut digits: Vec<u8> = Vec::new();
    let mut left: usize = reversed.len();
    while left > 0
        invariant
            left <= reversed.len(),
            digits@.len() == reversed.len() - left,
            forall|i: int|
                0 <= i < digits@.len() ==> digits@[i] == reversed@[reversed@.len() - 1 - i],
        decreases left,
    {
        left = left - 1;
        digits.push(reversed[left]);
    }
    assert(digits@ =~= reversed@.reverse());
    digits
}

/// Lays out `val` as a line of the protocol: its decimal digits and the line
/// end. A number of more than `MAX_DECIMAL_DIGITS` digits is refused, with
/// nothing written.
pub fn encode_decimal(val: u64) -> (line: Result<Vec<u8>, WriteError>)
    ensures
        writable_decimal(val as nat) ==> line is Ok,
        writable_decimal(val as nat) ==> line->Ok_0@ == decimal_digits(val as nat) + crlf(),
        !writable_decimal(val as nat) ==> line is Err,
        !writable_decimal(val as nat) ==> line->Err_0.written@ == Seq::<u8>::empty(),
{
    let mut line = digits_of(val);
    if line.len() > MAX_DECIMAL_DIGITS {
        return Err(WriteError { written: Vec::new() });
    }
    line.push(13);
    line.push(10);
    assert(line@ =~= decimal_digits(val as nat) + crlf());
    Ok(line)
}

/// Lays out `frame` in the bytes that go on the wire. When a number in the
/// frame has too many digits, the type byte of the frame is all that goes
/// out, and the error says so. Arrays cannot be written.
pub fn encode_frame(frame: &Frame) -> (bytes: Result<Vec<u8>, WriteError>)
    requires
        !(*frame is Array),
    ensures
        writable(*frame) ==> bytes is Ok,
        writable(*frame) ==> bytes->Ok_0@ == frame_bytes(*frame),
        !writable(*frame) ==> bytes is Err,
        !writable(*frame) ==> bytes->Err_0.written@ == seq![type_byte(*frame)],
{
    let mut out: Vec<u8> = Vec::new();
    match frame {
        Frame::Simple(val) => {
            out.push(43);
            append(&mut out, val.as_str().as_bytes());
            out.push(13);
            out.push(10);
            assert(out@ =~= frame_bytes(*frame));
        },
        Frame::Error(val) => {
            out.push(45);
            append(&mut out, val.as_str().as_bytes());
            out.push(13);
            out.push(10);
            assert(out@ =~= frame_bytes(*frame));
        },
        Frame::Integer(val) => {
            out.push(58);
            match encode_decimal(*val) {
                Ok(line) => {
                    append(&mut out, line.as_slice());
                    assert(out@ =~= frame_bytes(*frame));
                },
                Err(_) => {
                    assert(out@ =~= seq![type_byte(*frame)]);
                    return Err(WriteError { written: out });
                },
            }
        },
        Frame::Null => {
            out.push(36);
            out.push(45);
            out.push(49);
            out.push(13);
            out.push(10);
            assert(out@ =~= frame_bytes(*frame));
        },
        Frame::Bulk(val) => {
            let data = as_slice(val);
            let len = data.len();
            out.push(36);
            match encode_decimal(len as u64) {
                Ok(line) => {
                    append(&mut out, line.as_slice());
                    append(&mut out, data);
                    out.push(13);
                    out.push(10);
                    assert(out@ =~= frame_bytes(*frame));
                },
                Err(_) => {
                    assert(out@ =~= seq![type_byte(*frame)]);
                    return Err(WriteError { written: out });
                },
            }
        },
        Frame::Array(_) => {},
    }
    Ok(out)
}

/// The shard of a store of `shards` shards that holds the key whose hash is
/// `hash`.
pub fn shard_index(hash: u64, shards: usize) -> (index: usize)
    requires
        shards > 0,
    ensures
        index == (hash as usize) % shards,
        index < shards,
{
    (hash as usize) % shards
}

/// Says what the end of the stream means when `buffered` bytes that make no
/// whole frame are left in the read buffer.
pub fn stream_end(buffered: usize) -> (end: StreamEnd)
    ensures
        end == if buffered == 0 {
            StreamEnd::Closed
        } else {
            StreamEnd::Reset
        },
{
    if buffered == 0 {
        StreamEnd::Closed
    } else {
        StreamEnd::Reset
    }
}

} // verus!
