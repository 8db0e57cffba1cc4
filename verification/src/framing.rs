//! Wire framing of browser messages.
//!
//! Each message is a UTF-8 JSON payload preceded by its length as a `u32` in the
//! byte order of the machine the host runs on.
use vstd::prelude::*;
use vstd::endian::{endianness, Endian};

use crate::message::ErrorKind;

verus! {

/// Largest request payload the host accepts, in bytes (the browser allows up to 1 MB).
pub const MAX_REQUEST_LEN: u32 = 8 * 1024;

/// Largest response payload the host sends, in bytes (the browser allows up to 4 GB).
pub const MAX_RESPONSE_LEN: u32 = 4_000_000_000;

/// The four bytes of `v`, least significant first.
pub open spec fn le_bytes(v: u32) -> Seq<u8> {
    seq![(v & 0xff) as u8, ((v >> 8) & 0xff) as u8, ((v >> 16) & 0xff) as u8, ((v >> 24) & 0xff) as u8]
}

/// The value of four bytes read least significant first.
pub open spec fn le_value(b: Seq<u8>) -> u32
    recommends
        b.len() == 4,
{
    (b[0] as u32) | (b[1] as u32) << 8 | (b[2] as u32) << 16 | (b[3] as u32) << 24
}

/// The four bytes of `v` in the byte order of the executing machine.
pub open spec fn ne_bytes(v: u32) -> Seq<u8> {
    match endianness() {
        Endian::Little => le_bytes(v),
        Endian::Big => le_bytes(v).reverse(),
    }
}

/// The value of four bytes read in the byte order of the executing machine.
pub open spec fn ne_value(b: Seq<u8>) -> u32
    recommends
        b.len() == 4,
{
    match endianness() {
        Endian::Little => le_value(b),
        Endian::Big => le_value(b.reverse()),
    }
}

/// Calls `u32::to_ne_bytes`. Claimed: the result is the value's bytes least
/// significant first on a little-endian machine and most significant first on a
/// big-endian one, the machine's order being vstd's `endianness()`.
#[verifier::external_body]
fn u32_to_ne_bytes(value: u32) -> (bytes: [u8; 4])
    ensures
        bytes@ == ne_bytes(value),
{
    value.to_ne_bytes()
}

/// Calls `u32::from_ne_bytes`. Claimed: the bytes are read least significant first
/// on a little-endian machine and most significant first on a big-endian one, the
/// machine's order being vstd's `endianness()` (the same order `u32_to_ne_bytes` uses).
#[verifier::external_body]
fn u32_from_ne_bytes(bytes: [u8; 4]) -> (value: u32)
    ensures
        value == ne_value(bytes@),
{
    u32::from_ne_bytes(bytes)
}

proof fn lemma_le_roundtrip(v: u32)
    ensures
        le_bytes(v).len() == 4,
        le_value(le_bytes(v)) == v,
{
    assert(v == ((v & 0xff) | ((v >> 8) & 0xff) << 8 | ((v >> 16) & 0xff) << 16 | ((v >> 24) & 0xff) << 24)) by (bit_vector);
    assert((v & 0xff) < 256 && ((v >> 8) & 0xff) < 256 && ((v >> 16) & 0xff) < 256 && ((v >> 24) & 0xff) < 256) by (bit_vector);
}

proof fn lemma_le_value_roundtrip(b: Seq<u8>)
    requires
        b.len() == 4,
    ensures
        le_bytes(le_value(b)) == b,
{
    let x = le_value(b);
    let b0 = b[0] as u32;
    let b1 = b[1] as u32;
    let b2 = b[2] as u32;
    let b3 = b[3] as u32;
    assert(((x == b0 | b1 << 8 | b2 << 16 | b3 << 24) && b0 < 256 && b1 < 256 && b2 < 256 && b3 < 256)
        ==> (b0 == (x & 0xff) && b1 == ((x >> 8) & 0xff) && b2 == ((x >> 16) & 0xff) && b3 == ((x >> 24) & 0xff)))
        by (bit_vector);
    assert(le_bytes(x) =~= b);
}

/// Reading back the machine-order bytes of a value gives the value.
pub proof fn lemma_ne_roundtrip(v: u32)
    ensures
        ne_bytes(v).len() == 4,
        ne_value(ne_bytes(v)) == v,
{
    lemma_le_roundtrip(v);
    assert(le_bytes(v).reverse().reverse() =~= le_bytes(v));
}

/// Four bytes are the machine-order bytes of the value they are read as.
pub proof fn lemma_ne_value_roundtrip(b: Seq<u8>)
    requires
        b.len() == 4,
    ensures
        ne_bytes(ne_value(b)) == b,
{
    lemma_le_value_roundtrip(b);
    lemma_le_value_roundtrip(b.reverse());
    assert(b.reverse().reverse() =~= b);
}

/// Append `value` to `writer` in the machine's byte order.
pub fn write_ne_u32(writer: &mut Vec<u8>, value: u32)
    ensures
        final(writer)@ == old(writer)@ + ne_bytes(value),
{
    let bytes = u32_to_ne_bytes(value);
    writer.push(bytes[0]);
    writer.push(bytes[1]);
    writer.push(bytes[2]);
    writer.push(bytes[3]);
    assert(final(writer)@ =~= old(writer)@ + ne_bytes(value));
}

/// A payload behind its length header: what goes on the wire for one message.
pub open spec fn frame(payload: Seq<u8>) -> Seq<u8> {
    ne_bytes(payload.len() as u32) + payload
}

/// Frame a serialized response for the browser.
///
/// Fails with `ClientResponseSize` when the payload is empty or longer than
/// `MAX_RESPONSE_LEN`.
pub fn frame_response(payload: &[u8]) -> (framed: Result<Vec<u8>, ErrorKind>)
    ensures
        1 <= payload@.len() <= MAX_RESPONSE_LEN ==> (framed matches Ok(bytes) && bytes@ == frame(payload@)),
        !(1 <= payload@.len() <= MAX_RESPONSE_LEN) ==> framed == Err::<Vec<u8>, ErrorKind>(ErrorKind::ClientResponseSize),
{
    let len = payload.len();
    if len < 1 || len > MAX_RESPONSE_LEN as usize {
        return Err(ErrorKind::ClientResponseSize);
    }
    let mut bytes: Vec<u8> = Vec::new();
    write_ne_u32(&mut bytes, len as u32);
    let mut i: usize = 0;
    while i < len
        invariant
            len == payload@.len(),
            i <= len,
            bytes@ == ne_bytes(len as u32) + payload@.take(i as int),
        decreases len - i,
    {
        bytes.push(payload[i]);
        i = i + 1;
        assert(payload@.take(i as int) =~= payload@.take(i - 1) + seq![payload@[i - 1]]);
    }
    assert(payload@.take(len as int) =~= payload@);
    Ok(bytes)
}

/// The outcome of reading a request's four-byte length header from stdin.
#[derive(Debug)]
pub enum HeaderRead {
    /// All four bytes were read.
    Filled([u8; 4]),
    /// Stdin ended before a full header was read.
    Eof,
    /// Reading failed for any other reason.
    Failed,
}

/// What a request header tells the reader to do: stop at the end of input, read
/// a payload of the given length, or report an error.
pub open spec fn spec_request_length(header: HeaderRead) -> Result<Option<usize>, ErrorKind> {
    match header {
        HeaderRead::Eof => Ok(None),
        HeaderRead::Failed => Err(ErrorKind::Stdin),
        HeaderRead::Filled(bytes) => {
            let len = ne_value(bytes@);
            if 1 <= len <= MAX_REQUEST_LEN {
                Ok(Some(len as usize))
            } else {
                Err(ErrorKind::ClientRequestSize)
            }
        },
    }
}

/// Decide from a request's length header how many payload bytes to read.
///
/// Returns `Ok(None)` when stdin reached its end, `Err(Stdin)` when reading the
/// header failed, and `Err(ClientRequestSize)` when the announced length is zero
/// or above `MAX_REQUEST_LEN`.
pub fn request_length(header: HeaderRead) -> (len: Result<Option<usize>, ErrorKind>)
    ensures
        len == spec_request_length(header),
{
    match header {
        HeaderRead::Eof => Ok(None),
        HeaderRead::Failed => Err(ErrorKind::Stdin),
        HeaderRead::Filled(bytes) => {
            let len = u32_from_ne_bytes(bytes);
            if len < 1 || len > MAX_REQUEST_LEN {
                Err(ErrorKind::ClientRequestSize)
            } else {
                Ok(Some(len as usize))
            }
        },
    }
}

/// A frame written for a payload the reader accepts is read back as that payload:
/// its header announces exactly the payload's length, and the payload follows it.
pub proof fn lemma_frame_read_back(payload: Seq<u8>, header: [u8; 4])
    requires
        1 <= payload.len() <= MAX_REQUEST_LEN,
        header@ == frame(payload).take(4),
    ensures
        spec_request_length(HeaderRead::Filled(header)) == Ok::<Option<usize>, ErrorKind>(Some(payload.len() as usize)),
        frame(payload).skip(4) == payload,
{
    lemma_ne_roundtrip(payload.len() as u32);
    assert(header@ =~= ne_bytes(payload.len() as u32));
    assert(frame(payload).skip(4) =~= payload);
}

/// Every frame the writer produces, for any payload it accepts (up to
/// `MAX_RESPONSE_LEN` bytes), is four header bytes followed by the whole payload,
/// and the header reads back as the payload's length.
pub proof fn lemma_frame_layout(payload: Seq<u8>)
    requires
        1 <= payload.len() <= MAX_RESPONSE_LEN,
    ensures
        frame(payload).len() == 4 + payload.len(),
        ne_value(frame(payload).take(4)) == payload.len(),
        frame(payload).skip(4) == payload,
{
    lemma_ne_roundtrip(payload.len() as u32);
    assert(frame(payload).take(4) =~= ne_bytes(payload.len() as u32));
    assert(frame(payload).skip(4) =~= payload);
}

/// A request header either announces the length to read, which is exactly the value
/// its four bytes hold, or is refused as a size error exactly when that value is
/// zero or above `MAX_REQUEST_LEN`; a full header never means end of input, and
/// only a missing header does: a failed read is a stdin error.
pub proof fn lemma_request_length_is_header_value(bytes: [u8; 4])
    ensures
        ({
            let v = ne_value(bytes@);
            match spec_request_length(HeaderRead::Filled(bytes)) {
                Ok(Some(n)) => n == v && 1 <= v <= MAX_REQUEST_LEN,
                Ok(None) => false,
                Err(e) => e == ErrorKind::ClientRequestSize && (v == 0 || v > MAX_REQUEST_LEN),
            }
        }),
        ne_value(bytes@) == 0 || ne_value(bytes@) > MAX_REQUEST_LEN ==> spec_request_length(
            HeaderRead::Filled(bytes),
        ) == Err::<Option<usize>, ErrorKind>(ErrorKind::ClientRequestSize),
        1 <= ne_value(bytes@) <= MAX_REQUEST_LEN ==> spec_request_length(HeaderRead::Filled(bytes))
            == Ok::<Option<usize>, ErrorKind>(Some(ne_value(bytes@) as usize)),
        spec_request_length(HeaderRead::Eof) == Ok::<Option<usize>, ErrorKind>(None),
        spec_request_length(HeaderRead::Failed) == Err::<Option<usize>, ErrorKind>(ErrorKind::Stdin),
{
}

} // verus!
