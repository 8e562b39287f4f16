//! Length-prefixed framing: every message travels as a 4-byte big-endian
//! length followed by exactly that many bytes of body.

use byteorder::{BigEndian, ReadBytesExt, WriteBytesExt};
use vstd::prelude::*;

verus! {

/// The four bytes that spell `n`, most significant byte first.
pub open spec fn be_bytes(n: u32) -> Seq<u8> {
    seq![
        (n / 16777216) as u8,
        ((n / 65536) % 256) as u8,
        ((n / 256) % 256) as u8,
        (n % 256) as u8,
    ]
}

/// The number that the first four bytes of `bytes` spell, most significant
/// byte first.
pub open spec fn be_value(bytes: Seq<u8>) -> int {
    ((bytes[0] as int * 256 + bytes[1] as int) * 256 + bytes[2] as int) * 256 + bytes[3] as int
}

/// The frame that carries `body`.
pub open spec fn framed(body: Seq<u8>) -> Seq<u8> {
    be_bytes(body.len() as u32) + body
}

/// The body of the frame with which `bytes` begins, if `bytes` holds a whole
/// frame.
pub open spec fn unframed(bytes: Seq<u8>) -> Option<Seq<u8>> {
    if bytes.len() >= 4 && bytes.len() >= 4 + be_value(bytes) {
        Some(bytes.subrange(4, 4 + be_value(bytes)))
    } else {
        None
    }
}

/// Why a frame could not be written or read.
#[derive(Debug, PartialEq, Eq, Clone, Copy, Structural)]
pub enum FrameError {
    /// The body is longer than a 4-byte length can say.
    TooLong,
    /// The bytes end before the frame does.
    Truncated,
    /// Fewer bytes were written than the body holds.
    ShortWrite { wrote: usize, expected: usize },
}

/// Appends `n` to `out` as four bytes, most significant first.
///
/// Calls byteorder's `WriteBytesExt::write_u32` with `BigEndian` on the
/// vector, which encodes `n` into four bytes and appends them; writing to a
/// vector does not fail.
#[verifier::external_body]
fn put_u32_be(out: &mut Vec<u8>, n: u32)
    ensures
        final(out)@ == old(out)@ + be_bytes(n),
{
    out.write_u32::<BigEndian>(n).unwrap()
}

/// Reads the number that the first four bytes of `bytes` spell, most
/// significant first.
///
/// Calls byteorder's `ReadBytesExt::read_u32` with `BigEndian` on the slice,
/// which fails when fewer than four bytes are left and decodes the first
/// four otherwise.
#[verifier::external_body]
fn get_u32_be(bytes: &[u8]) -> (r: Option<u32>)
    ensures
        bytes@.len() < 4 ==> r is None,
        bytes@.len() >= 4 ==> r == Some(be_value(bytes@) as u32),
{
    let mut rest = bytes;
    rest.read_u32::<BigEndian>().ok()
}

/// Four bytes spell the number that they were made from.
pub proof fn lemma_be_round_trip(n: u32)
    ensures
        be_bytes(n).len() == 4,
        be_value(be_bytes(n)) == n,
{
    let b = be_bytes(n);
    assert(b[0] == (n / 16777216) as u8);
    assert(b[1] == ((n / 65536) % 256) as u8);
    assert(b[2] == ((n / 256) % 256) as u8);
    assert(b[3] == (n % 256) as u8);
}

/// The number that four bytes spell fits in 32 bits.
pub proof fn lemma_be_value_bound(bytes: Seq<u8>)
    ensures
        0 <= be_value(bytes) <= u32::MAX,
{
}

/// A frame gives back the body that it was made of.
pub proof fn lemma_frame_round_trip(body: Seq<u8>)
    requires
        body.len() <= u32::MAX,
    ensures
        unframed(framed(body)) == Some(body),
{
    let n = body.len() as u32;
    let f = framed(body);
    lemma_be_round_trip(n);
    assert(f[0] == be_bytes(n)[0]);
    assert(f[1] == be_bytes(n)[1]);
    assert(f[2] == be_bytes(n)[2]);
    assert(f[3] == be_bytes(n)[3]);
    assert(be_value(f) == be_value(be_bytes(n)));
    assert(f.subrange(4, 4 + n as int) =~= body);
}

/// Frames `body` for the wire: its length in four bytes, then the body.
pub fn write_length_prefixed(body: &[u8]) -> (r: Result<Vec<u8>, FrameError>)
    ensures
        body@.len() > u32::MAX ==> r == Err::<Vec<u8>, FrameError>(FrameError::TooLong),
        body@.len() <= u32::MAX ==> r is Ok && r->Ok_0@ == framed(body@),
{
    if body.len() > u32::MAX as usize {
        return Err(FrameError::TooLong);
    }
    let mut out: Vec<u8> = Vec::new();
    put_u32_be(&mut out, body.len() as u32);
    let ghost prefix = out@;
    let mut i: usize = 0;
    while i < body.len()
        invariant
            i <= body@.len(),
            out@ == prefix + body@.take(i as int),
        decreases body@.len() - i,
    {
        out.push(body[i]);
        proof {
            assert(body@.take(i + 1) =~= body@.take(i as int).push(body@[i as int]));
        }
        i += 1;
    }
    proof {
        assert(body@.take(i as int) =~= body@);
    }
    Ok(out)
}

/// Checks that a write took the whole body: a short write is an error.
pub fn check_written(wrote: usize, body: &[u8]) -> (r: Result<(), FrameError>)
    ensures
        wrote == body@.len() ==> r == Ok::<(), FrameError>(()),
        wrote != body@.len() ==> r == Err::<(), FrameError>(
            FrameError::ShortWrite { wrote, expected: body@.len() as usize },
        ),
{
    if wrote != body.len() {
        return Err(FrameError::ShortWrite { wrote, expected: body.len() });
    }
    Ok(())
}

/// Reads the length that a frame announces off its first four bytes.
pub fn frame_length(header: &[u8]) -> (r: Result<usize, FrameError>)
    ensures
        header@.len() < 4 ==> r == Err::<usize, FrameError>(FrameError::Truncated),
        header@.len() >= 4 ==> r == Ok::<usize, FrameError>(be_value(header@) as usize),
{
    match get_u32_be(header) {
        Some(n) => {
            proof {
                lemma_be_value_bound(header@);
            }
            Ok(n as usize)
        },
        None => Err(FrameError::Truncated),
    }
}

/// Takes the body out of the frame with which `bytes` begins.
pub fn read_length_prefixed(bytes: &[u8]) -> (r: Result<Vec<u8>, FrameError>)
    ensures
        unframed(bytes@) is None ==> r == Err::<Vec<u8>, FrameError>(FrameError::Truncated),
        unframed(bytes@) is Some ==> r is Ok && r->Ok_0@ == unframed(bytes@)->Some_0,
{
    let len = match frame_length(bytes) {
        Ok(len) => len,
        Err(_) => {
            return Err(FrameError::Truncated);
        },
    };
    proof {
        lemma_be_value_bound(bytes@);
    }
    if bytes.len() - 4 < len {
        return Err(FrameError::Truncated);
    }
    let mut buf: Vec<u8> = Vec::with_capacity(len);
    let mut i: usize = 0;
    while i < len
        invariant
            i <= len,
            4 + len <= bytes@.len() <= usize::MAX,
            buf@ == bytes@.subrange(4, 4 + i),
        decreases len - i,
    {
        buf.push(bytes[4 + i]);
        proof {
            assert(bytes@.subrange(4, 4 + i + 1) =~= bytes@.subrange(4, 4 + i).push(
                bytes@[4 + i],
            ));
        }
        i += 1;
    }
    Ok(buf)
}

} // verus!
