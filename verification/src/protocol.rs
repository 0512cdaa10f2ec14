//! Wire framing. Responses travel as a 4-byte big-endian length prefix
//! followed by exactly that many bytes of newline-terminated UTF-8 text;
//! the prefix counts only the bytes after it.

use vstd::prelude::*;
use crate::errors::Error;

verus! {

/// The value of a 4-byte big-endian length prefix.
pub open spec fn spec_be_val(b: Seq<u8>) -> int
    recommends
        b.len() == 4,
{
    b[0] * 0x1000000 + b[1] * 0x10000 + b[2] * 0x100 + b[3]
}

/// The four big-endian bytes of a length below `2^32`.
pub open spec fn spec_be_bytes(n: int) -> Seq<u8> {
    seq![
        ((n / 0x1000000) % 0x100) as u8,
        ((n / 0x10000) % 0x100) as u8,
        ((n / 0x100) % 0x100) as u8,
        (n % 0x100) as u8,
    ]
}

/// A whole frame: length prefix, then payload.
pub open spec fn spec_frame(payload: Seq<u8>) -> Seq<u8> {
    spec_be_bytes(payload.len() as int) + payload
}

/// What decoding a buffer yields: the payload exactly as long as the
/// prefix says, or nothing when the buffer is too short for its prefix.
pub open spec fn spec_decode_frame(data: Seq<u8>) -> Option<Seq<u8>> {
    if data.len() >= 4 && spec_be_val(data.take(4)) <= data.len() - 4 {
        Some(data.subrange(4, 4 + spec_be_val(data.take(4))))
    } else {
        None
    }
}

proof fn lemma_be_val_of_bytes_u32(n: u32)
    ensures
        ((n / 0x1000000) % 0x100) * 0x1000000 + ((n / 0x10000) % 0x100) * 0x10000 + ((n / 0x100)
            % 0x100) * 0x100 + (n % 0x100) == n,
{
    assert(((n / 0x1000000) % 0x100) * 0x1000000 + ((n / 0x10000) % 0x100) * 0x10000 + ((n
        / 0x100) % 0x100) * 0x100 + (n % 0x100) == n) by (bit_vector);
}

proof fn lemma_be_round_trip(n: int)
    requires
        0 <= n <= u32::MAX,
    ensures
        spec_be_val(spec_be_bytes(n)) == n,
{
    let m = n as u32;
    lemma_be_val_of_bytes_u32(m);
    assert(spec_be_bytes(n)[0] == ((n / 0x1000000) % 0x100) as u8);
    assert(0 <= (n / 0x1000000) % 0x100 < 0x100);
    assert(0 <= (n / 0x10000) % 0x100 < 0x100);
    assert(0 <= (n / 0x100) % 0x100 < 0x100);
    assert(0 <= n % 0x100 < 0x100);
    assert(m / 0x1000000 == n / 0x1000000);
    assert(m / 0x10000 == n / 0x10000);
    assert(m / 0x100 == n / 0x100);
}

fn be_bytes_of(n: u32) -> (r: Vec<u8>)
    ensures
        r@ == spec_be_bytes(n as int),
{
    let b0: u8 = ((n / 0x1000000) % 0x100) as u8;
    let b1: u8 = ((n / 0x10000) % 0x100) as u8;
    let b2: u8 = ((n / 0x100) % 0x100) as u8;
    let b3: u8 = (n % 0x100) as u8;
    let mut r: Vec<u8> = Vec::new();
    r.push(b0);
    r.push(b1);
    r.push(b2);
    r.push(b3);
    proof {
        assert(r@ =~= spec_be_bytes(n as int));
    }
    r
}

/// Frames a payload: its 4-byte big-endian length, then its bytes. A
/// payload too long for a 32-bit length is a framing error.
#[verifier::loop_isolation(false)]
pub fn encode_frame(payload: &Vec<u8>) -> (r: Result<Vec<u8>, Error>)
    ensures
        payload@.len() <= u32::MAX ==> (r matches Ok(f) && f@ == spec_frame(payload@)),
        payload@.len() > u32::MAX ==> r == Err::<Vec<u8>, Error>(Error::ProtocolFrame),
{
    if payload.len() > u32::MAX as usize {
        return Err(Error::ProtocolFrame);
    }
    let mut f = be_bytes_of(payload.len() as u32);
    let mut i: usize = 0;
    while i < payload.len()
        invariant
            i <= payload@.len(),
            f@ == spec_be_bytes(payload@.len() as int) + payload@.take(i as int),
        decreases payload@.len() - i,
    {
        f.push(payload[i]);
        proof {
            assert(f@ =~= spec_be_bytes(payload@.len() as int) + payload@.take(i + 1));
        }
        i = i + 1;
    }
    proof {
        assert(payload@.take(payload@.len() as int) =~= payload@);
    }
    Ok(f)
}

/// Decodes one frame from a buffer: reads the 4-byte prefix and returns
/// exactly that many following bytes. A buffer with no full prefix, or
/// shorter than its prefix promises, is a framing error.
#[verifier::loop_isolation(false)]
pub fn decode_frame(data: &Vec<u8>) -> (r: Result<Vec<u8>, Error>)
    ensures
        match spec_decode_frame(data@) {
            Some(p) => r matches Ok(v) && v@ == p,
            None => r == Err::<Vec<u8>, Error>(Error::ProtocolFrame),
        },
{
    if data.len() < 4 {
        return Err(Error::ProtocolFrame);
    }
    let n: u32 = (data[0] as u32) * 0x1000000 + (data[1] as u32) * 0x10000 + (data[2] as u32)
        * 0x100 + (data[3] as u32);
    proof {
        assert(data@.take(4)[0] == data@[0]);
        assert(data@.take(4)[1] == data@[1]);
        assert(data@.take(4)[2] == data@[2]);
        assert(data@.take(4)[3] == data@[3]);
        assert(n as int == spec_be_val(data@.take(4)));
    }
    let len: usize = n as usize;
    if len > data.len() - 4 {
        return Err(Error::ProtocolFrame);
    }
    let mut out: Vec<u8> = Vec::new();
    let mut i: usize = 0;
    while i < len
        invariant
            i <= len,
            out@ == data@.subrange(4, 4 + i as int),
        decreases len - i,
    {
        out.push(data[4 + i]);
        proof {
            assert(out@ =~= data@.subrange(4, 4 + (i + 1)));
        }
        i = i + 1;
    }
    Ok(out)
}

/// Round-trip law (frames): decoding an encoded frame yields the payload
/// unchanged, for every payload a 32-bit length can measure.
pub proof fn lemma_frame_round_trip(payload: Seq<u8>)
    requires
        payload.len() <= u32::MAX,
    ensures
        spec_decode_frame(spec_frame(payload)) == Some(payload),
{
    let framed = spec_frame(payload);
    lemma_be_round_trip(payload.len() as int);
    assert(framed.take(4) =~= spec_be_bytes(payload.len() as int));
    assert(spec_be_val(framed.take(4)) == payload.len());
    assert(framed.subrange(4, 4 + payload.len() as int) =~= payload);
}

/// The payload bytes of a response text: the text, newline-terminated,
/// UTF-8 encoded.
pub open spec fn spec_response_payload(text: Seq<char>) -> Seq<u8> {
    vstd::utf8::encode_utf8(text + "\n"@)
}

/// Serializes a response text for the wire: appends the newline
/// terminator, encodes as UTF-8, and frames the bytes.
pub fn frame_response(text: &str) -> (r: Result<Vec<u8>, Error>)
    ensures
        spec_response_payload(text@).len() <= u32::MAX ==> (r matches Ok(f) && f@ == spec_frame(
            spec_response_payload(text@),
        )),
        spec_response_payload(text@).len() > u32::MAX ==> r == Err::<Vec<u8>, Error>(
            Error::ProtocolFrame,
        ),
{
    let mut msg = String::from_str(text);
    msg.append("\n");
    let bytes = msg.as_str().as_bytes_vec();
    proof {
        assert(bytes@ == spec_response_payload(text@));
    }
    encode_frame(&bytes)
}

/// Round-trip law (texts): for any response text — empty, ASCII or
/// multi-byte — decoding the 4-byte length prefix followed by exactly
/// that many bytes yields the newline-terminated text unchanged.
pub proof fn lemma_response_round_trip(text: Seq<char>)
    requires
        spec_response_payload(text).len() <= u32::MAX,
    ensures
        ({
            let framed = spec_frame(spec_response_payload(text));
            &&& spec_decode_frame(framed) == Some(spec_response_payload(text))
            &&& vstd::utf8::decode_utf8(spec_response_payload(text)) == text + "\n"@
        }),
{
    lemma_frame_round_trip(spec_response_payload(text));
    vstd::utf8::encode_utf8_decode_utf8(text + "\n"@);
}

} // verus!
