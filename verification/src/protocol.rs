//! Length-prefixed frames: a four-byte big-endian length followed by the payload.
use vstd::prelude::*;

verus! {

/// The largest payload a frame may carry: 16 MiB.
pub const MAX_FRAME_BYTES: usize = 16777216;

/// Why a frame was refused.
#[derive(Debug)]
pub enum FrameError {
    TooLarge { actual: usize, maximum: usize },
    MissingHeader,
    LengthMismatch { declared: usize, actual: usize },
    Json(serde_json::Error),
}

#[verifier::external_type_specification]
#[verifier::external_body]
pub struct ExJsonError(serde_json::Error);

/// The number written by four big-endian bytes.
pub open spec fn be_value(b: Seq<u8>) -> int {
    b[0] * 16777216 + b[1] * 65536 + b[2] * 256 + b[3]
}

/// The four big-endian bytes of a length below 2^32.
pub open spec fn be_bytes(n: int) -> Seq<u8> {
    seq![
        (n / 16777216) as u8,
        ((n / 65536) % 256) as u8,
        ((n / 256) % 256) as u8,
        (n % 256) as u8,
    ]
}

/// The frame around a payload that fits.
pub open spec fn framed(payload: Seq<u8>) -> Seq<u8> {
    be_bytes(payload.len() as int) + payload
}

/// What reading a frame gives: its payload, or the error, checked in the order the reader
/// checks them.
pub open spec fn unframe_error(frame: Seq<u8>) -> Option<FrameError> {
    if frame.len() >= 4 && frame.len() - 4 > MAX_FRAME_BYTES {
        Some(FrameError::TooLarge { actual: (frame.len() - 4) as usize, maximum: MAX_FRAME_BYTES })
    } else if frame.len() < 4 {
        Some(FrameError::MissingHeader)
    } else if be_value(frame.subrange(0, 4)) > MAX_FRAME_BYTES {
        Some(
            FrameError::TooLarge {
                actual: be_value(frame.subrange(0, 4)) as usize,
                maximum: MAX_FRAME_BYTES,
            },
        )
    } else if be_value(frame.subrange(0, 4)) != frame.len() - 4 {
        Some(
            FrameError::LengthMismatch {
                declared: be_value(frame.subrange(0, 4)) as usize,
                actual: (frame.len() - 4) as usize,
            },
        )
    } else {
        None
    }
}

fn copy_bytes(bytes: &[u8], from: usize, into: &mut Vec<u8>)
    requires
        from <= bytes@.len(),
    ensures
        final(into)@ == old(into)@ + bytes@.subrange(from as int, bytes@.len() as int),
{
    let mut i: usize = from;
    while i < bytes.len()
        invariant
            from <= i <= bytes@.len(),
            into@ == old(into)@ + bytes@.subrange(from as int, i as int),
        decreases bytes.len() - i,
    {
        into.push(bytes[i]);
        assert(bytes@.subrange(from as int, i + 1) =~= bytes@.subrange(from as int, i as int).push(
            bytes@[i as int],
        ));
        i = i + 1;
    }
}

/// Puts a payload into a frame; a payload over 16 MiB is refused.
pub fn frame_payload(payload: &[u8]) -> (frame: Result<Vec<u8>, FrameError>)
    ensures
        payload@.len() > MAX_FRAME_BYTES ==> (frame matches Err(FrameError::TooLarge {
            actual,
            maximum,
        }) && actual == payload@.len() && maximum == MAX_FRAME_BYTES),
        payload@.len() <= MAX_FRAME_BYTES ==> (frame matches Ok(bytes) && bytes@ == framed(
            payload@,
        )),
{
    let n = payload.len();
    if n > MAX_FRAME_BYTES {
        return Err(FrameError::TooLarge { actual: n, maximum: MAX_FRAME_BYTES });
    }
    let mut frame: Vec<u8> = Vec::new();
    frame.push((n / 16777216) as u8);
    frame.push(((n / 65536) % 256) as u8);
    frame.push(((n / 256) % 256) as u8);
    frame.push((n % 256) as u8);
    assert(frame@ =~= be_bytes(n as int));
    copy_bytes(payload, 0, &mut frame);
    assert(payload@.subrange(0, payload@.len() as int) =~= payload@);
    Ok(frame)
}

/// Reads the payload out of a frame: the frame must hold its four-byte header, declare at most
/// 16 MiB, and carry exactly the declared number of bytes.
pub fn frame_body(frame: &[u8]) -> (body: Result<Vec<u8>, FrameError>)
    ensures
        match body {
            Ok(bytes) => unframe_error(frame@) is None && bytes@ == frame@.subrange(
                4,
                frame@.len() as int,
            ),
            Err(e) => unframe_error(frame@) == Some(e),
        },
{
    let len = frame.len();
    if len >= 4 && len - 4 > MAX_FRAME_BYTES {
        return Err(FrameError::TooLarge { actual: len - 4, maximum: MAX_FRAME_BYTES });
    }
    if len < 4 {
        return Err(FrameError::MissingHeader);
    }
    let declared: u64 = frame[0] as u64 * 16777216 + frame[1] as u64 * 65536 + frame[2] as u64
        * 256 + frame[3] as u64;
    assert(declared == be_value(frame@.subrange(0, 4)));
    let actual = len - 4;
    if declared > MAX_FRAME_BYTES as u64 {
        return Err(FrameError::TooLarge { actual: declared as usize, maximum: MAX_FRAME_BYTES });
    }
    let declared = declared as usize;
    if declared != actual {
        return Err(FrameError::LengthMismatch { declared, actual });
    }
    let mut bytes: Vec<u8> = Vec::new();
    copy_bytes(frame, 4, &mut bytes);
    assert(bytes@ =~= frame@.subrange(4, frame@.len() as int));
    Ok(bytes)
}

/// Whether a connection's first byte starts a frame rather than a text line: a frame's
/// length header begins with a byte no larger than the top byte of the 16 MiB limit.
pub fn is_frame_prefix(first: u8) -> (frame: bool)
    ensures
        frame == (first as int <= MAX_FRAME_BYTES / 16777216),
{
    first <= (MAX_FRAME_BYTES / 16777216) as u8
}

/// Reading a frame gives back the payload it was written with, for every payload of at most
/// 16 MiB.
pub proof fn lemma_frame_round_trip(payload: Seq<u8>)
    requires
        payload.len() <= MAX_FRAME_BYTES,
    ensures
        unframe_error(framed(payload)) is None,
        framed(payload).subrange(4, framed(payload).len() as int) == payload,
{
    let n = payload.len() as int;
    let f = framed(payload);
    assert(f.subrange(0, 4) =~= be_bytes(n));
    assert(be_value(be_bytes(n)) == n) by (nonlinear_arith)
        requires
            0 <= n <= 16777216,
    {
        assert(be_bytes(n)[0] == n / 16777216);
        assert(be_bytes(n)[1] == (n / 65536) % 256);
        assert(be_bytes(n)[2] == (n / 256) % 256);
        assert(be_bytes(n)[3] == n % 256);
    }
    assert(f.subrange(4, f.len() as int) =~= payload);
}

} // verus!
