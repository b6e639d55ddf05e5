//! The frames of a service call: the request is a plain frame; the response
//! is a status byte, then a frame that holds the result or the reason why
//! there is none.

use vstd::prelude::*;
use vstd::utf8::*;
use crate::tcpros::error::WireError;
use crate::tcpros::frame::{decode_frame, first_frame, fits, frame, lemma_first_frame, put_u32};
use crate::tcpros::header::text_of;

verus! {

/// The bytes of a response: status 1 and the result, or status 0 and the
/// reason as UTF-8.
pub open spec fn response(outcome: Result<Seq<u8>, Seq<char>>) -> Seq<u8> {
    match outcome {
        Ok(body) => seq![1u8] + frame(body),
        Err(why) => seq![0u8] + frame(encode_utf8(why)),
    }
}

/// Whether a response can be written: what it carries is short enough for
/// its length to fit four bytes.
pub open spec fn response_fits(outcome: Result<Seq<u8>, Seq<char>>) -> bool {
    match outcome {
        Ok(body) => fits(body.len()),
        Err(why) => fits(encode_utf8(why).len()),
    }
}

/// The response that `data` starts with and the number of bytes it takes;
/// nothing while `data` does not hold the whole response.
pub open spec fn read_response(data: Seq<u8>) -> Result<
    Option<(Result<Seq<u8>, Seq<char>>, int)>,
    WireError,
> {
    if data.len() < 1 {
        Ok(None)
    } else if data[0] != 0u8 && data[0] != 1u8 {
        Err(WireError::BadStatus)
    } else {
        match first_frame(data.subrange(1, data.len() as int)) {
            None => Ok(None),
            Some((body, used)) => if data[0] == 1u8 {
                Ok(Some((Ok(body), 1 + used)))
            } else if valid_utf8(body) {
                Ok(Some((Err(decode_utf8(body)), 1 + used)))
            } else {
                Err(WireError::InvalidText)
            },
        }
    }
}

/// A response is read back as it was written, whatever follows it.
pub proof fn lemma_response_round_trip(outcome: Result<Seq<u8>, Seq<char>>, rest: Seq<u8>)
    requires
        response_fits(outcome),
    ensures
        read_response(response(outcome) + rest) == Ok::<
            Option<(Result<Seq<u8>, Seq<char>>, int)>,
            WireError,
        >(Some((outcome, response(outcome).len() as int))),
{
    let data = response(outcome) + rest;
    match outcome {
        Ok(body) => {
            assert(data.subrange(1, data.len() as int) =~= frame(body) + rest);
            lemma_first_frame(body, rest);
            assert(data[0] == 1u8);
        },
        Err(why) => {
            let body = encode_utf8(why);
            assert(data.subrange(1, data.len() as int) =~= frame(body) + rest);
            lemma_first_frame(body, rest);
            encode_utf8_valid_utf8(why);
            encode_utf8_decode_utf8(why);
            assert(data[0] == 0u8);
        },
    }
}

/// Writes the response that carries the result `body`.
pub fn encode_result(body: &[u8]) -> (r: Result<Vec<u8>, WireError>)
    ensures
        match r {
            Ok(bytes) => fits(body@.len()) && bytes@ == response(
                Ok::<Seq<u8>, Seq<char>>(body@),
            ),
            Err(e) => !fits(body@.len()) && e == WireError::TooLong,
        },
{
    if body.len() > u32::MAX as usize {
        return Err(WireError::TooLong);
    }
    let mut out: Vec<u8> = Vec::new();
    out.push(1u8);
    put_u32(&mut out, body.len() as u32);
    out.extend_from_slice(body);
    assert(out@ =~= response(Ok::<Seq<u8>, Seq<char>>(body@)));
    Ok(out)
}

/// Writes the response that says why there is no result.
pub fn encode_failure(why: &str) -> (r: Result<Vec<u8>, WireError>)
    ensures
        match r {
            Ok(bytes) => fits(encode_utf8(why@).len()) && bytes@ == response(
                Err::<Seq<u8>, Seq<char>>(why@),
            ),
            Err(e) => !fits(encode_utf8(why@).len()) && e == WireError::TooLong,
        },
{
    let body = why.as_bytes();
    if body.len() > u32::MAX as usize {
        return Err(WireError::TooLong);
    }
    let mut out: Vec<u8> = Vec::new();
    out.push(0u8);
    put_u32(&mut out, body.len() as u32);
    out.extend_from_slice(body);
    assert(out@ =~= response(Err::<Seq<u8>, Seq<char>>(why@)));
    Ok(out)
}

/// Reads the response that `data` starts with: the result or the reason why
/// there is none, and the number of bytes that the response takes. Gives
/// nothing while `data` does not hold the whole response.
pub fn decode_response(data: &[u8]) -> (r: Result<
    Option<(Result<Vec<u8>, String>, usize)>,
    WireError,
>)
    ensures
        match r {
            Err(e) => read_response(data@) == Err::<
                Option<(Result<Seq<u8>, Seq<char>>, int)>,
                WireError,
            >(e),
            Ok(None) => read_response(data@) == Ok::<
                Option<(Result<Seq<u8>, Seq<char>>, int)>,
                WireError,
            >(None),
            Ok(Some((Ok(body), used))) => read_response(data@) == Ok::<
                Option<(Result<Seq<u8>, Seq<char>>, int)>,
                WireError,
            >(Some((Ok(body@), used as int))),
            Ok(Some((Err(why), used))) => read_response(data@) == Ok::<
                Option<(Result<Seq<u8>, Seq<char>>, int)>,
                WireError,
            >(Some((Err(why@), used as int))),
        },
{
    if data.len() < 1 {
        return Ok(None);
    }
    let status = data[0];
    if status != 0u8 && status != 1u8 {
        return Err(WireError::BadStatus);
    }
    let rest = vstd::slice::slice_subrange(data, 1, data.len());
    match decode_frame(rest) {
        None => Ok(None),
        Some((body, used)) => {
            if status == 1u8 {
                Ok(Some((Ok(body), 1 + used)))
            } else {
                match text_of(body) {
                    Some(why) => Ok(Some((Err(why), 1 + used))),
                    None => Err(WireError::InvalidText),
                }
            }
        },
    }
}

} // verus!
