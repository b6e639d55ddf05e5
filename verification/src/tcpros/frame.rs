//! Length-prefixed frames: four bytes of length, least significant first,
//! then the body.

use vstd::prelude::*;
use crate::tcpros::error::WireError;

verus! {

/// The four bytes of a length, least significant first.
pub open spec fn le32(x: u32) -> Seq<u8> {
    seq![
        (x & 0xff) as u8,
        ((x >> 8) & 0xff) as u8,
        ((x >> 16) & 0xff) as u8,
        ((x >> 24) & 0xff) as u8,
    ]
}

/// The length that the first four bytes of `b` state.
pub open spec fn from_le32(b: Seq<u8>) -> u32 {
    (b[0] as u32) | ((b[1] as u32) << 8) | ((b[2] as u32) << 16) | ((b[3] as u32) << 24)
}

/// Reading the bytes of a length gives the length back.
pub proof fn lemma_le32_read(x: u32)
    ensures
        le32(x).len() == 4,
        from_le32(le32(x)) == x,
{
    assert(((x & 0xff) as u8 as u32) | (((x >> 8) & 0xff) as u8 as u32) << 8 | (((x >> 16)
        & 0xff) as u8 as u32) << 16 | (((x >> 24) & 0xff) as u8 as u32) << 24 == x)
        by (bit_vector);
}

/// Appends the four bytes of `x`.
pub fn put_u32(out: &mut Vec<u8>, x: u32)
    ensures
        final(out)@ == old(out)@ + le32(x),
{
    out.push((x & 0xff) as u8);
    out.push(((x >> 8) & 0xff) as u8);
    out.push(((x >> 16) & 0xff) as u8);
    out.push(((x >> 24) & 0xff) as u8);
    assert(out@ =~= old(out)@ + le32(x));
}

/// Reads the length that stands at `at`.
pub fn get_u32(data: &[u8], at: usize) -> (r: u32)
    requires
        at + 4 <= data@.len(),
    ensures
        r == from_le32(data@.subrange(at as int, at + 4)),
{
    let b0: u32 = data[at] as u32;
    let b1: u32 = data[at + 1] as u32;
    let b2: u32 = data[at + 2] as u32;
    let b3: u32 = data[at + 3] as u32;
    b0 | (b1 << 8) | (b2 << 16) | (b3 << 24)
}

/// A body behind its length. The body must be short enough for its length to
/// fit four bytes.
pub open spec fn frame(body: Seq<u8>) -> Seq<u8> {
    le32(body.len() as u32) + body
}

/// Whether a length fits four bytes.
pub open spec fn fits(len: nat) -> bool {
    len <= u32::MAX
}

/// The first frame of `data` and the number of bytes it takes, where `data`
/// holds a whole frame.
pub open spec fn first_frame(data: Seq<u8>) -> Option<(Seq<u8>, int)> {
    if data.len() < 4 {
        None
    } else {
        let n = from_le32(data.subrange(0, 4)) as int;
        if data.len() - 4 < n {
            None
        } else {
            Some((data.subrange(4, 4 + n), 4 + n))
        }
    }
}

/// The frames that `data` holds in full, in their order. What stands behind
/// the last whole frame is left unread.
pub open spec fn whole_frames(data: Seq<u8>) -> Seq<Seq<u8>>
    decreases data.len(),
{
    match first_frame(data) {
        None => Seq::empty(),
        Some((body, used)) => seq![body] + whole_frames(data.subrange(used, data.len() as int)),
    }
}

/// The frames of a row of bodies, one behind the other.
#[verifier::opaque]
pub open spec fn frames(bodies: Seq<Seq<u8>>) -> Seq<u8>
    decreases bodies.len(),
{
    if bodies.len() == 0 {
        Seq::empty()
    } else {
        frame(bodies[0]) + frames(bodies.drop_first())
    }
}

/// A frame is read back as its body, whatever follows it.
pub proof fn lemma_first_frame(body: Seq<u8>, rest: Seq<u8>)
    requires
        fits(body.len()),
    ensures
        first_frame(frame(body) + rest) == Some((body, 4 + body.len() as int)),
{
    let data = frame(body) + rest;
    lemma_le32_read(body.len() as u32);
    assert(data.subrange(0, 4) =~= le32(body.len() as u32));
    assert(data.subrange(4, 4 + body.len() as int) =~= body);
}

/// A frame that is cut short is not read.
pub proof fn lemma_cut_frame(body: Seq<u8>, rest: Seq<u8>, n: int)
    requires
        fits(body.len()),
        0 <= n < 4 + body.len(),
    ensures
        first_frame((frame(body) + rest).take(n)) is None,
{
    let data = (frame(body) + rest).take(n);
    lemma_le32_read(body.len() as u32);
    if n >= 4 {
        assert(data.subrange(0, 4) =~= le32(body.len() as u32));
    }
}

/// Writes the frame of `body`.
pub fn encode_frame(body: &[u8]) -> (r: Result<Vec<u8>, WireError>)
    ensures
        match r {
            Ok(bytes) => fits(body@.len()) && bytes@ == frame(body@),
            Err(e) => !fits(body@.len()) && e == WireError::TooLong,
        },
{
    if body.len() > u32::MAX as usize {
        return Err(WireError::TooLong);
    }
    let mut out: Vec<u8> = Vec::new();
    put_u32(&mut out, body.len() as u32);
    out.extend_from_slice(body);
    assert(out@ =~= frame(body@));
    Ok(out)
}

/// Reads the first frame of `data`: its body and the number of bytes it
/// takes. Gives nothing while `data` does not hold the whole frame.
pub fn decode_frame(data: &[u8]) -> (r: Option<(Vec<u8>, usize)>)
    ensures
        match r {
            Some((body, used)) => first_frame(data@) == Some((body@, used as int)),
            None => first_frame(data@) is None,
        },
{
    if data.len() < 4 {
        return None;
    }
    let n: usize = get_u32(data, 0) as usize;
    if data.len() - 4 < n {
        return None;
    }
    let body = vstd::slice::slice_to_vec(vstd::slice::slice_subrange(data, 4, 4 + n));
    Some((body, 4 + n))
}

/// The bytes of each body of a list.
pub open spec fn bodies_of(v: Seq<Vec<u8>>) -> Seq<Seq<u8>> {
    v.map_values(|b: Vec<u8>| b@)
}

/// Reads every frame that `data` holds in full, and says how many bytes they
/// take together.
pub fn decode_frames(data: &[u8]) -> (r: (Vec<Vec<u8>>, usize))
    ensures
        bodies_of(r.0@) == whole_frames(data@),
        r.1 <= data@.len(),
        first_frame(data@.subrange(r.1 as int, data@.len() as int)) is None,
{
    let mut found: Vec<Vec<u8>> = Vec::new();
    let mut at: usize = 0;
    assert(data@.subrange(0, data@.len() as int) =~= data@);
    assert(bodies_of(found@) =~= Seq::<Seq<u8>>::empty());
    loop
        invariant
            at <= data@.len(),
            whole_frames(data@) == bodies_of(found@) + whole_frames(
                data@.subrange(at as int, data@.len() as int),
            ),
        decreases data@.len() - at,
    {
        let rest = vstd::slice::slice_subrange(data, at, data.len());
        match decode_frame(rest) {
            None => {
                proof {
                    lemma_whole_frames_none(rest@);
                }
                assert(bodies_of(found@) + whole_frames(rest@) =~= bodies_of(found@));
                return (found, at);
            },
            Some((body, used)) => {
                let ghost before = bodies_of(found@);
                proof {
                    lemma_whole_frames_some(rest@);
                }
                assert(rest@.subrange(used as int, rest@.len() as int) =~= data@.subrange(
                    at + used,
                    data@.len() as int,
                ));
                found.push(body);
                assert(bodies_of(found@) =~= before + seq![body@]);
                assert(before + (seq![body@] + whole_frames(
                    data@.subrange(at + used, data@.len() as int),
                )) =~= before + seq![body@] + whole_frames(
                    data@.subrange(at + used, data@.len() as int),
                ));
                at = at + used;
            },
        }
    }
}

/// A frame is four bytes longer than its body.
pub proof fn lemma_frame_len(body: Seq<u8>)
    ensures
        frame(body).len() == 4 + body.len(),
{
}

/// A reader of a frame and what follows it finds the body, then what it
/// finds in what follows.
pub proof fn lemma_whole_frames_step(body: Seq<u8>, rest: Seq<u8>)
    requires
        fits(body.len()),
    ensures
        whole_frames(frame(body) + rest) == seq![body] + whole_frames(rest),
{
    reveal(whole_frames);
    let data = frame(body) + rest;
    lemma_first_frame(body, rest);
    lemma_frame_len(body);
    assert(data.subrange(4 + body.len() as int, data.len() as int) =~= rest);
}

/// A reader finds nothing where the first frame is not whole.
pub proof fn lemma_whole_frames_none(data: Seq<u8>)
    requires
        first_frame(data) is None,
    ensures
        whole_frames(data) == Seq::<Seq<u8>>::empty(),
{
    reveal(whole_frames);
}

/// A reader that finds a first frame finds it, then what it finds behind
/// it.
pub proof fn lemma_whole_frames_some(data: Seq<u8>)
    requires
        first_frame(data) is Some,
    ensures
        whole_frames(data) == seq![first_frame(data)->Some_0.0] + whole_frames(
            data.subrange(first_frame(data)->Some_0.1, data.len() as int),
        ),
{
    reveal(whole_frames);
}

/// The frames of a row of bodies are the frame of the first, then the frames
/// of the others.
pub proof fn lemma_frames_unfold(bodies: Seq<Seq<u8>>)
    requires
        bodies.len() > 0,
    ensures
        frames(bodies) == frame(bodies[0]) + frames(bodies.drop_first()),
{
    reveal(frames);
}

/// No bodies make no bytes.
pub proof fn lemma_frames_empty(bodies: Seq<Seq<u8>>)
    requires
        bodies.len() == 0,
    ensures
        frames(bodies) == Seq::<u8>::empty(),
{
    reveal(frames);
}

/// What a reader finds in any beginning of a stream of frames is a beginning
/// of the row of bodies that were written: in order, without gaps or repeats.
pub proof fn lemma_frames_prefix(bodies: Seq<Seq<u8>>, n: int)
    requires
        forall|i: int| 0 <= i < bodies.len() ==> fits(#[trigger] bodies[i].len()),
        0 <= n <= frames(bodies).len(),
    ensures
        whole_frames(frames(bodies).take(n)).is_prefix_of(bodies),
    decreases bodies.len(),
{
    let data = frames(bodies);
    if bodies.len() == 0 {
        lemma_frames_empty(bodies);
        assert(first_frame(data.take(n)) is None);
        lemma_whole_frames_none(data.take(n));
    } else {
        let head = bodies[0];
        let tail = bodies.drop_first();
        let used = 4 + head.len() as int;
        assert(fits(head.len()));
        lemma_frames_unfold(bodies);
        lemma_frame_len(head);
        if n < used {
            lemma_cut_frame(head, frames(tail), n);
            lemma_whole_frames_none(data.take(n));
        } else {
            let cut = frames(tail).take(n - used);
            assert(data.take(n) =~= frame(head) + cut);
            lemma_whole_frames_step(head, cut);
            assert forall|i: int| 0 <= i < tail.len() implies fits(#[trigger] tail[i].len()) by {
                assert(tail[i] == bodies[i + 1]);
            }
            lemma_frames_prefix(tail, n - used);
            let inner = whole_frames(cut);
            let got = seq![head] + inner;
            assert(inner =~= tail.subrange(0, inner.len() as int));
            assert(got =~= bodies.subrange(0, got.len() as int)) by {
                assert forall|i: int| 0 <= i < got.len() implies got[i] == bodies[i] by {
                    if i > 0 {
                        assert(got[i] == inner[i - 1]);
                        assert(inner[i - 1] == tail[i - 1]);
                    }
                }
            }
        }
    }
}

/// A reader of a whole stream of frames finds every body that was written.
pub proof fn lemma_frames_round_trip(bodies: Seq<Seq<u8>>)
    requires
        forall|i: int| 0 <= i < bodies.len() ==> fits(#[trigger] bodies[i].len()),
    ensures
        whole_frames(frames(bodies)) == bodies,
    decreases bodies.len(),
{
    if bodies.len() == 0 {
        let data = frames(bodies);
        lemma_frames_empty(bodies);
        assert(first_frame(data) is None);
        lemma_whole_frames_none(data);
        assert(whole_frames(data) =~= bodies);
    } else {
        let head = bodies[0];
        let tail = bodies.drop_first();
        assert(fits(head.len()));
        lemma_frames_unfold(bodies);
        lemma_whole_frames_step(head, frames(tail));
        assert forall|i: int| 0 <= i < tail.len() implies fits(#[trigger] tail[i].len()) by {
            assert(tail[i] == bodies[i + 1]);
        }
        lemma_frames_round_trip(tail);
        assert(seq![head] + tail =~= bodies);
    }
}

} // verus!
