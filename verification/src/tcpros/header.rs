//! Header blocks: a row of `key=value` fields, each behind its length, the
//! whole row behind its length again.

use vstd::prelude::*;
use vstd::utf8::*;
use crate::tcpros::error::WireError;
use crate::text::pairs;
use crate::tcpros::frame::{
    decode_frame, first_frame, fits, frame, lemma_first_frame, lemma_frame_len, put_u32,
};

verus! {

/// The bytes of one field: the key, `=`, the value, as UTF-8.
pub open spec fn field(key: Seq<char>, value: Seq<char>) -> Seq<u8> {
    encode_utf8(key) + seq![61u8] + encode_utf8(value)
}

/// The fields in a row, each behind its length.
pub open spec fn block(fields: Seq<(Seq<char>, Seq<char>)>) -> Seq<u8>
    decreases fields.len(),
{
    if fields.len() == 0 {
        Seq::empty()
    } else {
        frame(field(fields[0].0, fields[0].1)) + block(fields.drop_first())
    }
}

/// The header block of a list of fields.
pub open spec fn header(fields: Seq<(Seq<char>, Seq<char>)>) -> Seq<u8> {
    frame(block(fields))
}

/// Every field, and the row of them, is short enough for its length to fit
/// four bytes.
pub open spec fn writable(fields: Seq<(Seq<char>, Seq<char>)>) -> bool {
    &&& forall|i: int|
        0 <= i < fields.len() ==> fits(field((#[trigger] fields[i]).0, fields[i].1).len())
    &&& fits(block(fields).len())
}

/// Place of the first `=` of `b` from `from` on; the length of `b` where
/// there is none.
pub open spec fn first_equals(b: Seq<u8>, from: int) -> int
    decreases b.len() - from,
{
    if from < 0 || from >= b.len() {
        b.len() as int
    } else if b[from] == 61u8 {
        from
    } else {
        first_equals(b, from + 1)
    }
}

/// Key and value of one field: what stands before its first `=`, and what
/// stands behind it.
pub open spec fn read_field(b: Seq<u8>) -> Result<(Seq<char>, Seq<char>), WireError> {
    let at = first_equals(b, 0);
    if at >= b.len() {
        Err(WireError::MissingEquals)
    } else if !valid_utf8(b.subrange(0, at)) || !valid_utf8(b.subrange(at + 1, b.len() as int)) {
        Err(WireError::InvalidText)
    } else {
        Ok((decode_utf8(b.subrange(0, at)), decode_utf8(b.subrange(at + 1, b.len() as int))))
    }
}

/// The fields of a row, read from the front. The first field that cannot be
/// read decides the error.
pub open spec fn read_block(b: Seq<u8>) -> Result<Seq<(Seq<char>, Seq<char>)>, WireError>
    decreases b.len(),
{
    if b.len() == 0 {
        Ok(Seq::empty())
    } else {
        match first_frame(b) {
            None => Err(WireError::Truncated),
            Some((body, used)) => match read_field(body) {
                Err(e) => Err(e),
                Ok(f) => match read_block(b.subrange(used, b.len() as int)) {
                    Err(e) => Err(e),
                    Ok(rest) => Ok(seq![f] + rest),
                },
            },
        }
    }
}

/// The fields of the header block that `data` starts with, and the number of
/// bytes that the block takes.
pub open spec fn read_header(data: Seq<u8>) -> Result<(Seq<(Seq<char>, Seq<char>)>, int), WireError> {
    match first_frame(data) {
        None => Err(WireError::Truncated),
        Some((body, used)) => match read_block(body) {
            Err(e) => Err(e),
            Ok(fields) => Ok((fields, used)),
        },
    }
}

/// The value that a list of fields gives to `key`. Where the key occurs more
/// than once, its last field counts.
pub open spec fn value_of(fields: Seq<(Seq<char>, Seq<char>)>, key: Seq<char>) -> Option<
    Seq<char>,
>
    decreases fields.len(),
{
    if fields.len() == 0 {
        None
    } else if fields.last().0 == key {
        Some(fields.last().1)
    } else {
        value_of(fields.drop_last(), key)
    }
}

/// A row with one more field is the row, then the field behind its length.
pub proof fn lemma_block_push(fields: Seq<(Seq<char>, Seq<char>)>, f: (Seq<char>, Seq<char>))
    ensures
        block(fields.push(f)) == block(fields) + frame(field(f.0, f.1)),
    decreases fields.len(),
{
    let more = fields.push(f);
    if fields.len() == 0 {
        assert(more.drop_first() =~= fields);
        assert(block(more) =~= block(fields) + frame(field(f.0, f.1)));
    } else {
        assert(more.drop_first() =~= fields.drop_first().push(f));
        lemma_block_push(fields.drop_first(), f);
        assert(more[0] == fields[0]);
        assert(block(more) =~= block(fields) + frame(field(f.0, f.1)));
    }
}

/// Where no byte before `at` is `=` and the one at `at` is, `at` is the place
/// of the first `=`.
pub proof fn lemma_first_equals(b: Seq<u8>, from: int, at: int)
    requires
        0 <= from <= at <= b.len(),
        forall|i: int| from <= i < at ==> b[i] != 61u8,
        at < b.len() ==> b[at] == 61u8,
    ensures
        first_equals(b, from) == at,
    decreases at - from,
{
    if from < at {
        lemma_first_equals(b, from + 1, at);
    }
}

/// A field whose key is ASCII without `=` is read back as it was written.
pub proof fn lemma_field_round_trip(key: Seq<char>, value: Seq<char>)
    requires
        is_ascii_chars(key),
        !key.contains('='),
    ensures
        read_field(field(key, value)) == Ok::<(Seq<char>, Seq<char>), WireError>((key, value)),
{
    let kb = encode_utf8(key);
    let vb = encode_utf8(value);
    let b = field(key, value);
    is_ascii_chars_encode_utf8(key);
    assert forall|i: int| 0 <= i < kb.len() implies b[i] != 61u8 by {
        assert(key.contains(key[i]));
        assert(key[i] != '=');
        assert(kb[i] == key[i] as u8);
        assert('\0' <= key[i] <= '\u{7f}');
    }
    lemma_first_equals(b, 0, kb.len() as int);
    assert(b.subrange(0, kb.len() as int) =~= kb);
    assert(b.subrange(kb.len() as int + 1, b.len() as int) =~= vb);
    encode_utf8_valid_utf8(key);
    encode_utf8_valid_utf8(value);
    encode_utf8_decode_utf8(key);
    encode_utf8_decode_utf8(value);
}

/// A row of fields whose keys are ASCII without `=` is read back as it was
/// written.
pub proof fn lemma_block_round_trip(fields: Seq<(Seq<char>, Seq<char>)>)
    requires
        forall|i: int|
            0 <= i < fields.len() ==> fits(field((#[trigger] fields[i]).0, fields[i].1).len()),
        forall|i: int|
            0 <= i < fields.len() ==> is_ascii_chars((#[trigger] fields[i]).0)
                && !fields[i].0.contains('='),
    ensures
        read_block(block(fields)) == Ok::<Seq<(Seq<char>, Seq<char>)>, WireError>(fields),
    decreases fields.len(),
{
    let b = block(fields);
    if fields.len() == 0 {
        assert(read_block(b).unwrap() =~= fields);
    } else {
        let f = fields[0];
        let tail = fields.drop_first();
        let body = field(f.0, f.1);
        assert(fits(body.len()));
        lemma_first_frame(body, block(tail));
        lemma_frame_len(body);
        lemma_field_round_trip(f.0, f.1);
        let rest = b.subrange(4 + body.len() as int, b.len() as int);
        assert(rest =~= block(tail));
        assert forall|i: int| 0 <= i < tail.len() implies fits(
            field((#[trigger] tail[i]).0, tail[i].1).len(),
        ) && is_ascii_chars(tail[i].0) && !tail[i].0.contains('=') by {
            assert(tail[i] == fields[i + 1]);
        }
        lemma_block_round_trip(tail);
        assert(b.len() > 0);
        assert(first_frame(b) == Some((body, 4 + body.len() as int)));
        assert(read_block(b) == Ok::<Seq<(Seq<char>, Seq<char>)>, WireError>(
            seq![(f.0, f.1)] + tail,
        ));
        assert(seq![(f.0, f.1)] + tail =~= fields);
    }
}

/// Writing a header block and reading it gives the fields back, for every
/// list of fields that can be written and whose keys are ASCII without `=`.
pub proof fn lemma_header_round_trip(fields: Seq<(Seq<char>, Seq<char>)>)
    requires
        writable(fields),
        forall|i: int|
            0 <= i < fields.len() ==> is_ascii_chars((#[trigger] fields[i]).0)
                && !fields[i].0.contains('='),
    ensures
        read_header(header(fields)) == Ok::<(Seq<(Seq<char>, Seq<char>)>, int), WireError>(
            (fields, header(fields).len() as int),
        ),
{
    let body = block(fields);
    lemma_first_frame(body, Seq::empty());
    lemma_frame_len(body);
    assert(frame(body) + Seq::<u8>::empty() =~= frame(body));
    lemma_block_round_trip(fields);
}

/// `String::from_utf8` of the standard library: the text that `bytes` spell
/// in UTF-8, or nothing where they are not UTF-8.
#[verifier::external_body]
pub(crate) fn text_of(bytes: Vec<u8>) -> (r: Option<String>)
    ensures
        match r {
            Some(s) => valid_utf8(bytes@) && s@ == decode_utf8(bytes@),
            None => !valid_utf8(bytes@),
        },
{
    String::from_utf8(bytes).ok()
}

/// Writes the header block of `fields`.
pub fn encode(fields: &Vec<(String, String)>) -> (r: Result<Vec<u8>, WireError>)
    ensures
        match r {
            Ok(bytes) => writable(pairs(fields@)) && bytes@ == header(pairs(fields@)),
            Err(e) => !writable(pairs(fields@)) && e == WireError::TooLong,
        },
{
    let ghost all = pairs(fields@);
    let mut row: Vec<u8> = Vec::new();
    let mut i: usize = 0;
    assert(all.take(0) =~= Seq::empty());
    while i < fields.len()
        invariant
            i <= fields.len(),
            all == pairs(fields@),
            row@ == block(all.take(i as int)),
            forall|j: int| 0 <= j < i ==> fits(field((#[trigger] all[j]).0, all[j].1).len()),
        decreases fields.len() - i,
    {
        let mut one: Vec<u8> = Vec::new();
        one.extend_from_slice(fields[i].0.as_str().as_bytes());
        one.push(61u8);
        one.extend_from_slice(fields[i].1.as_str().as_bytes());
        assert(one@ =~= field(all[i as int].0, all[i as int].1));
        if one.len() > u32::MAX as usize {
            return Err(WireError::TooLong);
        }
        put_u32(&mut row, one.len() as u32);
        row.extend_from_slice(one.as_slice());
        proof {
            assert(all.take(i + 1) =~= all.take(i as int).push(all[i as int]));
            lemma_block_push(all.take(i as int), all[i as int]);
            assert(row@ =~= block(all.take(i as int)) + frame(one@));
        }
        i += 1;
    }
    assert(all.take(fields.len() as int) =~= all);
    if row.len() > u32::MAX as usize {
        return Err(WireError::TooLong);
    }
    let mut out: Vec<u8> = Vec::new();
    put_u32(&mut out, row.len() as u32);
    out.extend_from_slice(row.as_slice());
    assert(out@ =~= header(all));
    Ok(out)
}

/// Reads key and value of one field.
pub fn decode_field(b: &[u8]) -> (r: Result<(String, String), WireError>)
    ensures
        match r {
            Ok(f) => read_field(b@) == Ok::<(Seq<char>, Seq<char>), WireError>((f.0@, f.1@)),
            Err(e) => read_field(b@) == Err::<(Seq<char>, Seq<char>), WireError>(e),
        },
{
    let mut at: usize = 0;
    while at < b.len() && b[at] != 61u8
        invariant
            at <= b@.len(),
            forall|i: int| 0 <= i < at ==> b@[i] != 61u8,
        decreases b@.len() - at,
    {
        at += 1;
    }
    proof {
        lemma_first_equals(b@, 0, at as int);
    }
    if at >= b.len() {
        return Err(WireError::MissingEquals);
    }
    let key = text_of(vstd::slice::slice_to_vec(vstd::slice::slice_subrange(b, 0, at)));
    let value = text_of(
        vstd::slice::slice_to_vec(vstd::slice::slice_subrange(b, at + 1, b.len())),
    );
    match (key, value) {
        (Some(k), Some(v)) => Ok((k, v)),
        _ => Err(WireError::InvalidText),
    }
}

/// Reads the header block that `data` starts with: its fields, and the
/// number of bytes that the block takes. What follows the block is left
/// unread.
pub fn decode(data: &[u8]) -> (r: Result<(Vec<(String, String)>, usize), WireError>)
    ensures
        match r {
            Ok((fields, used)) => read_header(data@) == Ok::<
                (Seq<(Seq<char>, Seq<char>)>, int),
                WireError,
            >((pairs(fields@), used as int)),
            Err(e) => read_header(data@) == Err::<(Seq<(Seq<char>, Seq<char>)>, int), WireError>(
                e,
            ),
        },
{
    let (body, used) = match decode_frame(data) {
        None => {
            return Err(WireError::Truncated);
        },
        Some(found) => found,
    };
    let mut fields: Vec<(String, String)> = Vec::new();
    let mut at: usize = 0;
    assert(body@.subrange(0, body@.len() as int) =~= body@);
    assert(pairs(fields@) =~= Seq::empty());
    while at < body.len()
        invariant
            at <= body@.len(),
            first_frame(data@) == Some((body@, used as int)),
            read_block(body@) == match read_block(body@.subrange(at as int, body@.len() as int)) {
                Ok(rest) => Ok::<Seq<(Seq<char>, Seq<char>)>, WireError>(pairs(fields@) + rest),
                Err(e) => Err::<Seq<(Seq<char>, Seq<char>)>, WireError>(e),
            },
        decreases body@.len() - at,
    {
        let rest = vstd::slice::slice_subrange(body.as_slice(), at, body.len());
        assert(rest@ == body@.subrange(at as int, body@.len() as int));
        assert(rest@.len() > 0);
        let (one, step) = match decode_frame(rest) {
            None => {
                return Err(WireError::Truncated);
            },
            Some(found) => found,
        };
        let f = match decode_field(one.as_slice()) {
            Err(e) => {
                return Err(e);
            },
            Ok(f) => f,
        };
        proof {
            let before = pairs(fields@);
            let tail = rest@.subrange(step as int, rest@.len() as int);
            assert(tail =~= body@.subrange(at + step, body@.len() as int));
            match read_block(tail) {
                Ok(more) => {
                    assert(before + (seq![(f.0@, f.1@)] + more) =~= before.push((f.0@, f.1@))
                        + more);
                },
                Err(_) => {},
            }
            assert(pairs(fields@.push(f)) =~= before.push((f.0@, f.1@)));
        }
        fields.push(f);
        at = at + step;
    }
    proof {
        assert(body@.subrange(at as int, body@.len() as int) =~= Seq::<u8>::empty());
        assert(pairs(fields@) + Seq::empty() =~= pairs(fields@));
    }
    Ok((fields, used))
}

/// The value that `fields` gives to `key`.
pub fn get<'a>(fields: &'a Vec<(String, String)>, key: &str) -> (r: Option<&'a String>)
    ensures
        match r {
            Some(v) => value_of(pairs(fields@), key@) == Some(v@),
            None => value_of(pairs(fields@), key@) is None,
        },
{
    let ghost all = pairs(fields@);
    let mut i: usize = fields.len();
    assert(all.take(i as int) =~= all);
    while i > 0
        invariant
            i <= fields.len(),
            all == pairs(fields@),
            value_of(all, key@) == value_of(all.take(i as int), key@),
        decreases i,
    {
        i -= 1;
        assert(all.take(i + 1).drop_last() =~= all.take(i as int));
        assert(all.take(i + 1).last() == all[i as int]);
        if crate::text::same_text(fields[i].0.as_str(), key) {
            return Some(&fields[i].1);
        }
    }
    None
}

} // verus!
