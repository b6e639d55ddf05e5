//! The wire form of a message: a row of atoms. An atom is an unsigned word
//! of one, two, four or eight bytes, least significant byte first, or a text
//! behind its length. Signed numbers, floating-point numbers, booleans and
//! time stamps travel as the words that hold their bits; the length of an
//! array travels as a word of four bytes before its items; structures and
//! arrays of fixed length add nothing to the atoms of their parts.

use vstd::prelude::*;
use vstd::utf8::*;
use crate::tcpros::error::WireError;
use crate::tcpros::frame::{
    first_frame, fits, frame, from_le32, get_u32, le32, lemma_first_frame, lemma_frame_len,
    lemma_le32_read, put_u32,
};
use crate::tcpros::header::text_of;

verus! {

/// What kind of atom to expect.
#[derive(Clone, Copy, Debug, PartialEq, Eq, Structural)]
pub enum AtomKind {
    U8,
    U16,
    U32,
    U64,
    Text,
}

/// One atom of a message.
#[derive(Clone, Debug, PartialEq, Eq)]
pub enum Atom {
    U8(u8),
    U16(u16),
    U32(u32),
    U64(u64),
    Text(String),
}

/// An atom with its text.
pub enum AtomModel {
    U8(u8),
    U16(u16),
    U32(u32),
    U64(u64),
    Text(Seq<char>),
}

impl View for Atom {
    type V = AtomModel;

    open spec fn view(&self) -> AtomModel {
        match *self {
            Atom::U8(x) => AtomModel::U8(x),
            Atom::U16(x) => AtomModel::U16(x),
            Atom::U32(x) => AtomModel::U32(x),
            Atom::U64(x) => AtomModel::U64(x),
            Atom::Text(s) => AtomModel::Text(s@),
        }
    }
}

/// The models of a row of atoms.
pub open spec fn atoms_of(v: Seq<Atom>) -> Seq<AtomModel> {
    v.map_values(|a: Atom| a@)
}

/// The kind of an atom.
pub open spec fn kind_of(a: AtomModel) -> AtomKind {
    match a {
        AtomModel::U8(_) => AtomKind::U8,
        AtomModel::U16(_) => AtomKind::U16,
        AtomModel::U32(_) => AtomKind::U32,
        AtomModel::U64(_) => AtomKind::U64,
        AtomModel::Text(_) => AtomKind::Text,
    }
}

/// The kinds of a row of atoms.
pub open spec fn kinds_of(atoms: Seq<AtomModel>) -> Seq<AtomKind> {
    atoms.map_values(|a: AtomModel| kind_of(a))
}

/// The two bytes of a word, least significant first.
pub open spec fn le16(x: u16) -> Seq<u8> {
    seq![(x & 0xff) as u8, ((x >> 8) & 0xff) as u8]
}

/// The word that the first two bytes of `b` hold.
pub open spec fn from_le16(b: Seq<u8>) -> u16 {
    (b[0] as u16) | ((b[1] as u16) << 8)
}

/// The eight bytes of a word, least significant first.
pub open spec fn le64(x: u64) -> Seq<u8> {
    le32((x & 0xffff_ffff) as u32) + le32((x >> 32) as u32)
}

/// The word that the first eight bytes of `b` hold.
pub open spec fn from_le64(b: Seq<u8>) -> u64 {
    (from_le32(b.subrange(0, 4)) as u64) | ((from_le32(b.subrange(4, 8)) as u64) << 32)
}

/// Reading the bytes of a word of two bytes gives the word back.
pub proof fn lemma_le16_read(x: u16)
    ensures
        le16(x).len() == 2,
        from_le16(le16(x)) == x,
{
    assert(((x & 0xff) as u8 as u16) | (((x >> 8) & 0xff) as u8 as u16) << 8 == x)
        by (bit_vector);
}

/// Reading the bytes of a word of eight bytes gives the word back.
pub proof fn lemma_le64_read(x: u64)
    ensures
        le64(x).len() == 8,
        from_le64(le64(x)) == x,
{
    let low = (x & 0xffff_ffff) as u32;
    let high = (x >> 32) as u32;
    lemma_le32_read(low);
    lemma_le32_read(high);
    assert(le64(x).subrange(0, 4) =~= le32(low));
    assert(le64(x).subrange(4, 8) =~= le32(high));
    assert((((x & 0xffff_ffff) as u32) as u64) | (((x >> 32) as u32) as u64) << 32 == x)
        by (bit_vector);
}

/// The bytes of an atom.
pub open spec fn atom_bytes(a: AtomModel) -> Seq<u8> {
    match a {
        AtomModel::U8(x) => seq![x],
        AtomModel::U16(x) => le16(x),
        AtomModel::U32(x) => le32(x),
        AtomModel::U64(x) => le64(x),
        AtomModel::Text(s) => frame(encode_utf8(s)),
    }
}

/// Whether an atom can be written: a text must be short enough for its
/// length to fit four bytes.
pub open spec fn atom_fits(a: AtomModel) -> bool {
    match a {
        AtomModel::Text(s) => fits(encode_utf8(s).len()),
        _ => true,
    }
}

/// The atom of the given kind that `data` starts with, and the number of
/// bytes it takes; nothing where `data` is too short for it. A text that is
/// not UTF-8 is an error.
pub open spec fn read_atom(kind: AtomKind, data: Seq<u8>) -> Result<
    Option<(AtomModel, int)>,
    WireError,
> {
    match kind {
        AtomKind::U8 => if data.len() < 1 {
            Ok(None)
        } else {
            Ok(Some((AtomModel::U8(data[0]), 1)))
        },
        AtomKind::U16 => if data.len() < 2 {
            Ok(None)
        } else {
            Ok(Some((AtomModel::U16(from_le16(data.subrange(0, 2))), 2)))
        },
        AtomKind::U32 => if data.len() < 4 {
            Ok(None)
        } else {
            Ok(Some((AtomModel::U32(from_le32(data.subrange(0, 4))), 4)))
        },
        AtomKind::U64 => if data.len() < 8 {
            Ok(None)
        } else {
            Ok(Some((AtomModel::U64(from_le64(data.subrange(0, 8))), 8)))
        },
        AtomKind::Text => match first_frame(data) {
            None => Ok(None),
            Some((body, used)) => if valid_utf8(body) {
                Ok(Some((AtomModel::Text(decode_utf8(body)), used)))
            } else {
                Err(WireError::InvalidText)
            },
        },
    }
}

/// The bytes of a row of atoms.
pub open spec fn message_bytes(atoms: Seq<AtomModel>) -> Seq<u8>
    decreases atoms.len(),
{
    if atoms.len() == 0 {
        Seq::empty()
    } else {
        atom_bytes(atoms[0]) + message_bytes(atoms.drop_first())
    }
}

/// The atoms of the given kinds that `data` starts with, in their order, and
/// the number of bytes they take together; nothing where `data` ends before
/// the last of them.
pub open spec fn read_message(kinds: Seq<AtomKind>, data: Seq<u8>) -> Result<
    Option<(Seq<AtomModel>, int)>,
    WireError,
>
    decreases kinds.len(),
{
    if kinds.len() == 0 {
        Ok(Some((Seq::empty(), 0)))
    } else {
        match read_atom(kinds[0], data) {
            Err(e) => Err(e),
            Ok(None) => Ok(None),
            Ok(Some((a, used))) => if used < 0 || used > data.len() {
                Ok(None)
            } else {
                match read_message(kinds.drop_first(), data.subrange(used, data.len() as int)) {
                    Err(e) => Err(e),
                    Ok(None) => Ok(None),
                    Ok(Some((rest, more))) => Ok(Some((seq![a] + rest, used + more))),
                }
            },
        }
    }
}

/// An atom is read back as it was written, whatever follows it.
pub proof fn lemma_atom_round_trip(a: AtomModel, rest: Seq<u8>)
    requires
        atom_fits(a),
    ensures
        read_atom(kind_of(a), atom_bytes(a) + rest) == Ok::<Option<(AtomModel, int)>, WireError>(
            Some((a, atom_bytes(a).len() as int)),
        ),
{
    let data = atom_bytes(a) + rest;
    match a {
        AtomModel::U8(x) => {
            assert(data[0] == x);
        },
        AtomModel::U16(x) => {
            lemma_le16_read(x);
            assert(data.subrange(0, 2) =~= le16(x));
        },
        AtomModel::U32(x) => {
            lemma_le32_read(x);
            assert(data.subrange(0, 4) =~= le32(x));
        },
        AtomModel::U64(x) => {
            lemma_le64_read(x);
            assert(data.subrange(0, 8) =~= le64(x));
        },
        AtomModel::Text(s) => {
            lemma_first_frame(encode_utf8(s), rest);
            lemma_frame_len(encode_utf8(s));
            encode_utf8_valid_utf8(s);
            encode_utf8_decode_utf8(s);
        },
    }
}

/// A message is read back as it was written: reading the bytes of a row of
/// atoms, each as the kind it has, gives the row back, whatever follows it.
pub proof fn lemma_message_round_trip(atoms: Seq<AtomModel>, rest: Seq<u8>)
    requires
        forall|i: int| 0 <= i < atoms.len() ==> atom_fits(#[trigger] atoms[i]),
    ensures
        read_message(kinds_of(atoms), message_bytes(atoms) + rest) == Ok::<
            Option<(Seq<AtomModel>, int)>,
            WireError,
        >(Some((atoms, message_bytes(atoms).len() as int))),
    decreases atoms.len(),
{
    let kinds = kinds_of(atoms);
    let data = message_bytes(atoms) + rest;
    if atoms.len() == 0 {
        assert(kinds.len() == 0);
        assert(read_message(kinds, data)->Ok_0->Some_0.0 =~= atoms);
    } else {
        let a = atoms[0];
        let tail = atoms.drop_first();
        let used = atom_bytes(a).len() as int;
        assert(atom_fits(a));
        assert(data =~= atom_bytes(a) + (message_bytes(tail) + rest));
        lemma_atom_round_trip(a, message_bytes(tail) + rest);
        assert(kinds[0] == kind_of(a));
        assert(kinds.drop_first() =~= kinds_of(tail));
        assert(data.subrange(used, data.len() as int) =~= message_bytes(tail) + rest);
        assert forall|i: int| 0 <= i < tail.len() implies atom_fits(#[trigger] tail[i]) by {
            assert(tail[i] == atoms[i + 1]);
        }
        lemma_message_round_trip(tail, rest);
        assert(seq![a] + tail =~= atoms);
    }
}

/// A row with one more atom is the row, then the atom.
pub proof fn lemma_message_push(atoms: Seq<AtomModel>, a: AtomModel)
    ensures
        message_bytes(atoms.push(a)) == message_bytes(atoms) + atom_bytes(a),
    decreases atoms.len(),
{
    let more = atoms.push(a);
    if atoms.len() == 0 {
        assert(more.drop_first() =~= atoms);
        assert(message_bytes(more) =~= message_bytes(atoms) + atom_bytes(a));
    } else {
        assert(more.drop_first() =~= atoms.drop_first().push(a));
        lemma_message_push(atoms.drop_first(), a);
        assert(more[0] == atoms[0]);
        assert(message_bytes(more) =~= message_bytes(atoms) + atom_bytes(a));
    }
}

/// Appends the bytes of an atom.
pub fn write_atom(out: &mut Vec<u8>, a: &Atom) -> (r: Result<(), WireError>)
    ensures
        match r {
            Ok(()) => atom_fits(a@) && final(out)@ == old(out)@ + atom_bytes(a@),
            Err(e) => !atom_fits(a@) && e == WireError::TooLong && final(out)@ == old(out)@,
        },
{
    match a {
        Atom::U8(x) => {
            out.push(*x);
            assert(out@ =~= old(out)@ + atom_bytes(a@));
        },
        Atom::U16(x) => {
            out.push((*x & 0xff) as u8);
            out.push(((*x >> 8) & 0xff) as u8);
            assert(out@ =~= old(out)@ + atom_bytes(a@));
        },
        Atom::U32(x) => {
            put_u32(out, *x);
        },
        Atom::U64(x) => {
            put_u32(out, (*x & 0xffff_ffff) as u32);
            put_u32(out, (*x >> 32) as u32);
            assert(out@ =~= old(out)@ + atom_bytes(a@));
        },
        Atom::Text(s) => {
            let body = s.as_str().as_bytes();
            if body.len() > u32::MAX as usize {
                return Err(WireError::TooLong);
            }
            put_u32(out, body.len() as u32);
            out.extend_from_slice(body);
            assert(out@ =~= old(out)@ + atom_bytes(a@));
        },
    }
    Ok(())
}

/// Writes the bytes of a message.
pub fn encode(atoms: &Vec<Atom>) -> (r: Result<Vec<u8>, WireError>)
    ensures
        match r {
            Ok(bytes) => {
                &&& forall|i: int| 0 <= i < atoms@.len() ==> atom_fits(#[trigger] atoms@[i]@)
                &&& bytes@ == message_bytes(atoms_of(atoms@))
            },
            Err(e) => {
                &&& exists|i: int| 0 <= i < atoms@.len() && !atom_fits(#[trigger] atoms@[i]@)
                &&& e == WireError::TooLong
            },
        },
{
    let ghost all = atoms_of(atoms@);
    let mut out: Vec<u8> = Vec::new();
    let mut i: usize = 0;
    assert(all.take(0) =~= Seq::empty());
    while i < atoms.len()
        invariant
            i <= atoms.len(),
            all == atoms_of(atoms@),
            out@ == message_bytes(all.take(i as int)),
            forall|j: int| 0 <= j < i ==> atom_fits(#[trigger] atoms@[j]@),
        decreases atoms.len() - i,
    {
        match write_atom(&mut out, &atoms[i]) {
            Ok(()) => {},
            Err(e) => {
                return Err(e);
            },
        }
        proof {
            assert(all[i as int] == atoms@[i as int]@);
            assert(all.take(i + 1) =~= all.take(i as int).push(all[i as int]));
            lemma_message_push(all.take(i as int), all[i as int]);
        }
        i += 1;
    }
    assert(all.take(atoms@.len() as int) =~= all);
    Ok(out)
}

/// Reads the atom of the given kind that `data` starts with, and says how
/// many bytes it takes. Gives nothing where `data` is too short for it.
pub fn decode_atom(kind: AtomKind, data: &[u8]) -> (r: Result<Option<(Atom, usize)>, WireError>)
    ensures
        match r {
            Err(e) => read_atom(kind, data@) == Err::<Option<(AtomModel, int)>, WireError>(e),
            Ok(None) => read_atom(kind, data@) == Ok::<Option<(AtomModel, int)>, WireError>(None),
            Ok(Some((a, used))) => read_atom(kind, data@) == Ok::<
                Option<(AtomModel, int)>,
                WireError,
            >(Some((a@, used as int))) && used <= data@.len(),
        },
{
    match kind {
        AtomKind::U8 => {
            if data.len() < 1 {
                return Ok(None);
            }
            Ok(Some((Atom::U8(data[0]), 1)))
        },
        AtomKind::U16 => {
            if data.len() < 2 {
                return Ok(None);
            }
            let b0: u16 = data[0] as u16;
            let b1: u16 = data[1] as u16;
            Ok(Some((Atom::U16(b0 | (b1 << 8)), 2)))
        },
        AtomKind::U32 => {
            if data.len() < 4 {
                return Ok(None);
            }
            Ok(Some((Atom::U32(get_u32(data, 0)), 4)))
        },
        AtomKind::U64 => {
            if data.len() < 8 {
                return Ok(None);
            }
            let low: u64 = get_u32(data, 0) as u64;
            let high: u64 = get_u32(data, 4) as u64;
            assert(data@.subrange(0, 8).subrange(0, 4) =~= data@.subrange(0, 4));
            assert(data@.subrange(0, 8).subrange(4, 8) =~= data@.subrange(4, 8));
            Ok(Some((Atom::U64(low | (high << 32)), 8)))
        },
        AtomKind::Text => {
            match crate::tcpros::frame::decode_frame(data) {
                None => Ok(None),
                Some((body, used)) => match text_of(body) {
                    Some(s) => Ok(Some((Atom::Text(s), used))),
                    None => Err(WireError::InvalidText),
                },
            }
        },
    }
}

/// Reads the atoms of the given kinds that `data` starts with, and says how
/// many bytes they take together. Gives nothing where `data` ends before the
/// last of them.
pub fn decode(kinds: &Vec<AtomKind>, data: &[u8]) -> (r: Result<
    Option<(Vec<Atom>, usize)>,
    WireError,
>)
    ensures
        match r {
            Err(e) => read_message(kinds@, data@) == Err::<
                Option<(Seq<AtomModel>, int)>,
                WireError,
            >(e),
            Ok(None) => read_message(kinds@, data@) == Ok::<
                Option<(Seq<AtomModel>, int)>,
                WireError,
            >(None),
            Ok(Some((atoms, used))) => read_message(kinds@, data@) == Ok::<
                Option<(Seq<AtomModel>, int)>,
                WireError,
            >(Some((atoms_of(atoms@), used as int))),
        },
{
    let mut atoms: Vec<Atom> = Vec::new();
    let mut at: usize = 0;
    let mut i: usize = 0;
    assert(kinds@.subrange(0, kinds@.len() as int) =~= kinds@);
    assert(data@.subrange(0, data@.len() as int) =~= data@);
    assert(atoms_of(atoms@) =~= Seq::empty());
    proof {
        match read_message(kinds@, data@) {
            Ok(Some((rest, more))) => {
                assert(atoms_of(atoms@) + rest =~= rest);
            },
            _ => {},
        }
    }
    while i < kinds.len()
        invariant
            i <= kinds@.len(),
            at <= data@.len(),
            read_message(kinds@, data@) == match read_message(
                kinds@.subrange(i as int, kinds@.len() as int),
                data@.subrange(at as int, data@.len() as int),
            ) {
                Err(e) => Err::<Option<(Seq<AtomModel>, int)>, WireError>(e),
                Ok(None) => Ok::<Option<(Seq<AtomModel>, int)>, WireError>(None),
                Ok(Some((rest, more))) => Ok::<Option<(Seq<AtomModel>, int)>, WireError>(
                    Some((atoms_of(atoms@) + rest, at + more)),
                ),
            },
        decreases kinds@.len() - i,
    {
        let left = vstd::slice::slice_subrange(data, at, data.len());
        let ghost ks = kinds@.subrange(i as int, kinds@.len() as int);
        assert(ks[0] == kinds@[i as int]);
        let (a, used) = match decode_atom(kinds[i], left) {
            Err(e) => {
                return Err(e);
            },
            Ok(None) => {
                return Ok(None);
            },
            Ok(Some(found)) => found,
        };
        proof {
            let before = atoms_of(atoms@);
            assert(ks.drop_first() =~= kinds@.subrange(i + 1, kinds@.len() as int));
            assert(left@.subrange(used as int, left@.len() as int) =~= data@.subrange(
                at + used,
                data@.len() as int,
            ));
            match read_message(
                kinds@.subrange(i + 1, kinds@.len() as int),
                data@.subrange(at + used, data@.len() as int),
            ) {
                Ok(Some((rest, more))) => {
                    assert(before + (seq![a@] + rest) =~= before.push(a@) + rest);
                },
                _ => {},
            }
            assert(atoms_of(atoms@.push(a)) =~= before.push(a@));
        }
        atoms.push(a);
        at = at + used;
        i += 1;
    }
    proof {
        assert(kinds@.subrange(i as int, kinds@.len() as int).len() == 0);
        assert(atoms_of(atoms@) + Seq::empty() =~= atoms_of(atoms@));
    }
    Ok(Some((atoms, at)))
}

} // verus!
