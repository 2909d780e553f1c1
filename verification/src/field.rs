//! The fields that packets are made of, each with its form on the wire.
//!
//! Every kind of field comes as three things: the bytes that stand for a
//! value, what reading at a position gives, and the functions that write
//! and read. Reading never looks behind the field it reads.

use crate::packet::FrameError;
use crate::packing::{le_bytes, le_value, push_word, word_at};
use crate::varint::{
    VarintError, lemma_parse_groups_bounds, lemma_parse_groups_cut, lemma_parse_u32_of_bytes,
    lemma_varint_len, lemma_zigzag_round_trip, parse_i32, parse_u32, read_i32, read_u32,
    varint_bytes, varint_len, write_i32, write_u32, zigzag,
};
use crate::window::{holds_at, lemma_holds_split, lemma_window};
use vstd::prelude::*;
use vstd::slice::{slice_subrange, slice_to_vec};
use vstd::utf8::{
    decode_utf8, decode_utf8_encode_utf8, encode_utf8, encode_utf8_decode_utf8,
    encode_utf8_valid_utf8, valid_utf8,
};

verus! {

/// The error of a frame that stands for an error of a variable-length
/// integer: a frame that ends too early is truncated, a number that does
/// not fit is a bad field.
pub open spec fn frame_error(e: VarintError) -> FrameError {
    match e {
        VarintError::Truncated => FrameError::TruncatedFrame,
        VarintError::Overflow => FrameError::FieldDecodeError,
    }
}

/// Reads an unsigned variable-length integer at `pos`.
pub open spec fn parse_var_u32(bytes: Seq<u8>, pos: int) -> Result<(u32, int), FrameError> {
    match parse_u32(bytes, pos) {
        Ok(found) => Ok(found),
        Err(e) => Err(frame_error(e)),
    }
}

/// Reads a signed variable-length integer at `pos`.
pub open spec fn parse_var_i32(bytes: Seq<u8>, pos: int) -> Result<(i32, int), FrameError> {
    match parse_i32(bytes, pos) {
        Ok(found) => Ok(found),
        Err(e) => Err(frame_error(e)),
    }
}

/// The bytes of a signed variable-length integer.
pub open spec fn var_i32_wire(v: i32) -> Seq<u8> {
    varint_bytes(zigzag(v as int))
}

/// The bytes of an unsigned variable-length integer.
pub open spec fn var_u32_wire(v: u32) -> Seq<u8> {
    varint_bytes(v as nat)
}

/// The byte of a truth value.
pub open spec fn bool_wire(v: bool) -> Seq<u8> {
    seq![if v {
        1u8
    } else {
        0u8
    }]
}

/// Reads a truth value at `pos`: the byte 0 or 1.
pub open spec fn parse_bool(bytes: Seq<u8>, pos: int) -> Result<(bool, int), FrameError> {
    if pos < 0 || pos >= bytes.len() {
        Err(FrameError::TruncatedFrame)
    } else if bytes[pos] == 0 {
        Ok((false, pos + 1))
    } else if bytes[pos] == 1 {
        Ok((true, pos + 1))
    } else {
        Err(FrameError::FieldDecodeError)
    }
}

/// Reads one byte at `pos`.
pub open spec fn parse_u8(bytes: Seq<u8>, pos: int) -> Result<(u8, int), FrameError> {
    if pos < 0 || pos >= bytes.len() {
        Err(FrameError::TruncatedFrame)
    } else {
        Ok((bytes[pos], pos + 1))
    }
}

/// Reads a 32-bit number of four bytes at `pos`, low byte first.
pub open spec fn parse_fixed_u32(bytes: Seq<u8>, pos: int) -> Result<(u32, int), FrameError> {
    if pos < 0 || pos + 4 > bytes.len() {
        Err(FrameError::TruncatedFrame)
    } else {
        Ok((le_value(bytes, pos) as u32, pos + 4))
    }
}

/// The bytes of a byte string: its length, then the bytes themselves.
pub open spec fn blob_wire(v: Seq<u8>) -> Seq<u8> {
    varint_bytes(v.len()) + v
}

/// Reads a byte string at `pos`.
pub open spec fn parse_blob(bytes: Seq<u8>, pos: int) -> Result<(Seq<u8>, int), FrameError> {
    match parse_var_u32(bytes, pos) {
        Err(e) => Err(e),
        Ok((len, start)) => if start + len > bytes.len() {
            Err(FrameError::TruncatedFrame)
        } else {
            Ok((bytes.subrange(start, start + len), start + len))
        },
    }
}

/// The bytes of a text: its length in bytes, then the text in UTF-8.
pub open spec fn text_wire(v: Seq<char>) -> Seq<u8> {
    blob_wire(encode_utf8(v))
}

/// Reads a text at `pos`.
pub open spec fn parse_text(bytes: Seq<u8>, pos: int) -> Result<(Seq<char>, int), FrameError> {
    match parse_blob(bytes, pos) {
        Err(e) => Err(e),
        Ok((raw, next)) => if valid_utf8(raw) {
            Ok((decode_utf8(raw), next))
        } else {
            Err(FrameError::FieldDecodeError)
        },
    }
}

/// Reading an unsigned variable-length integer where its bytes stand gives
/// it back.
pub proof fn lemma_var_u32_at(bytes: Seq<u8>, pos: int, v: u32)
    requires
        holds_at(bytes, pos, var_u32_wire(v)),
    ensures
        parse_var_u32(bytes, pos) == Ok::<(u32, int), FrameError>(
            (v, pos + var_u32_wire(v).len()),
        ),
{
    lemma_varint_len(v as nat);
    lemma_parse_u32_of_bytes(bytes, pos, v);
}

/// Reading a signed variable-length integer where its bytes stand gives it
/// back.
pub proof fn lemma_var_i32_at(bytes: Seq<u8>, pos: int, v: i32)
    requires
        holds_at(bytes, pos, var_i32_wire(v)),
    ensures
        parse_var_i32(bytes, pos) == Ok::<(i32, int), FrameError>(
            (v, pos + var_i32_wire(v).len()),
        ),
{
    let folded = zigzag(v as int);
    lemma_varint_len(folded);
    lemma_parse_u32_of_bytes(bytes, pos, folded as u32);
    lemma_zigzag_round_trip(v as int);
}

/// Reading a truth value where its byte stands gives it back.
pub proof fn lemma_bool_at(bytes: Seq<u8>, pos: int, v: bool)
    requires
        holds_at(bytes, pos, bool_wire(v)),
    ensures
        parse_bool(bytes, pos) == Ok::<(bool, int), FrameError>((v, pos + 1)),
{
    assert(bytes[pos] == bytes.subrange(pos, pos + 1)[0]);
}

/// Reading a byte where it stands gives it back.
pub proof fn lemma_u8_at(bytes: Seq<u8>, pos: int, v: u8)
    requires
        holds_at(bytes, pos, seq![v]),
    ensures
        parse_u8(bytes, pos) == Ok::<(u8, int), FrameError>((v, pos + 1)),
{
    assert(bytes[pos] == bytes.subrange(pos, pos + 1)[0]);
}

/// Reading a 32-bit number where its four bytes stand gives it back.
pub proof fn lemma_fixed_u32_at(bytes: Seq<u8>, pos: int, v: u32)
    requires
        holds_at(bytes, pos, le_bytes(v as nat)),
    ensures
        parse_fixed_u32(bytes, pos) == Ok::<(u32, int), FrameError>((v, pos + 4)),
{
    crate::packing::lemma_le_round_trip(bytes, pos, v as nat);
}

/// Reading a byte string where its bytes stand gives it back.
pub proof fn lemma_blob_at(bytes: Seq<u8>, pos: int, v: Seq<u8>)
    requires
        holds_at(bytes, pos, blob_wire(v)),
        v.len() <= u32::MAX,
    ensures
        parse_blob(bytes, pos) == Ok::<(Seq<u8>, int), FrameError>(
            (v, pos + blob_wire(v).len()),
        ),
{
    lemma_holds_split(bytes, pos, varint_bytes(v.len()), v);
    lemma_var_u32_at(bytes, pos, v.len() as u32);
}

/// Reading a text where its bytes stand gives it back.
pub proof fn lemma_text_at(bytes: Seq<u8>, pos: int, v: Seq<char>)
    requires
        holds_at(bytes, pos, text_wire(v)),
        encode_utf8(v).len() <= u32::MAX,
    ensures
        parse_text(bytes, pos) == Ok::<(Seq<char>, int), FrameError>(
            (v, pos + text_wire(v).len()),
        ),
{
    lemma_blob_at(bytes, pos, encode_utf8(v));
    encode_utf8_valid_utf8(v);
    encode_utf8_decode_utf8(v);
}

/// A byte string that was read lies inside the input, behind the position,
/// and has a length that 32 bits can hold.
pub proof fn lemma_blob_read(bytes: Seq<u8>, pos: int)
    ensures
        parse_blob(bytes, pos) matches Ok((v, next)) ==> pos < next <= bytes.len() && v.len()
            <= u32::MAX,
{
    lemma_parse_groups_bounds(bytes, pos, 5);
}

/// A text that was read lies inside the input, behind the position, and
/// takes a number of bytes that 32 bits can hold.
pub proof fn lemma_text_read(bytes: Seq<u8>, pos: int)
    ensures
        parse_text(bytes, pos) matches Ok((v, next)) ==> pos < next <= bytes.len() && encode_utf8(
            v,
        ).len() <= u32::MAX,
{
    lemma_blob_read(bytes, pos);
    if let Ok((raw, next)) = parse_blob(bytes, pos) {
        if valid_utf8(raw) {
            decode_utf8_encode_utf8(raw);
        }
    }
}

/// Where the input ends inside the bytes of a byte string, reading fails.
pub proof fn lemma_blob_cut(bytes: Seq<u8>, pos: int, v: Seq<u8>)
    requires
        0 <= pos <= bytes.len(),
        bytes.len() - pos < blob_wire(v).len(),
        bytes.subrange(pos, bytes.len() as int) == blob_wire(v).subrange(0, bytes.len() - pos),
        v.len() <= u32::MAX,
    ensures
        parse_blob(bytes, pos) is Err,
{
    let wire = blob_wire(v);
    let have = bytes.len() - pos;
    let k = varint_len(v.len()) as int;
    lemma_varint_len(v.len());
    if have < k {
        assert(wire.subrange(0, have) =~= varint_bytes(v.len()).subrange(0, have));
        lemma_parse_groups_cut(bytes, pos, v.len(), 5);
    } else {
        lemma_window(bytes, pos, wire, have, 0, k);
        assert(wire.subrange(0, k) =~= varint_bytes(v.len()));
        lemma_parse_u32_of_bytes(bytes, pos, v.len() as u32);
    }
}

/// Where the input ends inside the bytes of a text, reading fails.
pub proof fn lemma_text_cut(bytes: Seq<u8>, pos: int, v: Seq<char>)
    requires
        0 <= pos <= bytes.len(),
        bytes.len() - pos < text_wire(v).len(),
        bytes.subrange(pos, bytes.len() as int) == text_wire(v).subrange(0, bytes.len() - pos),
        encode_utf8(v).len() <= u32::MAX,
    ensures
        parse_text(bytes, pos) is Err,
{
    lemma_blob_cut(bytes, pos, encode_utf8(v));
}

/// `String::from_utf8`: the text that `bytes` spell in UTF-8, if they spell
/// any.
///
/// Claimed of the standard library: the conversion succeeds exactly for
/// valid UTF-8, and the text is then what the bytes spell.
#[verifier::external_body]
fn string_from_utf8(bytes: Vec<u8>) -> (text: Option<String>)
    ensures
        text.is_some() == valid_utf8(bytes@),
        text matches Some(s) ==> s@ == decode_utf8(bytes@),
{
    String::from_utf8(bytes).ok()
}

/// Appends an unsigned variable-length integer.
pub fn put_var_u32(out: &mut Vec<u8>, v: u32)
    ensures
        final(out)@ == old(out)@ + var_u32_wire(v),
{
    write_u32(out, v);
}

/// Appends a signed variable-length integer.
pub fn put_var_i32(out: &mut Vec<u8>, v: i32)
    ensures
        final(out)@ == old(out)@ + var_i32_wire(v),
{
    write_i32(out, v);
}

/// Appends a truth value.
pub fn put_bool(out: &mut Vec<u8>, v: bool)
    ensures
        final(out)@ == old(out)@ + bool_wire(v),
{
    out.push(if v {
        1
    } else {
        0
    });
    assert(out@ =~= old(out)@ + bool_wire(v));
}

/// Appends one byte.
pub fn put_u8(out: &mut Vec<u8>, v: u8)
    ensures
        final(out)@ == old(out)@ + seq![v],
{
    out.push(v);
    assert(out@ =~= old(out)@ + seq![v]);
}

/// Appends a 32-bit number as four bytes, low byte first.
pub fn put_fixed_u32(out: &mut Vec<u8>, v: u32)
    ensures
        final(out)@ == old(out)@ + le_bytes(v as nat),
{
    push_word(out, v);
}

/// Appends a byte string.
pub fn put_blob(out: &mut Vec<u8>, v: &Vec<u8>)
    requires
        v.len() <= u32::MAX,
    ensures
        final(out)@ == old(out)@ + blob_wire(v@),
{
    write_u32(out, v.len() as u32);
    let mut copy: Vec<u8> = slice_to_vec(v.as_slice());
    out.append(&mut copy);
    assert(out@ =~= old(out)@ + blob_wire(v@));
}

/// Appends a text.
pub fn put_text(out: &mut Vec<u8>, v: &str)
    requires
        encode_utf8(v@).len() <= u32::MAX,
    ensures
        final(out)@ == old(out)@ + text_wire(v@),
{
    let raw: &[u8] = v.as_bytes();
    write_u32(out, raw.len() as u32);
    let mut copy: Vec<u8> = slice_to_vec(raw);
    out.append(&mut copy);
    assert(out@ =~= old(out)@ + text_wire(v@));
}

/// Reads an unsigned variable-length integer at `pos`.
pub fn get_var_u32(bytes: &[u8], pos: usize) -> (r: Result<(u32, usize), FrameError>)
    ensures
        match r {
            Ok((v, next)) => parse_var_u32(bytes@, pos as int) == Ok::<(u32, int), FrameError>(
                (v, next as int),
            ) && pos < next <= bytes.len(),
            Err(e) => parse_var_u32(bytes@, pos as int) == Err::<(u32, int), FrameError>(e),
        },
{
    match read_u32(bytes, pos) {
        Ok(found) => Ok(found),
        Err(VarintError::Truncated) => Err(FrameError::TruncatedFrame),
        Err(VarintError::Overflow) => Err(FrameError::FieldDecodeError),
    }
}

/// Reads a signed variable-length integer at `pos`.
pub fn get_var_i32(bytes: &[u8], pos: usize) -> (r: Result<(i32, usize), FrameError>)
    ensures
        match r {
            Ok((v, next)) => parse_var_i32(bytes@, pos as int) == Ok::<(i32, int), FrameError>(
                (v, next as int),
            ) && pos < next <= bytes.len(),
            Err(e) => parse_var_i32(bytes@, pos as int) == Err::<(i32, int), FrameError>(e),
        },
{
    match read_i32(bytes, pos) {
        Ok(found) => Ok(found),
        Err(VarintError::Truncated) => Err(FrameError::TruncatedFrame),
        Err(VarintError::Overflow) => Err(FrameError::FieldDecodeError),
    }
}

/// Reads a truth value at `pos`.
pub fn get_bool(bytes: &[u8], pos: usize) -> (r: Result<(bool, usize), FrameError>)
    ensures
        match r {
            Ok((v, next)) => parse_bool(bytes@, pos as int) == Ok::<(bool, int), FrameError>(
                (v, next as int),
            ) && pos < next <= bytes.len(),
            Err(e) => parse_bool(bytes@, pos as int) == Err::<(bool, int), FrameError>(e),
        },
{
    if pos >= bytes.len() {
        Err(FrameError::TruncatedFrame)
    } else if bytes[pos] == 0 {
        Ok((false, pos + 1))
    } else if bytes[pos] == 1 {
        Ok((true, pos + 1))
    } else {
        Err(FrameError::FieldDecodeError)
    }
}

/// Reads one byte at `pos`.
pub fn get_u8(bytes: &[u8], pos: usize) -> (r: Result<(u8, usize), FrameError>)
    ensures
        match r {
            Ok((v, next)) => parse_u8(bytes@, pos as int) == Ok::<(u8, int), FrameError>(
                (v, next as int),
            ) && pos < next <= bytes.len(),
            Err(e) => parse_u8(bytes@, pos as int) == Err::<(u8, int), FrameError>(e),
        },
{
    if pos >= bytes.len() {
        Err(FrameError::TruncatedFrame)
    } else {
        Ok((bytes[pos], pos + 1))
    }
}

/// Reads a 32-bit number of four bytes at `pos`, low byte first.
pub fn get_fixed_u32(bytes: &[u8], pos: usize) -> (r: Result<(u32, usize), FrameError>)
    ensures
        match r {
            Ok((v, next)) => parse_fixed_u32(bytes@, pos as int) == Ok::<(u32, int), FrameError>(
                (v, next as int),
            ) && pos < next <= bytes.len(),
            Err(e) => parse_fixed_u32(bytes@, pos as int) == Err::<(u32, int), FrameError>(e),
        },
{
    if pos > bytes.len() || bytes.len() - pos < 4 {
        Err(FrameError::TruncatedFrame)
    } else {
        Ok((word_at(bytes, pos), pos + 4))
    }
}

/// Reads a byte string at `pos`.
pub fn get_blob(bytes: &[u8], pos: usize) -> (r: Result<(Vec<u8>, usize), FrameError>)
    ensures
        match r {
            Ok((v, next)) => parse_blob(bytes@, pos as int) == Ok::<(Seq<u8>, int), FrameError>(
                (v@, next as int),
            ) && pos < next <= bytes.len() && v.len() <= u32::MAX,
            Err(e) => parse_blob(bytes@, pos as int) == Err::<(Seq<u8>, int), FrameError>(e),
        },
{
    let (len, start) = match get_var_u32(bytes, pos) {
        Err(e) => {
            return Err(e);
        },
        Ok((len, start)) => (len as usize, start),
    };
    if bytes.len() - start < len {
        return Err(FrameError::TruncatedFrame);
    }
    let raw: Vec<u8> = slice_to_vec(slice_subrange(bytes, start, start + len));
    Ok((raw, start + len))
}

/// Reads a text at `pos`.
pub fn get_text(bytes: &[u8], pos: usize) -> (r: Result<(String, usize), FrameError>)
    ensures
        match r {
            Ok((v, next)) => parse_text(bytes@, pos as int) == Ok::<(Seq<char>, int), FrameError>(
                (v@, next as int),
            ) && pos < next <= bytes.len() && encode_utf8(v@).len() <= u32::MAX,
            Err(e) => parse_text(bytes@, pos as int) == Err::<(Seq<char>, int), FrameError>(e),
        },
{
    let (raw, next) = match get_blob(bytes, pos) {
        Err(e) => {
            return Err(e);
        },
        Ok(found) => found,
    };
    proof {
        lemma_text_read(bytes@, pos as int);
    }
    match string_from_utf8(raw) {
        None => Err(FrameError::FieldDecodeError),
        Some(text) => Ok((text, next)),
    }
}

} // verus!
