//! Palette entries and their form on the wire.
//!
//! An entry travels as a network-format NBT compound with an empty root name
//! and a single string field called `name`. Writing is left to `nbtx`.
//! Reading is done here: what arrives from the network must be refused
//! without a panic whatever it holds, so the reader accepts that one shape
//! and nothing else. It reads three tags and two texts, and never descends
//! into nested tags.

use crate::field::{get_text, lemma_text_at, lemma_text_cut, lemma_text_read, parse_text, text_wire};
use crate::packet::FrameError;
use crate::palette::CodecError;
use crate::window::{holds_at, lemma_holds_split, lemma_window};
use std::collections::HashMap;
use vstd::prelude::*;
use vstd::utf8::{encode_utf8, is_ascii_chars, is_ascii_chars_encode_utf8};

verus! {

/// One block kind of a palette, known by its identifier.
#[derive(Debug, Clone, PartialEq, Eq)]
pub struct BlockPaletteEntry {
    pub name: String,
}

impl View for BlockPaletteEntry {
    type V = Seq<char>;

    open spec fn view(&self) -> Seq<char> {
        self.name@
    }
}

impl BlockPaletteEntry {
    /// The entry of the block called `name`.
    pub fn new(name: &str) -> (entry: Self)
        ensures
            entry@ == name@,
    {
        BlockPaletteEntry { name: name.to_owned() }
    }
}

/// The tag of a compound.
pub const TAG_COMPOUND: u8 = 10;

/// The tag of a string.
pub const TAG_STRING: u8 = 8;

/// The tag that ends a compound.
pub const TAG_END: u8 = 0;

/// The key of the one field of an entry.
pub open spec fn name_key() -> Seq<char> {
    "name"@
}

/// The bytes of a compound with an empty root name and one string field:
/// the compound tag, the root name's length of zero, the string tag, the
/// key and the value, each as its length in bytes and its UTF-8, and the end
/// tag.
pub open spec fn string_field_wire(key: Seq<char>, value: Seq<char>) -> Seq<u8> {
    seq![TAG_COMPOUND, 0u8, TAG_STRING] + text_wire(key) + text_wire(value) + seq![TAG_END]
}

/// The bytes of the entry called `name`.
pub open spec fn entry_wire(name: Seq<char>) -> Seq<u8> {
    string_field_wire(name_key(), name)
}

/// The error of an entry that stands for an error of one of its texts.
pub open spec fn entry_error(e: FrameError) -> CodecError {
    match e {
        FrameError::TruncatedFrame => CodecError::Truncated,
        _ => CodecError::MalformedEntry,
    }
}

/// Reads one entry at `pos`: its name and the position behind its end tag.
pub open spec fn parse_entry(bytes: Seq<u8>, pos: int) -> Result<(Seq<char>, int), CodecError> {
    if pos < 0 || pos + 3 > bytes.len() {
        Err(CodecError::Truncated)
    } else if bytes[pos] != TAG_COMPOUND || bytes[pos + 1] != 0 || bytes[pos + 2] != TAG_STRING {
        Err(CodecError::MalformedEntry)
    } else {
        match parse_text(bytes, pos + 3) {
            Err(e) => Err(entry_error(e)),
            Ok((key, at)) => if key != name_key() {
                Err(CodecError::MalformedEntry)
            } else {
                match parse_text(bytes, at) {
                    Err(e) => Err(entry_error(e)),
                    Ok((name, end)) => if end >= bytes.len() {
                        Err(CodecError::Truncated)
                    } else if bytes[end] != TAG_END {
                        Err(CodecError::MalformedEntry)
                    } else {
                        Ok((name, end + 1))
                    },
                }
            },
        }
    }
}

/// Serialises the compound `{ <key>: <value> }` with `nbtx::to_net_bytes`.
///
/// Claimed of `nbtx`: for a compound with one string field it writes the
/// compound tag and an empty root name, then the field's string tag, the key
/// and the value, each as a length in variable-length form followed by
/// UTF-8, then the end tag; and writing into a vector does not fail. `nbtx`
/// cuts lengths to 32 bits, hence the bounds.
#[verifier::external_body]
fn nbt_string_field(key: &str, value: &str) -> (wire: Vec<u8>)
    requires
        encode_utf8(key@).len() <= u32::MAX,
        encode_utf8(value@).len() <= u32::MAX,
    ensures
        wire@ == string_field_wire(key@, value@),
{
    let mut fields: HashMap<String, nbtx::Value> = HashMap::new();
    fields.insert(String::from(key), nbtx::Value::String(String::from(value)));
    nbtx::to_net_bytes(&nbtx::Value::Compound(fields)).unwrap_or_default()
}

/// The key takes four bytes.
pub proof fn lemma_name_key()
    ensures
        encode_utf8(name_key()).len() == 4,
{
    reveal_strlit("name");
    assert(is_ascii_chars(name_key()));
    is_ascii_chars_encode_utf8(name_key());
}

/// Appends the wire form of `entry` to `out`.
pub fn write_entry(out: &mut Vec<u8>, entry: &BlockPaletteEntry)
    requires
        encode_utf8(entry@).len() <= u32::MAX,
    ensures
        final(out)@ == old(out)@ + entry_wire(entry@),
{
    proof {
        lemma_name_key();
    }
    let mut wire: Vec<u8> = nbt_string_field("name", entry.name.as_str());
    out.append(&mut wire);
}

/// Reads one entry at `pos`: the entry and the position behind it.
pub fn read_entry(bytes: &[u8], pos: usize) -> (r: Result<(BlockPaletteEntry, usize), CodecError>)
    ensures
        match r {
            Ok((entry, next)) => parse_entry(bytes@, pos as int) == Ok::<
                (Seq<char>, int),
                CodecError,
            >((entry@, next as int)) && pos < next <= bytes.len() && encode_utf8(entry@).len()
                <= u32::MAX,
            Err(e) => parse_entry(bytes@, pos as int) == Err::<(Seq<char>, int), CodecError>(e),
        },
{
    if pos > bytes.len() || bytes.len() - pos < 3 {
        return Err(CodecError::Truncated);
    }
    if bytes[pos] != TAG_COMPOUND || bytes[pos + 1] != 0 || bytes[pos + 2] != TAG_STRING {
        return Err(CodecError::MalformedEntry);
    }
    let (key, at) = match get_text(bytes, pos + 3) {
        Err(FrameError::TruncatedFrame) => {
            return Err(CodecError::Truncated);
        },
        Err(_) => {
            return Err(CodecError::MalformedEntry);
        },
        Ok(found) => found,
    };
    let expected: String = "name".to_owned();
    if !(key == expected) {
        return Err(CodecError::MalformedEntry);
    }
    let (name, end) = match get_text(bytes, at) {
        Err(FrameError::TruncatedFrame) => {
            return Err(CodecError::Truncated);
        },
        Err(_) => {
            return Err(CodecError::MalformedEntry);
        },
        Ok(found) => found,
    };
    if end >= bytes.len() {
        return Err(CodecError::Truncated);
    }
    if bytes[end] != TAG_END {
        return Err(CodecError::MalformedEntry);
    }
    Ok((BlockPaletteEntry { name }, end + 1))
}

/// An entry that was read lies inside the input, behind the position, and
/// has a name that takes a number of bytes that 32 bits can hold.
pub proof fn lemma_entry_read(bytes: Seq<u8>, pos: int)
    ensures
        parse_entry(bytes, pos) matches Ok((name, next)) ==> pos < next <= bytes.len()
            && encode_utf8(name).len() <= u32::MAX,
{
    lemma_text_read(bytes, pos + 3);
    if let Ok((key, at)) = parse_text(bytes, pos + 3) {
        lemma_text_read(bytes, at);
    }
}

/// Where `bytes` holds the wire form of an entry at `pos`, reading gives the
/// entry's name back and stops behind its end tag, whatever follows.
pub proof fn lemma_parse_entry_of_wire(bytes: Seq<u8>, pos: int, name: Seq<char>)
    requires
        holds_at(bytes, pos, entry_wire(name)),
        encode_utf8(name).len() <= u32::MAX,
    ensures
        parse_entry(bytes, pos) == Ok::<(Seq<char>, int), CodecError>(
            (name, pos + entry_wire(name).len()),
        ),
{
    let tags = seq![TAG_COMPOUND, 0u8, TAG_STRING];
    let key = text_wire(name_key());
    let value = text_wire(name);
    let end = seq![TAG_END];
    lemma_name_key();
    lemma_holds_split(bytes, pos, tags + key + value, end);
    lemma_holds_split(bytes, pos, tags + key, value);
    lemma_holds_split(bytes, pos, tags, key);
    let head = bytes.subrange(pos, pos + 3);
    assert(head[0] == bytes[pos] && head[1] == bytes[pos + 1] && head[2] == bytes[pos + 2]);
    lemma_text_at(bytes, pos + 3, name_key());
    lemma_text_at(bytes, pos + 3 + key.len(), name);
    let last = pos + 3 + key.len() + value.len();
    assert(bytes.subrange(last, last + 1)[0] == bytes[last]);
}

/// Where the input ends inside the wire form of an entry, reading fails.
pub proof fn lemma_parse_entry_cut(bytes: Seq<u8>, pos: int, name: Seq<char>)
    requires
        0 <= pos <= bytes.len(),
        bytes.len() - pos < entry_wire(name).len(),
        bytes.subrange(pos, bytes.len() as int) == entry_wire(name).subrange(
            0,
            bytes.len() - pos,
        ),
        encode_utf8(name).len() <= u32::MAX,
    ensures
        parse_entry(bytes, pos) is Err,
{
    let tags = seq![TAG_COMPOUND, 0u8, TAG_STRING];
    let key = text_wire(name_key());
    let value = text_wire(name);
    let wire = entry_wire(name);
    let have = bytes.len() - pos;
    let k = key.len() as int;
    let v = value.len() as int;
    lemma_name_key();
    if have >= 3 {
        lemma_window(bytes, pos, wire, have, 0, 3);
        assert(wire.subrange(0, 3) =~= tags);
        let head = bytes.subrange(pos, pos + 3);
        assert(head[0] == bytes[pos] && head[1] == bytes[pos + 1] && head[2] == bytes[pos + 2]);
        if have < 3 + k {
            lemma_window(bytes, pos, wire, have, 3, have);
            assert(wire.subrange(3, have) =~= key.subrange(0, have - 3));
            lemma_text_cut(bytes, pos + 3, name_key());
        } else {
            lemma_window(bytes, pos, wire, have, 3, 3 + k);
            assert(wire.subrange(3, 3 + k) =~= key);
            lemma_text_at(bytes, pos + 3, name_key());
            if have < 3 + k + v {
                lemma_window(bytes, pos, wire, have, 3 + k, have);
                assert(wire.subrange(3 + k, have) =~= value.subrange(0, have - 3 - k));
                lemma_text_cut(bytes, pos + 3 + k, name);
            } else {
                lemma_window(bytes, pos, wire, have, 3 + k, 3 + k + v);
                assert(wire.subrange(3 + k, 3 + k + v) =~= value);
                lemma_text_at(bytes, pos + 3 + k, name);
            }
        }
    }
}

} // verus!
