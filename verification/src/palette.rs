//! Paletted block storage of one sub-chunk and its binary layout.

use crate::entry::{
    BlockPaletteEntry, entry_wire, lemma_entry_read, lemma_parse_entry_cut,
    lemma_parse_entry_of_wire, parse_entry, read_entry, write_entry,
};
use crate::packing::{
    CELL_COUNT, MAX_PALETTE_LEN, bit_width, bit_width_for, cell_of_word, cells_per_word,
    cells_per_word_of, is_allowed_width, lemma_bit_width_minimal, lemma_full_word_fits,
    lemma_layout, lemma_le_round_trip, lemma_packed_words_at, lemma_packed_words_len,
    lemma_slot_of_word, lemma_word_value_bound, pack_word, packed_word, packed_words, push_word,
    unpacked_cell, unpacked_cells, width_is_allowed, word_at, word_count, word_count_of,
};
use crate::varint::{
    VarintError, lemma_parse_groups_cut, lemma_parse_u32_of_bytes, lemma_varint_len, parse_u32,
    read_u32, varint_bytes, varint_len, write_u32,
};
use crate::window::{holds_at, lemma_holds_itself, lemma_holds_split, lemma_window};
use vstd::arithmetic::div_mod::lemma_fundamental_div_mod;
use vstd::arithmetic::power2::pow2;
use vstd::prelude::*;
use vstd::utf8::encode_utf8;

verus! {

/// Why bytes were not accepted as a paletted storage, or values not as one.
#[derive(Debug, Clone, Copy, PartialEq, Eq, Structural)]
pub enum CodecError {
    /// The input ends before the header, the packed cells or the palette do.
    Truncated,
    /// The header names a bit width that the format does not have.
    InvalidBitWidth,
    /// The header's palette flag is not the one that was asked for.
    PaletteFlagMismatch,
    /// The palette's length is not a 32-bit variable-length integer.
    MalformedLength,
    /// The palette is empty or longer than 65536 entries.
    PaletteSize,
    /// A palette entry is not a compound holding one string named `name`.
    MalformedEntry,
    /// A cell refers to an entry that the palette does not have.
    IndexOutOfRange,
    /// There are not exactly 4096 cells.
    CellCount,
    /// An entry's name takes more bytes than a 32-bit length can count.
    NameTooLong,
    /// Bytes follow the storage.
    TrailingBytes,
}

/// What a storage holds: the palette index of each cell, and the names of
/// the palette's entries in their order.
pub struct StorageView {
    pub blocks: Seq<u32>,
    pub palette: Seq<Seq<char>>,
}

/// The cells of one sub-chunk as indices into a palette of block kinds.
///
/// Cells are kept in the order in which they travel. The storage that
/// `decode` gives for input without a palette has an empty palette; its
/// cells are then indices into a palette kept elsewhere.
#[derive(Debug, Clone, PartialEq, Eq)]
pub struct PalettedStorage {
    pub blocks: Vec<u32>,
    pub palette: Vec<BlockPaletteEntry>,
}

/// The names of a palette's entries.
pub open spec fn names_of(palette: Seq<BlockPaletteEntry>) -> Seq<Seq<char>> {
    Seq::new(palette.len(), |k: int| palette[k]@)
}

impl View for PalettedStorage {
    type V = StorageView;

    open spec fn view(&self) -> StorageView {
        StorageView { blocks: self.blocks@, palette: names_of(self.palette@) }
    }
}

/// What is wrong with a storage, if anything: the first of cell count,
/// palette size, name length and index range that does not hold.
pub open spec fn storage_fault(s: StorageView) -> Option<CodecError> {
    if s.blocks.len() != CELL_COUNT {
        Some(CodecError::CellCount)
    } else if s.palette.len() == 0 || s.palette.len() > MAX_PALETTE_LEN {
        Some(CodecError::PaletteSize)
    } else if exists|k: int| 0 <= k < s.palette.len() && encode_utf8(#[trigger] s.palette[k]).len()
        > u32::MAX {
        Some(CodecError::NameTooLong)
    } else if exists|i: int| 0 <= i < s.blocks.len() && #[trigger] s.blocks[i] >= s.palette.len() {
        Some(CodecError::IndexOutOfRange)
    } else {
        None
    }
}

/// A storage that can be encoded: 4096 cells, a palette of 1 to 65536
/// entries whose names a 32-bit length can count, and every cell an index
/// into the palette.
pub open spec fn valid_storage(s: StorageView) -> bool {
    &&& s.blocks.len() == CELL_COUNT
    &&& 1 <= s.palette.len() <= MAX_PALETTE_LEN
    &&& forall|k: int|
        0 <= k < s.palette.len() ==> encode_utf8(#[trigger] s.palette[k]).len() <= u32::MAX
    &&& forall|i: int| 0 <= i < s.blocks.len() ==> #[trigger] s.blocks[i] < s.palette.len()
}

/// A storage is valid exactly when nothing is wrong with it.
pub proof fn lemma_valid_iff_no_fault(s: StorageView)
    ensures
        valid_storage(s) <==> storage_fault(s) is None,
{
}

/// No name occurs twice in the palette.
pub open spec fn deduplicated(palette: Seq<Seq<char>>) -> bool {
    forall|a: int, b: int|
        0 <= a < b < palette.len() ==> #[trigger] palette[a] != #[trigger] palette[b]
}

/// The header: the bit width in the upper seven bits, and the lowest bit set
/// when a palette follows the cells.
pub open spec fn header_byte(w: nat, include_palette: bool) -> u8 {
    (2 * w + if include_palette {
        1nat
    } else {
        0nat
    }) as u8
}

/// The wire forms of the palette's entries, one after another.
pub open spec fn palette_wire(names: Seq<Seq<char>>) -> Seq<u8>
    decreases names.len(),
{
    if names.len() == 0 {
        Seq::empty()
    } else {
        palette_wire(names.drop_last()) + entry_wire(names.last())
    }
}

/// The bytes of a storage: the header, the packed cells, and, if asked for,
/// the palette's length and its entries.
pub open spec fn storage_wire(s: StorageView, include_palette: bool) -> Seq<u8> {
    let w = bit_width(s.palette.len());
    seq![header_byte(w, include_palette)] + packed_words(s.blocks, w, word_count(w))
        + if include_palette {
        varint_bytes(s.palette.len()) + palette_wire(s.palette)
    } else {
        Seq::empty()
    }
}

/// Reads `count` entries from `pos` on: their names and the position behind
/// the last.
pub open spec fn parse_entries(bytes: Seq<u8>, pos: int, count: nat) -> Result<
    (Seq<Seq<char>>, int),
    CodecError,
>
    decreases count,
{
    if count == 0 {
        Ok((Seq::empty(), pos))
    } else {
        match parse_entries(bytes, pos, (count - 1) as nat) {
            Err(e) => Err(e),
            Ok((names, at)) => match parse_entry(bytes, at) {
                Err(e) => Err(e),
                Ok((name, next)) => Ok((names.push(name), next)),
            },
        }
    }
}

/// Reads the palette that begins at `pos`, for cells that were already
/// read: its length, its entries, and then the check that every cell is an
/// index into it.
pub open spec fn parse_palette(bytes: Seq<u8>, pos: int, cells: Seq<u32>) -> Result<
    (StorageView, int),
    CodecError,
> {
    match parse_u32(bytes, pos) {
        Err(VarintError::Truncated) => Err(CodecError::Truncated),
        Err(VarintError::Overflow) => Err(CodecError::MalformedLength),
        Ok((count, at)) => {
            if count == 0 || count > MAX_PALETTE_LEN {
                Err(CodecError::PaletteSize)
            } else {
                match parse_entries(bytes, at, count as nat) {
                    Err(e) => Err(e),
                    Ok((names, end)) => {
                        if exists|i: int| 0 <= i < cells.len() && #[trigger] cells[i] >= count {
                            Err(CodecError::IndexOutOfRange)
                        } else {
                            Ok((StorageView { blocks: cells, palette: names }, end))
                        }
                    },
                }
            }
        },
    }
}

/// Reads one storage at `pos`: the storage and the position behind it.
pub open spec fn parse_storage(bytes: Seq<u8>, pos: int, include_palette: bool) -> Result<
    (StorageView, int),
    CodecError,
> {
    if pos < 0 || pos >= bytes.len() {
        Err(CodecError::Truncated)
    } else {
        let w = (bytes[pos] / 2) as nat;
        if !is_allowed_width(w as int) {
            Err(CodecError::InvalidBitWidth)
        } else if (bytes[pos] % 2 == 1) != include_palette {
            Err(CodecError::PaletteFlagMismatch)
        } else if pos + 1 + 4 * word_count(w) > bytes.len() {
            Err(CodecError::Truncated)
        } else {
            let cells = unpacked_cells(bytes, pos + 1, w);
            let at = pos + 1 + 4 * word_count(w);
            if include_palette {
                parse_palette(bytes, at, cells)
            } else {
                Ok((StorageView { blocks: cells, palette: Seq::empty() }, at))
            }
        }
    }
}

/// Reads a storage that fills the whole input.
pub open spec fn parse_whole(bytes: Seq<u8>, include_palette: bool) -> Result<
    StorageView,
    CodecError,
> {
    match parse_storage(bytes, 0, include_palette) {
        Err(e) => Err(e),
        Ok((s, end)) => if end == bytes.len() {
            Ok(s)
        } else {
            Err(CodecError::TrailingBytes)
        },
    }
}

/// Every index of a valid storage fits in cells of the storage's width.
pub proof fn lemma_cells_fit(s: StorageView)
    requires
        valid_storage(s),
    ensures
        is_allowed_width(bit_width(s.palette.len()) as int),
        forall|i: int| 0 <= i < s.blocks.len() ==> s.blocks[i] < pow2(bit_width(s.palette.len())),
{
    lemma_bit_width_minimal(s.palette.len());
}

impl PalettedStorage {
    /// What is wrong with this storage, if anything.
    pub fn check(&self) -> (r: Result<(), CodecError>)
        ensures
            match r {
                Ok(()) => storage_fault(self@) is None && valid_storage(self@),
                Err(e) => storage_fault(self@) == Some(e),
            },
    {
        if self.blocks.len() != CELL_COUNT {
            return Err(CodecError::CellCount);
        }
        let count: usize = self.palette.len();
        if count == 0 || count > MAX_PALETTE_LEN {
            return Err(CodecError::PaletteSize);
        }
        let mut k: usize = 0;
        while k < count
            invariant
                k <= count == self.palette.len(),
                1 <= count <= MAX_PALETTE_LEN,
                self.blocks.len() == CELL_COUNT,
                forall|j: int|
                    0 <= j < k ==> encode_utf8(#[trigger] self@.palette[j]).len() <= u32::MAX,
            decreases count - k,
        {
            if self.palette[k].name.as_str().as_bytes().len() > 0xFFFF_FFFF {
                assert(encode_utf8(self@.palette[k as int]).len() > u32::MAX);
                return Err(CodecError::NameTooLong);
            }
            assert(encode_utf8(self@.palette[k as int]).len() <= u32::MAX);
            k = k + 1;
        }
        let mut i: usize = 0;
        while i < CELL_COUNT
            invariant
                i <= CELL_COUNT == self.blocks.len(),
                1 <= count == self.palette.len() <= MAX_PALETTE_LEN,
                forall|j: int|
                    0 <= j < count ==> encode_utf8(#[trigger] self@.palette[j]).len() <= u32::MAX,
                forall|j: int| 0 <= j < i ==> #[trigger] self@.blocks[j] < count,
            decreases CELL_COUNT - i,
        {
            if self.blocks[i] as usize >= count {
                assert(self@.blocks[i as int] >= self@.palette.len());
                return Err(CodecError::IndexOutOfRange);
            }
            i = i + 1;
        }
        Ok(())
    }

    /// Whether this storage can be encoded.
    pub fn is_valid(&self) -> (valid: bool)
        ensures
            valid == valid_storage(self@),
    {
        proof {
            lemma_valid_iff_no_fault(self@);
        }
        self.check().is_ok()
    }

    /// The storage of the given cells and palette, if they make a valid one.
    pub fn new(blocks: Vec<u32>, palette: Vec<BlockPaletteEntry>) -> (r: Result<Self, CodecError>)
        ensures
            match r {
                Ok(s) => s.blocks == blocks && s.palette == palette && valid_storage(s@),
                Err(e) => storage_fault(
                    StorageView { blocks: blocks@, palette: names_of(palette@) },
                ) == Some(e),
            },
    {
        let storage = PalettedStorage { blocks, palette };
        match storage.check() {
            Ok(()) => Ok(storage),
            Err(e) => Err(e),
        }
    }

    /// The bytes of this storage: the header, the packed cells, and, if
    /// `include_palette`, the palette's length and entries.
    pub fn encode(&self, include_palette: bool) -> (out: Vec<u8>)
        requires
            valid_storage(self@),
        ensures
            out@ == storage_wire(self@, include_palette),
    {
        let count: usize = self.palette.len();
        let w: u8 = bit_width_for(count);
        let per: usize = cells_per_word_of(w);
        let words: usize = word_count_of(w);
        let flag: u8 = if include_palette {
            1
        } else {
            0
        };
        let ghost cells = self.blocks@;
        let ghost names = names_of(self.palette@);
        let ghost head = seq![header_byte(w as nat, include_palette)];
        proof {
            lemma_cells_fit(self@);
        }
        let mut out: Vec<u8> = Vec::new();
        out.push(2 * w + flag);
        assert(out@ =~= head + packed_words(cells, w as nat, 0));
        let mut j: usize = 0;
        while j < words
            invariant
                j <= words <= 2048,
                1 <= per <= 32,
                per == cells_per_word(w as nat),
                is_allowed_width(w as int),
                cells == self.blocks@,
                out@ == head + packed_words(cells, w as nat, j as nat),
                forall|i: int| 0 <= i < self.blocks.len() ==> self.blocks[i] < pow2(w as nat),
            decreases words - j,
        {
            assert(j * per <= 2048 * 32) by (nonlinear_arith)
                requires
                    j <= 2048,
                    per <= 32,
            ;
            let word: u32 = pack_word(&self.blocks, w, j * per);
            let ghost before = out@;
            push_word(&mut out, word);
            assert(word == packed_word(cells, w as nat, j as nat));
            assert(out@ =~= head + packed_words(cells, w as nat, (j + 1) as nat));
            j = j + 1;
        }
        if include_palette {
            let ghost body = out@;
            write_u32(&mut out, count as u32);
            let ghost base = out@;
            assert(base == body + varint_bytes(count as nat));
            assert(names.subrange(0, 0) =~= Seq::<Seq<char>>::empty());
            assert(out@ =~= base + palette_wire(names.subrange(0, 0)));
            let mut k: usize = 0;
            while k < count
                invariant
                    k <= count == self.palette.len(),
                    names == names_of(self.palette@),
                    out@ == base + palette_wire(names.subrange(0, k as int)),
                    forall|i: int|
                        0 <= i < names.len() ==> encode_utf8(#[trigger] names[i]).len()
                            <= u32::MAX,
                decreases count - k,
            {
                let ghost before = out@;
                assert(self.palette[k as int]@ == names[k as int]);
                write_entry(&mut out, &self.palette[k]);
                proof {
                    let upto = names.subrange(0, k + 1);
                    assert(upto.drop_last() =~= names.subrange(0, k as int));
                    assert(upto.last() == names[k as int]);
                    assert(out@ =~= base + palette_wire(upto));
                }
                k = k + 1;
            }
            assert(names.subrange(0, count as int) =~= names);
            assert(out@ =~= storage_wire(self@, include_palette));
        } else {
            assert(out@ =~= storage_wire(self@, include_palette));
        }
        out
    }
}

/// Once an entry could not be read, reading more entries fails the same
/// way.
pub proof fn lemma_entries_error_stays(bytes: Seq<u8>, pos: int, fewer: nat, more: nat)
    requires
        fewer <= more,
        parse_entries(bytes, pos, fewer) is Err,
    ensures
        parse_entries(bytes, pos, more) == parse_entries(bytes, pos, fewer),
    decreases more,
{
    if fewer < more {
        lemma_entries_error_stays(bytes, pos, fewer, (more - 1) as nat);
    }
}

/// Entries that were read are as many as were asked for, end inside the
/// input, and have names that a 32-bit length can count.
pub proof fn lemma_entries_read(bytes: Seq<u8>, pos: int, count: nat)
    requires
        0 <= pos <= bytes.len(),
    ensures
        parse_entries(bytes, pos, count) matches Ok((names, end)) ==> names.len() == count && pos
            <= end <= bytes.len() && forall|k: int|
            0 <= k < names.len() ==> encode_utf8(#[trigger] names[k]).len() <= u32::MAX,
    decreases count,
{
    if count > 0 {
        lemma_entries_read(bytes, pos, (count - 1) as nat);
        if let Ok((names, at)) = parse_entries(bytes, pos, (count - 1) as nat) {
            lemma_entry_read(bytes, at);
        }
    }
}

impl PalettedStorage {
    /// Reads one storage at `pos`: the storage and the position behind it.
    ///
    /// With `include_palette` the result is a valid storage. Without, it has
    /// the cells and an empty palette.
    #[verifier::loop_isolation(false)]
    pub fn decode_prefix(bytes: &[u8], pos: usize, include_palette: bool) -> (r: Result<
        (PalettedStorage, usize),
        CodecError,
    >)
        ensures
            match r {
                Ok((s, end)) => parse_storage(bytes@, pos as int, include_palette) == Ok::<
                    (StorageView, int),
                    CodecError,
                >((s@, end as int)) && pos < end <= bytes.len() && s.blocks.len() == CELL_COUNT
                    && (include_palette ==> valid_storage(s@)),
                Err(e) => parse_storage(bytes@, pos as int, include_palette) == Err::<
                    (StorageView, int),
                    CodecError,
                >(e),
            },
    {
        if pos >= bytes.len() {
            return Err(CodecError::Truncated);
        }
        let header: u8 = bytes[pos];
        let w: u8 = header / 2;
        if !width_is_allowed(w) {
            return Err(CodecError::InvalidBitWidth);
        }
        if (header % 2 == 1) != include_palette {
            return Err(CodecError::PaletteFlagMismatch);
        }
        let per: usize = cells_per_word_of(w);
        let words: usize = word_count_of(w);
        if (bytes.len() - pos - 1) / 4 < words {
            return Err(CodecError::Truncated);
        }
        let base: usize = pos + 1;
        proof {
            lemma_layout(w as nat);
        }
        let mut blocks: Vec<u32> = Vec::new();
        let mut i: usize = 0;
        while i < CELL_COUNT
            invariant
                i <= CELL_COUNT,
                blocks.len() == i,
                is_allowed_width(w as int),
                per == cells_per_word(w as nat),
                words == word_count(w as nat),
                1 <= per <= 32,
                words <= 2048,
                per * words >= CELL_COUNT,
                base + 4 * words <= bytes.len(),
                forall|k: int|
                    0 <= k < i ==> blocks[k] == unpacked_cell(bytes@, base as int, w as nat, k),
                forall|k: int| 0 <= k < i ==> blocks[k] < pow2(w as nat),
            decreases CELL_COUNT - i,
        {
            let index: usize = i / per;
            let slot: usize = i % per;
            assert(index < words) by (nonlinear_arith)
                requires
                    index == i / per,
                    i < per * words,
                    per >= 1,
            ;
            let word: u32 = word_at(bytes, base + 4 * index);
            let cell: u32 = cell_of_word(word, w, slot);
            blocks.push(cell);
            i = i + 1;
        }
        let at: usize = base + 4 * words;
        assert(blocks@ =~= unpacked_cells(bytes@, base as int, w as nat));
        if !include_palette {
            let palette: Vec<BlockPaletteEntry> = Vec::new();
            assert(names_of(palette@) =~= Seq::<Seq<char>>::empty());
            return Ok((PalettedStorage { blocks, palette }, at));
        }
        let (count, first) = match read_u32(bytes, at) {
            Err(VarintError::Truncated) => {
                return Err(CodecError::Truncated);
            },
            Err(VarintError::Overflow) => {
                return Err(CodecError::MalformedLength);
            },
            Ok((count, first)) => (count as usize, first),
        };
        if count == 0 || count > MAX_PALETTE_LEN {
            return Err(CodecError::PaletteSize);
        }
        let mut palette: Vec<BlockPaletteEntry> = Vec::new();
        let mut cursor: usize = first;
        let mut k: usize = 0;
        assert(names_of(palette@) =~= Seq::<Seq<char>>::empty());
        while k < count
            invariant
                k <= count,
                palette.len() == k,
                first <= cursor <= bytes.len(),
                parse_entries(bytes@, first as int, k as nat) == Ok::<
                    (Seq<Seq<char>>, int),
                    CodecError,
                >((names_of(palette@), cursor as int)),
            decreases count - k,
        {
            match read_entry(bytes, cursor) {
                Err(e) => {
                    proof {
                        lemma_entries_error_stays(
                            bytes@,
                            first as int,
                            (k + 1) as nat,
                            count as nat,
                        );
                    }
                    return Err(e);
                },
                Ok((entry, next)) => {
                    let ghost before = names_of(palette@);
                    palette.push(entry);
                    assert(names_of(palette@) =~= before.push(entry@));
                    cursor = next;
                },
            }
            k = k + 1;
        }
        let mut i: usize = 0;
        while i < CELL_COUNT
            invariant
                i <= CELL_COUNT == blocks.len(),
                forall|j: int| 0 <= j < i ==> #[trigger] blocks[j] < count,
            decreases CELL_COUNT - i,
        {
            if blocks[i] as usize >= count {
                return Err(CodecError::IndexOutOfRange);
            }
            i = i + 1;
        }
        proof {
            lemma_entries_read(bytes@, first as int, count as nat);
        }
        Ok((PalettedStorage { blocks, palette }, cursor))
    }

    /// Reads a storage that fills the whole input.
    ///
    /// With `include_palette` the result is a valid storage. Without, it has
    /// the cells and an empty palette.
    pub fn decode(bytes: &[u8], include_palette: bool) -> (r: Result<PalettedStorage, CodecError>)
        ensures
            match r {
                Ok(s) => parse_whole(bytes@, include_palette) == Ok::<StorageView, CodecError>(s@)
                    && s.blocks.len() == CELL_COUNT && (include_palette ==> valid_storage(s@)),
                Err(e) => parse_whole(bytes@, include_palette) == Err::<StorageView, CodecError>(
                    e,
                ),
            },
    {
        match PalettedStorage::decode_prefix(bytes, 0, include_palette) {
            Err(e) => Err(e),
            Ok((storage, end)) => {
                if end == bytes.len() {
                    Ok(storage)
                } else {
                    Err(CodecError::TrailingBytes)
                }
            },
        }
    }
}

/// Unpacking the packed cells gives the cells back.
pub proof fn lemma_unpack_of_packed(bytes: Seq<u8>, base: int, cells: Seq<u32>, w: nat)
    requires
        is_allowed_width(w as int),
        cells.len() == CELL_COUNT,
        forall|i: int| 0 <= i < cells.len() ==> cells[i] < pow2(w),
        holds_at(bytes, base, packed_words(cells, w, word_count(w))),
    ensures
        unpacked_cells(bytes, base, w) == cells,
{
    let per = cells_per_word(w) as int;
    let words = word_count(w) as int;
    let packed = packed_words(cells, w, word_count(w));
    lemma_layout(w);
    lemma_packed_words_len(cells, w, word_count(w));
    lemma_full_word_fits(w);
    assert(packed.subrange(0, 4 * words) =~= packed);
    assert forall|i: int| 0 <= i < CELL_COUNT implies unpacked_cell(bytes, base, w, i)
        == cells[i] by {
        let index = i / per;
        let slot = i % per;
        lemma_fundamental_div_mod(i, per);
        assert(0 <= index < words) by (nonlinear_arith)
            requires
                index == i / per,
                0 <= i < per * words,
                per >= 1,
        ;
        assert(0 <= slot < per);
        assert(i == per * index + slot);
        assert(per * index == index * per) by (nonlinear_arith);
        lemma_window(bytes, base, packed, 4 * words, 4 * index, 4 * index + 4);
        lemma_packed_words_at(cells, w, word_count(w), index);
        let word = packed_word(cells, w, index as nat);
        lemma_word_value_bound(cells, w, index * per, per as nat);
        lemma_le_round_trip(bytes, base + 4 * index, word);
        lemma_slot_of_word(cells, w, index * per, per as nat, slot as nat);
    }
    assert(unpacked_cells(bytes, base, w) =~= cells);
}

/// Where `bytes` holds the wire forms of a palette's entries at `pos`,
/// reading as many entries gives the names back and stops behind the last.
pub proof fn lemma_parse_entries_of_wire(bytes: Seq<u8>, pos: int, names: Seq<Seq<char>>)
    requires
        holds_at(bytes, pos, palette_wire(names)),
        forall|k: int| 0 <= k < names.len() ==> encode_utf8(#[trigger] names[k]).len() <= u32::MAX,
    ensures
        parse_entries(bytes, pos, names.len()) == Ok::<(Seq<Seq<char>>, int), CodecError>(
            (names, pos + palette_wire(names).len()),
        ),
    decreases names.len(),
{
    if names.len() == 0 {
        assert(names =~= Seq::<Seq<char>>::empty());
    } else {
        let front = names.drop_last();
        let last = names.last();
        lemma_holds_split(bytes, pos, palette_wire(front), entry_wire(last));
        lemma_parse_entries_of_wire(bytes, pos, front);
        lemma_parse_entry_of_wire(bytes, pos + palette_wire(front).len(), last);
        assert(front.push(last) =~= names);
    }
}

/// Where the input ends inside the wire forms of a palette's entries,
/// reading as many entries fails.
pub proof fn lemma_parse_entries_cut(bytes: Seq<u8>, pos: int, names: Seq<Seq<char>>)
    requires
        0 <= pos <= bytes.len(),
        bytes.len() - pos < palette_wire(names).len(),
        bytes.subrange(pos, bytes.len() as int) == palette_wire(names).subrange(
            0,
            bytes.len() - pos,
        ),
        forall|k: int| 0 <= k < names.len() ==> encode_utf8(#[trigger] names[k]).len() <= u32::MAX,
    ensures
        parse_entries(bytes, pos, names.len()) is Err,
    decreases names.len(),
{
    let have = bytes.len() - pos;
    if names.len() > 0 {
        let front = names.drop_last();
        let last = names.last();
        let wire = palette_wire(names);
        let held = palette_wire(front).len() as int;
        if have < held {
            assert(wire.subrange(0, have) =~= palette_wire(front).subrange(0, have));
            lemma_parse_entries_cut(bytes, pos, front);
        } else {
            lemma_window(bytes, pos, wire, have, 0, held);
            assert(wire.subrange(0, held) =~= palette_wire(front));
            assert(holds_at(bytes, pos, palette_wire(front)));
            lemma_parse_entries_of_wire(bytes, pos, front);
            lemma_window(bytes, pos, wire, have, held, have);
            assert(wire.subrange(held, have) =~= entry_wire(last).subrange(0, have - held));
            lemma_parse_entry_cut(bytes, pos + held, last);
        }
    }
}

/// The header of an allowed width gives the width and the flag back.
pub proof fn lemma_header(w: nat, include_palette: bool)
    requires
        is_allowed_width(w as int),
    ensures
        header_byte(w, include_palette) / 2 == w,
        (header_byte(w, include_palette) % 2 == 1) == include_palette,
{
}

/// What decoding gives for the bytes of `s`: `s` itself where the palette
/// travels along, and the cells with an empty palette where it does not.
pub open spec fn decoded_form(s: StorageView, include_palette: bool) -> StorageView {
    if include_palette {
        s
    } else {
        StorageView { blocks: s.blocks, palette: Seq::empty() }
    }
}

/// Where `bytes` holds the bytes of a valid storage at `pos`, reading gives
/// the storage back and stops behind it, whatever follows.
pub proof fn lemma_parse_storage_of_wire(
    bytes: Seq<u8>,
    pos: int,
    s: StorageView,
    include_palette: bool,
)
    requires
        valid_storage(s),
        holds_at(bytes, pos, storage_wire(s, include_palette)),
    ensures
        parse_storage(bytes, pos, include_palette) == Ok::<(StorageView, int), CodecError>(
            (decoded_form(s, include_palette), pos + storage_wire(s, include_palette).len()),
        ),
{
    let count = s.palette.len();
    let w = bit_width(count);
    let head = seq![header_byte(w, include_palette)];
    let packed = packed_words(s.blocks, w, word_count(w));
    let tail = if include_palette {
        varint_bytes(count) + palette_wire(s.palette)
    } else {
        Seq::<u8>::empty()
    };
    lemma_cells_fit(s);
    lemma_layout(w);
    lemma_header(w, include_palette);
    lemma_packed_words_len(s.blocks, w, word_count(w));
    lemma_varint_len(count);
    lemma_holds_split(bytes, pos, head + packed, tail);
    lemma_holds_split(bytes, pos, head, packed);
    assert(bytes[pos] == bytes.subrange(pos, pos + 1)[0]);
    lemma_unpack_of_packed(bytes, pos + 1, s.blocks, w);
    if include_palette {
        let at = pos + 1 + 4 * word_count(w);
        lemma_holds_split(bytes, at, varint_bytes(count), palette_wire(s.palette));
        lemma_parse_u32_of_bytes(bytes, at, count as u32);
        lemma_parse_entries_of_wire(bytes, at + varint_len(count), s.palette);
    }
}

/// Decoding the bytes of a valid storage gives the storage back; without
/// the palette, it gives the cells back.
pub proof fn lemma_decode_encode(s: StorageView, include_palette: bool)
    requires
        valid_storage(s),
    ensures
        parse_whole(storage_wire(s, include_palette), include_palette) == Ok::<
            StorageView,
            CodecError,
        >(decoded_form(s, include_palette)),
{
    lemma_holds_itself(storage_wire(s, include_palette));
    lemma_parse_storage_of_wire(storage_wire(s, include_palette), 0, s, include_palette);
}

/// A valid storage that is encoded with its palette and decoded again is
/// the same storage.
pub proof fn lemma_round_trip(s: StorageView)
    requires
        valid_storage(s),
    ensures
        parse_whole(storage_wire(s, true), true) == Ok::<StorageView, CodecError>(s),
{
    lemma_decode_encode(s, true);
}

/// The bytes of a valid storage with any number of bytes taken off their
/// end, one or more, are rejected.
pub proof fn lemma_cut_is_rejected(s: StorageView, include_palette: bool, keep: int)
    requires
        valid_storage(s),
        0 <= keep < storage_wire(s, include_palette).len(),
    ensures
        parse_storage(storage_wire(s, include_palette).subrange(0, keep), 0, include_palette)
            is Err,
        parse_whole(storage_wire(s, include_palette).subrange(0, keep), include_palette) is Err,
{
    let count = s.palette.len();
    let w = bit_width(count);
    let words = word_count(w) as int;
    let wire = storage_wire(s, include_palette);
    let bytes = wire.subrange(0, keep);
    let at = 1 + 4 * words;
    lemma_cells_fit(s);
    lemma_layout(w);
    lemma_header(w, include_palette);
    lemma_packed_words_len(s.blocks, w, word_count(w));
    lemma_varint_len(count);
    assert(bytes.subrange(0, keep) =~= wire.subrange(0, keep));
    if keep >= at {
        assert(bytes[0] == header_byte(w, include_palette));
        let first = at + varint_len(count) as int;
        if keep < first {
            lemma_window(bytes, 0, wire, keep, at, keep);
            assert(wire.subrange(at, keep) =~= varint_bytes(count).subrange(0, keep - at));
            lemma_parse_groups_cut(bytes, at, count, 5);
        } else {
            lemma_window(bytes, 0, wire, keep, at, first);
            assert(wire.subrange(at, first) =~= varint_bytes(count));
            lemma_parse_u32_of_bytes(bytes, at, count as u32);
            lemma_window(bytes, 0, wire, keep, first, keep);
            assert(wire.subrange(first, keep) =~= palette_wire(s.palette).subrange(
                0,
                keep - first,
            ));
            lemma_parse_entries_cut(bytes, first, s.palette);
        }
    } else if keep >= 1 {
        assert(bytes[0] == header_byte(w, include_palette));
    }
}

/// What the storages of a sub-chunk hold, in their order.
pub open spec fn storages_view(layers: Seq<PalettedStorage>) -> Seq<StorageView> {
    Seq::new(layers.len(), |i: int| layers[i]@)
}

/// The bytes of the storages of one sub-chunk: one after another, with
/// nothing in between.
pub open spec fn layers_wire(layers: Seq<StorageView>, include_palette: bool) -> Seq<u8>
    decreases layers.len(),
{
    if layers.len() == 0 {
        Seq::empty()
    } else {
        layers_wire(layers.drop_last(), include_palette) + storage_wire(
            layers.last(),
            include_palette,
        )
    }
}

/// Reads `count` storages from `pos` on: the storages and the position
/// behind the last.
pub open spec fn parse_layers(bytes: Seq<u8>, pos: int, count: nat, include_palette: bool) -> Result<
    (Seq<StorageView>, int),
    CodecError,
>
    decreases count,
{
    if count == 0 {
        Ok((Seq::empty(), pos))
    } else {
        match parse_layers(bytes, pos, (count - 1) as nat, include_palette) {
            Err(e) => Err(e),
            Ok((layers, at)) => match parse_storage(bytes, at, include_palette) {
                Err(e) => Err(e),
                Ok((layer, next)) => Ok((layers.push(layer), next)),
            },
        }
    }
}

/// Once a storage could not be read, reading more storages fails the same
/// way.
pub proof fn lemma_layers_error_stays(
    bytes: Seq<u8>,
    pos: int,
    fewer: nat,
    more: nat,
    include_palette: bool,
)
    requires
        fewer <= more,
        parse_layers(bytes, pos, fewer, include_palette) is Err,
    ensures
        parse_layers(bytes, pos, more, include_palette) == parse_layers(
            bytes,
            pos,
            fewer,
            include_palette,
        ),
    decreases more,
{
    if fewer < more {
        lemma_layers_error_stays(bytes, pos, fewer, (more - 1) as nat, include_palette);
    }
}

/// Where `bytes` holds the bytes of valid storages at `pos`, one after
/// another, reading as many storages gives them back and stops behind the
/// last.
pub proof fn lemma_parse_layers_of_wire(
    bytes: Seq<u8>,
    pos: int,
    layers: Seq<StorageView>,
    include_palette: bool,
)
    requires
        forall|i: int| 0 <= i < layers.len() ==> valid_storage(#[trigger] layers[i]),
        holds_at(bytes, pos, layers_wire(layers, include_palette)),
    ensures
        parse_layers(bytes, pos, layers.len(), include_palette) == Ok::<
            (Seq<StorageView>, int),
            CodecError,
        >(
            (
                layers.map_values(|s: StorageView| decoded_form(s, include_palette)),
                pos + layers_wire(layers, include_palette).len(),
            ),
        ),
    decreases layers.len(),
{
    let decoded = layers.map_values(|s: StorageView| decoded_form(s, include_palette));
    if layers.len() == 0 {
        assert(decoded =~= Seq::<StorageView>::empty());
    } else {
        let front = layers.drop_last();
        let last = layers.last();
        let held = layers_wire(front, include_palette);
        lemma_holds_split(bytes, pos, held, storage_wire(last, include_palette));
        assert forall|i: int| 0 <= i < front.len() implies valid_storage(#[trigger] front[i]) by {
            assert(front[i] == layers[i]);
        }
        lemma_parse_layers_of_wire(bytes, pos, front, include_palette);
        lemma_parse_storage_of_wire(bytes, pos + held.len(), last, include_palette);
        assert(front.map_values(|s: StorageView| decoded_form(s, include_palette)).push(
            decoded_form(last, include_palette),
        ) =~= decoded);
    }
}

/// The bytes of the storages of one sub-chunk, one after another.
pub fn encode_layers(layers: &Vec<PalettedStorage>, include_palette: bool) -> (out: Vec<u8>)
    requires
        forall|i: int| 0 <= i < layers.len() ==> valid_storage(#[trigger] layers[i]@),
    ensures
        out@ == layers_wire(storages_view(layers@), include_palette),
{
    let ghost all = storages_view(layers@);
    let mut out: Vec<u8> = Vec::new();
    let mut k: usize = 0;
    assert(all.subrange(0, 0) =~= Seq::<StorageView>::empty());
    assert(out@ =~= layers_wire(all.subrange(0, 0), include_palette));
    while k < layers.len()
        invariant
            k <= layers.len(),
            all == storages_view(layers@),
            out@ == layers_wire(all.subrange(0, k as int), include_palette),
            forall|i: int| 0 <= i < layers.len() ==> valid_storage(#[trigger] layers[i]@),
        decreases layers.len() - k,
    {
        let mut wire: Vec<u8> = layers[k].encode(include_palette);
        out.append(&mut wire);
        proof {
            let upto = all.subrange(0, k + 1);
            assert(upto.drop_last() =~= all.subrange(0, k as int));
            assert(upto.last() == layers[k as int]@);
        }
        k = k + 1;
    }
    assert(all.subrange(0, layers.len() as int) =~= all);
    out
}

/// Reads `count` storages from `pos` on: the storages and the position
/// behind the last.
#[verifier::loop_isolation(false)]
pub fn decode_layers(bytes: &[u8], pos: usize, count: usize, include_palette: bool) -> (r: Result<
    (Vec<PalettedStorage>, usize),
    CodecError,
>)
    requires
        pos <= bytes.len(),
    ensures
        match r {
            Ok((layers, end)) => parse_layers(
                bytes@,
                pos as int,
                count as nat,
                include_palette,
            ) == Ok::<(Seq<StorageView>, int), CodecError>((storages_view(layers@), end as int))
                && pos <= end <= bytes.len() && layers.len() == count && (include_palette
                ==> forall|i: int| 0 <= i < layers.len() ==> valid_storage(#[trigger] layers[i]@)),
            Err(e) => parse_layers(bytes@, pos as int, count as nat, include_palette) == Err::<
                (Seq<StorageView>, int),
                CodecError,
            >(e),
        },
{
    let mut layers: Vec<PalettedStorage> = Vec::new();
    let mut cursor: usize = pos;
    let mut k: usize = 0;
    assert(storages_view(layers@) =~= Seq::<StorageView>::empty());
    while k < count
        invariant
            k <= count,
            layers.len() == k,
            pos <= cursor <= bytes.len(),
            parse_layers(bytes@, pos as int, k as nat, include_palette) == Ok::<
                (Seq<StorageView>, int),
                CodecError,
            >((storages_view(layers@), cursor as int)),
            include_palette ==> forall|i: int|
                0 <= i < layers.len() ==> valid_storage(#[trigger] layers[i]@),
        decreases count - k,
    {
        match PalettedStorage::decode_prefix(bytes, cursor, include_palette) {
            Err(e) => {
                proof {
                    lemma_layers_error_stays(
                        bytes@,
                        pos as int,
                        (k + 1) as nat,
                        count as nat,
                        include_palette,
                    );
                }
                return Err(e);
            },
            Ok((layer, next)) => {
                let ghost before = storages_view(layers@);
                layers.push(layer);
                assert(storages_view(layers@) =~= before.push(layer@));
                cursor = next;
            },
        }
        k = k + 1;
    }
    Ok((layers, cursor))
}

/// Where the block called like `entry` stands first in the palette.
pub fn position_of(palette: &Vec<BlockPaletteEntry>, entry: &BlockPaletteEntry) -> (found: Option<
    usize,
>)
    ensures
        match found {
            Some(i) => i < palette.len() && palette[i as int]@ == entry@ && forall|j: int|
                0 <= j < i ==> (#[trigger] palette[j])@ != entry@,
            None => forall|j: int| 0 <= j < palette.len() ==> (#[trigger] palette[j])@ != entry@,
        },
{
    let mut i: usize = 0;
    while i < palette.len()
        invariant
            i <= palette.len(),
            forall|j: int| 0 <= j < i ==> (#[trigger] palette[j])@ != entry@,
        decreases palette.len() - i,
    {
        if palette[i].name == entry.name {
            return Some(i);
        }
        i = i + 1;
    }
    None
}

/// The slot of `entry` in the palette. A block that the palette holds keeps
/// its slot; one that it does not hold is put at the end. A palette without
/// doubles stays without.
pub fn intern(palette: &mut Vec<BlockPaletteEntry>, entry: BlockPaletteEntry) -> (slot: usize)
    ensures
        slot < final(palette).len(),
        final(palette)[slot as int]@ == entry@,
        forall|j: int| 0 <= j < slot ==> (#[trigger] final(palette)[j])@ != entry@,
        slot < old(palette).len() ==> *final(palette) == *old(palette),
        slot >= old(palette).len() ==> slot == old(palette).len() && final(palette)@ == old(
            palette,
        )@.push(entry),
        deduplicated(names_of(old(palette)@)) ==> deduplicated(names_of(final(palette)@)),
{
    match position_of(palette, &entry) {
        Some(slot) => slot,
        None => {
            let slot: usize = palette.len();
            let ghost before = names_of(palette@);
            palette.push(entry);
            proof {
                let after = names_of(palette@);
                assert(after =~= before.push(entry@));
                if deduplicated(before) {
                    assert forall|a: int, b: int| 0 <= a < b < after.len() implies #[trigger] after[a]
                        != #[trigger] after[b] by {
                        if b < before.len() {
                            assert(before[a] != before[b]);
                        } else {
                            assert(old(palette)[a]@ != entry@);
                        }
                    }
                }
            }
            slot
        },
    }
}

} // verus!
