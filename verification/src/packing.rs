//! Bit packing of cell indices into 32-bit words.
//!
//! Every cell takes the same number of bits. A word holds as many whole cells
//! as fit, the first in its lowest bits; what is left at the top of the word
//! stays zero. Words are written with the low byte first.

use vstd::arithmetic::div_mod::lemma_fundamental_div_mod_converse;
use vstd::arithmetic::power2::{lemma2_to64, lemma_pow2_adds, pow2};
use vstd::prelude::*;

verus! {

/// The number of cells in a sub-chunk: sixteen to the third.
pub const CELL_COUNT: usize = 4096;

/// The longest palette that the widest cells can index.
pub const MAX_PALETTE_LEN: usize = 65536;

/// The bit widths that the format has.
pub open spec fn is_allowed_width(w: int) -> bool {
    w == 1 || w == 2 || w == 3 || w == 4 || w == 5 || w == 6 || w == 8 || w == 16
}

/// The width used for a palette of `palette_len` entries.
pub open spec fn bit_width(palette_len: nat) -> nat {
    if palette_len <= 2 {
        1
    } else if palette_len <= 4 {
        2
    } else if palette_len <= 8 {
        3
    } else if palette_len <= 16 {
        4
    } else if palette_len <= 32 {
        5
    } else if palette_len <= 64 {
        6
    } else if palette_len <= 256 {
        8
    } else {
        16
    }
}

/// How many cells of `w` bits a word holds.
pub open spec fn cells_per_word(w: nat) -> nat {
    32nat / w
}

/// How many words hold all cells at `w` bits each.
pub open spec fn word_count(w: nat) -> nat {
    ((CELL_COUNT + cells_per_word(w) - 1) / (cells_per_word(w) as int)) as nat
}

/// The word made of `slots` cells from `start` on. Cells beyond the last one
/// count as zero.
pub open spec fn word_value(cells: Seq<u32>, w: nat, start: int, slots: nat) -> nat
    decreases slots,
{
    if slots == 0 || start < 0 || start >= cells.len() {
        0
    } else {
        cells[start] as nat + pow2(w) * word_value(cells, w, start + 1, (slots - 1) as nat)
    }
}

/// The word with the given index among the packed words.
pub open spec fn packed_word(cells: Seq<u32>, w: nat, index: nat) -> nat {
    word_value(cells, w, (index * cells_per_word(w)) as int, cells_per_word(w))
}

/// The four bytes of a word, low byte first.
pub open spec fn le_bytes(word: nat) -> Seq<u8> {
    seq![
        (word % 256) as u8,
        (word / 256 % 256) as u8,
        (word / 65536 % 256) as u8,
        (word / 16777216 % 256) as u8,
    ]
}

/// The word whose four bytes stand at `pos`.
pub open spec fn le_value(bytes: Seq<u8>, pos: int) -> nat {
    (bytes[pos] + 256 * bytes[pos + 1] + 65536 * bytes[pos + 2] + 16777216 * bytes[pos + 3]) as nat
}

/// The bytes of the first `count` packed words.
pub open spec fn packed_words(cells: Seq<u32>, w: nat, count: nat) -> Seq<u8>
    decreases count,
{
    if count == 0 {
        Seq::empty()
    } else {
        packed_words(cells, w, (count - 1) as nat) + le_bytes(
            packed_word(cells, w, (count - 1) as nat),
        )
    }
}

/// The cell in the given slot of a word.
pub open spec fn slot_value(word: nat, w: nat, slot: nat) -> nat
    decreases slot,
{
    if slot == 0 {
        word % pow2(w)
    } else {
        slot_value(word / pow2(w), w, (slot - 1) as nat)
    }
}

/// The cell with the given index, read from packed words that begin at `base`.
pub open spec fn unpacked_cell(bytes: Seq<u8>, base: int, w: nat, index: int) -> u32 {
    slot_value(
        le_value(bytes, base + 4 * (index / cells_per_word(w) as int)),
        w,
        (index % cells_per_word(w) as int) as nat,
    ) as u32
}

/// All cells, read from packed words that begin at `base`.
pub open spec fn unpacked_cells(bytes: Seq<u8>, base: int, w: nat) -> Seq<u32> {
    Seq::new(CELL_COUNT as nat, |index: int| unpacked_cell(bytes, base, w, index))
}

/// Two to the power of `w * slots`, the bound of a word of `slots` cells.
pub open spec fn slot_capacity(w: nat, slots: nat) -> nat
    decreases slots,
{
    if slots == 0 {
        1
    } else {
        pow2(w) * slot_capacity(w, (slots - 1) as nat)
    }
}

/// The layout of each allowed width: the number of values of a cell, of
/// cells in a word, and of words.
pub proof fn lemma_layout(w: nat)
    requires
        is_allowed_width(w as int),
    ensures
        w == 1 ==> pow2(w) == 2 && cells_per_word(w) == 32 && word_count(w) == 128,
        w == 2 ==> pow2(w) == 4 && cells_per_word(w) == 16 && word_count(w) == 256,
        w == 3 ==> pow2(w) == 8 && cells_per_word(w) == 10 && word_count(w) == 410,
        w == 4 ==> pow2(w) == 16 && cells_per_word(w) == 8 && word_count(w) == 512,
        w == 5 ==> pow2(w) == 32 && cells_per_word(w) == 6 && word_count(w) == 683,
        w == 6 ==> pow2(w) == 64 && cells_per_word(w) == 5 && word_count(w) == 820,
        w == 8 ==> pow2(w) == 256 && cells_per_word(w) == 4 && word_count(w) == 1024,
        w == 16 ==> pow2(w) == 65536 && cells_per_word(w) == 2 && word_count(w) == 2048,
        cells_per_word(w) * word_count(w) >= CELL_COUNT,
        1 <= cells_per_word(w) <= 32,
        1 <= word_count(w) <= 2048,
{
    lemma2_to64();
    let per = cells_per_word(w);
    let words = word_count(w);
    if w == 1 {
        assert(32nat / w == 32) by (nonlinear_arith)
            requires
                w == 1,
        ;
    } else if w == 2 {
        assert(32nat / w == 16) by (nonlinear_arith)
            requires
                w == 2,
        ;
    } else if w == 3 {
        assert(32nat / w == 10) by (nonlinear_arith)
            requires
                w == 3,
        ;
    } else if w == 4 {
        assert(32nat / w == 8) by (nonlinear_arith)
            requires
                w == 4,
        ;
    } else if w == 5 {
        assert(32nat / w == 6) by (nonlinear_arith)
            requires
                w == 5,
        ;
    } else if w == 6 {
        assert(32nat / w == 5) by (nonlinear_arith)
            requires
                w == 6,
        ;
    } else if w == 8 {
        assert(32nat / w == 4) by (nonlinear_arith)
            requires
                w == 8,
        ;
    } else {
        assert(32nat / w == 2) by (nonlinear_arith)
            requires
                w == 16,
        ;
    }
    lemma_word_count(per);
    assert(per * words >= CELL_COUNT) by (nonlinear_arith)
        requires
            (per == 32 && words == 128) || (per == 16 && words == 256) || (per == 10 && words
                == 410) || (per == 8 && words == 512) || (per == 6 && words == 683) || (per == 5
                && words == 820) || (per == 4 && words == 1024) || (per == 2 && words == 2048),
    ;
}

/// The number of words for each number of cells in a word.
proof fn lemma_word_count(per: nat)
    ensures
        per == 32 ==> (4096 + per - 1) / (per as int) == 128,
        per == 16 ==> (4096 + per - 1) / (per as int) == 256,
        per == 10 ==> (4096 + per - 1) / (per as int) == 410,
        per == 8 ==> (4096 + per - 1) / (per as int) == 512,
        per == 6 ==> (4096 + per - 1) / (per as int) == 683,
        per == 5 ==> (4096 + per - 1) / (per as int) == 820,
        per == 4 ==> (4096 + per - 1) / (per as int) == 1024,
        per == 2 ==> (4096 + per - 1) / (per as int) == 2048,
{
    assert(per == 32 ==> (4096 + per - 1) / (per as int) == 128) by (nonlinear_arith);
    assert(per == 16 ==> (4096 + per - 1) / (per as int) == 256) by (nonlinear_arith);
    assert(per == 10 ==> (4096 + per - 1) / (per as int) == 410) by (nonlinear_arith);
    assert(per == 8 ==> (4096 + per - 1) / (per as int) == 512) by (nonlinear_arith);
    assert(per == 6 ==> (4096 + per - 1) / (per as int) == 683) by (nonlinear_arith);
    assert(per == 5 ==> (4096 + per - 1) / (per as int) == 820) by (nonlinear_arith);
    assert(per == 4 ==> (4096 + per - 1) / (per as int) == 1024) by (nonlinear_arith);
    assert(per == 2 ==> (4096 + per - 1) / (per as int) == 2048) by (nonlinear_arith);
}

/// The width for a palette is the smallest allowed width whose cells can
/// hold every index of the palette, and at least the index 1.
pub proof fn lemma_bit_width_minimal(palette_len: nat)
    requires
        palette_len <= MAX_PALETTE_LEN,
    ensures
        is_allowed_width(bit_width(palette_len) as int),
        pow2(bit_width(palette_len)) >= palette_len,
        pow2(bit_width(palette_len)) >= 2,
        forall|w: nat|
            is_allowed_width(w as int) && #[trigger] pow2(w) >= palette_len && pow2(w) >= 2
                ==> bit_width(palette_len) <= w,
{
    lemma2_to64();
}

/// A word of `slots` cells, each below two to the `w`, is below two to the
/// `w * slots`.
pub proof fn lemma_word_value_bound(cells: Seq<u32>, w: nat, start: int, slots: nat)
    requires
        forall|i: int| 0 <= i < cells.len() ==> cells[i] < pow2(w),
    ensures
        word_value(cells, w, start, slots) < slot_capacity(w, slots),
    decreases slots,
{
    let radix = pow2(w);
    vstd::arithmetic::power2::lemma_pow2_pos(w);
    if slots == 0 {
    } else if start < 0 || start >= cells.len() {
        lemma_slot_capacity_positive(w, slots);
    } else {
        lemma_word_value_bound(cells, w, start + 1, (slots - 1) as nat);
        let rest = word_value(cells, w, start + 1, (slots - 1) as nat);
        let cap = slot_capacity(w, (slots - 1) as nat);
        let cell = cells[start] as nat;
        assert(cell + radix * rest < radix * cap) by (nonlinear_arith)
            requires
                cell < radix,
                rest < cap,
        ;
    }
}

/// A capacity is at least one.
pub proof fn lemma_slot_capacity_positive(w: nat, slots: nat)
    ensures
        slot_capacity(w, slots) >= 1,
    decreases slots,
{
    vstd::arithmetic::power2::lemma_pow2_pos(w);
    if slots > 0 {
        lemma_slot_capacity_positive(w, (slots - 1) as nat);
        let radix = pow2(w);
        let cap = slot_capacity(w, (slots - 1) as nat);
        assert(radix * cap >= 1) by (nonlinear_arith)
            requires
                radix >= 1,
                cap >= 1,
        ;
    }
}

/// The capacity of `slots` cells is two to the `w * slots`.
pub proof fn lemma_slot_capacity_is_power(w: nat, slots: nat)
    ensures
        slot_capacity(w, slots) == pow2(w * slots),
    decreases slots,
{
    if slots == 0 {
        assert(w * slots == 0) by (nonlinear_arith)
            requires
                slots == 0,
        ;
        lemma2_to64();
    } else {
        lemma_slot_capacity_is_power(w, (slots - 1) as nat);
        assert(w * slots == w + w * ((slots - 1) as nat)) by (nonlinear_arith)
            requires
                slots > 0,
        ;
        lemma_pow2_adds(w, w * ((slots - 1) as nat));
    }
}

/// A full word of any allowed width fits in 32 bits.
pub proof fn lemma_full_word_fits(w: nat)
    requires
        is_allowed_width(w as int),
    ensures
        slot_capacity(w, cells_per_word(w)) <= 0x1_0000_0000,
{
    lemma_layout(w);
    lemma_slot_capacity_is_power(w, cells_per_word(w));
    lemma2_to64();
}

/// Taking a slot out of a word gives back the cell that was put there.
pub proof fn lemma_slot_of_word(cells: Seq<u32>, w: nat, start: int, slots: nat, slot: nat)
    requires
        0 <= start,
        slot < slots,
        start + slot < cells.len(),
        forall|i: int| 0 <= i < cells.len() ==> cells[i] < pow2(w),
    ensures
        slot_value(word_value(cells, w, start, slots), w, slot) == cells[start + slot],
    decreases slot,
{
    let radix = pow2(w) as int;
    let rest = word_value(cells, w, start + 1, (slots - 1) as nat) as int;
    let cell = cells[start] as int;
    vstd::arithmetic::power2::lemma_pow2_pos(w);
    assert(radix * rest == rest * radix) by (nonlinear_arith);
    lemma_fundamental_div_mod_converse(cell + radix * rest, radix, rest, cell);
    if slot > 0 {
        lemma_slot_of_word(cells, w, start + 1, (slots - 1) as nat, (slot - 1) as nat);
    }
}

/// A word survives being written low byte first and read again.
pub proof fn lemma_le_round_trip(bytes: Seq<u8>, pos: int, word: nat)
    requires
        0 <= pos,
        pos + 4 <= bytes.len(),
        bytes.subrange(pos, pos + 4) == le_bytes(word),
        word < 0x1_0000_0000,
    ensures
        le_value(bytes, pos) == word,
{
    let part = bytes.subrange(pos, pos + 4);
    assert(part[0] == bytes[pos] && part[1] == bytes[pos + 1] && part[2] == bytes[pos + 2]
        && part[3] == bytes[pos + 3]);
}

/// The packed words take four bytes each.
pub proof fn lemma_packed_words_len(cells: Seq<u32>, w: nat, count: nat)
    ensures
        packed_words(cells, w, count).len() == 4 * count,
    decreases count,
{
    if count > 0 {
        lemma_packed_words_len(cells, w, (count - 1) as nat);
    }
}

/// The word with index `index` stands at offset `4 * index` of the packed
/// words.
pub proof fn lemma_packed_words_at(cells: Seq<u32>, w: nat, count: nat, index: int)
    requires
        0 <= index < count,
    ensures
        packed_words(cells, w, count).len() == 4 * count,
        packed_words(cells, w, count).subrange(4 * index, 4 * index + 4) == le_bytes(
            packed_word(cells, w, index as nat),
        ),
    decreases count,
{
    lemma_packed_words_len(cells, w, count);
    lemma_packed_words_len(cells, w, (count - 1) as nat);
    let all = packed_words(cells, w, count);
    let front = packed_words(cells, w, (count - 1) as nat);
    if index == count - 1 {
        assert(all.subrange(4 * index, 4 * index + 4) =~= le_bytes(
            packed_word(cells, w, index as nat),
        ));
    } else {
        lemma_packed_words_at(cells, w, (count - 1) as nat, index);
        assert(all.subrange(4 * index, 4 * index + 4) =~= front.subrange(4 * index, 4 * index + 4));
    }
}

/// The width for a palette of `palette_len` entries.
pub fn bit_width_for(palette_len: usize) -> (w: u8)
    ensures
        w == bit_width(palette_len as nat),
        is_allowed_width(w as int),
{
    if palette_len <= 2 {
        1
    } else if palette_len <= 4 {
        2
    } else if palette_len <= 8 {
        3
    } else if palette_len <= 16 {
        4
    } else if palette_len <= 32 {
        5
    } else if palette_len <= 64 {
        6
    } else if palette_len <= 256 {
        8
    } else {
        16
    }
}

/// Whether the format has the width `w`.
pub fn width_is_allowed(w: u8) -> (allowed: bool)
    ensures
        allowed == is_allowed_width(w as int),
{
    w == 1 || w == 2 || w == 3 || w == 4 || w == 5 || w == 6 || w == 8 || w == 16
}

/// The number of values that a cell of `w` bits can take.
pub fn radix_of(w: u8) -> (radix: u32)
    requires
        is_allowed_width(w as int),
    ensures
        radix == pow2(w as nat),
        2 <= radix <= 65536,
{
    proof {
        lemma_layout(w as nat);
    }
    if w == 1 {
        2
    } else if w == 2 {
        4
    } else if w == 3 {
        8
    } else if w == 4 {
        16
    } else if w == 5 {
        32
    } else if w == 6 {
        64
    } else if w == 8 {
        256
    } else {
        65536
    }
}

/// How many cells of `w` bits a word holds.
pub fn cells_per_word_of(w: u8) -> (cells: usize)
    requires
        is_allowed_width(w as int),
    ensures
        cells == cells_per_word(w as nat),
        1 <= cells <= 32,
{
    proof {
        lemma_layout(w as nat);
    }
    32 / (w as usize)
}

/// How many words hold all cells at `w` bits each.
pub fn word_count_of(w: u8) -> (words: usize)
    requires
        is_allowed_width(w as int),
    ensures
        words == word_count(w as nat),
        1 <= words <= 2048,
{
    proof {
        lemma_layout(w as nat);
    }
    let per: usize = cells_per_word_of(w);
    (CELL_COUNT + per - 1) / per
}

/// Packs the cells from `start` on into one word.
pub fn pack_word(cells: &Vec<u32>, w: u8, start: usize) -> (word: u32)
    requires
        is_allowed_width(w as int),
        start <= 0x1_0000,
        forall|i: int| 0 <= i < cells.len() ==> cells[i] < pow2(w as nat),
    ensures
        word == word_value(cells@, w as nat, start as int, cells_per_word(w as nat)),
{
    let per: usize = cells_per_word_of(w);
    let radix: u64 = radix_of(w) as u64;
    let mut acc: u64 = 0;
    let mut k: usize = per;
    proof {
        lemma_full_word_fits(w as nat);
    }
    while k > 0
        invariant
            k <= per <= 32,
            start <= 0x1_0000,
            radix == pow2(w as nat),
            radix <= 65536,
            acc == word_value(cells@, w as nat, start + k, (per - k) as nat),
            slot_capacity(w as nat, per as nat) <= 0x1_0000_0000,
            forall|i: int| 0 <= i < cells.len() ==> cells[i] < pow2(w as nat),
        decreases k,
    {
        proof {
            lemma_word_value_bound(cells@, w as nat, start + k, (per - k) as nat);
            lemma_capacity_grows(w as nat, (per - k) as nat, per as nat);
        }
        k = k - 1;
        let cell: u64 = if start + k < cells.len() {
            cells[start + k] as u64
        } else {
            0
        };
        proof {
            let rest = word_value(cells@, w as nat, start + k + 1, (per - k - 1) as nat);
            assert(acc == rest);
            assert(word_value(cells@, w as nat, start + k, (per - k) as nat) == if start + k
                < cells.len() {
                cells@[start + k] as nat + pow2(w as nat) * rest
            } else {
                0
            });
            assert(radix * acc <= 65536 * 0x1_0000_0000) by (nonlinear_arith)
                requires
                    radix <= 65536,
                    acc <= 0x1_0000_0000,
            ;
            assert(radix * acc == pow2(w as nat) * rest) by (nonlinear_arith)
                requires
                    radix == pow2(w as nat),
                    acc == rest,
            ;
            if start + k >= cells.len() {
                assert(rest == 0);
                assert(radix * acc == 0) by (nonlinear_arith)
                    requires
                        acc == 0,
                ;
            }
        }
        acc = cell + radix * acc;
    }
    proof {
        lemma_word_value_bound(cells@, w as nat, start as int, per as nat);
    }
    acc as u32
}

/// More slots make for at least as much capacity.
pub proof fn lemma_capacity_grows(w: nat, fewer: nat, more: nat)
    requires
        fewer <= more,
    ensures
        slot_capacity(w, fewer) <= slot_capacity(w, more),
    decreases more,
{
    if fewer < more {
        lemma_capacity_grows(w, fewer, (more - 1) as nat);
        lemma_slot_capacity_positive(w, (more - 1) as nat);
        vstd::arithmetic::power2::lemma_pow2_pos(w);
        let radix = pow2(w);
        let cap = slot_capacity(w, (more - 1) as nat);
        assert(radix * cap >= cap) by (nonlinear_arith)
            requires
                radix >= 1,
                cap >= 1,
        ;
    }
}

/// Takes the cell in the given slot out of a word.
pub fn cell_of_word(word: u32, w: u8, slot: usize) -> (cell: u32)
    requires
        is_allowed_width(w as int),
    ensures
        cell == slot_value(word as nat, w as nat, slot as nat),
        cell < pow2(w as nat),
{
    let radix: u32 = radix_of(w);
    let mut rest: u32 = word;
    let mut k: usize = 0;
    while k < slot
        invariant
            k <= slot,
            radix == pow2(w as nat),
            radix >= 2,
            slot_value(word as nat, w as nat, slot as nat) == slot_value(
                rest as nat,
                w as nat,
                (slot - k) as nat,
            ),
        decreases slot - k,
    {
        rest = rest / radix;
        k = k + 1;
    }
    rest % radix
}

/// Appends the four bytes of `word` to `out`, low byte first.
pub fn push_word(out: &mut Vec<u8>, word: u32)
    ensures
        final(out)@ == old(out)@ + le_bytes(word as nat),
{
    out.push((word % 256) as u8);
    out.push((word / 256 % 256) as u8);
    out.push((word / 65536 % 256) as u8);
    out.push((word / 16777216 % 256) as u8);
    assert(out@ =~= old(out)@ + le_bytes(word as nat));
}

/// Reads the word whose four bytes stand at `pos`.
pub fn word_at(bytes: &[u8], pos: usize) -> (word: u32)
    requires
        pos + 4 <= bytes.len(),
    ensures
        word == le_value(bytes@, pos as int),
{
    let b0: u32 = bytes[pos] as u32;
    let b1: u32 = bytes[pos + 1] as u32;
    let b2: u32 = bytes[pos + 2] as u32;
    let b3: u32 = bytes[pos + 3] as u32;
    b0 + 256 * b1 + 65536 * b2 + 16777216 * b3
}

} // verus!
