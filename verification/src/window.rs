//! Bytes at a position of the input.
//!
//! Readers are stated over the whole input and a position. These facts say
//! what an input holds where, whatever stands before and behind.

use vstd::prelude::*;

verus! {

/// The input holds `part` at `pos`.
pub open spec fn holds_at(bytes: Seq<u8>, pos: int, part: Seq<u8>) -> bool {
    &&& 0 <= pos
    &&& pos + part.len() <= bytes.len()
    &&& bytes.subrange(pos, pos + part.len()) == part
}

/// Where the input holds two parts one after the other, it holds the first
/// at the position and the second behind the first.
pub proof fn lemma_holds_split(bytes: Seq<u8>, pos: int, first: Seq<u8>, second: Seq<u8>)
    requires
        holds_at(bytes, pos, first + second),
    ensures
        holds_at(bytes, pos, first),
        holds_at(bytes, pos + first.len(), second),
{
    let whole = first + second;
    let held = bytes.subrange(pos, pos + whole.len());
    assert forall|i: int| 0 <= i < first.len() implies #[trigger] bytes.subrange(
        pos,
        pos + first.len(),
    )[i] == first[i] by {
        assert(held[i] == whole[i]);
    }
    assert(bytes.subrange(pos, pos + first.len()) =~= first);
    assert forall|i: int| 0 <= i < second.len() implies #[trigger] bytes.subrange(
        pos + first.len(),
        pos + first.len() + second.len(),
    )[i] == second[i] by {
        assert(held[first.len() + i] == whole[first.len() + i]);
    }
    assert(bytes.subrange(pos + first.len(), pos + first.len() + second.len()) =~= second);
}

/// The input as a whole holds itself.
pub proof fn lemma_holds_itself(bytes: Seq<u8>)
    ensures
        holds_at(bytes, 0, bytes),
{
    assert(bytes.subrange(0, bytes.len() as int) =~= bytes);
}

/// A window of the input that holds the first `have` bytes of `wire` holds
/// every part of them at the matching offset.
pub proof fn lemma_window(bytes: Seq<u8>, pos: int, wire: Seq<u8>, have: int, a: int, b: int)
    requires
        0 <= pos,
        0 <= a <= b <= have <= wire.len(),
        pos + have <= bytes.len(),
        bytes.subrange(pos, pos + have) == wire.subrange(0, have),
    ensures
        bytes.subrange(pos + a, pos + b) == wire.subrange(a, b),
{
    let held = bytes.subrange(pos, pos + have);
    assert forall|i: int| 0 <= i < b - a implies #[trigger] bytes.subrange(pos + a, pos + b)[i]
        == wire.subrange(a, b)[i] by {
        assert(held[a + i] == wire.subrange(0, have)[a + i]);
    }
    assert(bytes.subrange(pos + a, pos + b) =~= wire.subrange(a, b));
}

} // verus!
