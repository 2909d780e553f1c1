//! Variable-length integers.
//!
//! A value is cut into groups of seven bits, least significant group first.
//! Every byte carries one group in its low bits; its high bit says that
//! another group follows.

use crate::window::lemma_window;
use vstd::prelude::*;

verus! {

/// Why a variable-length integer could not be read.
#[derive(Debug, Clone, Copy, PartialEq, Eq, Structural)]
pub enum VarintError {
    /// The input ended before the last group.
    Truncated,
    /// More groups than the integer's width allows, or a value beyond it.
    Overflow,
}

/// The bytes that stand for `v`.
pub open spec fn varint_bytes(v: nat) -> Seq<u8>
    decreases v,
{
    if v < 128 {
        seq![v as u8]
    } else {
        seq![(v % 128 + 128) as u8] + varint_bytes(v / 128)
    }
}

/// Reads groups from `pos` on, at most `limit` of them: the value and the
/// position behind the last group.
pub open spec fn parse_groups(bytes: Seq<u8>, pos: int, limit: nat) -> Result<(nat, int), VarintError>
    decreases limit,
{
    if limit == 0 {
        Err(VarintError::Overflow)
    } else if pos < 0 || pos >= bytes.len() {
        Err(VarintError::Truncated)
    } else if bytes[pos] < 128 {
        Ok((bytes[pos] as nat, pos + 1))
    } else {
        match parse_groups(bytes, pos + 1, (limit - 1) as nat) {
            Ok((high, next)) => Ok(((bytes[pos] - 128 + 128 * high) as nat, next)),
            Err(e) => Err(e),
        }
    }
}

/// Reads an unsigned 32-bit integer at `pos`: at most five groups, and a
/// value that fits.
pub open spec fn parse_u32(bytes: Seq<u8>, pos: int) -> Result<(u32, int), VarintError> {
    match parse_groups(bytes, pos, 5) {
        Ok((v, next)) => if v <= u32::MAX {
            Ok((v as u32, next))
        } else {
            Err(VarintError::Overflow)
        },
        Err(e) => Err(e),
    }
}

/// The unsigned number that stands for the signed `v`: small magnitudes of
/// either sign map to small numbers.
pub open spec fn zigzag(v: int) -> nat {
    if v >= 0 {
        (2 * v) as nat
    } else {
        (-2 * v - 1) as nat
    }
}

/// The signed number that `u` stands for.
pub open spec fn unzigzag(u: nat) -> int {
    if u % 2 == 0 {
        (u / 2) as int
    } else {
        -(((u + 1) / 2) as int)
    }
}

/// Reads a signed 32-bit integer at `pos`.
pub open spec fn parse_i32(bytes: Seq<u8>, pos: int) -> Result<(i32, int), VarintError> {
    match parse_u32(bytes, pos) {
        Ok((u, next)) => Ok((unzigzag(u as nat) as i32, next)),
        Err(e) => Err(e),
    }
}

/// The number of bytes that stand for `v`.
pub open spec fn varint_len(v: nat) -> nat
    decreases v,
{
    if v < 128 {
        1
    } else {
        1 + varint_len(v / 128)
    }
}

/// The encoding is as long as `varint_len` says, and never empty.
pub proof fn lemma_varint_len(v: nat)
    ensures
        varint_bytes(v).len() == varint_len(v),
        1 <= varint_len(v),
    decreases v,
{
    if v >= 128 {
        lemma_varint_len(v / 128);
    }
}

/// A 32-bit value takes at most five bytes.
pub proof fn lemma_varint_len_u32(v: nat)
    requires
        v <= u32::MAX,
    ensures
        varint_len(v) <= 5,
{
    reveal_with_fuel(varint_len, 6);
}

/// Where `bytes` holds the encoding of `v` at `pos`, reading gives `v` back
/// and stops behind it, whatever follows.
pub proof fn lemma_parse_groups_of_bytes(bytes: Seq<u8>, pos: int, v: nat, limit: nat)
    requires
        0 <= pos,
        pos + varint_len(v) <= bytes.len(),
        bytes.subrange(pos, pos + varint_len(v)) == varint_bytes(v),
        varint_len(v) <= limit,
    ensures
        parse_groups(bytes, pos, limit) == Ok::<(nat, int), VarintError>((v, pos + varint_len(v))),
    decreases v,
{
    lemma_varint_len(v);
    let enc = varint_bytes(v);
    let n = varint_len(v) as int;
    assert(bytes[pos] == bytes.subrange(pos, pos + n)[0]);
    if v < 128 {
        assert(enc[0] == v as u8);
    } else {
        let rest = varint_bytes(v / 128);
        lemma_varint_len(v / 128);
        assert(enc[0] == (v % 128 + 128) as u8);
        assert(bytes.subrange(pos + 1, pos + n) =~= enc.subrange(1, n));
        assert(enc.subrange(1, n) =~= rest);
        lemma_parse_groups_of_bytes(bytes, pos + 1, v / 128, (limit - 1) as nat);
    }
}

/// Reading a 32-bit value where its encoding stands gives it back.
pub proof fn lemma_parse_u32_of_bytes(bytes: Seq<u8>, pos: int, v: u32)
    requires
        0 <= pos,
        pos + varint_len(v as nat) <= bytes.len(),
        bytes.subrange(pos, pos + varint_len(v as nat)) == varint_bytes(v as nat),
    ensures
        parse_u32(bytes, pos) == Ok::<(u32, int), VarintError>((v, pos + varint_len(v as nat))),
{
    lemma_varint_len_u32(v as nat);
    lemma_parse_groups_of_bytes(bytes, pos, v as nat, 5);
}

/// Where the input ends inside the encoding of `v`, reading fails.
pub proof fn lemma_parse_groups_cut(bytes: Seq<u8>, pos: int, v: nat, limit: nat)
    requires
        0 <= pos <= bytes.len(),
        bytes.len() - pos < varint_len(v),
        bytes.subrange(pos, bytes.len() as int) == varint_bytes(v).subrange(0, bytes.len() - pos),
    ensures
        parse_groups(bytes, pos, limit) is Err,
        parse_u32(bytes, pos) is Err,
    decreases v,
{
    lemma_varint_len(v);
    let have = bytes.len() - pos;
    let enc = varint_bytes(v);
    if have > 0 {
        lemma_window(bytes, pos, enc, have, 0, 1);
        assert(bytes[pos] == bytes.subrange(pos, pos + 1)[0]);
        assert(enc[0] == (v % 128 + 128) as u8);
        lemma_varint_len(v / 128);
        lemma_window(bytes, pos, enc, have, 1, have);
        assert(enc.subrange(1, have) =~= varint_bytes(v / 128).subrange(0, have - 1));
        if limit > 0 {
            lemma_parse_groups_cut(bytes, pos + 1, v / 128, (limit - 1) as nat);
        }
        lemma_parse_groups_cut(bytes, pos + 1, v / 128, 4);
    }
}

/// A successful read ends inside the input and behind where it began, and
/// its value is below 128 to the power of the limit.
pub proof fn lemma_parse_groups_bounds(bytes: Seq<u8>, pos: int, limit: nat)
    requires
        limit <= 5,
    ensures
        parse_groups(bytes, pos, limit) matches Ok((v, next)) ==> pos < next <= bytes.len() && next
            <= pos + limit && v < group_bound(limit),
    decreases limit,
{
    reveal_with_fuel(group_bound, 6);
    if limit > 0 && 0 <= pos < bytes.len() && bytes[pos] >= 128 {
        lemma_parse_groups_bounds(bytes, pos + 1, (limit - 1) as nat);
    }
}

/// 128 to the power of `groups`.
pub open spec fn group_bound(groups: nat) -> nat
    decreases groups,
{
    if groups == 0 {
        1
    } else {
        128 * group_bound((groups - 1) as nat)
    }
}

/// Signed numbers survive the detour through their unsigned stand-in.
pub proof fn lemma_zigzag_round_trip(v: int)
    ensures
        unzigzag(zigzag(v)) == v,
{
}

/// Appends the encoding of `v` to `out`.
pub fn write_u32(out: &mut Vec<u8>, v: u32)
    ensures
        final(out)@ == old(out)@ + varint_bytes(v as nat),
{
    let mut rest: u32 = v;
    while rest >= 128
        invariant
            out@ + varint_bytes(rest as nat) == old(out)@ + varint_bytes(v as nat),
        decreases rest,
    {
        let ghost before = out@;
        out.push((rest % 128 + 128) as u8);
        assert(before + varint_bytes(rest as nat) =~= out@ + varint_bytes((rest / 128) as nat));
        rest = rest / 128;
    }
    let ghost before = out@;
    out.push(rest as u8);
    assert(out@ =~= before + varint_bytes(rest as nat));
}

/// Appends the encoding of the signed `v` to `out`.
pub fn write_i32(out: &mut Vec<u8>, v: i32)
    ensures
        final(out)@ == old(out)@ + varint_bytes(zigzag(v as int)),
{
    let wide: i64 = v as i64;
    let folded: i64 = if wide >= 0 {
        2 * wide
    } else {
        2 * (0 - wide) - 1
    };
    write_u32(out, folded as u32);
}

/// Reads at most `limit` groups at `pos`.
fn read_groups(bytes: &[u8], pos: usize, limit: u8) -> (r: Result<(u64, usize), VarintError>)
    requires
        limit <= 5,
    ensures
        match r {
            Ok((v, next)) => parse_groups(bytes@, pos as int, limit as nat) == Ok::<
                (nat, int),
                VarintError,
            >((v as nat, next as int)),
            Err(e) => parse_groups(bytes@, pos as int, limit as nat) == Err::<
                (nat, int),
                VarintError,
            >(e),
        },
    decreases limit,
{
    if limit == 0 {
        return Err(VarintError::Overflow);
    }
    if pos >= bytes.len() {
        return Err(VarintError::Truncated);
    }
    let b: u8 = bytes[pos];
    if b < 128 {
        return Ok((b as u64, pos + 1));
    }
    proof {
        lemma_parse_groups_bounds(bytes@, pos as int + 1, (limit - 1) as nat);
        reveal_with_fuel(group_bound, 6);
    }
    match read_groups(bytes, pos + 1, limit - 1) {
        Ok((high, next)) => Ok(((b - 128) as u64 + 128 * high, next)),
        Err(e) => Err(e),
    }
}

/// Reads an unsigned 32-bit integer at `pos`: the value and the position
/// behind it.
pub fn read_u32(bytes: &[u8], pos: usize) -> (r: Result<(u32, usize), VarintError>)
    ensures
        match r {
            Ok((v, next)) => parse_u32(bytes@, pos as int) == Ok::<(u32, int), VarintError>(
                (v, next as int),
            ) && pos < next <= bytes.len(),
            Err(e) => parse_u32(bytes@, pos as int) == Err::<(u32, int), VarintError>(e),
        },
{
    proof {
        lemma_parse_groups_bounds(bytes@, pos as int, 5);
    }
    match read_groups(bytes, pos, 5) {
        Ok((v, next)) => {
            if v <= 0xFFFF_FFFF {
                Ok((v as u32, next))
            } else {
                Err(VarintError::Overflow)
            }
        },
        Err(e) => Err(e),
    }
}

/// Reads a signed 32-bit integer at `pos`: the value and the position behind
/// it.
pub fn read_i32(bytes: &[u8], pos: usize) -> (r: Result<(i32, usize), VarintError>)
    ensures
        match r {
            Ok((v, next)) => parse_i32(bytes@, pos as int) == Ok::<(i32, int), VarintError>(
                (v, next as int),
            ) && pos < next <= bytes.len(),
            Err(e) => parse_i32(bytes@, pos as int) == Err::<(i32, int), VarintError>(e),
        },
{
    match read_u32(bytes, pos) {
        Ok((u, next)) => {
            let wide: i64 = u as i64;
            let v: i64 = if u % 2 == 0 {
                wide / 2
            } else {
                -((wide + 1) / 2)
            };
            Ok((v as i32, next))
        },
        Err(e) => Err(e),
    }
}

} // verus!
