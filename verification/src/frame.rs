//! Packets as frames of bytes.
//!
//! A frame begins with the kind of its packet as an unsigned
//! variable-length integer; the packet's fields follow in the order in
//! which the packet declares them. A frame holds one packet and nothing
//! else: the transport delivers frames already cut apart.

use crate::field::{
    blob_wire, bool_wire, get_blob, get_bool, get_fixed_u32, get_text, get_u8, get_var_i32,
    get_var_u32, lemma_blob_at, lemma_bool_at, lemma_fixed_u32_at, lemma_text_at, lemma_u8_at,
    lemma_var_i32_at, lemma_var_u32_at, parse_blob, parse_bool, parse_fixed_u32, parse_text,
    parse_u8, parse_var_i32, parse_var_u32, put_blob, put_bool, put_fixed_u32, put_text, put_u8,
    put_var_i32, put_var_u32, text_wire, var_i32_wire, var_u32_wire,
};
use crate::packet::{
    BlockPosition, ChainLink, ChainLinkView, ChunkPosition, FrameError, GamePacket, IdentityChain,
    IdentityChainView, PacketView, links_view,
};
use crate::packing::le_bytes;
use crate::window::{holds_at, lemma_holds_itself, lemma_holds_split};
use vstd::prelude::*;
use vstd::utf8::encode_utf8;

verus! {

/// The kind of an identity chain.
pub const ID_IDENTITY_CHAIN: u32 = 1;

/// The kind of the client's data.
pub const ID_CLIENT_DATA: u32 = 4;

/// The kind of a level chunk.
pub const ID_LEVEL_CHUNK: u32 = 58;

/// The kind of a request for a chunk radius.
pub const ID_REQUEST_CHUNK_RADIUS: u32 = 69;

/// The kind of an updated chunk radius.
pub const ID_CHUNK_RADIUS_UPDATED: u32 = 70;

/// The kind of the notice that the client has loaded the world.
pub const ID_SET_LOCAL_PLAYER_AS_INITIALIZED: u32 = 113;

/// The kind of a chunk publisher update.
pub const ID_CHUNK_PUBLISHER_UPDATE: u32 = 121;

/// The kind of a packet violation warning.
pub const ID_PACKET_VIOLATION_WARNING: u32 = 156;

/// The kind of the client's intent.
pub const ID_CLIENT_INTENT: u32 = 193;

/// The number that names the kind of a packet.
pub open spec fn packet_id(packet: PacketView) -> u32 {
    match packet {
        PacketView::ClientIntent { .. } => ID_CLIENT_INTENT,
        PacketView::IdentityChain { .. } => ID_IDENTITY_CHAIN,
        PacketView::ClientData { .. } => ID_CLIENT_DATA,
        PacketView::SetLocalPlayerAsInitialized { .. } => ID_SET_LOCAL_PLAYER_AS_INITIALIZED,
        PacketView::RequestChunkRadius { .. } => ID_REQUEST_CHUNK_RADIUS,
        PacketView::ChunkRadiusUpdated { .. } => ID_CHUNK_RADIUS_UPDATED,
        PacketView::LevelChunk { .. } => ID_LEVEL_CHUNK,
        PacketView::ChunkPublisherUpdate { .. } => ID_CHUNK_PUBLISHER_UPDATE,
        PacketView::PacketViolationWarning { .. } => ID_PACKET_VIOLATION_WARNING,
    }
}

/// Whether `id` names a kind of packet that the engine knows.
pub open spec fn is_known_id(id: u32) -> bool {
    id == ID_CLIENT_INTENT || id == ID_IDENTITY_CHAIN || id == ID_CLIENT_DATA || id
        == ID_SET_LOCAL_PLAYER_AS_INITIALIZED || id == ID_REQUEST_CHUNK_RADIUS || id
        == ID_CHUNK_RADIUS_UPDATED || id == ID_LEVEL_CHUNK || id == ID_CHUNK_PUBLISHER_UPDATE || id
        == ID_PACKET_VIOLATION_WARNING
}

/// The bytes of a chain link: the issuer's key, then the subject's.
pub open spec fn link_wire(link: ChainLinkView) -> Seq<u8> {
    blob_wire(link.issuer_key) + blob_wire(link.subject_key)
}

/// The bytes of the links of a chain, one after another.
pub open spec fn links_wire(links: Seq<ChainLinkView>) -> Seq<u8>
    decreases links.len(),
{
    if links.len() == 0 {
        Seq::empty()
    } else {
        links_wire(links.drop_last()) + link_wire(links.last())
    }
}

/// The bytes of a chunk position: `x`, then `z`.
pub open spec fn position_wire(position: ChunkPosition) -> Seq<u8> {
    var_i32_wire(position.x) + var_i32_wire(position.z)
}

/// The bytes of a list of chunk positions, one after another.
pub open spec fn positions_wire(positions: Seq<ChunkPosition>) -> Seq<u8>
    decreases positions.len(),
{
    if positions.len() == 0 {
        Seq::empty()
    } else {
        positions_wire(positions.drop_last()) + position_wire(positions.last())
    }
}

/// The bytes of a packet's fields, in the order of their declaration. A
/// list travels as its length and its items; a position as its
/// coordinates; the protocol version as four bytes, low byte first.
pub open spec fn body_wire(packet: PacketView) -> Seq<u8> {
    match packet {
        PacketView::ClientIntent { protocol_version } => le_bytes(protocol_version as nat),
        PacketView::IdentityChain { chain } => var_u32_wire(chain.links.len() as u32) + links_wire(
            chain.links,
        ) + text_wire(chain.display_name),
        PacketView::ClientData { signer_key, device } => blob_wire(signer_key) + text_wire(device),
        PacketView::SetLocalPlayerAsInitialized { runtime_id } => var_u32_wire(runtime_id),
        PacketView::RequestChunkRadius { chunk_radius, chunk_radius_max } => var_i32_wire(
            chunk_radius,
        ) + seq![chunk_radius_max],
        PacketView::ChunkRadiusUpdated { chunk_radius } => var_i32_wire(chunk_radius),
        PacketView::LevelChunk {
            chunk_position,
            dimension_id,
            sub_chunk_count,
            cache_enabled,
            serialized_chunk_data,
            client_needs_to_request_subchunks,
            client_request_subchunk_limit,
        } => position_wire(chunk_position) + var_i32_wire(dimension_id) + var_u32_wire(
            sub_chunk_count,
        ) + bool_wire(cache_enabled) + blob_wire(serialized_chunk_data) + bool_wire(
            client_needs_to_request_subchunks,
        ) + var_i32_wire(client_request_subchunk_limit),
        PacketView::ChunkPublisherUpdate { position, radius, saved_chunks } => var_i32_wire(
            position.x,
        ) + var_i32_wire(position.y) + var_i32_wire(position.z) + var_u32_wire(radius)
            + var_u32_wire(saved_chunks.len() as u32) + positions_wire(saved_chunks),
        PacketView::PacketViolationWarning {
            kind,
            severity,
            violating_packet_id,
            context,
        } => var_i32_wire(kind) + var_i32_wire(severity) + var_i32_wire(violating_packet_id)
            + text_wire(context),
    }
}

/// The bytes of a packet's frame: its kind, then its fields.
pub open spec fn packet_wire(packet: PacketView) -> Seq<u8> {
    var_u32_wire(packet_id(packet)) + body_wire(packet)
}

/// A packet whose frame can be written: every list, byte string and text
/// in it has a length that 32 bits can hold.
pub open spec fn encodable(packet: PacketView) -> bool {
    match packet {
        PacketView::IdentityChain { chain } => {
            &&& chain.links.len() <= u32::MAX
            &&& encode_utf8(chain.display_name).len() <= u32::MAX
            &&& forall|i: int|
                0 <= i < chain.links.len() ==> (#[trigger] chain.links[i]).issuer_key.len()
                    <= u32::MAX && chain.links[i].subject_key.len() <= u32::MAX
        },
        PacketView::ClientData { signer_key, device } => signer_key.len() <= u32::MAX
            && encode_utf8(device).len() <= u32::MAX,
        PacketView::LevelChunk { serialized_chunk_data, .. } => serialized_chunk_data.len()
            <= u32::MAX,
        PacketView::ChunkPublisherUpdate { saved_chunks, .. } => saved_chunks.len() <= u32::MAX,
        PacketView::PacketViolationWarning { context, .. } => encode_utf8(context).len()
            <= u32::MAX,
        _ => true,
    }
}

/// Reads a chain link at `pos`.
pub open spec fn parse_link(bytes: Seq<u8>, pos: int) -> Result<(ChainLinkView, int), FrameError> {
    match parse_blob(bytes, pos) {
        Err(e) => Err(e),
        Ok((issuer_key, at)) => match parse_blob(bytes, at) {
            Err(e) => Err(e),
            Ok((subject_key, next)) => Ok((ChainLinkView { issuer_key, subject_key }, next)),
        },
    }
}

/// Reads `count` chain links from `pos` on.
pub open spec fn parse_links(bytes: Seq<u8>, pos: int, count: nat) -> Result<
    (Seq<ChainLinkView>, int),
    FrameError,
>
    decreases count,
{
    if count == 0 {
        Ok((Seq::empty(), pos))
    } else {
        match parse_links(bytes, pos, (count - 1) as nat) {
            Err(e) => Err(e),
            Ok((links, at)) => match parse_link(bytes, at) {
                Err(e) => Err(e),
                Ok((link, next)) => Ok((links.push(link), next)),
            },
        }
    }
}

/// Reads a chunk position at `pos`.
pub open spec fn parse_position(bytes: Seq<u8>, pos: int) -> Result<
    (ChunkPosition, int),
    FrameError,
> {
    match parse_var_i32(bytes, pos) {
        Err(e) => Err(e),
        Ok((x, at)) => match parse_var_i32(bytes, at) {
            Err(e) => Err(e),
            Ok((z, next)) => Ok((ChunkPosition { x, z }, next)),
        },
    }
}

/// Reads `count` chunk positions from `pos` on.
pub open spec fn parse_positions(bytes: Seq<u8>, pos: int, count: nat) -> Result<
    (Seq<ChunkPosition>, int),
    FrameError,
>
    decreases count,
{
    if count == 0 {
        Ok((Seq::empty(), pos))
    } else {
        match parse_positions(bytes, pos, (count - 1) as nat) {
            Err(e) => Err(e),
            Ok((positions, at)) => match parse_position(bytes, at) {
                Err(e) => Err(e),
                Ok((position, next)) => Ok((positions.push(position), next)),
            },
        }
    }
}

/// Reads the fields of an identity chain at `pos`.
pub open spec fn parse_identity_chain(bytes: Seq<u8>, pos: int) -> Result<
    (PacketView, int),
    FrameError,
> {
    match parse_var_u32(bytes, pos) {
        Err(e) => Err(e),
        Ok((count, at)) => match parse_links(bytes, at, count as nat) {
            Err(e) => Err(e),
            Ok((links, then)) => match parse_text(bytes, then) {
                Err(e) => Err(e),
                Ok((display_name, next)) => Ok(
                    (
                        PacketView::IdentityChain {
                            chain: IdentityChainView { links, display_name },
                        },
                        next,
                    ),
                ),
            },
        },
    }
}

/// Reads the fields of the client's data at `pos`.
pub open spec fn parse_client_data(bytes: Seq<u8>, pos: int) -> Result<
    (PacketView, int),
    FrameError,
> {
    match parse_blob(bytes, pos) {
        Err(e) => Err(e),
        Ok((signer_key, at)) => match parse_text(bytes, at) {
            Err(e) => Err(e),
            Ok((device, next)) => Ok((PacketView::ClientData { signer_key, device }, next)),
        },
    }
}

/// Reads the fields of a request for a chunk radius at `pos`.
pub open spec fn parse_request_chunk_radius(bytes: Seq<u8>, pos: int) -> Result<
    (PacketView, int),
    FrameError,
> {
    match parse_var_i32(bytes, pos) {
        Err(e) => Err(e),
        Ok((chunk_radius, at)) => match parse_u8(bytes, at) {
            Err(e) => Err(e),
            Ok((chunk_radius_max, next)) => Ok(
                (PacketView::RequestChunkRadius { chunk_radius, chunk_radius_max }, next),
            ),
        },
    }
}

/// Reads the fields of a level chunk at `pos`.
pub open spec fn parse_level_chunk(bytes: Seq<u8>, pos: int) -> Result<
    (PacketView, int),
    FrameError,
> {
    match parse_position(bytes, pos) {
        Err(e) => Err(e),
        Ok((chunk_position, at_a)) => match parse_var_i32(bytes, at_a) {
            Err(e) => Err(e),
            Ok((dimension_id, at_b)) => match parse_var_u32(bytes, at_b) {
                Err(e) => Err(e),
                Ok((sub_chunk_count, at_c)) => match parse_bool(bytes, at_c) {
                    Err(e) => Err(e),
                    Ok((cache_enabled, at_d)) => match parse_blob(bytes, at_d) {
                        Err(e) => Err(e),
                        Ok((serialized_chunk_data, at_e)) => match parse_bool(bytes, at_e) {
                            Err(e) => Err(e),
                            Ok((client_needs_to_request_subchunks, at_f)) => match parse_var_i32(
                                bytes,
                                at_f,
                            ) {
                                Err(e) => Err(e),
                                Ok((client_request_subchunk_limit, next)) => Ok(
                                    (
                                        PacketView::LevelChunk {
                                            chunk_position,
                                            dimension_id,
                                            sub_chunk_count,
                                            cache_enabled,
                                            serialized_chunk_data,
                                            client_needs_to_request_subchunks,
                                            client_request_subchunk_limit,
                                        },
                                        next,
                                    ),
                                ),
                            },
                        },
                    },
                },
            },
        },
    }
}

/// Reads the fields of a chunk publisher update at `pos`.
pub open spec fn parse_chunk_publisher_update(bytes: Seq<u8>, pos: int) -> Result<
    (PacketView, int),
    FrameError,
> {
    match parse_var_i32(bytes, pos) {
        Err(e) => Err(e),
        Ok((x, at_a)) => match parse_var_i32(bytes, at_a) {
            Err(e) => Err(e),
            Ok((y, at_b)) => match parse_var_i32(bytes, at_b) {
                Err(e) => Err(e),
                Ok((z, at_c)) => match parse_var_u32(bytes, at_c) {
                    Err(e) => Err(e),
                    Ok((radius, at_d)) => match parse_var_u32(bytes, at_d) {
                        Err(e) => Err(e),
                        Ok((count, at_e)) => match parse_positions(bytes, at_e, count as nat) {
                            Err(e) => Err(e),
                            Ok((saved_chunks, next)) => Ok(
                                (
                                    PacketView::ChunkPublisherUpdate {
                                        position: BlockPosition { x, y, z },
                                        radius,
                                        saved_chunks,
                                    },
                                    next,
                                ),
                            ),
                        },
                    },
                },
            },
        },
    }
}

/// Reads the fields of a packet violation warning at `pos`.
pub open spec fn parse_packet_violation_warning(bytes: Seq<u8>, pos: int) -> Result<
    (PacketView, int),
    FrameError,
> {
    match parse_var_i32(bytes, pos) {
        Err(e) => Err(e),
        Ok((kind, at_a)) => match parse_var_i32(bytes, at_a) {
            Err(e) => Err(e),
            Ok((severity, at_b)) => match parse_var_i32(bytes, at_b) {
                Err(e) => Err(e),
                Ok((violating_packet_id, at_c)) => match parse_text(bytes, at_c) {
                    Err(e) => Err(e),
                    Ok((context, next)) => Ok(
                        (
                            PacketView::PacketViolationWarning {
                                kind,
                                severity,
                                violating_packet_id,
                                context,
                            },
                            next,
                        ),
                    ),
                },
            },
        },
    }
}

/// Reads the fields of a packet of the kind `id` at `pos`.
pub open spec fn parse_body(id: u32, bytes: Seq<u8>, pos: int) -> Result<
    (PacketView, int),
    FrameError,
> {
    if id == ID_CLIENT_INTENT {
        match parse_fixed_u32(bytes, pos) {
            Err(e) => Err(e),
            Ok((protocol_version, next)) => Ok(
                (PacketView::ClientIntent { protocol_version }, next),
            ),
        }
    } else if id == ID_IDENTITY_CHAIN {
        parse_identity_chain(bytes, pos)
    } else if id == ID_CLIENT_DATA {
        parse_client_data(bytes, pos)
    } else if id == ID_SET_LOCAL_PLAYER_AS_INITIALIZED {
        match parse_var_u32(bytes, pos) {
            Err(e) => Err(e),
            Ok((runtime_id, next)) => Ok(
                (PacketView::SetLocalPlayerAsInitialized { runtime_id }, next),
            ),
        }
    } else if id == ID_REQUEST_CHUNK_RADIUS {
        parse_request_chunk_radius(bytes, pos)
    } else if id == ID_CHUNK_RADIUS_UPDATED {
        match parse_var_i32(bytes, pos) {
            Err(e) => Err(e),
            Ok((chunk_radius, next)) => Ok((PacketView::ChunkRadiusUpdated { chunk_radius }, next)),
        }
    } else if id == ID_LEVEL_CHUNK {
        parse_level_chunk(bytes, pos)
    } else if id == ID_CHUNK_PUBLISHER_UPDATE {
        parse_chunk_publisher_update(bytes, pos)
    } else if id == ID_PACKET_VIOLATION_WARNING {
        parse_packet_violation_warning(bytes, pos)
    } else {
        Err(FrameError::UnknownPacketId { id })
    }
}

/// Reads the packet that a frame holds: its kind, which must be known, and
/// its fields, which must fill the rest of the frame.
pub open spec fn parse_packet(bytes: Seq<u8>) -> Result<PacketView, FrameError> {
    match parse_var_u32(bytes, 0) {
        Err(e) => Err(e),
        Ok((id, pos)) => match parse_body(id, bytes, pos) {
            Err(e) => Err(e),
            Ok((packet, end)) => if end == bytes.len() {
                Ok(packet)
            } else {
                Err(FrameError::FieldDecodeError)
            },
        },
    }
}

/// Once a link could not be read, reading more links fails the same way.
pub proof fn lemma_links_error_stays(bytes: Seq<u8>, pos: int, fewer: nat, more: nat)
    requires
        fewer <= more,
        parse_links(bytes, pos, fewer) is Err,
    ensures
        parse_links(bytes, pos, more) == parse_links(bytes, pos, fewer),
    decreases more,
{
    if fewer < more {
        lemma_links_error_stays(bytes, pos, fewer, (more - 1) as nat);
    }
}

/// Once a position could not be read, reading more positions fails the same
/// way.
pub proof fn lemma_positions_error_stays(bytes: Seq<u8>, pos: int, fewer: nat, more: nat)
    requires
        fewer <= more,
        parse_positions(bytes, pos, fewer) is Err,
    ensures
        parse_positions(bytes, pos, more) == parse_positions(bytes, pos, fewer),
    decreases more,
{
    if fewer < more {
        lemma_positions_error_stays(bytes, pos, fewer, (more - 1) as nat);
    }
}

/// Appends the links of a chain, one after another.
fn put_links(out: &mut Vec<u8>, links: &Vec<ChainLink>)
    requires
        forall|i: int|
            0 <= i < links.len() ==> (#[trigger] links[i]).issuer_key.len() <= u32::MAX
                && links[i].subject_key.len() <= u32::MAX,
    ensures
        final(out)@ == old(out)@ + links_wire(links_view(links@)),
{
    let ghost all = links_view(links@);
    let mut k: usize = 0;
    assert(all.subrange(0, 0) =~= Seq::<ChainLinkView>::empty());
    assert(out@ =~= old(out)@ + links_wire(all.subrange(0, 0)));
    while k < links.len()
        invariant
            k <= links.len(),
            all == links_view(links@),
            out@ == old(out)@ + links_wire(all.subrange(0, k as int)),
            forall|i: int|
                0 <= i < links.len() ==> (#[trigger] links[i]).issuer_key.len() <= u32::MAX
                    && links[i].subject_key.len() <= u32::MAX,
        decreases links.len() - k,
    {
        let ghost before = out@;
        put_blob(out, &links[k].issuer_key);
        put_blob(out, &links[k].subject_key);
        proof {
            let upto = all.subrange(0, k + 1);
            assert(upto.drop_last() =~= all.subrange(0, k as int));
            assert(upto.last() == links[k as int]@);
            assert(out@ =~= old(out)@ + links_wire(upto));
        }
        k = k + 1;
    }
    assert(all.subrange(0, links.len() as int) =~= all);
}

/// Appends chunk positions, one after another.
fn put_positions(out: &mut Vec<u8>, positions: &Vec<ChunkPosition>)
    ensures
        final(out)@ == old(out)@ + positions_wire(positions@),
{
    let ghost all = positions@;
    let mut k: usize = 0;
    assert(all.subrange(0, 0) =~= Seq::<ChunkPosition>::empty());
    assert(out@ =~= old(out)@ + positions_wire(all.subrange(0, 0)));
    while k < positions.len()
        invariant
            k <= positions.len(),
            all == positions@,
            out@ == old(out)@ + positions_wire(all.subrange(0, k as int)),
        decreases positions.len() - k,
    {
        put_var_i32(out, positions[k].x);
        put_var_i32(out, positions[k].z);
        proof {
            let upto = all.subrange(0, k + 1);
            assert(upto.drop_last() =~= all.subrange(0, k as int));
            assert(upto.last() == positions[k as int]);
            assert(out@ =~= old(out)@ + positions_wire(upto));
        }
        k = k + 1;
    }
    assert(all.subrange(0, positions.len() as int) =~= all);
}

/// Reads a chunk position at `pos`.
fn get_position(bytes: &[u8], pos: usize) -> (r: Result<(ChunkPosition, usize), FrameError>)
    ensures
        match r {
            Ok((v, next)) => parse_position(bytes@, pos as int) == Ok::<
                (ChunkPosition, int),
                FrameError,
            >((v, next as int)) && pos < next <= bytes.len(),
            Err(e) => parse_position(bytes@, pos as int) == Err::<(ChunkPosition, int), FrameError>(
                e,
            ),
        },
{
    let (x, at) = match get_var_i32(bytes, pos) {
        Ok(found) => found,
        Err(e) => {
            return Err(e);
        },
    };
    let (z, next) = match get_var_i32(bytes, at) {
        Ok(found) => found,
        Err(e) => {
            return Err(e);
        },
    };
    Ok((ChunkPosition { x, z }, next))
}

/// Reads a chain link at `pos`.
fn get_link(bytes: &[u8], pos: usize) -> (r: Result<(ChainLink, usize), FrameError>)
    ensures
        match r {
            Ok((v, next)) => parse_link(bytes@, pos as int) == Ok::<(ChainLinkView, int), FrameError>(
                (v@, next as int),
            ) && pos < next <= bytes.len() && v.issuer_key.len() <= u32::MAX
                && v.subject_key.len() <= u32::MAX,
            Err(e) => parse_link(bytes@, pos as int) == Err::<(ChainLinkView, int), FrameError>(e),
        },
{
    let (issuer_key, at) = match get_blob(bytes, pos) {
        Ok(found) => found,
        Err(e) => {
            return Err(e);
        },
    };
    let (subject_key, next) = match get_blob(bytes, at) {
        Ok(found) => found,
        Err(e) => {
            return Err(e);
        },
    };
    Ok((ChainLink { issuer_key, subject_key }, next))
}

/// Reads `count` chain links from `pos` on.
#[verifier::loop_isolation(false)]
fn get_links(bytes: &[u8], pos: usize, count: u32) -> (r: Result<(Vec<ChainLink>, usize), FrameError>)
    requires
        pos <= bytes.len(),
    ensures
        match r {
            Ok((v, next)) => parse_links(bytes@, pos as int, count as nat) == Ok::<
                (Seq<ChainLinkView>, int),
                FrameError,
            >((links_view(v@), next as int)) && pos <= next <= bytes.len() && v.len() == count
                && forall|i: int|
                0 <= i < v.len() ==> (#[trigger] v[i]).issuer_key.len() <= u32::MAX
                    && v[i].subject_key.len() <= u32::MAX,
            Err(e) => parse_links(bytes@, pos as int, count as nat) == Err::<
                (Seq<ChainLinkView>, int),
                FrameError,
            >(e),
        },
{
    let mut links: Vec<ChainLink> = Vec::new();
    let mut cursor: usize = pos;
    let mut k: u32 = 0;
    assert(links_view(links@) =~= Seq::<ChainLinkView>::empty());
    while k < count
        invariant
            k <= count,
            links.len() == k,
            pos <= cursor <= bytes.len(),
            parse_links(bytes@, pos as int, k as nat) == Ok::<
                (Seq<ChainLinkView>, int),
                FrameError,
            >((links_view(links@), cursor as int)),
            forall|i: int|
                0 <= i < links.len() ==> (#[trigger] links[i]).issuer_key.len() <= u32::MAX
                    && links[i].subject_key.len() <= u32::MAX,
        decreases count - k,
    {
        match get_link(bytes, cursor) {
            Err(e) => {
                proof {
                    lemma_links_error_stays(bytes@, pos as int, (k + 1) as nat, count as nat);
                }
                return Err(e);
            },
            Ok((link, next)) => {
                let ghost before = links_view(links@);
                links.push(link);
                assert(links_view(links@) =~= before.push(link@));
                cursor = next;
            },
        }
        k = k + 1;
    }
    Ok((links, cursor))
}

/// Reads `count` chunk positions from `pos` on.
#[verifier::loop_isolation(false)]
fn get_positions(bytes: &[u8], pos: usize, count: u32) -> (r: Result<
    (Vec<ChunkPosition>, usize),
    FrameError,
>)
    requires
        pos <= bytes.len(),
    ensures
        match r {
            Ok((v, next)) => parse_positions(bytes@, pos as int, count as nat) == Ok::<
                (Seq<ChunkPosition>, int),
                FrameError,
            >((v@, next as int)) && pos <= next <= bytes.len() && v.len() == count,
            Err(e) => parse_positions(bytes@, pos as int, count as nat) == Err::<
                (Seq<ChunkPosition>, int),
                FrameError,
            >(e),
        },
{
    let mut positions: Vec<ChunkPosition> = Vec::new();
    let mut cursor: usize = pos;
    let mut k: u32 = 0;
    while k < count
        invariant
            k <= count,
            positions.len() == k,
            pos <= cursor <= bytes.len(),
            parse_positions(bytes@, pos as int, k as nat) == Ok::<
                (Seq<ChunkPosition>, int),
                FrameError,
            >((positions@, cursor as int)),
        decreases count - k,
    {
        match get_position(bytes, cursor) {
            Err(e) => {
                proof {
                    lemma_positions_error_stays(bytes@, pos as int, (k + 1) as nat, count as nat);
                }
                return Err(e);
            },
            Ok((position, next)) => {
                positions.push(position);
                cursor = next;
            },
        }
        k = k + 1;
    }
    Ok((positions, cursor))
}

/// Reads the fields of an identity chain at `pos`.
fn get_identity_chain(bytes: &[u8], pos: usize) -> (r: Result<(GamePacket, usize), FrameError>)
    ensures
        match r {
            Ok((v, next)) => parse_identity_chain(bytes@, pos as int) == Ok::<
                (PacketView, int),
                FrameError,
            >((v@, next as int)) && next <= bytes.len() && encodable(v@),
            Err(e) => parse_identity_chain(bytes@, pos as int) == Err::<
                (PacketView, int),
                FrameError,
            >(e),
        },
{
    let (count, at) = match get_var_u32(bytes, pos) {
        Ok(found) => found,
        Err(e) => {
            return Err(e);
        },
    };
    let (links, then) = match get_links(bytes, at, count) {
        Ok(found) => found,
        Err(e) => {
            return Err(e);
        },
    };
    let (display_name, next) = match get_text(bytes, then) {
        Ok(found) => found,
        Err(e) => {
            return Err(e);
        },
    };
    Ok((GamePacket::IdentityChain { chain: IdentityChain { links, display_name } }, next))
}

/// Reads the fields of the client's data at `pos`.
fn get_client_data(bytes: &[u8], pos: usize) -> (r: Result<(GamePacket, usize), FrameError>)
    ensures
        match r {
            Ok((v, next)) => parse_client_data(bytes@, pos as int) == Ok::<
                (PacketView, int),
                FrameError,
            >((v@, next as int)) && next <= bytes.len() && encodable(v@),
            Err(e) => parse_client_data(bytes@, pos as int) == Err::<(PacketView, int), FrameError>(
                e,
            ),
        },
{
    let (signer_key, at) = match get_blob(bytes, pos) {
        Ok(found) => found,
        Err(e) => {
            return Err(e);
        },
    };
    let (device, next) = match get_text(bytes, at) {
        Ok(found) => found,
        Err(e) => {
            return Err(e);
        },
    };
    Ok((GamePacket::ClientData { signer_key, device }, next))
}

/// Reads the fields of a request for a chunk radius at `pos`.
fn get_request_chunk_radius(bytes: &[u8], pos: usize) -> (r: Result<
    (GamePacket, usize),
    FrameError,
>)
    ensures
        match r {
            Ok((v, next)) => parse_request_chunk_radius(bytes@, pos as int) == Ok::<
                (PacketView, int),
                FrameError,
            >((v@, next as int)) && next <= bytes.len() && encodable(v@),
            Err(e) => parse_request_chunk_radius(bytes@, pos as int) == Err::<
                (PacketView, int),
                FrameError,
            >(e),
        },
{
    let (chunk_radius, at) = match get_var_i32(bytes, pos) {
        Ok(found) => found,
        Err(e) => {
            return Err(e);
        },
    };
    let (chunk_radius_max, next) = match get_u8(bytes, at) {
        Ok(found) => found,
        Err(e) => {
            return Err(e);
        },
    };
    Ok((GamePacket::RequestChunkRadius { chunk_radius, chunk_radius_max }, next))
}

/// Reads the fields of a level chunk at `pos`.
fn get_level_chunk(bytes: &[u8], pos: usize) -> (r: Result<(GamePacket, usize), FrameError>)
    ensures
        match r {
            Ok((v, next)) => parse_level_chunk(bytes@, pos as int) == Ok::<
                (PacketView, int),
                FrameError,
            >((v@, next as int)) && next <= bytes.len() && encodable(v@),
            Err(e) => parse_level_chunk(bytes@, pos as int) == Err::<(PacketView, int), FrameError>(
                e,
            ),
        },
{
    let (chunk_position, at_a) = match get_position(bytes, pos) {
        Ok(found) => found,
        Err(e) => {
            return Err(e);
        },
    };
    let (dimension_id, at_b) = match get_var_i32(bytes, at_a) {
        Ok(found) => found,
        Err(e) => {
            return Err(e);
        },
    };
    let (sub_chunk_count, at_c) = match get_var_u32(bytes, at_b) {
        Ok(found) => found,
        Err(e) => {
            return Err(e);
        },
    };
    let (cache_enabled, at_d) = match get_bool(bytes, at_c) {
        Ok(found) => found,
        Err(e) => {
            return Err(e);
        },
    };
    let (serialized_chunk_data, at_e) = match get_blob(bytes, at_d) {
        Ok(found) => found,
        Err(e) => {
            return Err(e);
        },
    };
    let (client_needs_to_request_subchunks, at_f) = match get_bool(bytes, at_e) {
        Ok(found) => found,
        Err(e) => {
            return Err(e);
        },
    };
    let (client_request_subchunk_limit, next) = match get_var_i32(bytes, at_f) {
        Ok(found) => found,
        Err(e) => {
            return Err(e);
        },
    };
    Ok(
        (
            GamePacket::LevelChunk {
                chunk_position,
                dimension_id,
                sub_chunk_count,
                cache_enabled,
                serialized_chunk_data,
                client_needs_to_request_subchunks,
                client_request_subchunk_limit,
            },
            next,
        ),
    )
}

/// Reads the fields of a chunk publisher update at `pos`.
fn get_chunk_publisher_update(bytes: &[u8], pos: usize) -> (r: Result<
    (GamePacket, usize),
    FrameError,
>)
    ensures
        match r {
            Ok((v, next)) => parse_chunk_publisher_update(bytes@, pos as int) == Ok::<
                (PacketView, int),
                FrameError,
            >((v@, next as int)) && next <= bytes.len() && encodable(v@),
            Err(e) => parse_chunk_publisher_update(bytes@, pos as int) == Err::<
                (PacketView, int),
                FrameError,
            >(e),
        },
{
    let (x, at_a) = match get_var_i32(bytes, pos) {
        Ok(found) => found,
        Err(e) => {
            return Err(e);
        },
    };
    let (y, at_b) = match get_var_i32(bytes, at_a) {
        Ok(found) => found,
        Err(e) => {
            return Err(e);
        },
    };
    let (z, at_c) = match get_var_i32(bytes, at_b) {
        Ok(found) => found,
        Err(e) => {
            return Err(e);
        },
    };
    let (radius, at_d) = match get_var_u32(bytes, at_c) {
        Ok(found) => found,
        Err(e) => {
            return Err(e);
        },
    };
    let (count, at_e) = match get_var_u32(bytes, at_d) {
        Ok(found) => found,
        Err(e) => {
            return Err(e);
        },
    };
    let (saved_chunks, next) = match get_positions(bytes, at_e, count) {
        Ok(found) => found,
        Err(e) => {
            return Err(e);
        },
    };
    Ok(
        (
            GamePacket::ChunkPublisherUpdate {
                position: BlockPosition { x, y, z },
                radius,
                saved_chunks,
            },
            next,
        ),
    )
}

/// Reads the fields of a packet violation warning at `pos`.
fn get_packet_violation_warning(bytes: &[u8], pos: usize) -> (r: Result<
    (GamePacket, usize),
    FrameError,
>)
    ensures
        match r {
            Ok((v, next)) => parse_packet_violation_warning(bytes@, pos as int) == Ok::<
                (PacketView, int),
                FrameError,
            >((v@, next as int)) && next <= bytes.len() && encodable(v@),
            Err(e) => parse_packet_violation_warning(bytes@, pos as int) == Err::<
                (PacketView, int),
                FrameError,
            >(e),
        },
{
    let (kind, at_a) = match get_var_i32(bytes, pos) {
        Ok(found) => found,
        Err(e) => {
            return Err(e);
        },
    };
    let (severity, at_b) = match get_var_i32(bytes, at_a) {
        Ok(found) => found,
        Err(e) => {
            return Err(e);
        },
    };
    let (violating_packet_id, at_c) = match get_var_i32(bytes, at_b) {
        Ok(found) => found,
        Err(e) => {
            return Err(e);
        },
    };
    let (context, next) = match get_text(bytes, at_c) {
        Ok(found) => found,
        Err(e) => {
            return Err(e);
        },
    };
    Ok((GamePacket::PacketViolationWarning { kind, severity, violating_packet_id, context }, next))
}

/// Reads the fields of a packet of the kind `id` at `pos`.
fn get_body(id: u32, bytes: &[u8], pos: usize) -> (r: Result<(GamePacket, usize), FrameError>)
    ensures
        match r {
            Ok((v, next)) => parse_body(id, bytes@, pos as int) == Ok::<
                (PacketView, int),
                FrameError,
            >((v@, next as int)) && next <= bytes.len() && encodable(v@),
            Err(e) => parse_body(id, bytes@, pos as int) == Err::<(PacketView, int), FrameError>(e),
        },
{
    if id == ID_CLIENT_INTENT {
        match get_fixed_u32(bytes, pos) {
            Err(e) => Err(e),
            Ok((protocol_version, next)) => Ok((GamePacket::ClientIntent { protocol_version }, next)),
        }
    } else if id == ID_IDENTITY_CHAIN {
        get_identity_chain(bytes, pos)
    } else if id == ID_CLIENT_DATA {
        get_client_data(bytes, pos)
    } else if id == ID_SET_LOCAL_PLAYER_AS_INITIALIZED {
        match get_var_u32(bytes, pos) {
            Err(e) => Err(e),
            Ok((runtime_id, next)) => Ok(
                (GamePacket::SetLocalPlayerAsInitialized { runtime_id }, next),
            ),
        }
    } else if id == ID_REQUEST_CHUNK_RADIUS {
        get_request_chunk_radius(bytes, pos)
    } else if id == ID_CHUNK_RADIUS_UPDATED {
        match get_var_i32(bytes, pos) {
            Err(e) => Err(e),
            Ok((chunk_radius, next)) => Ok((GamePacket::ChunkRadiusUpdated { chunk_radius }, next)),
        }
    } else if id == ID_LEVEL_CHUNK {
        get_level_chunk(bytes, pos)
    } else if id == ID_CHUNK_PUBLISHER_UPDATE {
        get_chunk_publisher_update(bytes, pos)
    } else if id == ID_PACKET_VIOLATION_WARNING {
        get_packet_violation_warning(bytes, pos)
    } else {
        Err(FrameError::UnknownPacketId { id })
    }
}

impl GamePacket {
    /// The number that names the kind of this packet.
    pub fn id(&self) -> (id: u32)
        ensures
            id == packet_id(self@),
            is_known_id(id),
    {
        match self {
            GamePacket::ClientIntent { .. } => ID_CLIENT_INTENT,
            GamePacket::IdentityChain { .. } => ID_IDENTITY_CHAIN,
            GamePacket::ClientData { .. } => ID_CLIENT_DATA,
            GamePacket::SetLocalPlayerAsInitialized { .. } => ID_SET_LOCAL_PLAYER_AS_INITIALIZED,
            GamePacket::RequestChunkRadius { .. } => ID_REQUEST_CHUNK_RADIUS,
            GamePacket::ChunkRadiusUpdated { .. } => ID_CHUNK_RADIUS_UPDATED,
            GamePacket::LevelChunk { .. } => ID_LEVEL_CHUNK,
            GamePacket::ChunkPublisherUpdate { .. } => ID_CHUNK_PUBLISHER_UPDATE,
            GamePacket::PacketViolationWarning { .. } => ID_PACKET_VIOLATION_WARNING,
        }
    }

    /// Whether the frame of this packet can be written.
    #[verifier::loop_isolation(false)]
    pub fn is_encodable(&self) -> (fits: bool)
        ensures
            fits == encodable(self@),
    {
        match self {
            GamePacket::IdentityChain { chain } => {
                if chain.links.len() > 0xFFFF_FFFF || chain.display_name.as_str().as_bytes().len()
                    > 0xFFFF_FFFF {
                    return false;
                }
                let ghost all = links_view(chain.links@);
                let mut k: usize = 0;
                while k < chain.links.len()
                    invariant
                        k <= chain.links.len(),
                        all == links_view(chain.links@),
                        forall|i: int|
                            0 <= i < k ==> (#[trigger] all[i]).issuer_key.len() <= u32::MAX
                                && all[i].subject_key.len() <= u32::MAX,
                    decreases chain.links.len() - k,
                {
                    if chain.links[k].issuer_key.len() > 0xFFFF_FFFF
                        || chain.links[k].subject_key.len() > 0xFFFF_FFFF {
                        assert(all[k as int].issuer_key.len() > u32::MAX
                            || all[k as int].subject_key.len() > u32::MAX);
                        return false;
                    }
                    k = k + 1;
                }
                true
            },
            GamePacket::ClientData { signer_key, device } => signer_key.len() <= 0xFFFF_FFFF
                && device.as_str().as_bytes().len() <= 0xFFFF_FFFF,
            GamePacket::LevelChunk { serialized_chunk_data, .. } => serialized_chunk_data.len()
                <= 0xFFFF_FFFF,
            GamePacket::ChunkPublisherUpdate { saved_chunks, .. } => saved_chunks.len()
                <= 0xFFFF_FFFF,
            GamePacket::PacketViolationWarning {
                context,
                ..
            } => context.as_str().as_bytes().len() <= 0xFFFF_FFFF,
            _ => true,
        }
    }

    /// The bytes of this packet's fields.
    fn body(&self) -> (body: Vec<u8>)
        requires
            encodable(self@),
        ensures
            body@ == body_wire(self@),
    {
        let mut body: Vec<u8> = Vec::new();
        match self {
            GamePacket::ClientIntent { protocol_version } => {
                put_fixed_u32(&mut body, *protocol_version);
                assert(body@ =~= le_bytes(*protocol_version as nat));
            },
            GamePacket::IdentityChain { chain } => {
                put_var_u32(&mut body, chain.links.len() as u32);
                assert(body@ =~= var_u32_wire(chain.links.len() as u32));
                assert forall|i: int| 0 <= i < chain.links.len() implies (
                #[trigger] chain.links[i]).issuer_key.len() <= u32::MAX
                    && chain.links[i].subject_key.len() <= u32::MAX by {
                    assert(links_view(chain.links@)[i] == chain.links[i]@);
                }
                put_links(&mut body, &chain.links);
                put_text(&mut body, chain.display_name.as_str());
            },
            GamePacket::ClientData { signer_key, device } => {
                put_blob(&mut body, signer_key);
                assert(body@ =~= blob_wire(signer_key@));
                put_text(&mut body, device.as_str());
            },
            GamePacket::SetLocalPlayerAsInitialized { runtime_id } => {
                put_var_u32(&mut body, *runtime_id);
                assert(body@ =~= var_u32_wire(*runtime_id));
            },
            GamePacket::RequestChunkRadius { chunk_radius, chunk_radius_max } => {
                put_var_i32(&mut body, *chunk_radius);
                assert(body@ =~= var_i32_wire(*chunk_radius));
                put_u8(&mut body, *chunk_radius_max);
            },
            GamePacket::ChunkRadiusUpdated { chunk_radius } => {
                put_var_i32(&mut body, *chunk_radius);
                assert(body@ =~= var_i32_wire(*chunk_radius));
            },
            GamePacket::LevelChunk {
                chunk_position,
                dimension_id,
                sub_chunk_count,
                cache_enabled,
                serialized_chunk_data,
                client_needs_to_request_subchunks,
                client_request_subchunk_limit,
            } => {
                put_var_i32(&mut body, chunk_position.x);
                put_var_i32(&mut body, chunk_position.z);
                assert(body@ =~= position_wire(*chunk_position));
                put_var_i32(&mut body, *dimension_id);
                put_var_u32(&mut body, *sub_chunk_count);
                put_bool(&mut body, *cache_enabled);
                put_blob(&mut body, serialized_chunk_data);
                put_bool(&mut body, *client_needs_to_request_subchunks);
                put_var_i32(&mut body, *client_request_subchunk_limit);
            },
            GamePacket::ChunkPublisherUpdate { position, radius, saved_chunks } => {
                put_var_i32(&mut body, position.x);
                assert(body@ =~= var_i32_wire(position.x));
                put_var_i32(&mut body, position.y);
                put_var_i32(&mut body, position.z);
                put_var_u32(&mut body, *radius);
                put_var_u32(&mut body, saved_chunks.len() as u32);
                put_positions(&mut body, saved_chunks);
            },
            GamePacket::PacketViolationWarning { kind, severity, violating_packet_id, context } => {
                put_var_i32(&mut body, *kind);
                assert(body@ =~= var_i32_wire(*kind));
                put_var_i32(&mut body, *severity);
                put_var_i32(&mut body, *violating_packet_id);
                put_text(&mut body, context.as_str());
            },
        }
        body
    }

    /// The frame of this packet.
    pub fn encode(&self) -> (out: Vec<u8>)
        requires
            encodable(self@),
        ensures
            out@ == packet_wire(self@),
    {
        let mut out: Vec<u8> = Vec::new();
        put_var_u32(&mut out, self.id());
        assert(out@ =~= var_u32_wire(packet_id(self@)));
        let mut body: Vec<u8> = self.body();
        out.append(&mut body);
        out
    }

    /// The packet that a frame holds.
    ///
    /// A frame of a kind that the engine does not know gives
    /// `UnknownPacketId`, whatever follows the kind; the frame can then be
    /// passed over, since the next frame begins where the transport says.
    pub fn decode(bytes: &[u8]) -> (r: Result<GamePacket, FrameError>)
        ensures
            match r {
                Ok(packet) => parse_packet(bytes@) == Ok::<PacketView, FrameError>(packet@)
                    && encodable(packet@),
                Err(e) => parse_packet(bytes@) == Err::<PacketView, FrameError>(e),
            },
    {
        let (id, pos) = match get_var_u32(bytes, 0) {
            Ok(found) => found,
            Err(e) => {
                return Err(e);
            },
        };
        match get_body(id, bytes, pos) {
            Err(e) => Err(e),
            Ok((packet, end)) => {
                if end == bytes.len() {
                    Ok(packet)
                } else {
                    Err(FrameError::FieldDecodeError)
                }
            },
        }
    }
}

/// Reading a chunk position where its bytes stand gives it back.
pub proof fn lemma_position_at(bytes: Seq<u8>, pos: int, position: ChunkPosition)
    requires
        holds_at(bytes, pos, position_wire(position)),
    ensures
        parse_position(bytes, pos) == Ok::<(ChunkPosition, int), FrameError>(
            (position, pos + position_wire(position).len()),
        ),
{
    lemma_holds_split(bytes, pos, var_i32_wire(position.x), var_i32_wire(position.z));
    lemma_var_i32_at(bytes, pos, position.x);
    lemma_var_i32_at(bytes, pos + var_i32_wire(position.x).len(), position.z);
}

/// Reading as many chunk positions as a list has where the list's bytes
/// stand gives the list back.
pub proof fn lemma_positions_at(bytes: Seq<u8>, pos: int, positions: Seq<ChunkPosition>)
    requires
        holds_at(bytes, pos, positions_wire(positions)),
    ensures
        parse_positions(bytes, pos, positions.len()) == Ok::<
            (Seq<ChunkPosition>, int),
            FrameError,
        >((positions, pos + positions_wire(positions).len())),
    decreases positions.len(),
{
    if positions.len() == 0 {
        assert(positions =~= Seq::<ChunkPosition>::empty());
    } else {
        let front = positions.drop_last();
        let last = positions.last();
        lemma_holds_split(bytes, pos, positions_wire(front), position_wire(last));
        lemma_positions_at(bytes, pos, front);
        lemma_position_at(bytes, pos + positions_wire(front).len(), last);
        assert(front.push(last) =~= positions);
    }
}

/// Reading a chain link where its bytes stand gives it back.
pub proof fn lemma_link_at(bytes: Seq<u8>, pos: int, link: ChainLinkView)
    requires
        holds_at(bytes, pos, link_wire(link)),
        link.issuer_key.len() <= u32::MAX,
        link.subject_key.len() <= u32::MAX,
    ensures
        parse_link(bytes, pos) == Ok::<(ChainLinkView, int), FrameError>(
            (link, pos + link_wire(link).len()),
        ),
{
    lemma_holds_split(bytes, pos, blob_wire(link.issuer_key), blob_wire(link.subject_key));
    lemma_blob_at(bytes, pos, link.issuer_key);
    lemma_blob_at(bytes, pos + blob_wire(link.issuer_key).len(), link.subject_key);
}

/// Reading as many chain links as a chain has where the chain's bytes stand
/// gives the links back.
pub proof fn lemma_links_at(bytes: Seq<u8>, pos: int, links: Seq<ChainLinkView>)
    requires
        holds_at(bytes, pos, links_wire(links)),
        forall|i: int|
            0 <= i < links.len() ==> (#[trigger] links[i]).issuer_key.len() <= u32::MAX
                && links[i].subject_key.len() <= u32::MAX,
    ensures
        parse_links(bytes, pos, links.len()) == Ok::<(Seq<ChainLinkView>, int), FrameError>(
            (links, pos + links_wire(links).len()),
        ),
    decreases links.len(),
{
    if links.len() == 0 {
        assert(links =~= Seq::<ChainLinkView>::empty());
    } else {
        let front = links.drop_last();
        let last = links.last();
        lemma_holds_split(bytes, pos, links_wire(front), link_wire(last));
        assert forall|i: int| 0 <= i < front.len() implies (#[trigger] front[i]).issuer_key.len()
            <= u32::MAX && front[i].subject_key.len() <= u32::MAX by {
            assert(front[i] == links[i]);
        }
        lemma_links_at(bytes, pos, front);
        lemma_link_at(bytes, pos + links_wire(front).len(), last);
        assert(front.push(last) =~= links);
    }
}

/// Reading an identity chain where its fields stand gives it back.
proof fn lemma_identity_chain_at(bytes: Seq<u8>, pos: int, chain: IdentityChainView)
    requires
        encodable(PacketView::IdentityChain { chain }),
        holds_at(bytes, pos, body_wire(PacketView::IdentityChain { chain })),
    ensures
        parse_identity_chain(bytes, pos) == Ok::<(PacketView, int), FrameError>(
            (
                PacketView::IdentityChain { chain },
                pos + body_wire(PacketView::IdentityChain { chain }).len(),
            ),
        ),
{
    let count = var_u32_wire(chain.links.len() as u32);
    let links = links_wire(chain.links);
    let name = text_wire(chain.display_name);
    lemma_holds_split(bytes, pos, count + links, name);
    lemma_holds_split(bytes, pos, count, links);
    lemma_var_u32_at(bytes, pos, chain.links.len() as u32);
    lemma_links_at(bytes, pos + count.len(), chain.links);
    lemma_text_at(bytes, pos + count.len() + links.len(), chain.display_name);
}

/// Reading the client's data where its fields stand gives it back.
proof fn lemma_client_data_at(bytes: Seq<u8>, pos: int, signer_key: Seq<u8>, device: Seq<char>)
    requires
        encodable(PacketView::ClientData { signer_key, device }),
        holds_at(bytes, pos, body_wire(PacketView::ClientData { signer_key, device })),
    ensures
        parse_client_data(bytes, pos) == Ok::<(PacketView, int), FrameError>(
            (
                PacketView::ClientData { signer_key, device },
                pos + body_wire(PacketView::ClientData { signer_key, device }).len(),
            ),
        ),
{
    lemma_holds_split(bytes, pos, blob_wire(signer_key), text_wire(device));
    lemma_blob_at(bytes, pos, signer_key);
    lemma_text_at(bytes, pos + blob_wire(signer_key).len(), device);
}

/// Reading a level chunk where its fields stand gives it back.
proof fn lemma_level_chunk_at(bytes: Seq<u8>, pos: int, packet: PacketView)
    requires
        packet is LevelChunk,
        encodable(packet),
        holds_at(bytes, pos, body_wire(packet)),
    ensures
        parse_level_chunk(bytes, pos) == Ok::<(PacketView, int), FrameError>(
            (packet, pos + body_wire(packet).len()),
        ),
{
    let a = position_wire(packet->chunk_position);
    let b = var_i32_wire(packet->dimension_id);
    let c = var_u32_wire(packet->sub_chunk_count);
    let d = bool_wire(packet->cache_enabled);
    let e = blob_wire(packet->serialized_chunk_data);
    let f = bool_wire(packet->client_needs_to_request_subchunks);
    let g = var_i32_wire(packet->client_request_subchunk_limit);
    lemma_holds_split(bytes, pos, a + b + c + d + e + f, g);
    lemma_holds_split(bytes, pos, a + b + c + d + e, f);
    lemma_holds_split(bytes, pos, a + b + c + d, e);
    lemma_holds_split(bytes, pos, a + b + c, d);
    lemma_holds_split(bytes, pos, a + b, c);
    lemma_holds_split(bytes, pos, a, b);
    let at_a = pos + a.len();
    let at_b = at_a + b.len();
    let at_c = at_b + c.len();
    let at_d = at_c + d.len();
    let at_e = at_d + e.len();
    let at_f = at_e + f.len();
    lemma_position_at(bytes, pos, packet->chunk_position);
    lemma_var_i32_at(bytes, at_a, packet->dimension_id);
    lemma_var_u32_at(bytes, at_b, packet->sub_chunk_count);
    lemma_bool_at(bytes, at_c, packet->cache_enabled);
    lemma_blob_at(bytes, at_d, packet->serialized_chunk_data);
    lemma_bool_at(bytes, at_e, packet->client_needs_to_request_subchunks);
    lemma_var_i32_at(bytes, at_f, packet->client_request_subchunk_limit);
}

/// Reading a chunk publisher update where its fields stand gives it back.
proof fn lemma_chunk_publisher_update_at(bytes: Seq<u8>, pos: int, packet: PacketView)
    requires
        packet is ChunkPublisherUpdate,
        encodable(packet),
        holds_at(bytes, pos, body_wire(packet)),
    ensures
        parse_chunk_publisher_update(bytes, pos) == Ok::<(PacketView, int), FrameError>(
            (packet, pos + body_wire(packet).len()),
        ),
{
    let position = packet->position;
    let saved = packet->saved_chunks;
    let a = var_i32_wire(position.x);
    let b = var_i32_wire(position.y);
    let c = var_i32_wire(position.z);
    let d = var_u32_wire(packet->radius);
    let e = var_u32_wire(saved.len() as u32);
    let f = positions_wire(saved);
    lemma_holds_split(bytes, pos, a + b + c + d + e, f);
    lemma_holds_split(bytes, pos, a + b + c + d, e);
    lemma_holds_split(bytes, pos, a + b + c, d);
    lemma_holds_split(bytes, pos, a + b, c);
    lemma_holds_split(bytes, pos, a, b);
    let at_a = pos + a.len();
    let at_b = at_a + b.len();
    let at_c = at_b + c.len();
    let at_d = at_c + d.len();
    let at_e = at_d + e.len();
    lemma_var_i32_at(bytes, pos, position.x);
    lemma_var_i32_at(bytes, at_a, position.y);
    lemma_var_i32_at(bytes, at_b, position.z);
    lemma_var_u32_at(bytes, at_c, packet->radius);
    lemma_var_u32_at(bytes, at_d, saved.len() as u32);
    lemma_positions_at(bytes, at_e, saved);
}

/// Reading a packet violation warning where its fields stand gives it
/// back.
proof fn lemma_packet_violation_warning_at(bytes: Seq<u8>, pos: int, packet: PacketView)
    requires
        packet is PacketViolationWarning,
        encodable(packet),
        holds_at(bytes, pos, body_wire(packet)),
    ensures
        parse_packet_violation_warning(bytes, pos) == Ok::<(PacketView, int), FrameError>(
            (packet, pos + body_wire(packet).len()),
        ),
{
    let a = var_i32_wire(packet->kind);
    let b = var_i32_wire(packet->severity);
    let c = var_i32_wire(packet->violating_packet_id);
    let d = text_wire(packet->context);
    lemma_holds_split(bytes, pos, a + b + c, d);
    lemma_holds_split(bytes, pos, a + b, c);
    lemma_holds_split(bytes, pos, a, b);
    let at_a = pos + a.len();
    let at_b = at_a + b.len();
    let at_c = at_b + c.len();
    lemma_var_i32_at(bytes, pos, packet->kind);
    lemma_var_i32_at(bytes, at_a, packet->severity);
    lemma_var_i32_at(bytes, at_b, packet->violating_packet_id);
    lemma_text_at(bytes, at_c, packet->context);
}

/// Where the input holds the fields of a packet at `pos`, reading the
/// fields of a packet of that kind gives the packet back.
pub proof fn lemma_body_at(bytes: Seq<u8>, pos: int, packet: PacketView)
    requires
        encodable(packet),
        holds_at(bytes, pos, body_wire(packet)),
    ensures
        parse_body(packet_id(packet), bytes, pos) == Ok::<(PacketView, int), FrameError>(
            (packet, pos + body_wire(packet).len()),
        ),
{
    match packet {
        PacketView::ClientIntent { protocol_version } => {
            lemma_fixed_u32_at(bytes, pos, protocol_version);
        },
        PacketView::IdentityChain { chain } => {
            lemma_identity_chain_at(bytes, pos, chain);
        },
        PacketView::ClientData { signer_key, device } => {
            lemma_client_data_at(bytes, pos, signer_key, device);
        },
        PacketView::SetLocalPlayerAsInitialized { runtime_id } => {
            lemma_var_u32_at(bytes, pos, runtime_id);
        },
        PacketView::RequestChunkRadius { chunk_radius, chunk_radius_max } => {
            lemma_holds_split(bytes, pos, var_i32_wire(chunk_radius), seq![chunk_radius_max]);
            lemma_var_i32_at(bytes, pos, chunk_radius);
            lemma_u8_at(bytes, pos + var_i32_wire(chunk_radius).len(), chunk_radius_max);
        },
        PacketView::ChunkRadiusUpdated { chunk_radius } => {
            lemma_var_i32_at(bytes, pos, chunk_radius);
        },
        PacketView::LevelChunk { .. } => {
            lemma_level_chunk_at(bytes, pos, packet);
        },
        PacketView::ChunkPublisherUpdate { .. } => {
            lemma_chunk_publisher_update_at(bytes, pos, packet);
        },
        PacketView::PacketViolationWarning { .. } => {
            lemma_packet_violation_warning_at(bytes, pos, packet);
        },
    }
}

/// Decoding the frame of a packet gives the packet back.
pub proof fn lemma_decode_encode(packet: PacketView)
    requires
        encodable(packet),
    ensures
        parse_packet(packet_wire(packet)) == Ok::<PacketView, FrameError>(packet),
{
    let bytes = packet_wire(packet);
    let kind = var_u32_wire(packet_id(packet));
    lemma_holds_itself(bytes);
    lemma_holds_split(bytes, 0, kind, body_wire(packet));
    lemma_var_u32_at(bytes, 0, packet_id(packet));
    lemma_body_at(bytes, kind.len() as int, packet);
}

/// A frame of a kind that the engine does not know is refused with that
/// kind, whatever follows it.
pub proof fn lemma_unknown_kind(bytes: Seq<u8>, id: u32)
    requires
        !is_known_id(id),
        holds_at(bytes, 0, var_u32_wire(id)),
    ensures
        parse_packet(bytes) == Err::<PacketView, FrameError>(FrameError::UnknownPacketId { id }),
{
    lemma_var_u32_at(bytes, 0, id);
}

} // verus!
