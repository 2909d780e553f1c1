//! What the server does with the packets of a client that has logged in.
//!
//! The decisions are taken here; sleeping, sending and logging are left to
//! whoever runs the connection.

use crate::entry::BlockPaletteEntry;
use crate::packet::{BlockPosition, ChunkPosition, GamePacket, PacketView, packets_view};
use crate::packing::CELL_COUNT;
use crate::palette::{PalettedStorage, StorageView, storage_wire, valid_storage};
use vstd::prelude::*;
use vstd::slice::slice_to_vec;
use vstd::utf8::{encode_utf8, is_ascii_chars, is_ascii_chars_encode_utf8};

verus! {

/// The number of ticks in a second.
pub const TICKS_PER_SECOND: u64 = 20;

/// The time between two ticks of a connection, in milliseconds.
pub const TICK_INTERVAL_MS: u64 = 1000 / TICKS_PER_SECOND;

/// How many packets may wait in the queue of a connection.
pub const OUTBOUND_CAPACITY: usize = 256;

/// How long the server waits before it sends the first chunks, in
/// milliseconds.
pub const SPAWN_DELAY_MS: u64 = 1000;

/// The chunks sent at first lie from `-SPAWN_RADIUS` up to, but without,
/// `SPAWN_RADIUS` along both axes.
pub const SPAWN_RADIUS: i32 = 8;

/// The number of chunks in a row of the chunks sent at first.
pub const SPAWN_SIDE: usize = 16;

/// The number of chunks sent at first.
pub const SPAWN_CHUNKS: usize = 256;

/// The version of the sub-chunk format that a chunk's payload begins with.
pub const SUB_CHUNK_VERSION: u8 = 8;

/// The number of storages in a sub-chunk: further ones would hold water.
pub const STORAGE_LAYERS: u8 = 1;

/// The radius, in blocks, of the area that the client is told to keep.
pub const PUBLISHER_RADIUS: u32 = 16 * 16;

/// The number of cells in the bottom layer of a sub-chunk.
pub const LAYER_CELLS: usize = 16 * 16;

/// The storage of a sub-chunk whose first 256 cells are dirt and whose
/// other cells are air.
pub open spec fn flat_storage_view() -> StorageView {
    StorageView {
        blocks: Seq::new(
            CELL_COUNT as nat,
            |i: int|
                if i < LAYER_CELLS {
                    1u32
                } else {
                    0u32
                },
        ),
        palette: seq!["minecraft:air"@, "minecraft:dirt"@],
    }
}

/// The payload of a chunk made of one sub-chunk with one storage: the
/// format version, the number of storages, and the storage with its
/// palette.
pub open spec fn chunk_payload_wire(storage: StorageView) -> Seq<u8> {
    seq![SUB_CHUNK_VERSION, STORAGE_LAYERS] + storage_wire(storage, true)
}

/// The packet that carries `payload` as the chunk at `position`: one
/// sub-chunk of the overworld, not cached, with no limit on sub-chunk
/// requests.
pub open spec fn level_chunk_view(position: ChunkPosition, payload: Seq<u8>) -> PacketView {
    PacketView::LevelChunk {
        chunk_position: position,
        dimension_id: 0,
        sub_chunk_count: 1,
        cache_enabled: false,
        serialized_chunk_data: payload,
        client_needs_to_request_subchunks: false,
        client_request_subchunk_limit: -1i32,
    }
}

/// The packet that tells the client to keep the area around the origin.
pub open spec fn publisher_update_view() -> PacketView {
    PacketView::ChunkPublisherUpdate {
        position: BlockPosition { x: 0, y: 0, z: 0 },
        radius: PUBLISHER_RADIUS,
        saved_chunks: Seq::empty(),
    }
}

/// The position of the chunk with the given number among the chunks sent
/// at first: `x` changes every sixteen chunks, `z` with every chunk.
pub open spec fn spawn_position(index: int) -> ChunkPosition {
    ChunkPosition {
        x: (index / (SPAWN_SIDE as int) - SPAWN_RADIUS) as i32,
        z: (index % (SPAWN_SIDE as int) - SPAWN_RADIUS) as i32,
    }
}

/// The packets sent at first: the same payload as every chunk around the
/// origin, then the area that the client is to keep.
pub open spec fn spawn_packets_view(payload: Seq<u8>) -> Seq<PacketView> {
    Seq::new(
        (SPAWN_CHUNKS + 1) as nat,
        |index: int|
            if index < SPAWN_CHUNKS {
                level_chunk_view(spawn_position(index), payload)
            } else {
                publisher_update_view()
            },
    )
}

/// What the server does in answer to a packet.
#[derive(Debug, Clone, PartialEq, Eq)]
pub enum Reaction {
    /// Nothing.
    Nothing,
    /// Wait for `delay_ms`, then queue `packets` in their order.
    SendLater { delay_ms: u64, packets: Vec<GamePacket> },
    /// Queue `packet` and flush the queue at once.
    SendNow { packet: GamePacket },
    /// Warn that the client could not use a packet.
    ReportViolation { violating_packet_id: i32, severity: i32, kind: i32, context: String },
}

/// What a reaction holds.
pub enum ReactionView {
    Nothing,
    SendLater { delay_ms: u64, packets: Seq<PacketView> },
    SendNow { packet: PacketView },
    ReportViolation { violating_packet_id: i32, severity: i32, kind: i32, context: Seq<char> },
}

impl View for Reaction {
    type V = ReactionView;

    open spec fn view(&self) -> ReactionView {
        match *self {
            Reaction::Nothing => ReactionView::Nothing,
            Reaction::SendLater { delay_ms, packets } => ReactionView::SendLater {
                delay_ms,
                packets: packets_view(packets@),
            },
            Reaction::SendNow { packet } => ReactionView::SendNow { packet: packet@ },
            Reaction::ReportViolation {
                violating_packet_id,
                severity,
                kind,
                context,
            } => ReactionView::ReportViolation {
                violating_packet_id,
                severity,
                kind,
                context: context@,
            },
        }
    }
}

/// The server's answer to a packet. Once the client has loaded the world,
/// it gets the first chunks after a delay. A request for a chunk radius is
/// granted at once with the largest radius that the client allows. A
/// complaint is reported. Everything else goes unanswered.
pub open spec fn reaction_to(packet: PacketView) -> ReactionView {
    match packet {
        PacketView::SetLocalPlayerAsInitialized { .. } => ReactionView::SendLater {
            delay_ms: SPAWN_DELAY_MS,
            packets: spawn_packets_view(chunk_payload_wire(flat_storage_view())),
        },
        PacketView::RequestChunkRadius { chunk_radius_max, .. } => ReactionView::SendNow {
            packet: PacketView::ChunkRadiusUpdated { chunk_radius: chunk_radius_max as i32 },
        },
        PacketView::PacketViolationWarning {
            kind,
            severity,
            violating_packet_id,
            context,
        } => ReactionView::ReportViolation { violating_packet_id, severity, kind, context },
        _ => ReactionView::Nothing,
    }
}

/// The flat storage can be encoded.
pub proof fn lemma_flat_storage_is_valid()
    ensures
        valid_storage(flat_storage_view()),
{
    reveal_strlit("minecraft:air");
    reveal_strlit("minecraft:dirt");
    let air = "minecraft:air"@;
    let dirt = "minecraft:dirt"@;
    assert(is_ascii_chars(air));
    assert(is_ascii_chars(dirt));
    is_ascii_chars_encode_utf8(air);
    is_ascii_chars_encode_utf8(dirt);
    let s = flat_storage_view();
    assert forall|k: int| 0 <= k < s.palette.len() implies encode_utf8(#[trigger] s.palette[k]).len()
        <= u32::MAX by {
        if k == 0 {
            assert(s.palette[k] == air);
        } else {
            assert(s.palette[k] == dirt);
        }
    }
}

/// The storage of a sub-chunk whose first 256 cells are dirt and whose
/// other cells are air.
pub fn flat_storage() -> (storage: PalettedStorage)
    ensures
        storage@ == flat_storage_view(),
        valid_storage(storage@),
{
    let mut palette: Vec<BlockPaletteEntry> = Vec::new();
    palette.push(BlockPaletteEntry::new("minecraft:air"));
    palette.push(BlockPaletteEntry::new("minecraft:dirt"));
    let mut blocks: Vec<u32> = Vec::new();
    let mut i: usize = 0;
    while i < CELL_COUNT
        invariant
            i <= CELL_COUNT,
            blocks.len() == i,
            forall|k: int|
                0 <= k < i ==> blocks[k] == if k < LAYER_CELLS {
                    1u32
                } else {
                    0u32
                },
        decreases CELL_COUNT - i,
    {
        blocks.push(if i < LAYER_CELLS {
            1
        } else {
            0
        });
        i = i + 1;
    }
    let storage = PalettedStorage { blocks, palette };
    proof {
        lemma_flat_storage_is_valid();
        assert(storage@.blocks =~= flat_storage_view().blocks);
        assert(storage@.palette =~= flat_storage_view().palette);
    }
    storage
}

/// The payload of a chunk made of one sub-chunk that holds `storage`.
pub fn chunk_payload(storage: &PalettedStorage) -> (payload: Vec<u8>)
    requires
        valid_storage(storage@),
    ensures
        payload@ == chunk_payload_wire(storage@),
{
    let mut payload: Vec<u8> = Vec::new();
    payload.push(SUB_CHUNK_VERSION);
    payload.push(STORAGE_LAYERS);
    let mut encoded: Vec<u8> = storage.encode(true);
    payload.append(&mut encoded);
    assert(payload@ =~= chunk_payload_wire(storage@));
    payload
}

/// The packet that carries `payload` as the chunk at `position`.
pub fn level_chunk(position: ChunkPosition, payload: Vec<u8>) -> (packet: GamePacket)
    ensures
        packet@ == level_chunk_view(position, payload@),
{
    GamePacket::LevelChunk {
        chunk_position: position,
        dimension_id: 0,
        sub_chunk_count: 1,
        cache_enabled: false,
        serialized_chunk_data: payload,
        client_needs_to_request_subchunks: false,
        client_request_subchunk_limit: -1,
    }
}

/// The packets sent at first, all with the same payload.
pub fn spawn_packets(payload: &Vec<u8>) -> (packets: Vec<GamePacket>)
    ensures
        packets_view(packets@) == spawn_packets_view(payload@),
{
    let mut packets: Vec<GamePacket> = Vec::new();
    let mut index: usize = 0;
    while index < SPAWN_CHUNKS
        invariant
            index <= SPAWN_CHUNKS,
            packets.len() == index,
            forall|k: int|
                0 <= k < packets.len() ==> (#[trigger] packets[k])@ == level_chunk_view(
                    spawn_position(k),
                    payload@,
                ),
        decreases SPAWN_CHUNKS - index,
    {
        let x: i32 = (index / SPAWN_SIDE) as i32 - SPAWN_RADIUS;
        let z: i32 = (index % SPAWN_SIDE) as i32 - SPAWN_RADIUS;
        let copy: Vec<u8> = slice_to_vec(payload.as_slice());
        packets.push(level_chunk(ChunkPosition::new(x, z), copy));
        index = index + 1;
    }
    packets.push(
        GamePacket::ChunkPublisherUpdate {
            position: BlockPosition::new(0, 0, 0),
            radius: PUBLISHER_RADIUS,
            saved_chunks: Vec::new(),
        },
    );
    assert(packets_view(packets@) =~= spawn_packets_view(payload@));
    packets
}

/// The server's answer to a packet that a client sent after its handshake
/// was accepted.
pub fn react(packet: &GamePacket) -> (reaction: Reaction)
    ensures
        reaction@ == reaction_to(packet@),
{
    match packet {
        GamePacket::SetLocalPlayerAsInitialized { .. } => {
            let storage: PalettedStorage = flat_storage();
            let payload: Vec<u8> = chunk_payload(&storage);
            Reaction::SendLater { delay_ms: SPAWN_DELAY_MS, packets: spawn_packets(&payload) }
        },
        GamePacket::RequestChunkRadius { chunk_radius_max, .. } => Reaction::SendNow {
            packet: GamePacket::ChunkRadiusUpdated { chunk_radius: *chunk_radius_max as i32 },
        },
        GamePacket::PacketViolationWarning {
            kind,
            severity,
            violating_packet_id,
            context,
        } => Reaction::ReportViolation {
            violating_packet_id: *violating_packet_id,
            severity: *severity,
            kind: *kind,
            context: context.clone(),
        },
        _ => Reaction::Nothing,
    }
}

} // verus!
