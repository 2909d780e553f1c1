//! The packets that the engine knows, as one closed sum type.

use vstd::prelude::*;

verus! {

/// Why a frame was not accepted as a packet.
#[derive(Debug, Clone, Copy, PartialEq, Eq, Structural)]
pub enum FrameError {
    /// The frame names a kind of packet that the engine does not know.
    UnknownPacketId { id: u32 },
    /// The frame ends before its fields do.
    TruncatedFrame,
    /// A field holds what its type does not allow, or bytes follow the last
    /// field.
    FieldDecodeError,
}

/// The place of a 16 by 16 column of blocks, counted in chunks.
#[derive(Debug, Clone, Copy, PartialEq, Eq, Structural)]
pub struct ChunkPosition {
    pub x: i32,
    pub z: i32,
}

impl ChunkPosition {
    /// The chunk at `x`, `z`.
    pub fn new(x: i32, z: i32) -> (pos: Self)
        ensures
            pos.x == x,
            pos.z == z,
    {
        ChunkPosition { x, z }
    }
}

/// The place of a block, counted in blocks.
#[derive(Debug, Clone, Copy, PartialEq, Eq, Structural)]
pub struct BlockPosition {
    pub x: i32,
    pub y: i32,
    pub z: i32,
}

impl BlockPosition {
    /// The block at `x`, `y`, `z`.
    pub fn new(x: i32, y: i32, z: i32) -> (pos: Self)
        ensures
            pos.x == x,
            pos.y == y,
            pos.z == z,
    {
        BlockPosition { x, y, z }
    }
}

/// One link of an identity chain: the key that signed it, and the key that
/// it vouches for.
#[derive(Debug, Clone, PartialEq, Eq)]
pub struct ChainLink {
    pub issuer_key: Vec<u8>,
    pub subject_key: Vec<u8>,
}

/// What a chain link holds.
pub struct ChainLinkView {
    pub issuer_key: Seq<u8>,
    pub subject_key: Seq<u8>,
}

impl View for ChainLink {
    type V = ChainLinkView;

    open spec fn view(&self) -> ChainLinkView {
        ChainLinkView { issuer_key: self.issuer_key@, subject_key: self.subject_key@ }
    }
}

/// What the links of a chain hold, in their order.
pub open spec fn links_view(links: Seq<ChainLink>) -> Seq<ChainLinkView> {
    Seq::new(links.len(), |i: int| links[i]@)
}

/// The chain of links that vouches for a client's key, and the name that
/// the chain claims for the player.
#[derive(Debug, Clone, PartialEq, Eq)]
pub struct IdentityChain {
    pub links: Vec<ChainLink>,
    pub display_name: String,
}

/// What an identity chain holds.
pub struct IdentityChainView {
    pub links: Seq<ChainLinkView>,
    pub display_name: Seq<char>,
}

impl View for IdentityChain {
    type V = IdentityChainView;

    open spec fn view(&self) -> IdentityChainView {
        IdentityChainView { links: links_view(self.links@), display_name: self.display_name@ }
    }
}

/// A packet of the protocol.
///
/// The first three kinds make up the login handshake; the others are
/// gameplay packets, which a connection may exchange only once its
/// handshake was accepted.
#[derive(Debug, Clone, PartialEq, Eq)]
pub enum GamePacket {
    /// The client's first request, with the protocol version that it
    /// speaks.
    ClientIntent { protocol_version: u32 },
    /// The chain that vouches for the client's key.
    IdentityChain { chain: IdentityChain },
    /// What the client reports of itself, with the key that signed the
    /// report.
    ClientData { signer_key: Vec<u8>, device: String },
    /// The client has loaded the world and takes part from now on.
    SetLocalPlayerAsInitialized { runtime_id: u32 },
    /// The client asks for chunks up to a distance.
    RequestChunkRadius { chunk_radius: i32, chunk_radius_max: u8 },
    /// The distance up to which the server will send chunks.
    ChunkRadiusUpdated { chunk_radius: i32 },
    /// The content of one chunk.
    LevelChunk {
        chunk_position: ChunkPosition,
        dimension_id: i32,
        sub_chunk_count: u32,
        cache_enabled: bool,
        serialized_chunk_data: Vec<u8>,
        client_needs_to_request_subchunks: bool,
        client_request_subchunk_limit: i32,
    },
    /// The area around a block in which the client keeps chunks.
    ChunkPublisherUpdate { position: BlockPosition, radius: u32, saved_chunks: Vec<ChunkPosition> },
    /// The client's complaint about a packet that it could not use.
    PacketViolationWarning { kind: i32, severity: i32, violating_packet_id: i32, context: String },
}

/// What a packet holds.
pub enum PacketView {
    ClientIntent { protocol_version: u32 },
    IdentityChain { chain: IdentityChainView },
    ClientData { signer_key: Seq<u8>, device: Seq<char> },
    SetLocalPlayerAsInitialized { runtime_id: u32 },
    RequestChunkRadius { chunk_radius: i32, chunk_radius_max: u8 },
    ChunkRadiusUpdated { chunk_radius: i32 },
    LevelChunk {
        chunk_position: ChunkPosition,
        dimension_id: i32,
        sub_chunk_count: u32,
        cache_enabled: bool,
        serialized_chunk_data: Seq<u8>,
        client_needs_to_request_subchunks: bool,
        client_request_subchunk_limit: i32,
    },
    ChunkPublisherUpdate { position: BlockPosition, radius: u32, saved_chunks: Seq<ChunkPosition> },
    PacketViolationWarning { kind: i32, severity: i32, violating_packet_id: i32, context: Seq<char> },
}

impl View for GamePacket {
    type V = PacketView;

    open spec fn view(&self) -> PacketView {
        match *self {
            GamePacket::ClientIntent { protocol_version } => PacketView::ClientIntent {
                protocol_version,
            },
            GamePacket::IdentityChain { chain } => PacketView::IdentityChain { chain: chain@ },
            GamePacket::ClientData { signer_key, device } => PacketView::ClientData {
                signer_key: signer_key@,
                device: device@,
            },
            GamePacket::SetLocalPlayerAsInitialized {
                runtime_id,
            } => PacketView::SetLocalPlayerAsInitialized { runtime_id },
            GamePacket::RequestChunkRadius {
                chunk_radius,
                chunk_radius_max,
            } => PacketView::RequestChunkRadius { chunk_radius, chunk_radius_max },
            GamePacket::ChunkRadiusUpdated { chunk_radius } => PacketView::ChunkRadiusUpdated {
                chunk_radius,
            },
            GamePacket::LevelChunk {
                chunk_position,
                dimension_id,
                sub_chunk_count,
                cache_enabled,
                serialized_chunk_data,
                client_needs_to_request_subchunks,
                client_request_subchunk_limit,
            } => PacketView::LevelChunk {
                chunk_position,
                dimension_id,
                sub_chunk_count,
                cache_enabled,
                serialized_chunk_data: serialized_chunk_data@,
                client_needs_to_request_subchunks,
                client_request_subchunk_limit,
            },
            GamePacket::ChunkPublisherUpdate {
                position,
                radius,
                saved_chunks,
            } => PacketView::ChunkPublisherUpdate { position, radius, saved_chunks: saved_chunks@ },
            GamePacket::PacketViolationWarning {
                kind,
                severity,
                violating_packet_id,
                context,
            } => PacketView::PacketViolationWarning {
                kind,
                severity,
                violating_packet_id,
                context: context@,
            },
        }
    }
}

/// What the packets of a queue or a batch hold, in their order.
pub open spec fn packets_view(packets: Seq<GamePacket>) -> Seq<PacketView> {
    Seq::new(packets.len(), |i: int| packets[i]@)
}

impl PacketView {
    /// Whether the packet belongs to the login handshake.
    pub open spec fn is_handshake(self) -> bool {
        self is ClientIntent || self is IdentityChain || self is ClientData
    }

    /// Whether the packet is a gameplay packet.
    pub open spec fn is_gameplay(self) -> bool {
        !self.is_handshake()
    }
}

impl GamePacket {
    /// Whether the packet is a gameplay packet, one that may travel only
    /// after the handshake.
    pub fn is_gameplay(&self) -> (gameplay: bool)
        ensures
            gameplay == self@.is_gameplay(),
    {
        match self {
            GamePacket::ClientIntent { .. } => false,
            GamePacket::IdentityChain { .. } => false,
            GamePacket::ClientData { .. } => false,
            _ => true,
        }
    }
}

} // verus!
