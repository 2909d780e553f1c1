use rastra::frame::{ID_CHUNK_RADIUS_UPDATED, ID_CLIENT_INTENT, ID_LEVEL_CHUNK};
use rastra::packet::{BlockPosition, ChainLink, ChunkPosition, FrameError, GamePacket, IdentityChain};

fn samples() -> Vec<GamePacket> {
    vec![
        GamePacket::ClientIntent { protocol_version: 712 },
        GamePacket::ClientIntent { protocol_version: u32::MAX },
        GamePacket::IdentityChain {
            chain: IdentityChain {
                links: vec![
                    ChainLink { issuer_key: vec![1, 2, 3], subject_key: vec![4, 5] },
                    ChainLink { issuer_key: vec![4, 5], subject_key: vec![] },
                ],
                display_name: String::from("Ste\u{301}ve"),
            },
        },
        GamePacket::IdentityChain { chain: IdentityChain { links: vec![], display_name: String::new() } },
        GamePacket::ClientData { signer_key: vec![0xff; 300], device: String::from("phone") },
        GamePacket::SetLocalPlayerAsInitialized { runtime_id: 1 },
        GamePacket::RequestChunkRadius { chunk_radius: 12, chunk_radius_max: 32 },
        GamePacket::ChunkRadiusUpdated { chunk_radius: -1 },
        GamePacket::LevelChunk {
            chunk_position: ChunkPosition::new(-8, 7),
            dimension_id: 0,
            sub_chunk_count: 1,
            cache_enabled: false,
            serialized_chunk_data: vec![8, 1, 3, 0, 0],
            client_needs_to_request_subchunks: true,
            client_request_subchunk_limit: -1,
        },
        GamePacket::ChunkPublisherUpdate {
            position: BlockPosition::new(0, -64, i32::MAX),
            radius: 256,
            saved_chunks: vec![ChunkPosition::new(1, 2), ChunkPosition::new(i32::MIN, 0)],
        },
        GamePacket::ChunkPublisherUpdate { position: BlockPosition::new(0, 0, 0), radius: 0, saved_chunks: vec![] },
        GamePacket::PacketViolationWarning {
            kind: 1,
            severity: 2,
            violating_packet_id: 58,
            context: String::from("bad chunk"),
        },
    ]
}

#[test]
fn every_kind_of_packet_reads_back() {
    for packet in samples() {
        assert!(packet.is_encodable());
        let frame = packet.encode();
        assert_eq!(GamePacket::decode(&frame), Ok(packet));
    }
}

#[test]
fn a_frame_begins_with_the_kind_of_its_packet() {
    for packet in samples() {
        let frame = packet.encode();
        let id = packet.id();
        if id < 128 {
            assert_eq!(frame[0] as u32, id);
        } else {
            assert_eq!(frame[0] as u32, (id & 0x7f) | 0x80);
            assert_eq!(frame[1] as u32, id >> 7);
        }
    }
}

#[test]
fn packets_have_their_known_frames() {
    assert_eq!(ID_CHUNK_RADIUS_UPDATED, 70);
    assert_eq!(GamePacket::ChunkRadiusUpdated { chunk_radius: 32 }.encode(), vec![70, 64]);
    assert_eq!(GamePacket::ChunkRadiusUpdated { chunk_radius: -1 }.encode(), vec![70, 1]);
    assert_eq!(ID_CLIENT_INTENT, 193);
    assert_eq!(
        GamePacket::ClientIntent { protocol_version: 0x0102_0304 }.encode(),
        vec![0xc1, 0x01, 0x04, 0x03, 0x02, 0x01]
    );
    assert_eq!(
        GamePacket::RequestChunkRadius { chunk_radius: 1, chunk_radius_max: 200 }.encode(),
        vec![69, 2, 200]
    );
    assert_eq!(
        GamePacket::ClientData { signer_key: vec![7, 8], device: String::from("pc") }.encode(),
        vec![4, 2, 7, 8, 2, b'p', b'c']
    );
    assert_eq!(
        GamePacket::PacketViolationWarning { kind: 0, severity: -1, violating_packet_id: 64, context: String::from("\u{e9}") }
            .encode(),
        vec![0x9c, 0x01, 0, 1, 0x80, 0x01, 2, 0xc3, 0xa9]
    );
}

#[test]
fn a_level_chunk_has_its_fields_in_their_order() {
    assert_eq!(ID_LEVEL_CHUNK, 58);
    let packet = GamePacket::LevelChunk {
        chunk_position: ChunkPosition::new(-8, 7),
        dimension_id: 0,
        sub_chunk_count: 1,
        cache_enabled: false,
        serialized_chunk_data: vec![8, 1, 3],
        client_needs_to_request_subchunks: true,
        client_request_subchunk_limit: -1,
    };
    assert_eq!(packet.encode(), vec![58, 15, 14, 0, 1, 0, 3, 8, 1, 3, 1, 1]);
}

#[test]
fn lists_travel_as_their_length_and_their_items() {
    let update = GamePacket::ChunkPublisherUpdate {
        position: BlockPosition::new(0, 1, -1),
        radius: 256,
        saved_chunks: vec![ChunkPosition::new(1, 2), ChunkPosition::new(-1, 0)],
    };
    assert_eq!(update.encode(), vec![121, 0, 2, 1, 0x80, 0x02, 2, 2, 4, 1, 0]);
    let chain = GamePacket::IdentityChain {
        chain: IdentityChain {
            links: vec![ChainLink { issuer_key: vec![9], subject_key: vec![] }],
            display_name: String::from("A"),
        },
    };
    assert_eq!(chain.encode(), vec![1, 1, 1, 9, 0, 1, b'A']);
}

#[test]
fn a_frame_of_unknown_kind_is_refused_with_its_kind() {
    for id in [0u32, 2, 3, 5, 57, 59, 71, 200, 1000] {
        let mut frame = Vec::new();
        rastra::varint::write_u32(&mut frame, id);
        assert_eq!(GamePacket::decode(&frame), Err(FrameError::UnknownPacketId { id }));
        frame.extend_from_slice(&[1, 2, 3, 4, 5, 6]);
        assert_eq!(GamePacket::decode(&frame), Err(FrameError::UnknownPacketId { id }));
    }
}

#[test]
fn a_frame_cut_short_is_truncated() {
    for packet in samples() {
        let frame = packet.encode();
        for keep in 0..frame.len() {
            assert_eq!(GamePacket::decode(&frame[..keep]), Err(FrameError::TruncatedFrame), "{packet:?} kept {keep}");
        }
    }
}

#[test]
fn bytes_behind_the_last_field_are_a_bad_field() {
    for packet in samples() {
        let mut frame = packet.encode();
        frame.push(0);
        assert_eq!(GamePacket::decode(&frame), Err(FrameError::FieldDecodeError));
    }
}

#[test]
fn a_truth_value_is_zero_or_one() {
    let packet = GamePacket::LevelChunk {
        chunk_position: ChunkPosition::new(0, 0),
        dimension_id: 0,
        sub_chunk_count: 0,
        cache_enabled: true,
        serialized_chunk_data: vec![],
        client_needs_to_request_subchunks: false,
        client_request_subchunk_limit: 0,
    };
    let mut frame = packet.encode();
    assert_eq!(frame, vec![58, 0, 0, 0, 0, 1, 0, 0, 0]);
    frame[5] = 2;
    assert_eq!(GamePacket::decode(&frame), Err(FrameError::FieldDecodeError));
}

#[test]
fn text_that_is_not_utf8_is_a_bad_field() {
    let frame = vec![4, 0, 2, 0xc3, 0x28];
    assert_eq!(GamePacket::decode(&frame), Err(FrameError::FieldDecodeError));
}

#[test]
fn a_number_beyond_32_bits_is_a_bad_field() {
    let frame = vec![70, 0xff, 0xff, 0xff, 0xff, 0x7f];
    assert_eq!(GamePacket::decode(&frame), Err(FrameError::FieldDecodeError));
    let kind = vec![0xff, 0xff, 0xff, 0xff, 0x7f, 0];
    assert_eq!(GamePacket::decode(&kind), Err(FrameError::FieldDecodeError));
}

#[test]
fn a_list_that_claims_more_items_than_follow_is_truncated() {
    let frame = vec![121, 0, 0, 0, 0, 0xff, 0xff, 0xff, 0xff, 0x0f, 2, 2];
    assert_eq!(GamePacket::decode(&frame), Err(FrameError::TruncatedFrame));
    let blob = vec![4, 0xff, 0xff, 0xff, 0xff, 0x0f, 1, 2, 3];
    assert_eq!(GamePacket::decode(&blob), Err(FrameError::TruncatedFrame));
}

#[test]
fn handshake_packets_are_no_gameplay_packets() {
    for packet in samples() {
        let handshake = matches!(
            packet,
            GamePacket::ClientIntent { .. } | GamePacket::IdentityChain { .. } | GamePacket::ClientData { .. }
        );
        assert_eq!(packet.is_gameplay(), !handshake);
    }
}
