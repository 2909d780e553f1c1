use rastra::config::RAstraConfig;
use rastra::packet::{BlockPosition, ChunkPosition, GamePacket};
use rastra::palette::PalettedStorage;
use rastra::server::{
    chunk_payload, flat_storage, level_chunk, react, spawn_packets, Reaction, OUTBOUND_CAPACITY, PUBLISHER_RADIUS,
    SPAWN_CHUNKS, SPAWN_DELAY_MS, SPAWN_RADIUS, STORAGE_LAYERS, SUB_CHUNK_VERSION, TICK_INTERVAL_MS,
};
use rastra::shard::{Shard, ShardError};

#[test]
fn the_connection_ticks_twenty_times_a_second() {
    assert_eq!(TICK_INTERVAL_MS, 50);
    assert_eq!(OUTBOUND_CAPACITY, 256);
    assert_eq!(SPAWN_DELAY_MS, 1000);
    assert_eq!(PUBLISHER_RADIUS, 256);
}

#[test]
fn the_flat_storage_is_a_layer_of_dirt_under_air() {
    let storage = flat_storage();
    assert!(storage.is_valid());
    assert_eq!(storage.blocks.len(), 4096);
    assert!(storage.blocks[..256].iter().all(|&cell| cell == 1));
    assert!(storage.blocks[256..].iter().all(|&cell| cell == 0));
    let names: Vec<&str> = storage.palette.iter().map(|entry| entry.name.as_str()).collect();
    assert_eq!(names, vec!["minecraft:air", "minecraft:dirt"]);
}

#[test]
fn a_payload_is_version_layers_and_storage() {
    let storage = flat_storage();
    let payload = chunk_payload(&storage);
    assert_eq!(SUB_CHUNK_VERSION, 8);
    assert_eq!(STORAGE_LAYERS, 1);
    assert_eq!(&payload[..2], &[8, 1]);
    assert_eq!(&payload[2..], &storage.encode(true)[..]);
    let back = PalettedStorage::decode(&payload[2..], true).unwrap();
    assert_eq!(back.blocks, storage.blocks);
    assert_eq!(back.palette, storage.palette);
}

#[test]
fn a_level_chunk_carries_one_sub_chunk_of_the_overworld() {
    let packet = level_chunk(ChunkPosition::new(3, -4), vec![8, 1]);
    assert_eq!(
        packet,
        GamePacket::LevelChunk {
            chunk_position: ChunkPosition { x: 3, z: -4 },
            dimension_id: 0,
            sub_chunk_count: 1,
            cache_enabled: false,
            serialized_chunk_data: vec![8, 1],
            client_needs_to_request_subchunks: false,
            client_request_subchunk_limit: 0xFFFF_FFFFu32 as i32,
        }
    );
}

#[test]
fn the_first_chunks_lie_around_the_origin_row_by_row() {
    let payload = vec![8u8, 1, 3];
    let packets = spawn_packets(&payload);
    assert_eq!(SPAWN_RADIUS, 8);
    assert_eq!(SPAWN_CHUNKS, 256);
    assert_eq!(packets.len(), 257);
    let mut expected = Vec::new();
    for x in -8..8 {
        for z in -8..8 {
            expected.push(level_chunk(ChunkPosition::new(x, z), payload.clone()));
        }
    }
    assert_eq!(&packets[..256], &expected[..]);
    assert_eq!(packets[0], level_chunk(ChunkPosition::new(-8, -8), payload.clone()));
    assert_eq!(packets[1], level_chunk(ChunkPosition::new(-8, -7), payload.clone()));
    assert_eq!(packets[16], level_chunk(ChunkPosition::new(-7, -8), payload.clone()));
    assert_eq!(packets[255], level_chunk(ChunkPosition::new(7, 7), payload.clone()));
    assert_eq!(
        packets[256],
        GamePacket::ChunkPublisherUpdate { position: BlockPosition::new(0, 0, 0), radius: 16 * 16, saved_chunks: vec![] }
    );
}

#[test]
fn a_client_that_has_loaded_the_world_gets_the_first_chunks_after_a_second() {
    let reaction = react(&GamePacket::SetLocalPlayerAsInitialized { runtime_id: 5 });
    let payload = chunk_payload(&flat_storage());
    assert_eq!(reaction, Reaction::SendLater { delay_ms: 1000, packets: spawn_packets(&payload) });
    if let Reaction::SendLater { packets, .. } = reaction {
        for packet in &packets {
            assert!(packet.is_encodable());
            assert_eq!(GamePacket::decode(&packet.encode()).as_ref(), Ok(packet));
        }
    }
}

#[test]
fn a_request_for_a_radius_is_granted_at_once_with_the_largest_radius() {
    for (asked, largest) in [(4, 0u8), (8, 16), (64, 255), (-1, 1)] {
        let reaction = react(&GamePacket::RequestChunkRadius { chunk_radius: asked, chunk_radius_max: largest });
        assert_eq!(
            reaction,
            Reaction::SendNow { packet: GamePacket::ChunkRadiusUpdated { chunk_radius: largest as i32 } }
        );
    }
}

#[test]
fn a_complaint_is_reported() {
    let packet = GamePacket::PacketViolationWarning {
        kind: 1,
        severity: 2,
        violating_packet_id: 58,
        context: String::from("chunk"),
    };
    assert_eq!(
        react(&packet),
        Reaction::ReportViolation { violating_packet_id: 58, severity: 2, kind: 1, context: String::from("chunk") }
    );
}

#[test]
fn other_packets_go_unanswered() {
    let others = [
        GamePacket::ClientIntent { protocol_version: 1 },
        GamePacket::ClientData { signer_key: vec![], device: String::new() },
        GamePacket::ChunkRadiusUpdated { chunk_radius: 1 },
        level_chunk(ChunkPosition::new(0, 0), vec![]),
        GamePacket::ChunkPublisherUpdate { position: BlockPosition::new(0, 0, 0), radius: 1, saved_chunks: vec![] },
    ];
    for packet in others {
        assert_eq!(react(&packet), Reaction::Nothing);
    }
}

#[test]
fn the_first_chunks_fill_the_queue_and_one_more_must_wait() {
    let mut shard = Shard::new(TICK_INTERVAL_MS, OUTBOUND_CAPACITY, 0);
    let packets = spawn_packets(&chunk_payload(&flat_storage()));
    let mut sent = Vec::new();
    for packet in packets.iter().cloned() {
        if !shard.has_room() {
            assert_eq!(shard.send(packet.clone()), Err(ShardError::QueueFull));
            sent.extend(shard.flush());
        }
        assert_eq!(shard.send(packet), Ok(()));
    }
    sent.extend(shard.tick(TICK_INTERVAL_MS).unwrap());
    assert_eq!(sent, packets);
}

#[test]
fn the_settings_have_their_defaults() {
    let config = RAstraConfig::default();
    assert_eq!(config.display_name, "Dedicated Server");
    assert_eq!(config.display_sub_name, "RAstra");
    assert_eq!(config.threads, 4);
    assert!(config.log_to_file);
    assert_eq!(config.logs_directory, "logs");
    assert_eq!(config.resource_packs_directory, "resource_packs");
    assert_eq!(config.behavior_packs_directory, "behavior_packs");
    assert_eq!(config.level_name, "Bedrock Level");
    assert_eq!(config.level_seed, 0);
}

#[test]
fn the_directories_are_made_in_their_order() {
    let mut config = RAstraConfig::default();
    assert_eq!(config.required_directories(), vec!["logs", "resource_packs", "behavior_packs"]);
    config.logs_directory = String::from("/var/log/rastra");
    assert_eq!(config.required_directories(), vec!["/var/log/rastra", "resource_packs", "behavior_packs"]);
}
