use rastra::handshake::{DefaultLoginProvider, HandshakeState, Identity, IdentityProvider, InvalidIdentity, RejectReason};
use rastra::packet::{ChainLink, FrameError, GamePacket, IdentityChain};
use rastra::shard::{Shard, ShardError};

struct Refusing;

impl IdentityProvider for Refusing {
    fn verify(&self, _chain: &IdentityChain) -> Result<Identity, InvalidIdentity> {
        Err(InvalidIdentity)
    }
}

fn radius(chunk_radius: i32) -> GamePacket {
    GamePacket::ChunkRadiusUpdated { chunk_radius }
}

fn login_frames() -> Vec<Vec<u8>> {
    let chain = IdentityChain {
        links: vec![ChainLink { issuer_key: vec![1], subject_key: vec![2] }],
        display_name: String::from("Alex"),
    };
    vec![
        GamePacket::ClientIntent { protocol_version: 712 }.encode(),
        GamePacket::IdentityChain { chain }.encode(),
        GamePacket::ClientData { signer_key: vec![2], device: String::from("pc") }.encode(),
    ]
}

fn logged_in() -> Shard {
    let mut shard = Shard::new(50, 256, 0);
    for frame in login_frames() {
        assert_eq!(shard.receive_frame(&frame, &DefaultLoginProvider::new()), Ok(None));
    }
    assert!(shard.handshake().is_accepted());
    shard
}

#[test]
fn a_new_shard_is_open_and_empty() {
    let shard = Shard::new(50, 256, 1_000);
    assert_eq!(shard.handshake(), &HandshakeState::AwaitingClientIntent);
    assert_eq!(shard.identity(), None);
    assert_eq!(shard.closed(), None);
    assert_eq!(shard.queued(), 0);
    assert!(shard.has_room());
    assert!(!shard.tick_due(1_000));
    assert!(!shard.tick_due(1_049));
    assert!(shard.tick_due(1_050));
    assert!(!shard.tick_due(0));
}

#[test]
fn three_sends_leave_with_the_tick_as_one_batch_in_order() {
    let mut shard = Shard::new(50, 256, 1_000);
    assert_eq!(shard.send(radius(1)), Ok(()));
    assert_eq!(shard.send(radius(2)), Ok(()));
    assert_eq!(shard.send(radius(3)), Ok(()));
    assert_eq!(shard.queued(), 3);
    assert_eq!(shard.tick(1_020), None);
    assert_eq!(shard.tick(1_049), None);
    assert_eq!(shard.queued(), 3);
    assert_eq!(shard.tick(1_050), Some(vec![radius(1), radius(2), radius(3)]));
    assert_eq!(shard.queued(), 0);
    assert_eq!(shard.tick(1_050), None);
    assert_eq!(shard.tick(1_100), None);
}

#[test]
fn the_clock_is_set_by_every_tick_that_is_due() {
    let mut shard = Shard::new(50, 256, 0);
    assert_eq!(shard.tick(70), None);
    assert_eq!(shard.send(radius(1)), Ok(()));
    assert_eq!(shard.tick(119), None);
    assert_eq!(shard.tick(120), Some(vec![radius(1)]));
    assert_eq!(shard.send(radius(2)), Ok(()));
    assert_eq!(shard.tick(10), None);
    assert_eq!(shard.tick(u64::MAX), Some(vec![radius(2)]));
}

#[test]
fn a_flush_does_not_wait_for_the_tick() {
    let mut shard = Shard::new(50, 256, 0);
    assert_eq!(shard.flush(), Vec::new());
    for n in 0..5 {
        assert_eq!(shard.send(radius(n)), Ok(()));
    }
    assert_eq!(shard.flush(), (0..5).map(radius).collect::<Vec<_>>());
    assert_eq!(shard.queued(), 0);
    assert_eq!(shard.tick(50), None);
    assert!(!shard.tick_due(60));
}

#[test]
fn a_full_queue_takes_no_more() {
    let mut shard = Shard::new(50, 2, 0);
    assert_eq!(shard.send(radius(1)), Ok(()));
    assert!(shard.has_room());
    assert_eq!(shard.send(radius(2)), Ok(()));
    assert!(!shard.has_room());
    assert_eq!(shard.send(radius(3)), Err(ShardError::QueueFull));
    assert_eq!(shard.queued(), 2);
    assert_eq!(shard.flush(), vec![radius(1), radius(2)]);
    assert_eq!(shard.send(radius(3)), Ok(()));
    let mut none = Shard::new(50, 0, 0);
    assert_eq!(none.send(radius(1)), Err(ShardError::QueueFull));
}

#[test]
fn the_handshake_takes_the_first_frames() {
    let mut shard = Shard::new(50, 256, 0);
    let frames = login_frames();
    assert_eq!(shard.receive_frame(&frames[0], &DefaultLoginProvider::new()), Ok(None));
    assert_eq!(shard.handshake(), &HandshakeState::AwaitingIdentityChain);
    assert_eq!(shard.receive_frame(&frames[1], &DefaultLoginProvider::new()), Ok(None));
    assert_eq!(shard.identity(), None);
    assert_eq!(shard.receive_frame(&frames[2], &DefaultLoginProvider::new()), Ok(None));
    assert_eq!(shard.identity(), Some(&Identity { display_name: String::from("Alex"), public_key: vec![2] }));
    assert_eq!(shard.closed(), None);
}

#[test]
fn gameplay_packets_are_delivered_once_the_handshake_was_accepted() {
    let mut shard = logged_in();
    let packet = GamePacket::RequestChunkRadius { chunk_radius: 8, chunk_radius_max: 16 };
    assert_eq!(shard.receive_frame(&packet.encode(), &DefaultLoginProvider::new()), Ok(Some(packet.clone())));
    assert_eq!(shard.receive(Ok(packet.clone()), &Refusing), Ok(Some(packet)));
    assert_eq!(shard.closed(), None);
}

#[test]
fn a_gameplay_packet_before_acceptance_closes_the_shard() {
    let provider = DefaultLoginProvider::new();
    let gameplay = GamePacket::SetLocalPlayerAsInitialized { runtime_id: 1 }.encode();
    for steps in 0..3 {
        let mut shard = Shard::new(50, 256, 0);
        for frame in login_frames().iter().take(steps) {
            assert_eq!(shard.receive_frame(frame, &provider), Ok(None));
        }
        assert_eq!(shard.send(radius(1)), Ok(()));
        let error = ShardError::Rejected { reason: RejectReason::OutOfOrder };
        assert_eq!(shard.receive_frame(&gameplay, &provider), Err(error));
        assert_eq!(shard.closed(), Some(error));
        assert_eq!(shard.handshake().rejection(), Some(RejectReason::OutOfOrder));
        assert_eq!(shard.queued(), 0);
        assert_eq!(shard.receive_frame(&login_frames()[0], &provider), Err(error));
        assert_eq!(shard.send(radius(2)), Err(error));
    }
}

#[test]
fn a_rejected_handshake_closes_the_shard() {
    let mut shard = Shard::new(50, 256, 0);
    let frames = login_frames();
    assert_eq!(shard.receive_frame(&frames[0], &Refusing), Ok(None));
    let error = ShardError::Rejected { reason: RejectReason::AuthError };
    assert_eq!(shard.receive_frame(&frames[1], &Refusing), Err(error));
    assert_eq!(shard.closed(), Some(error));
    let mut shard = Shard::new(50, 256, 0);
    let error = ShardError::Rejected { reason: RejectReason::ProtocolError };
    assert_eq!(shard.receive_frame(&frames[2], &DefaultLoginProvider::new()), Err(error));
    assert_eq!(shard.closed(), Some(error));
}

#[test]
fn a_frame_that_cannot_be_decoded_closes_the_shard() {
    let provider = DefaultLoginProvider::new();
    let mut early = Shard::new(50, 256, 0);
    assert_eq!(early.receive_frame(&[193, 1, 0], &provider), Err(ShardError::DecodeError));
    assert_eq!(early.closed(), Some(ShardError::DecodeError));
    assert_eq!(early.handshake().rejection(), Some(RejectReason::ProtocolError));
    let mut late = logged_in();
    assert_eq!(late.send(radius(1)), Ok(()));
    assert_eq!(late.receive_frame(&[70], &provider), Err(ShardError::DecodeError));
    assert_eq!(late.receive(Err(FrameError::FieldDecodeError), &provider), Err(ShardError::DecodeError));
    assert!(late.handshake().is_accepted());
    assert_eq!(late.queued(), 0);
    let good = radius(1).encode();
    assert_eq!(late.receive_frame(&good, &provider), Err(ShardError::DecodeError));
}

#[test]
fn a_frame_of_unknown_kind_is_passed_over() {
    let provider = DefaultLoginProvider::new();
    let mut early = Shard::new(50, 256, 0);
    assert_eq!(early.receive_frame(&[2, 9, 9], &provider), Ok(None));
    assert_eq!(early.handshake(), &HandshakeState::AwaitingClientIntent);
    assert_eq!(early.receive(Err(FrameError::UnknownPacketId { id: 2 }), &provider), Ok(None));
    assert_eq!(early.closed(), None);
    let mut late = logged_in();
    assert_eq!(late.receive_frame(&[2, 9, 9], &provider), Ok(None));
    assert_eq!(late.closed(), None);
    assert!(late.handshake().is_accepted());
}

#[test]
fn a_handshake_packet_after_acceptance_closes_the_shard() {
    let mut shard = logged_in();
    let error = ShardError::Rejected { reason: RejectReason::ProtocolError };
    assert_eq!(shard.receive_frame(&login_frames()[0], &DefaultLoginProvider::new()), Err(error));
    assert_eq!(shard.closed(), Some(error));
    assert!(shard.handshake().is_accepted());
}

#[test]
fn closing_drops_what_waits_and_ends_the_handshake() {
    let mut shard = Shard::new(50, 256, 0);
    assert_eq!(shard.send(radius(1)), Ok(()));
    shard.close();
    assert_eq!(shard.closed(), Some(ShardError::ConnectionClosed));
    assert_eq!(shard.handshake().rejection(), Some(RejectReason::ProtocolError));
    assert_eq!(shard.queued(), 0);
    assert!(!shard.has_room());
    assert_eq!(shard.send(radius(2)), Err(ShardError::ConnectionClosed));
    assert_eq!(shard.flush(), Vec::new());
    assert_eq!(shard.tick(1_000), None);
    assert_eq!(shard.receive_frame(&radius(1).encode(), &DefaultLoginProvider::new()), Err(ShardError::ConnectionClosed));
    let mut late = logged_in();
    late.close();
    assert!(late.handshake().is_accepted());
    assert_eq!(late.closed(), Some(ShardError::ConnectionClosed));
}

#[test]
fn the_first_error_stays() {
    let mut shard = Shard::new(50, 256, 0);
    assert_eq!(shard.receive_frame(&[], &DefaultLoginProvider::new()), Err(ShardError::DecodeError));
    shard.close();
    assert_eq!(shard.closed(), Some(ShardError::DecodeError));
}

#[test]
fn shards_do_not_see_each_other() {
    let provider = DefaultLoginProvider::new();
    let mut one = Shard::new(50, 4, 0);
    let mut two = Shard::new(50, 4, 0);
    assert_eq!(one.send(radius(1)), Ok(()));
    assert_eq!(two.receive_frame(&login_frames()[0], &provider), Ok(None));
    assert_eq!(one.handshake(), &HandshakeState::AwaitingClientIntent);
    assert_eq!(two.queued(), 0);
    assert!(one.receive_frame(&radius(1).encode(), &provider).is_err());
    assert_eq!(two.closed(), None);
    assert_eq!(two.handshake(), &HandshakeState::AwaitingIdentityChain);
    assert_eq!(two.send(radius(2)), Ok(()));
    assert_eq!(two.tick(50), Some(vec![radius(2)]));
    assert_eq!(one.tick(50), None);
}
