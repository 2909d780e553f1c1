use rastra::handshake::{
    is_chain_linked, same_bytes, DefaultLoginProvider, HandshakeEvent, HandshakeState, Identity, IdentityProvider,
    InvalidIdentity, RejectReason,
};
use rastra::packet::{BlockPosition, ChainLink, ChunkPosition, GamePacket, IdentityChain};

struct Refusing;

impl IdentityProvider for Refusing {
    fn verify(&self, _chain: &IdentityChain) -> Result<Identity, InvalidIdentity> {
        Err(InvalidIdentity)
    }
}

struct Answering(Identity);

impl IdentityProvider for Answering {
    fn verify(&self, _chain: &IdentityChain) -> Result<Identity, InvalidIdentity> {
        Ok(self.0.clone())
    }
}

fn received(packet: GamePacket) -> HandshakeEvent {
    HandshakeEvent::Received { packet }
}

fn intent() -> GamePacket {
    GamePacket::ClientIntent { protocol_version: 712 }
}

fn chain() -> IdentityChain {
    IdentityChain {
        links: vec![
            ChainLink { issuer_key: vec![1], subject_key: vec![2, 2] },
            ChainLink { issuer_key: vec![2, 2], subject_key: vec![3, 3, 3] },
        ],
        display_name: String::from("Alex"),
    }
}

fn shown() -> GamePacket {
    GamePacket::IdentityChain { chain: chain() }
}

fn data(signer_key: Vec<u8>) -> GamePacket {
    GamePacket::ClientData { signer_key, device: String::from("console") }
}

fn alex() -> Identity {
    Identity { display_name: String::from("Alex"), public_key: vec![3, 3, 3] }
}

fn gameplay() -> Vec<GamePacket> {
    vec![
        GamePacket::SetLocalPlayerAsInitialized { runtime_id: 1 },
        GamePacket::RequestChunkRadius { chunk_radius: 4, chunk_radius_max: 8 },
        GamePacket::ChunkRadiusUpdated { chunk_radius: 4 },
        GamePacket::LevelChunk {
            chunk_position: ChunkPosition::new(0, 0),
            dimension_id: 0,
            sub_chunk_count: 0,
            cache_enabled: false,
            serialized_chunk_data: vec![],
            client_needs_to_request_subchunks: false,
            client_request_subchunk_limit: 0,
        },
        GamePacket::ChunkPublisherUpdate { position: BlockPosition::new(0, 0, 0), radius: 1, saved_chunks: vec![] },
        GamePacket::PacketViolationWarning { kind: 0, severity: 0, violating_packet_id: 0, context: String::new() },
    ]
}

fn awaiting_chain() -> HandshakeState {
    HandshakeState::new().receive(received(intent()), &DefaultLoginProvider::new())
}

fn awaiting_data() -> HandshakeState {
    awaiting_chain().receive(received(shown()), &DefaultLoginProvider::new())
}

fn verifying(signer_key: Vec<u8>) -> HandshakeState {
    awaiting_data().advance(received(data(signer_key)), Err(InvalidIdentity))
}

fn rejected(reason: RejectReason) -> HandshakeState {
    HandshakeState::Rejected { reason }
}

#[test]
fn a_handshake_begins_by_waiting_for_the_intent() {
    assert_eq!(HandshakeState::new(), HandshakeState::AwaitingClientIntent);
    assert!(!HandshakeState::new().is_terminal());
    assert!(!HandshakeState::new().is_accepted());
    assert_eq!(HandshakeState::new().identity(), None);
    assert_eq!(HandshakeState::new().rejection(), None);
}

#[test]
fn intent_chain_and_data_lead_to_acceptance() {
    let provider = DefaultLoginProvider::new();
    let state = HandshakeState::new().receive(received(intent()), &provider);
    assert_eq!(state, HandshakeState::AwaitingIdentityChain);
    let state = state.receive(received(shown()), &provider);
    assert_eq!(state, HandshakeState::AwaitingClientData { identity: alex(), chain_key: vec![3, 3, 3] });
    let state = state.receive(received(data(vec![3, 3, 3])), &provider);
    assert_eq!(state, HandshakeState::Accepted { identity: alex() });
    assert!(state.is_accepted());
    assert!(state.is_terminal());
    let identity = state.identity().unwrap();
    assert!(!identity.display_name.is_empty());
    assert_eq!(identity.display_name, "Alex");
}

#[test]
fn the_steps_can_be_taken_one_by_one() {
    let state = awaiting_data().advance(received(data(vec![3, 3, 3])), Err(InvalidIdentity));
    assert_eq!(
        state,
        HandshakeState::VerifyingCredentials { identity: alex(), chain_key: vec![3, 3, 3], signer_key: vec![3, 3, 3] }
    );
    assert!(!state.is_terminal());
    assert_eq!(state.verify(), HandshakeState::Accepted { identity: alex() });
    assert_eq!(awaiting_chain().verify(), HandshakeState::AwaitingIdentityChain);
}

#[test]
fn a_gameplay_packet_before_acceptance_is_out_of_order() {
    let provider = DefaultLoginProvider::new();
    for packet in gameplay() {
        for state in [HandshakeState::new(), awaiting_chain(), awaiting_data(), verifying(vec![3, 3, 3])] {
            let after = state.receive(received(packet.clone()), &provider);
            assert_eq!(after, rejected(RejectReason::OutOfOrder));
            assert_eq!(after.rejection(), Some(RejectReason::OutOfOrder));
            assert!(after.is_terminal());
        }
    }
}

#[test]
fn a_frame_that_is_missing_or_malformed_is_a_protocol_error() {
    let provider = DefaultLoginProvider::new();
    for state in [HandshakeState::new(), awaiting_chain(), awaiting_data(), verifying(vec![3, 3, 3])] {
        assert_eq!(state.clone().receive(HandshakeEvent::Malformed, &provider), rejected(RejectReason::ProtocolError));
        assert_eq!(state.receive(HandshakeEvent::Missing, &provider), rejected(RejectReason::ProtocolError));
    }
}

#[test]
fn a_handshake_packet_that_is_not_due_is_a_protocol_error() {
    let provider = DefaultLoginProvider::new();
    let error = rejected(RejectReason::ProtocolError);
    assert_eq!(HandshakeState::new().receive(received(shown()), &provider), error);
    assert_eq!(HandshakeState::new().receive(received(data(vec![])), &provider), error);
    assert_eq!(awaiting_chain().receive(received(intent()), &provider), error);
    assert_eq!(awaiting_chain().receive(received(data(vec![])), &provider), error);
    assert_eq!(awaiting_data().receive(received(intent()), &provider), error);
    assert_eq!(awaiting_data().receive(received(shown()), &provider), error);
    assert_eq!(verifying(vec![3, 3, 3]).advance(received(intent()), Err(InvalidIdentity)), error);
}

#[test]
fn a_chain_that_is_not_linked_is_an_auth_error() {
    let mut broken = chain();
    broken.links[1].issuer_key = vec![2];
    let empty = IdentityChain { links: vec![], display_name: String::from("Alex") };
    for chain in [broken, empty] {
        assert!(!is_chain_linked(&chain.links));
        let state = awaiting_chain();
        assert!(!state.needs_verdict(&received(GamePacket::IdentityChain { chain: chain.clone() })));
        let after = state.receive(received(GamePacket::IdentityChain { chain }), &Answering(alex()));
        assert_eq!(after, rejected(RejectReason::AuthError));
    }
}

#[test]
fn a_chain_that_the_provider_refuses_is_an_auth_error() {
    assert!(awaiting_chain().needs_verdict(&received(shown())));
    assert_eq!(awaiting_chain().receive(received(shown()), &Refusing), rejected(RejectReason::AuthError));
    assert_eq!(awaiting_chain().advance(received(shown()), Err(InvalidIdentity)), rejected(RejectReason::AuthError));
}

#[test]
fn an_identity_without_a_name_is_an_auth_error() {
    let nobody = Identity { display_name: String::new(), public_key: vec![3, 3, 3] };
    assert_eq!(awaiting_chain().receive(received(shown()), &Answering(nobody)), rejected(RejectReason::AuthError));
    let unnamed = IdentityChain { display_name: String::new(), ..chain() };
    let packet = GamePacket::IdentityChain { chain: unnamed };
    assert_eq!(awaiting_chain().receive(received(packet), &DefaultLoginProvider::new()), rejected(RejectReason::AuthError));
}

#[test]
fn data_signed_with_another_key_is_an_auth_error() {
    let provider = DefaultLoginProvider::new();
    for key in [vec![], vec![3, 3], vec![3, 3, 3, 3], vec![2, 2]] {
        assert_eq!(awaiting_data().receive(received(data(key)), &provider), rejected(RejectReason::AuthError));
    }
}

#[test]
fn an_identity_for_another_key_is_an_auth_error() {
    let stranger = Identity { display_name: String::from("Alex"), public_key: vec![9] };
    let state = awaiting_chain().receive(received(shown()), &Answering(stranger.clone()));
    assert_eq!(state, HandshakeState::AwaitingClientData { identity: stranger, chain_key: vec![3, 3, 3] });
    let provider = DefaultLoginProvider::new();
    assert_eq!(state.clone().receive(received(data(vec![3, 3, 3])), &provider), rejected(RejectReason::AuthError));
    assert_eq!(state.receive(received(data(vec![9])), &provider), rejected(RejectReason::AuthError));
}

#[test]
fn nothing_leads_out_of_an_ended_handshake() {
    let provider = DefaultLoginProvider::new();
    let accepted = HandshakeState::Accepted { identity: alex() };
    let mut events = vec![HandshakeEvent::Malformed, HandshakeEvent::Missing];
    events.extend([intent(), shown(), data(vec![3, 3, 3])].into_iter().map(received));
    events.extend(gameplay().into_iter().map(received));
    for event in events {
        assert_eq!(accepted.clone().receive(event.clone(), &provider), accepted);
        assert_eq!(accepted.clone().receive(event.clone(), &Refusing), accepted);
        for reason in [RejectReason::ProtocolError, RejectReason::AuthError, RejectReason::OutOfOrder] {
            assert_eq!(rejected(reason).receive(event.clone(), &provider), rejected(reason));
            assert_eq!(rejected(reason).verify(), rejected(reason));
        }
    }
}

#[test]
fn the_provider_is_asked_only_for_a_linked_chain_that_is_due() {
    assert!(awaiting_chain().needs_verdict(&received(shown())));
    assert!(!HandshakeState::new().needs_verdict(&received(shown())));
    assert!(!awaiting_data().needs_verdict(&received(shown())));
    assert!(!awaiting_chain().needs_verdict(&received(intent())));
    assert!(!awaiting_chain().needs_verdict(&HandshakeEvent::Malformed));
    assert!(!awaiting_chain().needs_verdict(&HandshakeEvent::Missing));
}

#[test]
fn the_default_provider_takes_the_chain_at_its_word() {
    let provider = DefaultLoginProvider::new();
    assert_eq!(provider.verify(&chain()), Ok(alex()));
    let empty = IdentityChain { links: vec![], display_name: String::from("Alex") };
    assert_eq!(provider.verify(&empty), Err(InvalidIdentity));
}

#[test]
fn links_hold_together_where_each_vouches_for_the_next() {
    assert!(is_chain_linked(&chain().links));
    assert!(is_chain_linked(&chain().links[..1].to_vec()));
    assert!(!is_chain_linked(&Vec::new()));
    let mut three = chain().links;
    three.push(ChainLink { issuer_key: vec![3, 3, 3], subject_key: vec![4] });
    assert!(is_chain_linked(&three));
    three[2].issuer_key = vec![3, 3, 4];
    assert!(!is_chain_linked(&three));
}

#[test]
fn byte_strings_are_the_same_where_every_byte_is() {
    assert!(same_bytes(&vec![], &vec![]));
    assert!(same_bytes(&vec![1, 2, 3], &vec![1, 2, 3]));
    assert!(!same_bytes(&vec![1, 2, 3], &vec![1, 2]));
    assert!(!same_bytes(&vec![1, 2, 3], &vec![1, 2, 4]));
    assert!(!same_bytes(&vec![], &vec![0]));
}
