//! The login handshake as an explicit state machine.
//!
//! A connection starts out waiting for the client's intent, then for its
//! identity chain, then for its self-reported data; the credentials are then
//! verified, and the handshake ends accepted or rejected. Both ends are
//! final. A gameplay packet that arrives before the handshake was accepted
//! rejects it.

use crate::packet::{
    ChainLink, ChainLinkView, GamePacket, IdentityChain, IdentityChainView, PacketView,
};
use vstd::prelude::*;
use vstd::slice::slice_to_vec;

verus! {

/// Why a handshake was rejected.
#[derive(Debug, Clone, Copy, PartialEq, Eq, Structural)]
pub enum RejectReason {
    /// A frame was missing, malformed, or not the one that was due.
    ProtocolError,
    /// The chain was not linked, the provider refused it, or the keys did
    /// not belong together.
    AuthError,
    /// A gameplay packet came before the handshake was accepted.
    OutOfOrder,
}

/// Who a client is: the name it plays under and the key it signs with.
#[derive(Debug, Clone, PartialEq, Eq)]
pub struct Identity {
    pub display_name: String,
    pub public_key: Vec<u8>,
}

/// What an identity holds.
pub struct IdentityView {
    pub display_name: Seq<char>,
    pub public_key: Seq<u8>,
}

impl View for Identity {
    type V = IdentityView;

    open spec fn view(&self) -> IdentityView {
        IdentityView { display_name: self.display_name@, public_key: self.public_key@ }
    }
}

/// The provider's refusal of a chain.
#[derive(Debug, Clone, Copy, PartialEq, Eq, Structural)]
pub struct InvalidIdentity;

/// What the provider said of a chain, as contracts see it.
pub open spec fn verdict_view(verdict: Result<Identity, InvalidIdentity>) -> Result<
    IdentityView,
    InvalidIdentity,
> {
    match verdict {
        Ok(identity) => Ok(identity@),
        Err(e) => Err(e),
    }
}

/// Decides whom an identity chain stands for.
///
/// The handshake hands a provider only chains whose links hold together,
/// and makes no assumption about what it answers.
pub trait IdentityProvider {
    /// The identity that `chain` stands for, or the refusal of the chain.
    fn verify(&self, chain: &IdentityChain) -> Result<Identity, InvalidIdentity>;
}

/// The provider that takes a chain at its word: the player is who the chain
/// claims, with the key that the last link vouches for.
#[derive(Debug, Clone, Copy, PartialEq, Eq, Structural)]
pub struct DefaultLoginProvider;

/// What `DefaultLoginProvider` answers for a chain.
pub open spec fn claimed_identity(chain: IdentityChainView) -> Result<
    IdentityView,
    InvalidIdentity,
> {
    if chain.links.len() == 0 {
        Err(InvalidIdentity)
    } else {
        Ok(
            IdentityView {
                display_name: chain.display_name,
                public_key: chain.links.last().subject_key,
            },
        )
    }
}

impl DefaultLoginProvider {
    /// The provider.
    pub fn new() -> (provider: Self)
        ensures
            provider == DefaultLoginProvider,
    {
        DefaultLoginProvider
    }
}

impl IdentityProvider for DefaultLoginProvider {
    fn verify(&self, chain: &IdentityChain) -> (verdict: Result<Identity, InvalidIdentity>)
        ensures
            verdict_view(verdict) == claimed_identity(chain@),
    {
        let count: usize = chain.links.len();
        if count == 0 {
            Err(InvalidIdentity)
        } else {
            let key: Vec<u8> = slice_to_vec(chain.links[count - 1].subject_key.as_slice());
            Ok(Identity { display_name: chain.display_name.clone(), public_key: key })
        }
    }
}

/// What a connection brings to its handshake.
#[derive(Debug, Clone, PartialEq, Eq)]
pub enum HandshakeEvent {
    /// A frame that was decoded.
    Received { packet: GamePacket },
    /// A frame that could not be decoded.
    Malformed,
    /// The connection ended while a frame was due.
    Missing,
}

/// What an event holds.
pub enum EventView {
    Received { packet: PacketView },
    Malformed,
    Missing,
}

impl View for HandshakeEvent {
    type V = EventView;

    open spec fn view(&self) -> EventView {
        match *self {
            HandshakeEvent::Received { packet } => EventView::Received { packet: packet@ },
            HandshakeEvent::Malformed => EventView::Malformed,
            HandshakeEvent::Missing => EventView::Missing,
        }
    }
}

/// Where a handshake stands.
#[derive(Debug, Clone, PartialEq, Eq)]
pub enum HandshakeState {
    /// Nothing was received yet.
    AwaitingClientIntent,
    /// The intent was received; the identity chain is due.
    AwaitingIdentityChain,
    /// The chain was accepted for `identity`; the last link vouches for
    /// `chain_key`. The client's data is due.
    AwaitingClientData { identity: Identity, chain_key: Vec<u8> },
    /// The client's data was received, signed with `signer_key`; the keys
    /// are to be checked against each other.
    VerifyingCredentials { identity: Identity, chain_key: Vec<u8>, signer_key: Vec<u8> },
    /// The client is `identity` and may play.
    Accepted { identity: Identity },
    /// The connection must close.
    Rejected { reason: RejectReason },
}

/// What a state holds.
pub enum StateView {
    AwaitingClientIntent,
    AwaitingIdentityChain,
    AwaitingClientData { identity: IdentityView, chain_key: Seq<u8> },
    VerifyingCredentials { identity: IdentityView, chain_key: Seq<u8>, signer_key: Seq<u8> },
    Accepted { identity: IdentityView },
    Rejected { reason: RejectReason },
}

impl View for HandshakeState {
    type V = StateView;

    open spec fn view(&self) -> StateView {
        match *self {
            HandshakeState::AwaitingClientIntent => StateView::AwaitingClientIntent,
            HandshakeState::AwaitingIdentityChain => StateView::AwaitingIdentityChain,
            HandshakeState::AwaitingClientData {
                identity,
                chain_key,
            } => StateView::AwaitingClientData { identity: identity@, chain_key: chain_key@ },
            HandshakeState::VerifyingCredentials {
                identity,
                chain_key,
                signer_key,
            } => StateView::VerifyingCredentials {
                identity: identity@,
                chain_key: chain_key@,
                signer_key: signer_key@,
            },
            HandshakeState::Accepted { identity } => StateView::Accepted { identity: identity@ },
            HandshakeState::Rejected { reason } => StateView::Rejected { reason },
        }
    }
}

impl StateView {
    /// Whether the handshake has ended.
    pub open spec fn is_terminal(self) -> bool {
        self is Accepted || self is Rejected
    }
}

/// Every link but the last vouches for the key that signed the next, and
/// there is at least one link.
pub open spec fn chain_linked(links: Seq<ChainLinkView>) -> bool {
    &&& links.len() >= 1
    &&& forall|i: int|
        0 <= i < links.len() - 1 ==> (#[trigger] links[i]).subject_key == links[i + 1].issuer_key
}

/// Whether the provider's answer decides what `event` does to `state`: the
/// event is a linked identity chain, and the chain is due.
pub open spec fn consults_provider(state: StateView, event: EventView) -> bool {
    &&& state is AwaitingIdentityChain
    &&& event matches EventView::Received { packet: PacketView::IdentityChain { chain } }
    &&& chain_linked(chain.links)
}

/// The state after a handshake packet that is not a gameplay packet.
pub open spec fn after_handshake_packet(
    state: StateView,
    packet: PacketView,
    verdict: Result<IdentityView, InvalidIdentity>,
) -> StateView {
    match state {
        StateView::AwaitingClientIntent => {
            if packet is ClientIntent {
                StateView::AwaitingIdentityChain
            } else {
                StateView::Rejected { reason: RejectReason::ProtocolError }
            }
        },
        StateView::AwaitingIdentityChain => {
            match packet {
                PacketView::IdentityChain { chain } => {
                    if !chain_linked(chain.links) {
                        StateView::Rejected { reason: RejectReason::AuthError }
                    } else {
                        match verdict {
                            Err(_) => StateView::Rejected { reason: RejectReason::AuthError },
                            Ok(identity) => {
                                if identity.display_name.len() == 0 {
                                    StateView::Rejected { reason: RejectReason::AuthError }
                                } else {
                                    StateView::AwaitingClientData {
                                        identity,
                                        chain_key: chain.links.last().subject_key,
                                    }
                                }
                            },
                        }
                    }
                },
                _ => StateView::Rejected { reason: RejectReason::ProtocolError },
            }
        },
        StateView::AwaitingClientData { identity, chain_key } => {
            match packet {
                PacketView::ClientData { signer_key, device } => StateView::VerifyingCredentials {
                    identity,
                    chain_key,
                    signer_key,
                },
                _ => StateView::Rejected { reason: RejectReason::ProtocolError },
            }
        },
        StateView::VerifyingCredentials { .. } => StateView::Rejected {
            reason: RejectReason::ProtocolError,
        },
        StateView::Accepted { .. } => state,
        StateView::Rejected { .. } => state,
    }
}

/// The state after an event. `verdict` is what the provider said of the
/// chain; it matters only where `consults_provider` holds.
pub open spec fn after_event(
    state: StateView,
    event: EventView,
    verdict: Result<IdentityView, InvalidIdentity>,
) -> StateView {
    if state.is_terminal() {
        state
    } else {
        match event {
            EventView::Malformed => StateView::Rejected { reason: RejectReason::ProtocolError },
            EventView::Missing => StateView::Rejected { reason: RejectReason::ProtocolError },
            EventView::Received { packet } => {
                if packet.is_gameplay() {
                    StateView::Rejected { reason: RejectReason::OutOfOrder }
                } else {
                    after_handshake_packet(state, packet, verdict)
                }
            },
        }
    }
}

/// The state after the credentials were checked: accepted where the
/// identity's key, the chain's key and the key that signed the client's data
/// are one and the same, rejected where they are not. Other states stay.
pub open spec fn after_verification(state: StateView) -> StateView {
    match state {
        StateView::VerifyingCredentials { identity, chain_key, signer_key } => {
            if identity.public_key == chain_key && signer_key == chain_key {
                StateView::Accepted { identity }
            } else {
                StateView::Rejected { reason: RejectReason::AuthError }
            }
        },
        _ => state,
    }
}

/// The state after an event and the check of credentials that may follow
/// it.
pub open spec fn after_receive(
    state: StateView,
    event: EventView,
    verdict: Result<IdentityView, InvalidIdentity>,
) -> StateView {
    after_verification(after_event(state, event, verdict))
}

/// Whether two byte strings are the same.
pub fn same_bytes(a: &Vec<u8>, b: &Vec<u8>) -> (same: bool)
    ensures
        same == (a@ == b@),
{
    if a.len() != b.len() {
        return false;
    }
    let mut i: usize = 0;
    while i < a.len()
        invariant
            i <= a.len() == b.len(),
            forall|k: int| 0 <= k < i ==> a[k] == b[k],
        decreases a.len() - i,
    {
        if a[i] != b[i] {
            return false;
        }
        i = i + 1;
    }
    assert(a@ =~= b@);
    true
}

/// Whether every link but the last vouches for the key that signed the
/// next, and there is at least one link.
pub fn is_chain_linked(links: &Vec<ChainLink>) -> (linked: bool)
    ensures
        linked == chain_linked(crate::packet::links_view(links@)),
{
    let ghost view = crate::packet::links_view(links@);
    if links.len() == 0 {
        return false;
    }
    let mut i: usize = 0;
    while i + 1 < links.len()
        invariant
            1 <= links.len(),
            i < links.len(),
            view == crate::packet::links_view(links@),
            forall|k: int| 0 <= k < i ==> (#[trigger] view[k]).subject_key == view[k + 1].issuer_key,
        decreases links.len() - i,
    {
        if !same_bytes(&links[i].subject_key, &links[i + 1].issuer_key) {
            assert(view[i as int].subject_key != view[i + 1].issuer_key);
            return false;
        }
        i = i + 1;
    }
    true
}

impl HandshakeState {
    /// The state of a connection that has received nothing yet.
    pub fn new() -> (state: Self)
        ensures
            state@ is AwaitingClientIntent,
    {
        HandshakeState::AwaitingClientIntent
    }

    /// Whether the handshake has ended, either way.
    pub fn is_terminal(&self) -> (terminal: bool)
        ensures
            terminal == self@.is_terminal(),
    {
        match self {
            HandshakeState::Accepted { .. } => true,
            HandshakeState::Rejected { .. } => true,
            _ => false,
        }
    }

    /// Whether the client may play.
    pub fn is_accepted(&self) -> (accepted: bool)
        ensures
            accepted == (self@ is Accepted),
    {
        match self {
            HandshakeState::Accepted { .. } => true,
            _ => false,
        }
    }

    /// Why the handshake was rejected, if it was.
    pub fn rejection(&self) -> (reason: Option<RejectReason>)
        ensures
            match reason {
                Some(r) => self@ == (StateView::Rejected { reason: r }),
                None => !(self@ is Rejected),
            },
    {
        match self {
            HandshakeState::Rejected { reason } => Some(*reason),
            _ => None,
        }
    }

    /// The identity that was accepted, if one was.
    pub fn identity(&self) -> (identity: Option<&Identity>)
        ensures
            match identity {
                Some(who) => self@ == (StateView::Accepted { identity: who@ }),
                None => !(self@ is Accepted),
            },
    {
        match self {
            HandshakeState::Accepted { identity } => Some(identity),
            _ => None,
        }
    }

    /// Whether the provider must be asked before `event` is applied.
    pub fn needs_verdict(&self, event: &HandshakeEvent) -> (needed: bool)
        ensures
            needed == consults_provider(self@, event@),
    {
        match self {
            HandshakeState::AwaitingIdentityChain => match event {
                HandshakeEvent::Received { packet: GamePacket::IdentityChain { chain } } => {
                    is_chain_linked(&chain.links)
                },
                _ => false,
            },
            _ => false,
        }
    }

    /// Applies an event, given what the provider said of the chain.
    pub fn advance(self, event: HandshakeEvent, verdict: Result<Identity, InvalidIdentity>) -> (next:
        Self)
        ensures
            next@ == after_event(self@, event@, verdict_view(verdict)),
    {
        if self.is_terminal() {
            return self;
        }
        let packet: GamePacket = match event {
            HandshakeEvent::Malformed => {
                return HandshakeState::Rejected { reason: RejectReason::ProtocolError };
            },
            HandshakeEvent::Missing => {
                return HandshakeState::Rejected { reason: RejectReason::ProtocolError };
            },
            HandshakeEvent::Received { packet } => packet,
        };
        if packet.is_gameplay() {
            return HandshakeState::Rejected { reason: RejectReason::OutOfOrder };
        }
        match self {
            HandshakeState::AwaitingClientIntent => match packet {
                GamePacket::ClientIntent { .. } => HandshakeState::AwaitingIdentityChain,
                _ => HandshakeState::Rejected { reason: RejectReason::ProtocolError },
            },
            HandshakeState::AwaitingIdentityChain => match packet {
                GamePacket::IdentityChain { chain } => {
                    if !is_chain_linked(&chain.links) {
                        return HandshakeState::Rejected { reason: RejectReason::AuthError };
                    }
                    match verdict {
                        Err(_) => HandshakeState::Rejected { reason: RejectReason::AuthError },
                        Ok(identity) => {
                            if identity.display_name.as_str().as_bytes().len() == 0 {
                                proof {
                                    lemma_no_bytes_no_chars(identity.display_name@);
                                }
                                HandshakeState::Rejected { reason: RejectReason::AuthError }
                            } else {
                                proof {
                                    lemma_no_bytes_no_chars(identity.display_name@);
                                }
                                let last: usize = chain.links.len() - 1;
                                let chain_key: Vec<u8> = slice_to_vec(
                                    chain.links[last].subject_key.as_slice(),
                                );
                                HandshakeState::AwaitingClientData { identity, chain_key }
                            }
                        },
                    }
                },
                _ => HandshakeState::Rejected { reason: RejectReason::ProtocolError },
            },
            HandshakeState::AwaitingClientData { identity, chain_key } => match packet {
                GamePacket::ClientData {
                    signer_key,
                    device,
                } => HandshakeState::VerifyingCredentials { identity, chain_key, signer_key },
                _ => HandshakeState::Rejected { reason: RejectReason::ProtocolError },
            },
            HandshakeState::VerifyingCredentials { .. } => HandshakeState::Rejected {
                reason: RejectReason::ProtocolError,
            },
            HandshakeState::Accepted { identity } => HandshakeState::Accepted { identity },
            HandshakeState::Rejected { reason } => HandshakeState::Rejected { reason },
        }
    }

    /// Checks the credentials, where that is due.
    pub fn verify(self) -> (next: Self)
        ensures
            next@ == after_verification(self@),
    {
        match self {
            HandshakeState::VerifyingCredentials { identity, chain_key, signer_key } => {
                if same_bytes(&identity.public_key, &chain_key) && same_bytes(
                    &signer_key,
                    &chain_key,
                ) {
                    HandshakeState::Accepted { identity }
                } else {
                    HandshakeState::Rejected { reason: RejectReason::AuthError }
                }
            },
            other => other,
        }
    }

    /// Applies an event: asks the provider where its answer is needed,
    /// applies the event, and checks the credentials where that is due.
    pub fn receive<P: IdentityProvider>(self, event: HandshakeEvent, provider: &P) -> (next: Self)
        ensures
            exists|verdict: Result<IdentityView, InvalidIdentity>|
                next@ == after_receive(self@, event@, verdict),
            !consults_provider(self@, event@) ==> next@ == after_receive(
                self@,
                event@,
                Err(InvalidIdentity),
            ),
    {
        let verdict: Result<Identity, InvalidIdentity> = if self.needs_verdict(&event) {
            match &event {
                HandshakeEvent::Received { packet: GamePacket::IdentityChain { chain } } => {
                    provider.verify(chain)
                },
                _ => Err(InvalidIdentity),
            }
        } else {
            Err(InvalidIdentity)
        };
        let ghost seen = verdict_view(verdict);
        let next = self.advance(event, verdict).verify();
        assert(next@ == after_receive(self@, event@, seen));
        next
    }
}

/// Text without bytes is text without characters.
pub proof fn lemma_no_bytes_no_chars(text: Seq<char>)
    ensures
        vstd::utf8::encode_utf8(text).len() == 0 <==> text.len() == 0,
{
    vstd::utf8::encode_utf8_decode_utf8(text);
    if text.len() == 0 {
        assert(vstd::utf8::encode_utf8(text).len() == 0);
    } else if vstd::utf8::encode_utf8(text).len() == 0 {
        assert(vstd::utf8::decode_utf8(vstd::utf8::encode_utf8(text)).len() == 0);
    }
}

/// Without a linked chain that is due, the provider's answer changes
/// nothing.
pub proof fn lemma_verdict_matters_only_for_chain(
    state: StateView,
    event: EventView,
    a: Result<IdentityView, InvalidIdentity>,
    b: Result<IdentityView, InvalidIdentity>,
)
    requires
        !consults_provider(state, event),
    ensures
        after_event(state, event, a) == after_event(state, event, b),
        after_receive(state, event, a) == after_receive(state, event, b),
{
}

/// No event leads out of an accepted or a rejected handshake.
pub proof fn lemma_terminal_is_final(
    state: StateView,
    event: EventView,
    verdict: Result<IdentityView, InvalidIdentity>,
)
    requires
        state.is_terminal(),
    ensures
        after_event(state, event, verdict) == state,
        after_receive(state, event, verdict) == state,
{
}

/// A gameplay packet that arrives before the handshake was accepted rejects
/// it as out of order, in every state and whatever the provider would say.
pub proof fn lemma_gameplay_before_accept_is_rejected(
    state: StateView,
    packet: PacketView,
    verdict: Result<IdentityView, InvalidIdentity>,
)
    requires
        !state.is_terminal(),
        packet.is_gameplay(),
    ensures
        after_event(state, EventView::Received { packet }, verdict) == (StateView::Rejected {
            reason: RejectReason::OutOfOrder,
        }),
        after_receive(state, EventView::Received { packet }, verdict) == (StateView::Rejected {
            reason: RejectReason::OutOfOrder,
        }),
{
}

/// An intent, a linked chain that the provider accepts for a named
/// identity with the chain's key, and client data signed with that key lead
/// from the start to acceptance of that identity.
pub proof fn lemma_handshake_succeeds(
    protocol_version: u32,
    chain: IdentityChainView,
    identity: IdentityView,
    device: Seq<char>,
    idle: Result<IdentityView, InvalidIdentity>,
)
    requires
        chain_linked(chain.links),
        identity.display_name.len() > 0,
        identity.public_key == chain.links.last().subject_key,
    ensures
        ({
            let intent = EventView::Received {
                packet: PacketView::ClientIntent { protocol_version },
            };
            let shown = EventView::Received { packet: PacketView::IdentityChain { chain } };
            let data = EventView::Received {
                packet: PacketView::ClientData { signer_key: identity.public_key, device },
            };
            let first = after_receive(StateView::AwaitingClientIntent, intent, idle);
            let second = after_receive(first, shown, Ok(identity));
            let third = after_receive(second, data, idle);
            third == (StateView::Accepted { identity })
        }),
{
}

/// An accepted identity has a name: a handshake that was not accepted
/// before is accepted only for an identity whose name is not empty.
pub proof fn lemma_accepted_identity_is_named(
    state: StateView,
    event: EventView,
    verdict: Result<IdentityView, InvalidIdentity>,
)
    requires
        named_where_known(state),
    ensures
        named_where_known(after_event(state, event, verdict)),
        named_where_known(after_receive(state, event, verdict)),
{
}

/// Where a state holds an identity, the identity has a name.
pub open spec fn named_where_known(state: StateView) -> bool {
    match state {
        StateView::AwaitingClientData { identity, .. } => identity.display_name.len() > 0,
        StateView::VerifyingCredentials { identity, .. } => identity.display_name.len() > 0,
        StateView::Accepted { identity } => identity.display_name.len() > 0,
        _ => true,
    }
}

} // verus!
