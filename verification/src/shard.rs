//! The state of one connection: its handshake, the packets that wait to be
//! sent, and the clock of its ticks.
//!
//! The shard does no input or output of its own. Whoever owns the transport
//! hands it every frame that arrives and the time at every tick, and sends
//! what it gives back. The queue of waiting packets is bounded: `send`
//! refuses a packet when the queue is full and leaves it to the caller to
//! wait for the next flush.

use crate::frame::parse_packet;
use crate::handshake::{
    EventView, HandshakeEvent, HandshakeState, Identity, IdentityProvider, IdentityView,
    InvalidIdentity, RejectReason, StateView, after_receive, consults_provider,
};
use crate::packet::{FrameError, GamePacket, PacketView, packets_view};
use vstd::prelude::*;

verus! {

/// Why a shard gives no packet, or takes none.
#[derive(Debug, Clone, Copy, PartialEq, Eq, Structural)]
pub enum ShardError {
    /// The transport has ended.
    ConnectionClosed,
    /// A frame could not be decoded.
    DecodeError,
    /// The queue of waiting packets is full.
    QueueFull,
    /// The handshake was rejected, or a handshake packet came after it.
    Rejected { reason: RejectReason },
}

/// The engine of one connection.
#[derive(Debug)]
pub struct Shard {
    handshake: HandshakeState,
    outbound: Vec<GamePacket>,
    capacity: usize,
    tick_interval_ms: u64,
    last_tick_ms: u64,
    closed: Option<ShardError>,
}

/// What a shard holds.
pub struct ShardView {
    /// Where the handshake stands.
    pub handshake: StateView,
    /// The packets that wait to be sent, oldest first.
    pub outbound: Seq<PacketView>,
    /// How many packets may wait.
    pub capacity: nat,
    /// The time between two ticks, in milliseconds.
    pub tick_interval_ms: u64,
    /// The time of the last tick, in milliseconds.
    pub last_tick_ms: u64,
    /// Why the shard was closed, once it was.
    pub closed: Option<ShardError>,
}

impl ShardView {
    /// Whether a tick is due at `now_ms`: the interval has passed since the
    /// last tick.
    pub open spec fn tick_due(self, now_ms: u64) -> bool {
        now_ms >= self.last_tick_ms && now_ms - self.last_tick_ms >= self.tick_interval_ms
    }

    /// No more packets wait than may, and a closed shard has none waiting.
    pub open spec fn well_formed(self) -> bool {
        &&& self.outbound.len() <= self.capacity
        &&& self.closed is Some ==> self.outbound.len() == 0
    }

    /// This shard, closed for `error`: nothing waits any more.
    pub open spec fn shut(self, error: ShardError) -> ShardView {
        ShardView { outbound: Seq::empty(), closed: Some(error), ..self }
    }
}

/// What a decoded frame holds.
pub open spec fn decoded_view(decoded: Result<GamePacket, FrameError>) -> Result<
    PacketView,
    FrameError,
> {
    match decoded {
        Ok(packet) => Ok(packet@),
        Err(e) => Err(e),
    }
}

/// What a delivery holds.
pub open spec fn delivery_view(delivery: Result<Option<GamePacket>, ShardError>) -> Result<
    Option<PacketView>,
    ShardError,
> {
    match delivery {
        Ok(Some(packet)) => Ok(Some(packet@)),
        Ok(None) => Ok(None),
        Err(e) => Err(e),
    }
}

/// Whether the provider's answer decides what a frame does to a shard.
pub open spec fn frame_consults_provider(
    shard: ShardView,
    decoded: Result<PacketView, FrameError>,
) -> bool {
    &&& shard.closed is None
    &&& decoded matches Ok(packet)
    &&& consults_provider(shard.handshake, EventView::Received { packet })
}

/// The shard after a frame, and what is delivered to the application.
///
/// A closed shard stays as it is and gives its error. A frame of unknown
/// kind is passed over. A frame that cannot be decoded closes the shard,
/// and rejects a handshake that had not ended. Before acceptance a packet
/// goes to the handshake, and a rejection closes the shard. After
/// acceptance a gameplay packet is delivered, and a handshake packet closes
/// the shard.
pub open spec fn after_frame(
    shard: ShardView,
    decoded: Result<PacketView, FrameError>,
    verdict: Result<IdentityView, InvalidIdentity>,
) -> (ShardView, Result<Option<PacketView>, ShardError>) {
    match shard.closed {
        Some(error) => (shard, Err(error)),
        None => match decoded {
            Err(FrameError::UnknownPacketId { .. }) => (shard, Ok(None)),
            Err(_) => {
                let handshake = after_receive(shard.handshake, EventView::Malformed, verdict);
                (
                    ShardView { handshake, ..shard.shut(ShardError::DecodeError) },
                    Err(ShardError::DecodeError),
                )
            },
            Ok(packet) => {
                if shard.handshake is Accepted {
                    if packet.is_gameplay() {
                        (shard, Ok(Some(packet)))
                    } else {
                        let error = ShardError::Rejected { reason: RejectReason::ProtocolError };
                        (shard.shut(error), Err(error))
                    }
                } else {
                    let handshake = after_receive(
                        shard.handshake,
                        EventView::Received { packet },
                        verdict,
                    );
                    match handshake {
                        StateView::Rejected { reason } => {
                            let error = ShardError::Rejected { reason };
                            (ShardView { handshake, ..shard.shut(error) }, Err(error))
                        },
                        _ => (ShardView { handshake, ..shard }, Ok(None)),
                    }
                }
            },
        },
    }
}

/// The shard after `send`, and what `send` gives: the packet joins the end
/// of the queue, unless the shard is closed or the queue is full.
pub open spec fn after_send(shard: ShardView, packet: PacketView) -> (
    ShardView,
    Result<(), ShardError>,
) {
    match shard.closed {
        Some(error) => (shard, Err(error)),
        None => if shard.outbound.len() < shard.capacity {
            (ShardView { outbound: shard.outbound.push(packet), ..shard }, Ok(()))
        } else {
            (shard, Err(ShardError::QueueFull))
        },
    }
}

/// The shard after the tick at `now_ms`, and the batch that leaves with it.
/// Where the interval has passed since the last tick, the clock is set to
/// `now_ms` and all that waits leaves as one batch, oldest first; there is
/// no batch where nothing waits. Before that, nothing changes.
pub open spec fn after_tick(shard: ShardView, now_ms: u64) -> (
    ShardView,
    Option<Seq<PacketView>>,
) {
    if !shard.tick_due(now_ms) {
        (shard, None)
    } else {
        (
            ShardView { outbound: Seq::empty(), last_tick_ms: now_ms, ..shard },
            if shard.outbound.len() == 0 {
                None
            } else {
                Some(shard.outbound)
            },
        )
    }
}

/// What a batch holds.
pub open spec fn batch_view(batch: Option<Vec<GamePacket>>) -> Option<Seq<PacketView>> {
    match batch {
        Some(packets) => Some(packets_view(packets@)),
        None => None,
    }
}

/// The shard after its transport has ended: closed, with a handshake that
/// had not ended rejected for the frame that never came.
pub open spec fn after_close(shard: ShardView) -> ShardView {
    match shard.closed {
        Some(_) => shard,
        None => ShardView {
            handshake: after_receive(shard.handshake, EventView::Missing, Err(InvalidIdentity)),
            ..shard.shut(ShardError::ConnectionClosed)
        },
    }
}

impl Shard {
    /// What this shard holds.
    pub closed spec fn view(&self) -> ShardView {
        ShardView {
            handshake: self.handshake@,
            outbound: packets_view(self.outbound@),
            capacity: self.capacity as nat,
            tick_interval_ms: self.tick_interval_ms,
            last_tick_ms: self.last_tick_ms,
            closed: self.closed,
        }
    }

    /// The shard of a connection that was just accepted by the listener, at
    /// the time `now_ms`.
    pub fn new(tick_interval_ms: u64, capacity: usize, now_ms: u64) -> (shard: Self)
        ensures
            shard@ == (ShardView {
                handshake: StateView::AwaitingClientIntent,
                outbound: Seq::empty(),
                capacity: capacity as nat,
                tick_interval_ms,
                last_tick_ms: now_ms,
                closed: None,
            }),
    {
        let shard = Shard {
            handshake: HandshakeState::new(),
            outbound: Vec::new(),
            capacity,
            tick_interval_ms,
            last_tick_ms: now_ms,
            closed: None,
        };
        assert(packets_view(shard.outbound@) =~= Seq::empty());
        shard
    }

    /// Where the handshake stands.
    pub fn handshake(&self) -> (state: &HandshakeState)
        ensures
            state@ == self@.handshake,
    {
        &self.handshake
    }

    /// The identity of the client, once the handshake was accepted.
    pub fn identity(&self) -> (identity: Option<&Identity>)
        ensures
            match identity {
                Some(who) => self@.handshake == (StateView::Accepted { identity: who@ }),
                None => !(self@.handshake is Accepted),
            },
    {
        self.handshake.identity()
    }

    /// Why the shard was closed, if it was.
    pub fn closed(&self) -> (error: Option<ShardError>)
        ensures
            error == self@.closed,
    {
        self.closed
    }

    /// How many packets wait to be sent.
    pub fn queued(&self) -> (count: usize)
        ensures
            count == self@.outbound.len(),
    {
        self.outbound.len()
    }

    /// Whether `send` would take a packet now.
    pub fn has_room(&self) -> (room: bool)
        ensures
            room == (self@.closed is None && self@.outbound.len() < self@.capacity),
    {
        self.closed.is_none() && self.outbound.len() < self.capacity
    }

    /// Whether a tick is due at `now_ms`.
    pub fn tick_due(&self, now_ms: u64) -> (due: bool)
        ensures
            due == self@.tick_due(now_ms),
    {
        now_ms >= self.last_tick_ms && now_ms - self.last_tick_ms >= self.tick_interval_ms
    }

    /// Puts a packet at the end of the queue, to be sent with the next
    /// flush. A closed shard gives its error, a full queue `QueueFull`; the
    /// shard is then as before.
    pub fn send(&mut self, packet: GamePacket) -> (r: Result<(), ShardError>)
        ensures
            (final(self)@, r) == after_send(old(self)@, packet@),
    {
        if let Some(error) = self.closed {
            return Err(error);
        }
        if self.outbound.len() >= self.capacity {
            return Err(ShardError::QueueFull);
        }
        let ghost before = packets_view(self.outbound@);
        self.outbound.push(packet);
        assert(packets_view(self.outbound@) =~= before.push(packet@));
        Ok(())
    }

    /// Takes every waiting packet out of the queue, oldest first, to be
    /// sent at once.
    pub fn flush(&mut self) -> (batch: Vec<GamePacket>)
        ensures
            packets_view(batch@) == old(self)@.outbound,
            final(self)@ == (ShardView { outbound: Seq::empty(), ..old(self)@ }),
    {
        let mut batch: Vec<GamePacket> = Vec::new();
        std::mem::swap(&mut self.outbound, &mut batch);
        assert(packets_view(self.outbound@) =~= Seq::empty());
        batch
    }

    /// The tick at `now_ms`: where the interval has passed, everything that
    /// waits leaves the queue as one batch.
    pub fn tick(&mut self, now_ms: u64) -> (batch: Option<Vec<GamePacket>>)
        ensures
            (final(self)@, batch_view(batch)) == after_tick(old(self)@, now_ms),
    {
        if !self.tick_due(now_ms) {
            return None;
        }
        self.last_tick_ms = now_ms;
        if self.outbound.len() == 0 {
            assert(packets_view(self.outbound@) =~= Seq::empty());
            return None;
        }
        Some(self.flush())
    }

    /// Closes the shard because its transport has ended. Packets that wait
    /// are dropped; a handshake that had not ended is rejected for the frame
    /// that never came.
    pub fn close(&mut self)
        ensures
            final(self)@ == after_close(old(self)@),
    {
        if self.closed.is_some() {
            return ;
        }
        let mut state = HandshakeState::new();
        std::mem::swap(&mut self.handshake, &mut state);
        let ghost before = state@;
        state = state.advance(HandshakeEvent::Missing, Err(InvalidIdentity)).verify();
        self.handshake = state;
        self.outbound = Vec::new();
        self.closed = Some(ShardError::ConnectionClosed);
        assert(packets_view(self.outbound@) =~= Seq::empty());
    }

    /// Takes a frame as the transport delivered and the codec decoded it,
    /// and gives what the application is to see of it: a gameplay packet
    /// once the handshake was accepted, nothing while the handshake takes
    /// the packets, or the error that closed the shard.
    pub fn receive<P: IdentityProvider>(
        &mut self,
        decoded: Result<GamePacket, FrameError>,
        provider: &P,
    ) -> (delivery: Result<Option<GamePacket>, ShardError>)
        ensures
            exists|verdict: Result<IdentityView, InvalidIdentity>|
                (final(self)@, delivery_view(delivery)) == after_frame(
                    old(self)@,
                    decoded_view(decoded),
                    verdict,
                ),
            !frame_consults_provider(old(self)@, decoded_view(decoded)) ==> (
                final(self)@,
                delivery_view(delivery),
            ) == after_frame(old(self)@, decoded_view(decoded), Err(InvalidIdentity)),
    {
        let ghost start = self@;
        if let Some(error) = self.closed {
            assert((self@, delivery_view(Err(error))) == after_frame(
                start,
                decoded_view(decoded),
                Err(InvalidIdentity),
            ));
            return Err(error);
        }
        let packet: GamePacket = match decoded {
            Err(FrameError::UnknownPacketId { id }) => {
                assert((self@, delivery_view(Ok(None))) == after_frame(
                    start,
                    decoded_view(decoded),
                    Err(InvalidIdentity),
                ));
                return Ok(None);
            },
            Err(_) => {
                let mut state = HandshakeState::new();
                std::mem::swap(&mut self.handshake, &mut state);
                state = state.advance(HandshakeEvent::Malformed, Err(InvalidIdentity)).verify();
                self.handshake = state;
                self.outbound = Vec::new();
                self.closed = Some(ShardError::DecodeError);
                assert(packets_view(self.outbound@) =~= Seq::empty());
                assert((self@, delivery_view(Err(ShardError::DecodeError))) == after_frame(
                    start,
                    decoded_view(decoded),
                    Err(InvalidIdentity),
                ));
                return Err(ShardError::DecodeError);
            },
            Ok(packet) => packet,
        };
        if self.handshake.is_accepted() {
            if packet.is_gameplay() {
                assert((self@, delivery_view(Ok(Some(packet)))) == after_frame(
                    start,
                    decoded_view(decoded),
                    Err(InvalidIdentity),
                ));
                return Ok(Some(packet));
            }
            let error = ShardError::Rejected { reason: RejectReason::ProtocolError };
            self.outbound = Vec::new();
            self.closed = Some(error);
            assert(packets_view(self.outbound@) =~= Seq::empty());
            assert((self@, delivery_view(Err(error))) == after_frame(
                start,
                decoded_view(decoded),
                Err(InvalidIdentity),
            ));
            return Err(error);
        }
        let ghost event = EventView::Received { packet: packet@ };
        let mut state = HandshakeState::new();
        std::mem::swap(&mut self.handshake, &mut state);
        let ghost before = state@;
        state = state.receive(HandshakeEvent::Received { packet }, provider);
        let ghost verdict = choose|verdict: Result<IdentityView, InvalidIdentity>|
            state@ == after_receive(before, event, verdict);
        let rejection: Option<RejectReason> = state.rejection();
        self.handshake = state;
        match rejection {
            Some(reason) => {
                let error = ShardError::Rejected { reason };
                self.outbound = Vec::new();
                self.closed = Some(error);
                assert(packets_view(self.outbound@) =~= Seq::empty());
                assert((self@, delivery_view(Err(error))) == after_frame(
                    start,
                    decoded_view(decoded),
                    verdict,
                ));
                Err(error)
            },
            None => {
                assert((self@, delivery_view(Ok(None))) == after_frame(
                    start,
                    decoded_view(decoded),
                    verdict,
                ));
                Ok(None)
            },
        }
    }

    /// Takes a frame as the transport delivered it: decodes it and gives
    /// what the application is to see of it, as `receive` does.
    pub fn receive_frame<P: IdentityProvider>(&mut self, frame: &[u8], provider: &P) -> (delivery:
        Result<Option<GamePacket>, ShardError>)
        ensures
            exists|verdict: Result<IdentityView, InvalidIdentity>|
                (final(self)@, delivery_view(delivery)) == after_frame(
                    old(self)@,
                    parse_packet(frame@),
                    verdict,
                ),
            !frame_consults_provider(old(self)@, parse_packet(frame@)) ==> (
                final(self)@,
                delivery_view(delivery),
            ) == after_frame(old(self)@, parse_packet(frame@), Err(InvalidIdentity)),
    {
        let decoded: Result<GamePacket, FrameError> = GamePacket::decode(frame);
        assert(decoded_view(decoded) == parse_packet(frame@));
        self.receive(decoded, provider)
    }
}

/// What is sent between two ticks leaves with the next tick as one batch,
/// behind what waited before and in the order in which it was sent, and the
/// queue is empty afterwards.
pub proof fn lemma_sends_leave_with_tick(
    shard: ShardView,
    first: PacketView,
    second: PacketView,
    third: PacketView,
    now_ms: u64,
)
    requires
        shard.closed is None,
        shard.outbound.len() + 3 <= shard.capacity,
        shard.tick_due(now_ms),
    ensures
        ({
            let one = after_send(shard, first);
            let two = after_send(one.0, second);
            let three = after_send(two.0, third);
            let ticked = after_tick(three.0, now_ms);
            &&& one.1 is Ok && two.1 is Ok && three.1 is Ok
            &&& ticked.1 == Some(shard.outbound + seq![first, second, third])
            &&& ticked.0.outbound.len() == 0
            &&& after_tick(ticked.0, now_ms).1 is None
        }),
{
    let queued = shard.outbound.push(first).push(second).push(third);
    assert(queued =~= shard.outbound + seq![first, second, third]);
}

/// A shard that is well formed stays so, whatever is done with it.
pub proof fn lemma_well_formed_is_kept(
    shard: ShardView,
    packet: PacketView,
    decoded: Result<PacketView, FrameError>,
    verdict: Result<IdentityView, InvalidIdentity>,
    now_ms: u64,
)
    requires
        shard.well_formed(),
    ensures
        after_send(shard, packet).0.well_formed(),
        after_tick(shard, now_ms).0.well_formed(),
        after_frame(shard, decoded, verdict).0.well_formed(),
        after_close(shard).well_formed(),
{
}

/// A closed shard stays closed and keeps giving the error that closed it,
/// whatever arrives; and it has nothing to send at any tick.
pub proof fn lemma_closed_stays_closed(
    shard: ShardView,
    decoded: Result<PacketView, FrameError>,
    verdict: Result<IdentityView, InvalidIdentity>,
    packet: PacketView,
    now_ms: u64,
)
    requires
        shard.closed is Some,
    ensures
        after_frame(shard, decoded, verdict) == (
            shard,
            Err::<Option<PacketView>, ShardError>(shard.closed.unwrap()),
        ),
        after_send(shard, packet) == (shard, Err::<(), ShardError>(shard.closed.unwrap())),
        after_close(shard) == shard,
        shard.well_formed() ==> after_tick(shard, now_ms).1 is None,
{
}

/// Nothing is delivered to the application before the handshake was
/// accepted: a frame that is delivered finds the handshake accepted, and is
/// a gameplay packet.
pub proof fn lemma_delivery_is_gated(
    shard: ShardView,
    decoded: Result<PacketView, FrameError>,
    verdict: Result<IdentityView, InvalidIdentity>,
)
    ensures
        after_frame(shard, decoded, verdict).1 matches Ok(Some(packet)) ==> shard.handshake
            is Accepted && packet.is_gameplay() && decoded == Ok::<PacketView, FrameError>(packet),
{
}

/// A gameplay packet that arrives at an open shard whose handshake has not
/// ended rejects the handshake as out of order and closes the shard.
pub proof fn lemma_early_gameplay_closes(
    shard: ShardView,
    packet: PacketView,
    verdict: Result<IdentityView, InvalidIdentity>,
)
    requires
        shard.closed is None,
        !shard.handshake.is_terminal(),
        packet.is_gameplay(),
    ensures
        ({
            let error = ShardError::Rejected { reason: RejectReason::OutOfOrder };
            let after = after_frame(shard, Ok(packet), verdict);
            &&& after.1 == Err::<Option<PacketView>, ShardError>(error)
            &&& after.0.closed == Some(error)
            &&& after.0.handshake == (StateView::Rejected { reason: RejectReason::OutOfOrder })
        }),
{
}

} // verus!
