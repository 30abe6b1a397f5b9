//! Reliable delivery over datagrams: stop-and-wait with acknowledgments.
//!
//! One packet is in flight at a time. The sender transmits it and waits a
//! bounded time for the acknowledgment token; whatever else happens in that
//! wait, it transmits the same packet again. There is no retry limit. The
//! receiver acknowledges every datagram it accepts.
//!
//! The socket and the timer are the caller's. [`ReliableSend`] and
//! [`ReliableReceive`] say what to do next and take in what happened.

use vstd::prelude::*;

verus! {

/// How long one wait for an acknowledgment lasts, in seconds.
pub const ACK_TIMEOUT_SECS: u64 = 1;

/// The length of the acknowledgment token.
pub const ACK_LEN: usize = 4;

/// The acknowledgment token: the four bytes `ACK\n`.
pub open spec fn ack_token() -> Seq<u8> {
    seq![0x41u8, 0x43u8, 0x4bu8, 0x0au8]
}

/// The acknowledgment token, to be sent for every datagram received.
pub fn ack_bytes() -> (token: [u8; 4])
    ensures
        token@ == ack_token(),
{
    let token: [u8; 4] = [0x41u8, 0x43u8, 0x4bu8, 0x0au8];
    assert(token@ =~= ack_token());
    token
}

/// Whether a received datagram is the acknowledgment token, no more and no
/// less.
pub fn is_ack(datagram: &[u8]) -> (yes: bool)
    ensures
        yes == (datagram@ == ack_token()),
{
    if datagram.len() != 4 {
        return false;
    }
    let yes = datagram[0] == 0x41u8 && datagram[1] == 0x43u8 && datagram[2] == 0x4bu8
        && datagram[3] == 0x0au8;
    assert(yes == (datagram@ =~= ack_token()));
    yes
}

/// The phase of the packet in flight.
#[derive(Debug, PartialEq, Eq)]
pub enum SendPhase {
    /// The packet has not been transmitted yet.
    Sending,
    /// The packet is out; its acknowledgment is awaited.
    AwaitingAck,
    /// The wait brought no acknowledgment; the packet goes out again.
    Retrying,
    /// The remote has acknowledged the packet.
    Acknowledged,
    /// A transmission failed; the send has failed with this message.
    Failed(String),
}

/// What happened to the action a send asked for.
#[derive(Debug, PartialEq, Eq)]
pub enum SendEvent {
    /// The packet was handed to the socket.
    Transmitted,
    /// The socket refused the packet.
    TransmitFailed(String),
    /// A datagram arrived during the wait.
    Received(Vec<u8>),
    /// Receiving failed during the wait.
    ReceiveFailed,
    /// The wait ran out.
    TimedOut,
}

/// What the caller has to do next for a send.
#[derive(Debug, PartialEq, Eq)]
pub enum SendAction {
    /// Transmit the packet to the remote address.
    Transmit,
    /// Wait up to `timeout_secs` seconds for one datagram from any source.
    AwaitAck { timeout_secs: u64 },
    /// The send has ended with this result.
    Return(Result<usize, String>),
}

impl SendPhase {
    /// The phase that follows when `event` happens in this phase. An event
    /// that does not answer what the phase asked for changes nothing.
    pub open spec fn after(self, event: SendEvent) -> SendPhase {
        match self {
            SendPhase::Sending | SendPhase::Retrying => match event {
                SendEvent::Transmitted => SendPhase::AwaitingAck,
                SendEvent::TransmitFailed(message) => SendPhase::Failed(message),
                _ => self,
            },
            SendPhase::AwaitingAck => match event {
                SendEvent::Received(datagram) => if datagram@ == ack_token() {
                    SendPhase::Acknowledged
                } else {
                    SendPhase::Retrying
                },
                SendEvent::ReceiveFailed | SendEvent::TimedOut => SendPhase::Retrying,
                _ => self,
            },
            _ => self,
        }
    }

    /// The action a phase calls for, for a packet of `packet_len` bytes.
    pub open spec fn action(self, packet_len: usize) -> SendAction {
        match self {
            SendPhase::Sending | SendPhase::Retrying => SendAction::Transmit,
            SendPhase::AwaitingAck => SendAction::AwaitAck { timeout_secs: ACK_TIMEOUT_SECS },
            SendPhase::Acknowledged => SendAction::Return(Ok(packet_len)),
            SendPhase::Failed(message) => SendAction::Return(Err(message)),
        }
    }

    /// Whether the send is over.
    pub open spec fn ended(self) -> bool {
        self is Acknowledged || self is Failed
    }
}

/// The sending of one packet until it is acknowledged.
pub struct ReliableSend {
    packet_len: usize,
    phase: SendPhase,
}

impl ReliableSend {
    pub closed spec fn spec_packet_len(&self) -> usize {
        self.packet_len
    }

    pub closed spec fn spec_phase(&self) -> &SendPhase {
        &self.phase
    }

    /// The action the send currently calls for.
    pub open spec fn pending(&self) -> SendAction {
        self.phase().action(self.packet_len())
    }

    /// A send of a packet of `packet_len` bytes, before its first
    /// transmission.
    pub fn new(packet_len: usize) -> (send: Self)
        ensures
            send.packet_len() == packet_len,
            *send.phase() == SendPhase::Sending,
    {
        ReliableSend { packet_len, phase: SendPhase::Sending }
    }

    #[verifier::when_used_as_spec(spec_packet_len)]
    pub fn packet_len(&self) -> (len: usize)
        ensures
            len == self.packet_len(),
    {
        self.packet_len
    }

    #[verifier::when_used_as_spec(spec_phase)]
    pub fn phase(&self) -> (phase: &SendPhase)
        ensures
            phase == self.phase(),
    {
        &self.phase
    }

    /// The action the send currently calls for.
    pub fn next_action(&self) -> (action: SendAction)
        ensures
            action == self.pending(),
    {
        match &self.phase {
            SendPhase::Sending => SendAction::Transmit,
            SendPhase::Retrying => SendAction::Transmit,
            SendPhase::AwaitingAck => SendAction::AwaitAck { timeout_secs: ACK_TIMEOUT_SECS },
            SendPhase::Acknowledged => SendAction::Return(Ok(self.packet_len)),
            SendPhase::Failed(message) => SendAction::Return(Err(message.clone())),
        }
    }

    /// Takes in what happened and says what to do next.
    pub fn handle(&mut self, event: SendEvent) -> (action: SendAction)
        ensures
            *final(self).phase() == old(self).phase().after(event),
            final(self).packet_len() == old(self).packet_len(),
            action == final(self).pending(),
    {
        match &self.phase {
            SendPhase::Sending | SendPhase::Retrying => {
                match event {
                    SendEvent::Transmitted => {
                        self.phase = SendPhase::AwaitingAck;
                    },
                    SendEvent::TransmitFailed(message) => {
                        self.phase = SendPhase::Failed(message);
                    },
                    _ => {},
                }
            },
            SendPhase::AwaitingAck => {
                match event {
                    SendEvent::Received(datagram) => {
                        if is_ack(datagram.as_slice()) {
                            self.phase = SendPhase::Acknowledged;
                        } else {
                            self.phase = SendPhase::Retrying;
                        }
                    },
                    SendEvent::ReceiveFailed => {
                        self.phase = SendPhase::Retrying;
                    },
                    SendEvent::TimedOut => {
                        self.phase = SendPhase::Retrying;
                    },
                    _ => {},
                }
            },
            _ => {},
        }
        self.next_action()
    }
}

/// The phase after the events `events` happened, in order, to a send that
/// started in `phase`.
pub open spec fn phase_after(phase: SendPhase, events: Seq<SendEvent>) -> SendPhase
    decreases events.len(),
{
    if events.len() == 0 {
        phase
    } else {
        phase_after(phase, events.drop_last()).after(events.last())
    }
}

/// The number of transmissions made while `events` happened to a send that
/// started in `phase`: the events that report a packet handed to the socket
/// when a transmission was called for.
pub open spec fn transmissions(phase: SendPhase, events: Seq<SendEvent>) -> nat
    decreases events.len(),
{
    if events.len() == 0 {
        0
    } else {
        let before = phase_after(phase, events.drop_last());
        transmissions(phase, events.drop_last()) + if (before is Sending || before is Retrying)
            && events.last() is Transmitted {
            1nat
        } else {
            0nat
        }
    }
}

/// A wait that brought no acknowledgment: it ran out, receiving failed, or
/// something other than the token arrived.
pub open spec fn is_lost_wait(event: SendEvent) -> bool {
    ||| event is TimedOut
    ||| event is ReceiveFailed
    ||| (event matches SendEvent::Received(datagram) && datagram@ != ack_token())
}

/// A wait that brought the acknowledgment token.
pub open spec fn is_ack_wait(event: SendEvent) -> bool {
    event matches SendEvent::Received(datagram) && datagram@ == ack_token()
}

/// `events` is `rounds` rounds of a transmission that succeeds and a wait
/// that brings no acknowledgment.
pub open spec fn unacknowledged_rounds(events: Seq<SendEvent>, rounds: nat) -> bool {
    &&& events.len() == 2 * rounds
    &&& forall|i: int| 0 <= i < rounds ==> (#[trigger] events[2 * i]) is Transmitted
    &&& forall|i: int| 0 <= i < rounds ==> is_lost_wait(#[trigger] events[2 * i + 1])
}

/// `events` is what a send sees on a channel that delivers every packet,
/// loses the first `lost` acknowledgments and delivers the next one.
pub open spec fn loses_acks(events: Seq<SendEvent>, lost: nat) -> bool {
    &&& events.len() == 2 * lost + 2
    &&& unacknowledged_rounds(events.take((2 * lost) as int), lost)
    &&& events[(2 * lost) as int] is Transmitted
    &&& is_ack_wait(events[(2 * lost + 1) as int])
}

proof fn lemma_step(phase: SendPhase, events: Seq<SendEvent>, event: SendEvent)
    ensures
        phase_after(phase, events.push(event)) == phase_after(phase, events).after(event),
        transmissions(phase, events.push(event)) == transmissions(phase, events) + if (phase_after(
            phase,
            events,
        ) is Sending || phase_after(phase, events) is Retrying) && event is Transmitted {
            1nat
        } else {
            0nat
        },
{
    assert(events.push(event).drop_last() =~= events);
}

/// After any number of rounds without an acknowledgment the send is still
/// about to transmit, and has transmitted once per round.
pub proof fn lemma_unacknowledged_rounds(events: Seq<SendEvent>, rounds: nat)
    requires
        unacknowledged_rounds(events, rounds),
    ensures
        phase_after(SendPhase::Sending, events) == if rounds == 0 {
            SendPhase::Sending
        } else {
            SendPhase::Retrying
        },
        transmissions(SendPhase::Sending, events) == rounds,
    decreases rounds,
{
    if rounds > 0 {
        let earlier = events.take(2 * rounds - 2);
        let transmit = events[2 * (rounds - 1)];
        let wait = events[2 * (rounds - 1) + 1];
        assert(unacknowledged_rounds(earlier, (rounds - 1) as nat)) by {
            assert forall|i: int| 0 <= i < rounds - 1 implies (#[trigger] earlier[2 * i])
                is Transmitted by {
                assert(earlier[2 * i] == events[2 * i]);
            }
            assert forall|i: int| 0 <= i < rounds - 1 implies is_lost_wait(
                #[trigger] earlier[2 * i + 1],
            ) by {
                assert(earlier[2 * i + 1] == events[2 * i + 1]);
            }
        }
        lemma_unacknowledged_rounds(earlier, (rounds - 1) as nat);
        assert(events =~= earlier.push(transmit).push(wait));
        lemma_step(SendPhase::Sending, earlier, transmit);
        lemma_step(SendPhase::Sending, earlier.push(transmit), wait);
    }
}

/// On a channel that delivers every packet, loses the first `lost`
/// acknowledgments and delivers the next one, a send makes exactly
/// `lost + 1` transmissions and then returns the packet's length. With
/// nothing lost that is a single transmission.
pub proof fn lemma_lost_acks(packet_len: usize, events: Seq<SendEvent>, lost: nat)
    requires
        loses_acks(events, lost),
    ensures
        phase_after(SendPhase::Sending, events) == SendPhase::Acknowledged,
        phase_after(SendPhase::Sending, events).action(packet_len) == SendAction::Return(
            Ok(packet_len),
        ),
        transmissions(SendPhase::Sending, events) == lost + 1,
        !phase_after(SendPhase::Sending, events.drop_last()).ended(),
{
    let rounds = events.take((2 * lost) as int);
    let transmit = events[(2 * lost) as int];
    let wait = events[(2 * lost + 1) as int];
    lemma_unacknowledged_rounds(rounds, lost);
    assert(events =~= rounds.push(transmit).push(wait));
    assert(events.drop_last() =~= rounds.push(transmit));
    lemma_step(SendPhase::Sending, rounds, transmit);
    lemma_step(SendPhase::Sending, rounds.push(transmit), wait);
}

/// A send never ends while acknowledgments are missing: it ends only by an
/// acknowledgment or by a transmission that fails.
pub proof fn lemma_ends_only_by_ack_or_failure(phase: SendPhase, event: SendEvent)
    requires
        !phase.ended(),
    ensures
        phase.after(event) is Acknowledged ==> phase is AwaitingAck && is_ack_wait(event),
        phase.after(event) is Failed ==> (phase is Sending || phase is Retrying)
            && event is TransmitFailed,
{
}

/// The phase of one receive.
#[derive(Debug, PartialEq, Eq)]
pub enum ReceivePhase {
    /// A datagram is awaited.
    Receiving,
    /// A datagram of `len` bytes is in the buffer and has to be acknowledged.
    Acknowledging { len: usize },
    /// The datagram of `len` bytes has been acknowledged.
    Delivered { len: usize },
    /// Receiving or acknowledging failed with this message.
    Failed(String),
}

/// What happened to the action a receive asked for.
#[derive(Debug, PartialEq, Eq)]
pub enum ReceiveEvent {
    /// A datagram of this many bytes was read into the buffer.
    Datagram(usize),
    /// Reading failed.
    ReceiveFailed(String),
    /// The acknowledgment token was handed to the socket.
    AckSent,
    /// The socket refused the acknowledgment token.
    AckFailed(String),
}

/// What the caller has to do next for a receive.
#[derive(Debug, PartialEq, Eq)]
pub enum ReceiveAction {
    /// Read one datagram into the buffer.
    Receive,
    /// Send the acknowledgment token to the remote address.
    SendAck,
    /// The receive has ended with this result.
    Return(Result<usize, String>),
}

impl ReceivePhase {
    /// The phase that follows when `event` happens in this phase. An event
    /// that does not answer what the phase asked for changes nothing.
    pub open spec fn after(self, event: ReceiveEvent) -> ReceivePhase {
        match self {
            ReceivePhase::Receiving => match event {
                ReceiveEvent::Datagram(len) => ReceivePhase::Acknowledging { len },
                ReceiveEvent::ReceiveFailed(message) => ReceivePhase::Failed(message),
                _ => self,
            },
            ReceivePhase::Acknowledging { len } => match event {
                ReceiveEvent::AckSent => ReceivePhase::Delivered { len },
                ReceiveEvent::AckFailed(message) => ReceivePhase::Failed(message),
                _ => self,
            },
            _ => self,
        }
    }

    /// The action a phase calls for.
    pub open spec fn action(self) -> ReceiveAction {
        match self {
            ReceivePhase::Receiving => ReceiveAction::Receive,
            ReceivePhase::Acknowledging { len } => ReceiveAction::SendAck,
            ReceivePhase::Delivered { len } => ReceiveAction::Return(Ok(len)),
            ReceivePhase::Failed(message) => ReceiveAction::Return(Err(message)),
        }
    }
}

/// The receiving of one datagram and its acknowledgment.
pub struct ReliableReceive {
    phase: ReceivePhase,
}

impl ReliableReceive {
    pub closed spec fn spec_phase(&self) -> &ReceivePhase {
        &self.phase
    }

    /// A receive that awaits its datagram.
    pub fn new() -> (receive: Self)
        ensures
            *receive.phase() == ReceivePhase::Receiving,
    {
        ReliableReceive { phase: ReceivePhase::Receiving }
    }

    #[verifier::when_used_as_spec(spec_phase)]
    pub fn phase(&self) -> (phase: &ReceivePhase)
        ensures
            phase == self.phase(),
    {
        &self.phase
    }

    /// The action the receive currently calls for.
    pub fn next_action(&self) -> (action: ReceiveAction)
        ensures
            action == self.phase().action(),
    {
        match &self.phase {
            ReceivePhase::Receiving => ReceiveAction::Receive,
            ReceivePhase::Acknowledging { len } => ReceiveAction::SendAck,
            ReceivePhase::Delivered { len } => ReceiveAction::Return(Ok(*len)),
            ReceivePhase::Failed(message) => ReceiveAction::Return(Err(message.clone())),
        }
    }

    /// Takes in what happened and says what to do next.
    pub fn handle(&mut self, event: ReceiveEvent) -> (action: ReceiveAction)
        ensures
            *final(self).phase() == old(self).phase().after(event),
            action == final(self).phase().action(),
    {
        match &self.phase {
            ReceivePhase::Receiving => {
                match event {
                    ReceiveEvent::Datagram(len) => {
                        self.phase = ReceivePhase::Acknowledging { len };
                    },
                    ReceiveEvent::ReceiveFailed(message) => {
                        self.phase = ReceivePhase::Failed(message);
                    },
                    _ => {},
                }
            },
            ReceivePhase::Acknowledging { len } => {
                let len: usize = *len;
                match event {
                    ReceiveEvent::AckSent => {
                        self.phase = ReceivePhase::Delivered { len };
                    },
                    ReceiveEvent::AckFailed(message) => {
                        self.phase = ReceivePhase::Failed(message);
                    },
                    _ => {},
                }
            },
            _ => {},
        }
        self.next_action()
    }
}

/// No datagram is delivered unacknowledged: a receive reaches `Delivered`
/// only from `Acknowledging`, by the token going out, and delivers the length
/// that was read.
pub proof fn lemma_delivers_only_acknowledged(phase: ReceivePhase, event: ReceiveEvent)
    requires
        !(phase is Delivered),
    ensures
        phase.after(event) matches ReceivePhase::Delivered { len } ==> event is AckSent
            && phase == (ReceivePhase::Acknowledging { len }),
{
}

/// Every datagram read is acknowledged next, whatever it holds.
pub proof fn lemma_acknowledges_every_datagram(len: usize)
    ensures
        ReceivePhase::Receiving.after(ReceiveEvent::Datagram(len)).action()
            == ReceiveAction::SendAck,
{
}

} // verus!
