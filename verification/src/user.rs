//! A node's identity: who it is, where it listens, which directories know it.
//!
//! The sockets a node listens on and dials with are the caller's. This
//! module decides what a node says to a directory, what it makes of the
//! answers, which transport a transfer needs, and what of a read goes into
//! the sink.

use vstd::prelude::*;
use vstd::slice::{slice_subrange, slice_to_vec};
use crate::address::{
    address_of_text, address_text, lemma_address_round_trip, lemma_address_text_bytes,
    lemma_no_colon_no_address, SocketAddress,
};
use crate::file_transfer::{FileTransfer, TransferOptions, TransferProgress};
use crate::identifier::{is_random_id, random_id};
use crate::network::{not_found_reply, reply_to, request_of, Command};
use crate::protocol::ProtocolType;
use crate::text::{trim, trimmed};

verus! {

/// The packet size of the transfers a node creates, in bytes.
pub const DEFAULT_PACKET_SIZE: usize = 100;

/// The size of the buffer a listener reads into, in bytes.
pub const LISTEN_BUFFER_LEN: usize = 1024;

/// The size of the buffer the reply to a query is read into, in bytes.
pub const REPLY_BUFFER_LEN: usize = 50;

/// An addressable participant.
pub struct User {
    id: u128,
    addr: SocketAddress,
    networks: Vec<SocketAddress>,
}

/// The transport a transfer needs, with the endpoints to build it from.
#[derive(Clone, Copy, Debug, PartialEq, Eq, Structural)]
pub enum TransportPlan {
    /// Dial a stream to `remote` and switch off send coalescing.
    Stream { remote: SocketAddress },
    /// Send datagrams to `remote` from the node's own listening socket.
    Datagram { remote: SocketAddress },
    /// Bind a datagram socket at `local` and exchange acknowledged datagrams
    /// with `remote`.
    ReliableDatagram { local: SocketAddress, remote: SocketAddress },
}

/// A datagram that arrived at a node.
#[derive(Debug, PartialEq, Eq)]
pub struct UdpPacket {
    pub src_addr: SocketAddress,
    pub payload: Vec<u8>,
}

/// `addresses` without every entry equal to `gone`, the others in their
/// order.
pub open spec fn without(addresses: Seq<SocketAddress>, gone: SocketAddress) -> Seq<
    SocketAddress,
> {
    addresses.filter(|address: SocketAddress| address != gone)
}

/// The address that the reply to a query gives: the reply without the white
/// space at its ends, read as an address. `UUID not found` gives none.
pub open spec fn address_of_reply(reply: Seq<u8>) -> Option<SocketAddress> {
    address_of_text(trimmed(reply))
}

/// Reads the reply to a query.
pub fn parse_query_reply(reply: &[u8]) -> (address: Option<SocketAddress>)
    ensures
        address == address_of_reply(reply@),
{
    SocketAddress::parse(trim(reply))
}

/// What of a stream read goes into the sink: the bytes that were read, or
/// nothing where the read brought none, which ends the connection.
pub fn stream_chunk(buffer: &[u8], number_of_bytes: usize) -> (chunk: Option<&[u8]>)
    requires
        number_of_bytes <= buffer@.len(),
    ensures
        match chunk {
            Some(chunk) => number_of_bytes > 0 && chunk@ == buffer@.subrange(
                0,
                number_of_bytes as int,
            ),
            None => number_of_bytes == 0,
        },
{
    if number_of_bytes == 0 {
        None
    } else {
        Some(slice_subrange(buffer, 0, number_of_bytes))
    }
}

impl UdpPacket {
    /// The datagram of `number_of_bytes` bytes that was read into `buffer`
    /// from `src_addr`. All of it goes into the sink, be it empty.
    pub fn new(src_addr: SocketAddress, buffer: &[u8], number_of_bytes: usize) -> (packet: Self)
        requires
            number_of_bytes <= buffer@.len(),
        ensures
            packet.src_addr == src_addr,
            packet.payload@ == buffer@.subrange(0, number_of_bytes as int),
    {
        UdpPacket { src_addr, payload: slice_to_vec(slice_subrange(buffer, 0, number_of_bytes)) }
    }
}

fn copy_of(addresses: &Vec<SocketAddress>) -> (copy: Vec<SocketAddress>)
    ensures
        copy@ == addresses@,
{
    let mut copy: Vec<SocketAddress> = Vec::new();
    let mut i: usize = 0;
    while i < addresses.len()
        invariant
            i <= addresses.len(),
            copy@ == addresses@.subrange(0, i as int),
        decreases addresses.len() - i,
    {
        copy.push(addresses[i]);
        i += 1;
        assert(copy@ =~= addresses@.subrange(0, i as int));
    }
    assert(addresses@.subrange(0, i as int) =~= addresses@);
    copy
}

impl Clone for User {
    /// A second handle on the same identity.
    fn clone(&self) -> (user: User)
        ensures
            user.id() == self.id(),
            user.addr() == self.addr(),
            user.networks()@ == self.networks()@,
    {
        User { id: self.id, addr: self.addr, networks: copy_of(&self.networks) }
    }
}

impl User {
    pub closed spec fn spec_id(&self) -> u128 {
        self.id
    }

    pub closed spec fn spec_addr(&self) -> SocketAddress {
        self.addr
    }

    /// The directories this node has entered, oldest first.
    pub closed spec fn spec_networks(&self) -> &Vec<SocketAddress> {
        &self.networks
    }

    /// A new identity bound to `addr`, with a freshly drawn identifier and no
    /// known directories.
    pub fn new(addr: SocketAddress) -> (user: User)
        ensures
            user.addr() == addr,
            user.networks()@ == Seq::<SocketAddress>::empty(),
            is_random_id(user.id()),
    {
        User { id: random_id(), addr, networks: Vec::new() }
    }

    #[verifier::when_used_as_spec(spec_id)]
    pub fn id(&self) -> (id: u128)
        ensures
            id == self.id(),
    {
        self.id
    }

    #[verifier::when_used_as_spec(spec_addr)]
    pub fn addr(&self) -> (addr: SocketAddress)
        ensures
            addr == self.addr(),
    {
        self.addr
    }

    #[verifier::when_used_as_spec(spec_networks)]
    pub fn networks(&self) -> (networks: &Vec<SocketAddress>)
        ensures
            networks == self.networks(),
    {
        &self.networks
    }

    /// The transport that a transfer of the given kind to `receiver` needs.
    pub fn transport_plan(&self, receiver: SocketAddress, protocol: ProtocolType) -> (plan:
        TransportPlan)
        ensures
            plan == match protocol {
                ProtocolType::Tcp => TransportPlan::Stream { remote: receiver },
                ProtocolType::Udp => TransportPlan::Datagram { remote: receiver },
                ProtocolType::GuaranteedUdp => TransportPlan::ReliableDatagram {
                    local: self.addr(),
                    remote: receiver,
                },
            },
    {
        match protocol {
            ProtocolType::Tcp => TransportPlan::Stream { remote: receiver },
            ProtocolType::Udp => TransportPlan::Datagram { remote: receiver },
            ProtocolType::GuaranteedUdp => TransportPlan::ReliableDatagram {
                local: self.addr,
                remote: receiver,
            },
        }
    }

    /// A transfer by this node over the transport `protocol`, which the
    /// caller has built to the node's `transport_plan`. It has not started
    /// and sends packets of `DEFAULT_PACKET_SIZE` bytes.
    pub fn create_file_transfer<P>(&self, protocol: P) -> (transfer: FileTransfer<P>)
        ensures
            transfer.sender().id() == self.id(),
            transfer.sender().addr() == self.addr(),
            transfer.sender().networks()@ == self.networks()@,
            transfer.options().packet_size() == DEFAULT_PACKET_SIZE,
            *transfer.options().protocol() == protocol,
            *transfer.progress() == TransferProgress::NotStarted,
    {
        let options = TransferOptions::new(DEFAULT_PACKET_SIZE, protocol);
        FileTransfer::new(self.clone(), options)
    }

    /// The request by which this node enters a directory.
    pub fn enter_message(&self) -> (message: Vec<u8>)
        ensures
            message@ == request_of(Command::Enter { address: self.addr(), id: self.id() }),
    {
        let command = Command::Enter { address: self.addr, id: self.id };
        command.to_bytes()
    }

    /// The request by which this node leaves a directory.
    pub fn quit_message(&self) -> (message: Vec<u8>)
        ensures
            message@ == request_of(Command::Quit { id: self.id() }),
    {
        let command = Command::Quit { id: self.id };
        command.to_bytes()
    }

    /// The request by which a node asks a directory for the address of
    /// `uuid`.
    pub fn query_message(uuid: u128) -> (message: Vec<u8>)
        ensures
            message@ == request_of(Command::Query { id: uuid }),
    {
        let command = Command::Query { id: uuid };
        command.to_bytes()
    }

    /// Notes that the node has entered the directory at `network_addr`.
    pub fn joined_network(&mut self, network_addr: SocketAddress)
        ensures
            final(self).networks()@ == old(self).networks()@.push(network_addr),
            final(self).id() == old(self).id(),
            final(self).addr() == old(self).addr(),
    {
        self.networks.push(network_addr);
    }

    /// Notes that the node has left the directory at `network_addr`: every
    /// entry for that address goes, the others stay in their order.
    pub fn left_network(&mut self, network_addr: SocketAddress)
        ensures
            final(self).networks()@ == without(old(self).networks()@, network_addr),
            final(self).id() == old(self).id(),
            final(self).addr() == old(self).addr(),
    {
        let mut kept: Vec<SocketAddress> = Vec::new();
        let mut i: usize = 0;
        while i < self.networks.len()
            invariant
                i <= self.networks.len(),
                *self == *old(self),
                kept@ == without(self.networks@.subrange(0, i as int), network_addr),
            decreases self.networks.len() - i,
        {
            let address = self.networks[i];
            proof {
                let upto = self.networks@.subrange(0, i + 1);
                assert(upto.drop_last() =~= self.networks@.subrange(0, i as int));
                assert(upto.last() == address);
                reveal(Seq::filter);
            }
            if address != network_addr {
                kept.push(address);
            }
            i += 1;
        }
        assert(self.networks@.subrange(0, i as int) =~= self.networks@);
        self.networks = kept;
    }

    /// Begins the search for the address of `uuid` in the directories this
    /// node has entered.
    pub fn find_address(&self, uuid: u128) -> (lookup: AddressLookup)
        ensures
            lookup.networks()@ == self.networks()@,
            lookup.uuid() == uuid,
            *lookup.state() == (LookupState::Asking { index: 0 }),
    {
        AddressLookup {
            networks: copy_of(&self.networks),
            uuid,
            state: LookupState::Asking { index: 0 },
        }
    }
}

/// Why a search for an address ended without one.
#[derive(Debug, PartialEq, Eq)]
pub enum LookupError {
    /// No directory gave an address.
    NotFound,
    /// Talking to a directory failed with this message.
    Io(String),
}

/// Where a search for an address stands.
#[derive(Debug, PartialEq, Eq)]
pub enum LookupState {
    /// The directory at place `index` is to be asked next.
    Asking { index: usize },
    /// A directory gave this address.
    Found(SocketAddress),
    /// Talking to a directory failed with this message.
    Failed(String),
}

/// What came of asking one directory.
#[derive(Debug, PartialEq, Eq)]
pub enum LookupEvent {
    /// The directory replied with these bytes.
    Reply(Vec<u8>),
    /// Connecting, writing or reading failed with this message.
    Failed(String),
}

/// What the caller has to do next for a search.
#[derive(Debug, PartialEq, Eq)]
pub enum LookupAction {
    /// Connect to `network`, write `request`, read the reply.
    Ask { network: SocketAddress, request: Vec<u8> },
    /// The search has ended with this result.
    Return(Result<SocketAddress, LookupError>),
}

impl LookupState {
    /// The state that follows when `event` comes from the directory that was
    /// asked, one of `networks`. A reply that reads as an address ends the
    /// search with it; any other reply sends it on to the next directory; a
    /// failure ends it. Once the search has ended, nothing changes it.
    pub open spec fn after(self, networks: Seq<SocketAddress>, event: LookupEvent) -> LookupState {
        match self {
            LookupState::Asking { index } => if index < networks.len() {
                match event {
                    LookupEvent::Reply(reply) => match address_of_reply(reply@) {
                        Some(address) => LookupState::Found(address),
                        None => LookupState::Asking { index: (index + 1) as usize },
                    },
                    LookupEvent::Failed(message) => LookupState::Failed(message),
                }
            } else {
                self
            },
            _ => self,
        }
    }

    /// The outcome a state stands for, with `networks` to ask: the address
    /// found, the failure, nothing where every directory has been asked, or
    /// none yet.
    pub open spec fn outcome(self, networks: Seq<SocketAddress>) -> Option<
        Result<SocketAddress, LookupError>,
    > {
        match self {
            LookupState::Asking { index } => if index < networks.len() {
                None
            } else {
                Some(Err(LookupError::NotFound))
            },
            LookupState::Found(address) => Some(Ok(address)),
            LookupState::Failed(message) => Some(Err(LookupError::Io(message))),
        }
    }
}

/// The search for the address of one identifier, directory by directory.
pub struct AddressLookup {
    networks: Vec<SocketAddress>,
    uuid: u128,
    state: LookupState,
}

impl AddressLookup {
    #[verifier::type_invariant]
    spec fn well_formed(&self) -> bool {
        self.state matches LookupState::Asking { index } ==> index <= self.networks@.len()
    }

    pub closed spec fn spec_networks(&self) -> &Vec<SocketAddress> {
        &self.networks
    }

    pub closed spec fn spec_uuid(&self) -> u128 {
        self.uuid
    }

    pub closed spec fn spec_state(&self) -> &LookupState {
        &self.state
    }

    /// What the search currently calls for.
    pub open spec fn pending(&self, action: LookupAction) -> bool {
        match self.state().outcome(self.networks()@) {
            Some(outcome) => action == LookupAction::Return(outcome),
            None => action matches LookupAction::Ask { network, request } && self.state()
                matches LookupState::Asking { index } && network == self.networks()@[index as int]
                && request@ == request_of(Command::Query { id: self.uuid() }),
        }
    }

    #[verifier::when_used_as_spec(spec_networks)]
    pub fn networks(&self) -> (networks: &Vec<SocketAddress>)
        ensures
            networks == self.networks(),
    {
        &self.networks
    }

    #[verifier::when_used_as_spec(spec_uuid)]
    pub fn uuid(&self) -> (uuid: u128)
        ensures
            uuid == self.uuid(),
    {
        self.uuid
    }

    #[verifier::when_used_as_spec(spec_state)]
    pub fn state(&self) -> (state: &LookupState)
        ensures
            state == self.state(),
    {
        &self.state
    }

    /// The action the search currently calls for.
    pub fn next_action(&self) -> (action: LookupAction)
        ensures
            self.pending(action),
    {
        proof {
            use_type_invariant(self);
        }
        match &self.state {
            LookupState::Asking { index } => {
                if *index < self.networks.len() {
                    LookupAction::Ask {
                        network: self.networks[*index],
                        request: User::query_message(self.uuid),
                    }
                } else {
                    LookupAction::Return(Err(LookupError::NotFound))
                }
            },
            LookupState::Found(address) => LookupAction::Return(Ok(*address)),
            LookupState::Failed(message) => LookupAction::Return(
                Err(LookupError::Io(message.clone())),
            ),
        }
    }

    /// Takes in what came of asking the directory and says what to do next.
    pub fn handle(&mut self, event: LookupEvent) -> (action: LookupAction)
        ensures
            final(self).networks() == old(self).networks(),
            final(self).uuid() == old(self).uuid(),
            *final(self).state() == old(self).state().after(old(self).networks()@, event),
            final(self).pending(action),
    {
        proof {
            use_type_invariant(&*self);
        }
        match &self.state {
            LookupState::Asking { index } => {
                let index: usize = *index;
                if index < self.networks.len() {
                    match event {
                        LookupEvent::Reply(reply) => {
                            match parse_query_reply(reply.as_slice()) {
                                Some(address) => {
                                    self.state = LookupState::Found(address);
                                },
                                None => {
                                    self.state = LookupState::Asking { index: index + 1 };
                                },
                            }
                        },
                        LookupEvent::Failed(message) => {
                            self.state = LookupState::Failed(message);
                        },
                    }
                }
            },
            _ => {},
        }
        self.next_action()
    }
}

/// What a directory replies to a query, a node reads back: the address
/// where the identifier is registered, none where it is not.
pub proof fn lemma_reply_reads_back(registry: Map<u128, SocketAddress>, id: u128)
    ensures
        reply_to(registry, Command::Query { id }) is Some,
        address_of_reply(reply_to(registry, Command::Query { id })->Some_0) == if registry.contains_key(
            id,
        ) {
            Some(registry[id])
        } else {
            None::<SocketAddress>
        },
{
    if registry.contains_key(id) {
        lemma_address_text_bytes(registry[id]);
        lemma_address_round_trip(registry[id]);
    } else {
        let reply = not_found_reply();
        assert(reply.len() == 14);
        assert(trimmed(reply) == reply);
        lemma_no_colon_no_address(reply);
    }
}

/// The state of a search that began with the first of `networks` and has
/// seen `events`, oldest first.
pub open spec fn lookup_after(networks: Seq<SocketAddress>, events: Seq<LookupEvent>) -> LookupState
    decreases events.len(),
{
    if events.len() == 0 {
        LookupState::Asking { index: 0 }
    } else {
        lookup_after(networks, events.drop_last()).after(networks, events.last())
    }
}

/// A reply that gives no address.
pub open spec fn is_empty_reply(event: LookupEvent) -> bool {
    event matches LookupEvent::Reply(reply) && address_of_reply(reply@) is None
}

/// While the directories give no address, the search goes from one to the
/// next.
pub proof fn lemma_lookup_goes_on(networks: Seq<SocketAddress>, events: Seq<LookupEvent>)
    requires
        events.len() <= networks.len() <= usize::MAX,
        forall|i: int| 0 <= i < events.len() ==> is_empty_reply(#[trigger] events[i]),
    ensures
        lookup_after(networks, events) == (LookupState::Asking { index: events.len() as usize }),
    decreases events.len(),
{
    if events.len() > 0 {
        let earlier = events.drop_last();
        assert forall|i: int| 0 <= i < earlier.len() implies is_empty_reply(
            #[trigger] earlier[i],
        ) by {
            assert(earlier[i] == events[i]);
        }
        lemma_lookup_goes_on(networks, earlier);
    }
}

/// A search ends with the first address that a directory gives, and with
/// `NotFound` once every directory has replied without one.
pub proof fn lemma_lookup_first_address(networks: Seq<SocketAddress>, events: Seq<LookupEvent>)
    requires
        events.len() <= networks.len() <= usize::MAX,
        forall|i: int| 0 <= i < events.len() - 1 ==> is_empty_reply(#[trigger] events[i]),
        events.len() > 0 ==> events.last() is Reply,
    ensures
        events.len() > 0 ==> match address_of_reply(events.last()->Reply_0@) {
            Some(address) => lookup_after(networks, events).outcome(networks) == Some(
                Ok::<SocketAddress, LookupError>(address),
            ),
            None => lookup_after(networks, events).outcome(networks) == if events.len()
                == networks.len() {
                Some(Err::<SocketAddress, LookupError>(LookupError::NotFound))
            } else {
                None
            },
        },
        networks.len() == 0 ==> lookup_after(networks, events).outcome(networks) == Some(
            Err::<SocketAddress, LookupError>(LookupError::NotFound),
        ),
{
    if events.len() > 0 {
        let earlier = events.drop_last();
        assert forall|i: int| 0 <= i < earlier.len() implies is_empty_reply(
            #[trigger] earlier[i],
        ) by {
            assert(earlier[i] == events[i]);
        }
        lemma_lookup_goes_on(networks, earlier);
    }
}

} // verus!
