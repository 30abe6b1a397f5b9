//! The address directory: a registry from node identifiers to addresses,
//! driven by one text command per connection.
//!
//! ```text
//! @enter://<ip>:<port>,<uuid>
//! @query://<uuid>
//! @quit://<uuid>
//! ```
//!
//! The listener and the connections are the caller's. It hands each request
//! it has read to [`Network::handle_request`] and writes back the reply, if
//! there is one.

use std::collections::HashMap;
use vstd::prelude::*;
use vstd::std_specs::hash::*;
use crate::address::{
    address_of_text, address_text, in_address, lemma_address_round_trip,
    lemma_address_text_bytes, SocketAddress,
};
use crate::identifier::{
    format_id, id_of_text, id_text, in_id, lemma_id_round_trip, lemma_id_text_bytes, parse_id,
};
use crate::text::{
    all_bytes, append, first_field, lemma_all_bytes_concat, lemma_all_bytes_wider,
    lemma_nothing_to_split, lemma_split_after, same_bytes, second_field, split_fields,
};

verus! {

broadcast use group_hash_axioms;

/// The size of the buffer a request is read into, in bytes.
pub const REQUEST_BUFFER_LEN: usize = 1028;

/// The bytes `://`, which divide verb and payload.
pub open spec fn separator() -> Seq<u8> {
    seq![0x3au8, 0x2fu8, 0x2fu8]
}

/// The byte `,`, which divides the fields of a payload.
pub open spec fn comma() -> Seq<u8> {
    seq![0x2cu8]
}

/// The bytes of `@enter`.
pub open spec fn enter_verb() -> Seq<u8> {
    seq![0x40u8, 0x65u8, 0x6eu8, 0x74u8, 0x65u8, 0x72u8]
}

/// The bytes of `@query`.
pub open spec fn query_verb() -> Seq<u8> {
    seq![0x40u8, 0x71u8, 0x75u8, 0x65u8, 0x72u8, 0x79u8]
}

/// The bytes of `@quit`.
pub open spec fn quit_verb() -> Seq<u8> {
    seq![0x40u8, 0x71u8, 0x75u8, 0x69u8, 0x74u8]
}

/// The bytes of `UUID not found`, the reply to a query for an identifier
/// that is not registered.
pub open spec fn not_found_reply() -> Seq<u8> {
    seq![
        0x55u8, 0x55u8, 0x49u8, 0x44u8, 0x20u8, 0x6eu8, 0x6fu8, 0x74u8, 0x20u8, 0x66u8, 0x6fu8,
        0x75u8, 0x6eu8, 0x64u8,
    ]
}

/// Why a request was refused. Every one of these is an invalid input; none
/// changes the registry.
#[derive(Clone, Copy, Debug, PartialEq, Eq, Structural)]
pub enum InvalidInput {
    /// The request holds no `://`.
    MissingSeparator,
    /// The verb is none of `@enter`, `@query`, `@quit`.
    UnknownVerb,
    /// The address of an `@enter` does not read as `a.b.c.d:port`.
    BadAddress,
    /// The identifier is missing or does not read as a UUID.
    BadIdentifier,
}

/// A request, understood.
#[derive(Clone, Copy, Debug, PartialEq, Eq, Structural)]
pub enum Command {
    Enter { address: SocketAddress, id: u128 },
    Query { id: u128 },
    Quit { id: u128 },
}

/// What the payload `<address>,<identifier>` of an `@enter` says. The
/// address is read first.
pub open spec fn enter_of(data: Seq<u8>) -> Result<(SocketAddress, u128), InvalidInput> {
    match address_of_text(first_field(data, comma())) {
        None => Err(InvalidInput::BadAddress),
        Some(address) => match second_field(data, comma()) {
            None => Err(InvalidInput::BadIdentifier),
            Some(text) => match id_of_text(text) {
                None => Err(InvalidInput::BadIdentifier),
                Some(id) => Ok((address, id)),
            },
        },
    }
}

/// What the payload `<identifier>` of a `@query` or `@quit` says.
pub open spec fn id_of(data: Seq<u8>) -> Result<u128, InvalidInput> {
    match id_of_text(data) {
        None => Err(InvalidInput::BadIdentifier),
        Some(id) => Ok(id),
    }
}

/// The command that a verb and its payload make. The verb is looked at
/// first.
pub open spec fn command_of_parts(verb: Seq<u8>, data: Seq<u8>) -> Result<Command, InvalidInput> {
    if verb == enter_verb() {
        match enter_of(data) {
            Ok((address, id)) => Ok(Command::Enter { address, id }),
            Err(refusal) => Err(refusal),
        }
    } else if verb == query_verb() {
        match id_of(data) {
            Ok(id) => Ok(Command::Query { id }),
            Err(refusal) => Err(refusal),
        }
    } else if verb == quit_verb() {
        match id_of(data) {
            Ok(id) => Ok(Command::Quit { id }),
            Err(refusal) => Err(refusal),
        }
    } else {
        Err(InvalidInput::UnknownVerb)
    }
}

/// The command that a request makes: the verb is what stands before the
/// first `://`, the payload what stands between the first and the second (or
/// the end).
pub open spec fn command_of(request: Seq<u8>) -> Result<Command, InvalidInput> {
    match second_field(request, separator()) {
        None => Err(InvalidInput::MissingSeparator),
        Some(data) => command_of_parts(first_field(request, separator()), data),
    }
}

/// The request that asks for `command`, as a node writes it.
pub open spec fn request_of(command: Command) -> Seq<u8> {
    match command {
        Command::Enter { address, id } => enter_verb() + separator() + address_text(address)
            + comma() + id_text(id),
        Command::Query { id } => query_verb() + separator() + id_text(id),
        Command::Quit { id } => quit_verb() + separator() + id_text(id),
    }
}

/// The registry after `command`.
pub open spec fn registry_after(
    registry: Map<u128, SocketAddress>,
    command: Command,
) -> Map<u128, SocketAddress> {
    match command {
        Command::Enter { address, id } => registry.insert(id, address),
        Command::Query { id } => registry,
        Command::Quit { id } => registry.remove(id),
    }
}

/// What is written back for `command`: for a query, the address in its text
/// form or `UUID not found`; nothing for the other commands.
pub open spec fn reply_to(registry: Map<u128, SocketAddress>, command: Command) -> Option<
    Seq<u8>,
> {
    match command {
        Command::Query { id } => Some(
            if registry.contains_key(id) {
                address_text(registry[id])
            } else {
                not_found_reply()
            },
        ),
        _ => None,
    }
}

/// What handling a request has to give, and the registry it has to leave.
pub open spec fn handled(
    before: Map<u128, SocketAddress>,
    command: Result<Command, InvalidInput>,
    after: Map<u128, SocketAddress>,
    outcome: Result<Option<Vec<u8>>, InvalidInput>,
) -> bool {
    match command {
        Ok(command) => {
            &&& after == registry_after(before, command)
            &&& outcome is Ok
            &&& match (outcome->Ok_0, reply_to(before, command)) {
                (Some(written), Some(reply)) => written@ == reply,
                (None, None) => true,
                _ => false,
            }
        },
        Err(refusal) => after == before && outcome == Err::<Option<Vec<u8>>, InvalidInput>(
            refusal,
        ),
    }
}

impl Command {
    /// Writes the request that asks for this command.
    pub fn to_bytes(&self) -> (request: Vec<u8>)
        ensures
            request@ == request_of(*self),
    {
        let separator_bytes: [u8; 3] = [0x3au8, 0x2fu8, 0x2fu8];
        assert(separator_bytes@ =~= separator());
        let mut request: Vec<u8> = Vec::new();
        match self {
            Command::Enter { address, id } => {
                let verb: [u8; 6] = [0x40u8, 0x65u8, 0x6eu8, 0x74u8, 0x65u8, 0x72u8];
                assert(verb@ =~= enter_verb());
                append(&mut request, verb.as_slice());
                append(&mut request, separator_bytes.as_slice());
                address.write_to(&mut request);
                request.push(0x2cu8);
                let text = format_id(*id);
                append(&mut request, text.as_slice());
                assert(request@ =~= request_of(*self));
            },
            Command::Query { id } => {
                let verb: [u8; 6] = [0x40u8, 0x71u8, 0x75u8, 0x65u8, 0x72u8, 0x79u8];
                assert(verb@ =~= query_verb());
                append(&mut request, verb.as_slice());
                append(&mut request, separator_bytes.as_slice());
                let text = format_id(*id);
                append(&mut request, text.as_slice());
                assert(request@ =~= request_of(*self));
            },
            Command::Quit { id } => {
                let verb: [u8; 5] = [0x40u8, 0x71u8, 0x75u8, 0x69u8, 0x74u8];
                assert(verb@ =~= quit_verb());
                append(&mut request, verb.as_slice());
                append(&mut request, separator_bytes.as_slice());
                let text = format_id(*id);
                append(&mut request, text.as_slice());
                assert(request@ =~= request_of(*self));
            },
        }
        request
    }
}

impl InvalidInput {
    /// A description for logs and error messages.
    pub fn message(&self) -> (text: &'static str)
        ensures
            text@ == match *self {
                InvalidInput::MissingSeparator => "Invalid command"@,
                InvalidInput::UnknownVerb => "Invalid protocol"@,
                InvalidInput::BadAddress => "Invalid address"@,
                InvalidInput::BadIdentifier => "Invalid UUID"@,
            },
    {
        match self {
            InvalidInput::MissingSeparator => "Invalid command",
            InvalidInput::UnknownVerb => "Invalid protocol",
            InvalidInput::BadAddress => "Invalid address",
            InvalidInput::BadIdentifier => "Invalid UUID",
        }
    }
}

/// The registry of the directory service.
pub struct Network {
    connections: HashMap<u128, SocketAddress>,
}

impl View for Network {
    type V = Map<u128, SocketAddress>;

    closed spec fn view(&self) -> Map<u128, SocketAddress> {
        self.connections@
    }
}

fn parse_payload_id(data: &[u8]) -> (id: Result<u128, InvalidInput>)
    ensures
        id == id_of(data@),
{
    match parse_id(data) {
        Some(id) => Ok(id),
        None => Err(InvalidInput::BadIdentifier),
    }
}

fn parse_enter(data: &[u8]) -> (entry: Result<(SocketAddress, u128), InvalidInput>)
    ensures
        entry == enter_of(data@),
{
    let comma_bytes: [u8; 1] = [0x2cu8];
    assert(comma_bytes@ =~= comma());
    let (address_text, id_text) = split_fields(data, comma_bytes.as_slice());
    let address = match SocketAddress::parse(address_text) {
        Some(address) => address,
        None => { return Err(InvalidInput::BadAddress); },
    };
    let id_text = match id_text {
        Some(id_text) => id_text,
        None => { return Err(InvalidInput::BadIdentifier); },
    };
    match parse_id(id_text) {
        Some(id) => Ok((address, id)),
        None => Err(InvalidInput::BadIdentifier),
    }
}

impl Command {
    /// Reads the command that a verb and its payload make.
    pub fn from_parts(verb: &[u8], data: &[u8]) -> (command: Result<Command, InvalidInput>)
        ensures
            command == command_of_parts(verb@, data@),
    {
        let enter: [u8; 6] = [0x40u8, 0x65u8, 0x6eu8, 0x74u8, 0x65u8, 0x72u8];
        let query: [u8; 6] = [0x40u8, 0x71u8, 0x75u8, 0x65u8, 0x72u8, 0x79u8];
        let quit: [u8; 5] = [0x40u8, 0x71u8, 0x75u8, 0x69u8, 0x74u8];
        assert(enter@ =~= enter_verb());
        assert(query@ =~= query_verb());
        assert(quit@ =~= quit_verb());
        if same_bytes(verb, enter.as_slice()) {
            match parse_enter(data) {
                Ok((address, id)) => Ok(Command::Enter { address, id }),
                Err(refusal) => Err(refusal),
            }
        } else if same_bytes(verb, query.as_slice()) {
            match parse_payload_id(data) {
                Ok(id) => Ok(Command::Query { id }),
                Err(refusal) => Err(refusal),
            }
        } else if same_bytes(verb, quit.as_slice()) {
            match parse_payload_id(data) {
                Ok(id) => Ok(Command::Quit { id }),
                Err(refusal) => Err(refusal),
            }
        } else {
            Err(InvalidInput::UnknownVerb)
        }
    }

    /// Reads the command that a request makes.
    pub fn parse(request: &[u8]) -> (command: Result<Command, InvalidInput>)
        ensures
            command == command_of(request@),
    {
        let separator_bytes: [u8; 3] = [0x3au8, 0x2fu8, 0x2fu8];
        assert(separator_bytes@ =~= separator());
        let (verb, data) = split_fields(request, separator_bytes.as_slice());
        match data {
            Some(data) => Command::from_parts(verb, data),
            None => Err(InvalidInput::MissingSeparator),
        }
    }
}

impl Network {
    /// An empty registry.
    pub fn new() -> (network: Self)
        ensures
            network@ == Map::<u128, SocketAddress>::empty(),
    {
        Network { connections: HashMap::new() }
    }

    /// The address registered for `uuid`, if there is one.
    pub fn get_address(&self, uuid: u128) -> (address: Option<&SocketAddress>)
        ensures
            match address {
                Some(address) => self@.contains_key(uuid) && *address == self@[uuid],
                None => !self@.contains_key(uuid),
            },
    {
        self.connections.get(&uuid)
    }

    /// Registers `address` under `uuid`, in place of any address registered
    /// before.
    pub fn insert(&mut self, uuid: u128, address: SocketAddress)
        ensures
            final(self)@ == old(self)@.insert(uuid, address),
    {
        self.connections.insert(uuid, address);
    }

    /// Removes the entry of `uuid`. That there is none is no error.
    pub fn remove(&mut self, uuid: u128)
        ensures
            final(self)@ == old(self)@.remove(uuid),
    {
        self.connections.remove(&uuid);
    }

    /// The reply to a query for `uuid`: the registered address in its text
    /// form, or `UUID not found`.
    pub fn reply(&self, uuid: u128) -> (reply: Vec<u8>)
        ensures
            Some(reply@) == reply_to(self@, Command::Query { id: uuid }),
    {
        match self.get_address(uuid) {
            Some(address) => address.to_bytes(),
            None => {
                let reply: [u8; 14] = [
                    0x55u8, 0x55u8, 0x49u8, 0x44u8, 0x20u8, 0x6eu8, 0x6fu8, 0x74u8, 0x20u8,
                    0x66u8, 0x6fu8, 0x75u8, 0x6eu8, 0x64u8,
                ];
                assert(reply@ =~= not_found_reply());
                vstd::slice::slice_to_vec(reply.as_slice())
            },
        }
    }

    /// Carries out `command`. What comes back has to be written on the
    /// connection, if anything.
    pub fn execute(&mut self, command: Command) -> (written: Option<Vec<u8>>)
        ensures
            final(self)@ == registry_after(old(self)@, command),
            match (written, reply_to(old(self)@, command)) {
                (Some(written), Some(reply)) => written@ == reply,
                (None, None) => true,
                _ => false,
            },
    {
        match command {
            Command::Enter { address, id } => {
                self.insert(id, address);
                None
            },
            Command::Query { id } => Some(self.reply(id)),
            Command::Quit { id } => {
                self.remove(id);
                None
            },
        }
    }

    /// Handles the payload of an `@enter`: registers the address under the
    /// identifier.
    pub fn handle_enter(&mut self, data: &[u8]) -> (outcome: Result<(), InvalidInput>)
        ensures
            match enter_of(data@) {
                Ok((address, id)) => outcome is Ok && final(self)@ == old(self)@.insert(
                    id,
                    address,
                ),
                Err(refusal) => outcome == Err::<(), InvalidInput>(refusal) && final(self)@ == old(
                    self,
                )@,
            },
    {
        match parse_enter(data) {
            Ok((address, id)) => {
                self.insert(id, address);
                Ok(())
            },
            Err(refusal) => Err(refusal),
        }
    }

    /// Handles the payload of a `@query`: the reply is the registered address
    /// in its text form, or `UUID not found`.
    pub fn handle_query(&self, data: &[u8]) -> (outcome: Result<Vec<u8>, InvalidInput>)
        ensures
            match id_of(data@) {
                Ok(id) => outcome is Ok && Some(outcome->Ok_0@) == reply_to(
                    self@,
                    Command::Query { id },
                ),
                Err(refusal) => outcome == Err::<Vec<u8>, InvalidInput>(refusal),
            },
    {
        match parse_payload_id(data) {
            Ok(id) => Ok(self.reply(id)),
            Err(refusal) => Err(refusal),
        }
    }

    /// Handles the payload of a `@quit`: removes the identifier's entry. That
    /// there is none is no error.
    pub fn handle_quit(&mut self, data: &[u8]) -> (outcome: Result<(), InvalidInput>)
        ensures
            match id_of(data@) {
                Ok(id) => outcome is Ok && final(self)@ == old(self)@.remove(id),
                Err(refusal) => outcome == Err::<(), InvalidInput>(refusal) && final(self)@ == old(
                    self,
                )@,
            },
    {
        match parse_payload_id(data) {
            Ok(id) => {
                self.remove(id);
                Ok(())
            },
            Err(refusal) => Err(refusal),
        }
    }

    /// Handles a verb and its payload. The outcome holds what has to be
    /// written back on the connection, if anything.
    pub fn handle_protocol(&mut self, protocol: &[u8], data: &[u8]) -> (outcome: Result<
        Option<Vec<u8>>,
        InvalidInput,
    >)
        ensures
            handled(old(self)@, command_of_parts(protocol@, data@), final(self)@, outcome),
    {
        match Command::from_parts(protocol, data) {
            Ok(command) => Ok(self.execute(command)),
            Err(refusal) => Err(refusal),
        }
    }

    /// Handles the one request of a connection. The outcome holds what has
    /// to be written back on the connection, if anything.
    pub fn handle_request(&mut self, request: &[u8]) -> (outcome: Result<
        Option<Vec<u8>>,
        InvalidInput,
    >)
        ensures
            handled(old(self)@, command_of(request@), final(self)@, outcome),
    {
        match Command::parse(request) {
            Ok(command) => Ok(self.execute(command)),
            Err(refusal) => Err(refusal),
        }
    }
}

/// An entry that was entered is what a query finds, whatever stood there
/// before.
pub proof fn lemma_enter_then_query(
    registry: Map<u128, SocketAddress>,
    address: SocketAddress,
    id: u128,
)
    ensures
        reply_to(registry_after(registry, Command::Enter { address, id }), Command::Query { id })
            == Some(address_text(address)),
        registry_after(registry_after(registry, Command::Enter { address, id }), Command::Query { id })
            == registry.insert(id, address),
{
}

/// A query for an identifier that is not registered is answered with
/// `UUID not found`, and a query changes nothing.
pub proof fn lemma_query_unknown(registry: Map<u128, SocketAddress>, id: u128)
    requires
        !registry.contains_key(id),
    ensures
        reply_to(registry, Command::Query { id }) == Some(not_found_reply()),
        registry_after(registry, Command::Query { id }) == registry,
{
}

/// After a quit a query no longer finds the identifier.
pub proof fn lemma_quit_then_query(registry: Map<u128, SocketAddress>, id: u128)
    ensures
        reply_to(registry_after(registry, Command::Quit { id }), Command::Query { id }) == Some(
            not_found_reply(),
        ),
{
}

/// Removal is idempotent: a quit for an identifier that is not registered
/// leaves the registry as it is, and a second quit changes nothing after the
/// first. No other entry is touched.
pub proof fn lemma_quit_idempotent(registry: Map<u128, SocketAddress>, id: u128)
    ensures
        !registry.contains_key(id) ==> registry_after(registry, Command::Quit { id }) == registry,
        registry_after(registry_after(registry, Command::Quit { id }), Command::Quit { id })
            == registry_after(registry, Command::Quit { id }),
        forall|other: u128|
            other != id ==> (#[trigger] registry_after(
                registry,
                Command::Quit { id },
            ).contains_key(other) <==> registry.contains_key(other)) && (registry.contains_key(
                other,
            ) ==> registry_after(registry, Command::Quit { id })[other] == registry[other]),
{
    assert(!registry.contains_key(id) ==> registry.remove(id) =~= registry);
    assert(registry.remove(id).remove(id) =~= registry.remove(id));
}

/// A verb other than `@enter`, `@query` and `@quit` is refused as an unknown
/// verb whatever its payload, and a refused request leaves the registry as it
/// was.
pub proof fn lemma_unknown_verb(
    before: Map<u128, SocketAddress>,
    verb: Seq<u8>,
    data: Seq<u8>,
    after: Map<u128, SocketAddress>,
    outcome: Result<Option<Vec<u8>>, InvalidInput>,
)
    requires
        verb != enter_verb(),
        verb != query_verb(),
        verb != quit_verb(),
        handled(before, command_of_parts(verb, data), after, outcome),
    ensures
        command_of_parts(verb, data) == Err::<Command, InvalidInput>(InvalidInput::UnknownVerb),
        outcome == Err::<Option<Vec<u8>>, InvalidInput>(InvalidInput::UnknownVerb),
        after == before,
{
}

/// Whatever the request, a refusal leaves the registry as it was.
pub proof fn lemma_refusal_changes_nothing(
    before: Map<u128, SocketAddress>,
    command: Result<Command, InvalidInput>,
    after: Map<u128, SocketAddress>,
    outcome: Result<Option<Vec<u8>>, InvalidInput>,
)
    requires
        handled(before, command, after, outcome),
    ensures
        outcome is Err ==> after == before,
        outcome is Err <==> command is Err,
{
}

/// What may stand in the payload of a request that a node writes: no slash,
/// so no second `://`.
pub open spec fn in_payload(byte: u8) -> bool {
    in_address(byte) || in_id(byte) || byte == 0x2c
}

proof fn lemma_payload(verb: Seq<u8>, payload: Seq<u8>)
    requires
        all_bytes(verb, |byte: u8| byte != 0x3a),
        all_bytes(payload, |byte: u8| in_payload(byte)),
    ensures
        first_field(verb + separator() + payload, separator()) == verb,
        second_field(verb + separator() + payload, separator()) == Some(payload),
{
    lemma_split_after(verb, separator(), payload, |byte: u8| byte != 0x3a);
    lemma_nothing_to_split(payload, separator(), |byte: u8| in_payload(byte), 1);
}

proof fn lemma_id_payload(id: u128)
    ensures
        all_bytes(id_text(id), |byte: u8| in_payload(byte)),
        id_of(id_text(id)) == Ok::<u128, InvalidInput>(id),
{
    lemma_id_text_bytes(id);
    lemma_id_round_trip(id);
    lemma_all_bytes_wider(id_text(id), |byte: u8| in_id(byte), |byte: u8| in_payload(byte));
}

proof fn lemma_verbs()
    ensures
        all_bytes(enter_verb(), |byte: u8| byte != 0x3a),
        all_bytes(query_verb(), |byte: u8| byte != 0x3a),
        all_bytes(quit_verb(), |byte: u8| byte != 0x3a),
        enter_verb() != query_verb(),
        enter_verb() != quit_verb(),
        query_verb() != quit_verb(),
{
    assert(enter_verb()[1] != query_verb()[1]);
    assert(enter_verb().len() != quit_verb().len());
    assert(query_verb().len() != quit_verb().len());
}

proof fn lemma_enter_payload(address: SocketAddress, id: u128)
    ensures
        all_bytes(address_text(address) + comma() + id_text(id), |byte: u8| in_payload(byte)),
        enter_of(address_text(address) + comma() + id_text(id)) == Ok::<
            (SocketAddress, u128),
            InvalidInput,
        >((address, id)),
{
    let in_payload = |byte: u8| in_payload(byte);
    lemma_id_payload(id);
    lemma_address_text_bytes(address);
    lemma_address_round_trip(address);
    lemma_id_text_bytes(id);
    lemma_all_bytes_wider(address_text(address), |byte: u8| in_address(byte), in_payload);
    assert(all_bytes(comma(), in_payload));
    lemma_all_bytes_concat(address_text(address), comma(), in_payload);
    lemma_all_bytes_concat(address_text(address) + comma(), id_text(id), in_payload);
    lemma_split_after(address_text(address), comma(), id_text(id), |byte: u8| in_address(byte));
    lemma_nothing_to_split(id_text(id), comma(), |byte: u8| in_id(byte), 0);
}

/// What a node writes, the directory understands: the request that asks
/// for a command reads back as that command.
pub proof fn lemma_request_round_trip(command: Command)
    ensures
        command_of(request_of(command)) == Ok::<Command, InvalidInput>(command),
{
    lemma_verbs();
    match command {
        Command::Enter { address, id } => {
            let payload = address_text(address) + comma() + id_text(id);
            lemma_enter_payload(address, id);
            assert(request_of(command) =~= enter_verb() + separator() + payload);
            lemma_payload(enter_verb(), payload);
        },
        Command::Query { id } => {
            lemma_id_payload(id);
            lemma_payload(query_verb(), id_text(id));
        },
        Command::Quit { id } => {
            lemma_id_payload(id);
            lemma_payload(quit_verb(), id_text(id));
        },
    }
}

/// A node that has entered is found: after the request by which a node
/// enters, the request that asks for its identifier is answered with its
/// address; after the request by which it leaves, with `UUID not found`.
pub proof fn lemma_entered_node_is_found(
    registry: Map<u128, SocketAddress>,
    address: SocketAddress,
    id: u128,
)
    ensures
        command_of(request_of(Command::Enter { address, id })) is Ok,
        command_of(request_of(Command::Query { id })) is Ok,
        command_of(request_of(Command::Quit { id })) is Ok,
        ({
            let entered = registry_after(
                registry,
                command_of(request_of(Command::Enter { address, id }))->Ok_0,
            );
            let left = registry_after(entered, command_of(request_of(Command::Quit { id }))->Ok_0);
            let query = command_of(request_of(Command::Query { id }))->Ok_0;
            &&& reply_to(entered, query) == Some(address_text(address))
            &&& reply_to(left, query) == Some(not_found_reply())
        }),
{
    lemma_request_round_trip(Command::Enter { address, id });
    lemma_request_round_trip(Command::Query { id });
    lemma_request_round_trip(Command::Quit { id });
}

} // verus!
