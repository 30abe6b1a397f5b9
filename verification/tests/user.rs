use packet_racers::address::SocketAddress;
use packet_racers::file_transfer::{TransferAction, TransferProgress};
use packet_racers::network::Network;
use packet_racers::protocol::ProtocolType;
use packet_racers::user::{
    parse_query_reply, stream_chunk, LookupAction, LookupError, LookupEvent, LookupState,
    TransportPlan, UdpPacket, User, DEFAULT_PACKET_SIZE, LISTEN_BUFFER_LEN, REPLY_BUFFER_LEN,
};

fn addr(a: u8, b: u8, c: u8, d: u8, port: u16) -> SocketAddress {
    SocketAddress { a, b, c, d, port }
}

fn alice() -> User {
    User::new(addr(127, 0, 0, 1, 8000))
}

#[test]
fn new_user_has_a_random_uuid_and_no_networks() {
    let user = alice();
    assert_eq!(user.addr(), addr(127, 0, 0, 1, 8000));
    assert!(user.networks().is_empty());
    let uuid = uuid::Uuid::from_u128(user.id());
    assert_eq!(uuid.get_version_num(), 4);
    assert_eq!(user.id() & 0xf000_c000_0000_0000_0000, 0x4000_8000_0000_0000_0000);
    assert_ne!(alice().id(), user.id());
}

#[test]
fn messages_are_the_directory_requests() {
    let user = alice();
    let uuid = uuid::Uuid::from_u128(user.id());
    assert_eq!(user.enter_message(), format!("@enter://127.0.0.1:8000,{}", uuid).into_bytes());
    assert_eq!(user.quit_message(), format!("@quit://{}", uuid).into_bytes());
    let other = 0x936da01f9abd4d9d80c702af85c822a8u128;
    assert_eq!(
        User::query_message(other),
        b"@query://936da01f-9abd-4d9d-80c7-02af85c822a8".to_vec()
    );
    assert_eq!(
        User::query_message(0x0000000a000b000c000d00000000000fu128),
        b"@query://0000000a-000b-000c-000d-00000000000f".to_vec()
    );
}

#[test]
fn directory_understands_what_a_user_writes() {
    let bob = User::new(addr(10, 0, 0, 2, 8001));
    let mut network = Network::new();
    assert_eq!(network.handle_request(&bob.enter_message()), Ok(None));
    assert_eq!(network.get_address(bob.id()), Some(&addr(10, 0, 0, 2, 8001)));
    let reply = network.handle_request(&User::query_message(bob.id())).unwrap().unwrap();
    assert_eq!(parse_query_reply(&reply), Some(addr(10, 0, 0, 2, 8001)));
    assert_eq!(network.handle_request(&bob.quit_message()), Ok(None));
    let reply = network.handle_request(&User::query_message(bob.id())).unwrap().unwrap();
    assert_eq!(parse_query_reply(&reply), None);
}

#[test]
fn replies_are_trimmed_before_they_are_read() {
    assert_eq!(parse_query_reply(b"127.0.0.1:9000"), Some(addr(127, 0, 0, 1, 9000)));
    assert_eq!(parse_query_reply(b"  127.0.0.1:9000\r\n"), Some(addr(127, 0, 0, 1, 9000)));
    assert_eq!(parse_query_reply(b"\t\x0b\x0c127.0.0.1:9000 "), Some(addr(127, 0, 0, 1, 9000)));
    assert_eq!(parse_query_reply(b"UUID not found"), None);
    assert_eq!(parse_query_reply(b"127.0.0.1 :9000"), None);
    assert_eq!(parse_query_reply(b""), None);
    assert_eq!(parse_query_reply(b"   "), None);
}

#[test]
fn networks_are_kept_in_order() {
    let mut user = alice();
    let first = addr(127, 0, 0, 1, 7000);
    let second = addr(127, 0, 0, 1, 7001);
    user.joined_network(first);
    user.joined_network(second);
    user.joined_network(first);
    assert_eq!(*user.networks(), vec![first, second, first]);
    user.left_network(first);
    assert_eq!(*user.networks(), vec![second]);
    user.left_network(first);
    assert_eq!(*user.networks(), vec![second]);
    user.left_network(second);
    assert!(user.networks().is_empty());
}

#[test]
fn plan_follows_the_protocol_kind() {
    let user = alice();
    let receiver = addr(127, 0, 0, 1, 8001);
    assert_eq!(user.transport_plan(receiver, ProtocolType::Tcp), TransportPlan::Stream { remote: receiver });
    assert_eq!(user.transport_plan(receiver, ProtocolType::Udp), TransportPlan::Datagram { remote: receiver });
    assert_eq!(
        user.transport_plan(receiver, ProtocolType::GuaranteedUdp),
        TransportPlan::ReliableDatagram { local: addr(127, 0, 0, 1, 8000), remote: receiver }
    );
}

#[test]
fn created_transfer_sends_packets_of_a_hundred_bytes() {
    let mut user = alice();
    user.joined_network(addr(127, 0, 0, 1, 7000));
    let mut transfer = user.create_file_transfer("transport");
    assert_eq!(DEFAULT_PACKET_SIZE, 100);
    assert_eq!(transfer.options().packet_size(), 100);
    assert_eq!(*transfer.options().protocol(), "transport");
    assert_eq!(*transfer.progress(), TransferProgress::NotStarted);
    assert_eq!(transfer.sender().id(), user.id());
    assert_eq!(transfer.sender().addr(), user.addr());
    assert_eq!(transfer.sender().networks(), user.networks());
    assert_eq!(transfer.start(150), TransferAction::SendPacket { start: 0, end: 100 });
    assert_eq!(transfer.on_send_result(Ok(100)), TransferAction::SendPacket { start: 100, end: 150 });
}

#[test]
fn clone_is_the_same_identity() {
    let mut user = alice();
    user.joined_network(addr(1, 2, 3, 4, 5));
    let copy = user.clone();
    assert_eq!(copy.id(), user.id());
    assert_eq!(copy.addr(), user.addr());
    assert_eq!(copy.networks(), user.networks());
}

#[test]
fn stream_reads_go_into_the_sink_until_one_is_empty() {
    let buffer = [7u8; 16];
    assert_eq!(LISTEN_BUFFER_LEN, 1024);
    assert_eq!(stream_chunk(&buffer, 0), None);
    assert_eq!(stream_chunk(&buffer, 5), Some(&buffer[..5]));
    assert_eq!(stream_chunk(&buffer, 16), Some(&buffer[..]));
}

#[test]
fn datagrams_go_into_the_sink_whole() {
    let buffer = *b"hello, world";
    let packet = UdpPacket::new(addr(127, 0, 0, 1, 9), &buffer, 5);
    assert_eq!(packet, UdpPacket { src_addr: addr(127, 0, 0, 1, 9), payload: b"hello".to_vec() });
    assert_eq!(UdpPacket::new(addr(127, 0, 0, 1, 9), &buffer, 0).payload, Vec::<u8>::new());
    assert_eq!(UdpPacket::new(addr(127, 0, 0, 1, 9), &buffer, 12).payload, buffer.to_vec());
}

fn user_in(networks: &[SocketAddress]) -> User {
    let mut user = alice();
    for network in networks {
        user.joined_network(*network);
    }
    user
}

#[test]
fn lookup_asks_the_networks_in_order() {
    let first = addr(127, 0, 0, 1, 7000);
    let second = addr(127, 0, 0, 1, 7001);
    let wanted = 0x936da01f9abd4d9d80c702af85c822a8u128;
    let request = b"@query://936da01f-9abd-4d9d-80c7-02af85c822a8".to_vec();
    let mut lookup = user_in(&[first, second]).find_address(wanted);
    assert_eq!(REPLY_BUFFER_LEN, 50);
    assert_eq!(lookup.uuid(), wanted);
    assert_eq!(lookup.next_action(), LookupAction::Ask { network: first, request: request.clone() });
    let action = lookup.handle(LookupEvent::Reply(b"UUID not found".to_vec()));
    assert_eq!(action, LookupAction::Ask { network: second, request });
    assert_eq!(*lookup.state(), LookupState::Asking { index: 1 });
    let action = lookup.handle(LookupEvent::Reply(b"10.9.8.7:6543\n".to_vec()));
    assert_eq!(action, LookupAction::Return(Ok(addr(10, 9, 8, 7, 6543))));
    let action = lookup.handle(LookupEvent::Reply(b"1.1.1.1:1".to_vec()));
    assert_eq!(action, LookupAction::Return(Ok(addr(10, 9, 8, 7, 6543))));
}

#[test]
fn lookup_ends_not_found_when_no_network_knows() {
    let mut lookup = alice().find_address(1);
    assert_eq!(lookup.next_action(), LookupAction::Return(Err(LookupError::NotFound)));
    let networks = [addr(127, 0, 0, 1, 7000), addr(127, 0, 0, 1, 7001)];
    let mut lookup2 = user_in(&networks).find_address(1);
    lookup2.handle(LookupEvent::Reply(b"UUID not found".to_vec()));
    let action = lookup2.handle(LookupEvent::Reply(Vec::new()));
    assert_eq!(action, LookupAction::Return(Err(LookupError::NotFound)));
    let action = lookup.handle(LookupEvent::Reply(b"1.1.1.1:1".to_vec()));
    assert_eq!(action, LookupAction::Return(Err(LookupError::NotFound)));
    assert_eq!(lookup2.networks().len(), 2);
}

#[test]
fn lookup_fails_when_a_network_cannot_be_reached() {
    let networks = [addr(127, 0, 0, 1, 7000), addr(127, 0, 0, 1, 7001)];
    let mut lookup = user_in(&networks).find_address(1);
    let action = lookup.handle(LookupEvent::Failed("connection refused".to_string()));
    assert_eq!(action, LookupAction::Return(Err(LookupError::Io("connection refused".to_string()))));
    assert_eq!(*lookup.state(), LookupState::Failed("connection refused".to_string()));
}
