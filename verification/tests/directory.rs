use packet_racers::address::SocketAddress;
use packet_racers::network::{Command, InvalidInput, Network};

const ALICE: &str = "67e55044-10b1-426f-9247-bb680e5fe0c8";
const ALICE_ID: u128 = 0x67e5504410b1426f9247bb680e5fe0c8;
const BOB: &str = "936da01f-9abd-4d9d-80c7-02af85c822a8";

fn request(verb: &str, payload: &str) -> Vec<u8> {
    format!("{}://{}", verb, payload).into_bytes()
}

#[test]
fn enter_then_query_returns_the_address() {
    let mut network = Network::new();
    let entered = network.handle_request(&request("@enter", &format!("127.0.0.1:9000,{}", ALICE)));
    assert_eq!(entered, Ok(None));
    let reply = network.handle_request(&request("@query", ALICE));
    assert_eq!(reply, Ok(Some(b"127.0.0.1:9000".to_vec())));
}

#[test]
fn query_for_an_unknown_identifier_is_not_found() {
    let mut network = Network::new();
    let reply = network.handle_request(&request("@query", BOB));
    assert_eq!(reply, Ok(Some(b"UUID not found".to_vec())));
}

#[test]
fn quit_then_query_is_not_found() {
    let mut network = Network::new();
    network.handle_request(&request("@enter", &format!("127.0.0.1:9000,{}", ALICE))).unwrap();
    assert_eq!(network.handle_request(&request("@quit", ALICE)), Ok(None));
    let reply = network.handle_request(&request("@query", ALICE));
    assert_eq!(reply, Ok(Some(b"UUID not found".to_vec())));
    assert_eq!(network.get_address(ALICE_ID), None);
}

#[test]
fn quit_of_a_never_registered_identifier_succeeds() {
    let mut network = Network::new();
    network.handle_request(&request("@enter", &format!("10.1.2.3:80,{}", BOB))).unwrap();
    assert_eq!(network.handle_request(&request("@quit", ALICE)), Ok(None));
    assert_eq!(network.handle_request(&request("@quit", ALICE)), Ok(None));
    let reply = network.handle_request(&request("@query", BOB));
    assert_eq!(reply, Ok(Some(b"10.1.2.3:80".to_vec())));
}

#[test]
fn unknown_verb_is_refused_and_changes_nothing() {
    let mut network = Network::new();
    network.handle_request(&request("@enter", &format!("127.0.0.1:9000,{}", ALICE))).unwrap();
    assert_eq!(network.handle_request(b"@bogus://x"), Err(InvalidInput::UnknownVerb));
    assert_eq!(network.handle_request(&request("@Enter", &format!("1.1.1.1:1,{}", ALICE))),
        Err(InvalidInput::UnknownVerb));
    assert_eq!(InvalidInput::UnknownVerb.message(), "Invalid protocol");
    let expected = SocketAddress { a: 127, b: 0, c: 0, d: 1, port: 9000 };
    assert_eq!(network.get_address(ALICE_ID), Some(&expected));
}

#[test]
fn request_without_separator_is_refused() {
    let mut network = Network::new();
    assert_eq!(network.handle_request(b"@query"), Err(InvalidInput::MissingSeparator));
    assert_eq!(network.handle_request(b""), Err(InvalidInput::MissingSeparator));
    assert_eq!(network.handle_request(b"@bogus"), Err(InvalidInput::MissingSeparator));
}

#[test]
fn enter_overwrites_an_earlier_entry() {
    let mut network = Network::new();
    network.handle_request(&request("@enter", &format!("127.0.0.1:9000,{}", ALICE))).unwrap();
    network.handle_request(&request("@enter", &format!("192.168.0.7:65535,{}", ALICE))).unwrap();
    let reply = network.handle_request(&request("@query", ALICE));
    assert_eq!(reply, Ok(Some(b"192.168.0.7:65535".to_vec())));
}

#[test]
fn malformed_enter_payloads_are_refused() {
    let mut network = Network::new();
    let bad_address = request("@enter", &format!("localhost:9000,{}", ALICE));
    assert_eq!(network.handle_request(&bad_address), Err(InvalidInput::BadAddress));
    let no_identifier = request("@enter", "127.0.0.1:9000");
    assert_eq!(network.handle_request(&no_identifier), Err(InvalidInput::BadIdentifier));
    let bad_identifier = request("@enter", "127.0.0.1:9000,not-a-uuid");
    assert_eq!(network.handle_request(&bad_identifier), Err(InvalidInput::BadIdentifier));
    let both_bad = request("@enter", "nowhere,not-a-uuid");
    assert_eq!(network.handle_request(&both_bad), Err(InvalidInput::BadAddress));
    assert_eq!(network.handle_request(&request("@query", "xyz")), Err(InvalidInput::BadIdentifier));
    assert_eq!(network.handle_request(&request("@quit", "")), Err(InvalidInput::BadIdentifier));
    assert_eq!(network.get_address(ALICE_ID), None);
}

#[test]
fn payload_ends_at_a_second_separator() {
    let mut network = Network::new();
    network.handle_request(&request("@enter", &format!("127.0.0.1:9000,{},extra", ALICE))).unwrap();
    let reply = network.handle_request(&request("@query", &format!("{}://ignored", ALICE)));
    assert_eq!(reply, Ok(Some(b"127.0.0.1:9000".to_vec())));
}

#[test]
fn identifiers_are_read_in_every_text_form() {
    let mut network = Network::new();
    network.handle_request(&request("@enter", &format!("127.0.0.1:9000,{}", ALICE))).unwrap();
    let found = Ok(Some(b"127.0.0.1:9000".to_vec()));
    assert_eq!(network.handle_request(&request("@query", "67e5504410b1426f9247bb680e5fe0c8")), found);
    assert_eq!(network.handle_request(&request("@query", "67E55044-10B1-426F-9247-BB680E5FE0C8")), found);
    assert_eq!(network.handle_request(&request("@query", "{67e55044-10b1-426f-9247-bb680e5fe0c8}")), found);
    assert_eq!(network.handle_request(&request("@query", "urn:uuid:67e55044-10b1-426f-9247-bb680e5fe0c8")), found);
    assert_eq!(network.handle_request(&request("@query", "URN:UUID:67e55044-10b1-426f-9247-bb680e5fe0c8")), found);
    assert_eq!(network.handle_request(&request("@query", "{67e5504410b1426f9247bb680e5fe0c8}")),
        Err(InvalidInput::BadIdentifier));
    assert_eq!(network.handle_request(&request("@query", "67e55044-10b1-426f-9247-bb680e5fe0cg")),
        Err(InvalidInput::BadIdentifier));
    assert_eq!(network.handle_request(&request("@query", "67e55044010b1-426f-9247-bb680e5fe0c8")),
        Err(InvalidInput::BadIdentifier));
}

#[test]
fn handlers_take_verb_and_payload_apart() {
    let mut network = Network::new();
    let payload = format!("127.0.0.1:9000,{}", ALICE);
    assert_eq!(network.handle_protocol(b"@enter", payload.as_bytes()), Ok(None));
    assert_eq!(network.handle_query(ALICE.as_bytes()), Ok(b"127.0.0.1:9000".to_vec()));
    assert_eq!(network.handle_quit(ALICE.as_bytes()), Ok(()));
    assert_eq!(network.handle_query(ALICE.as_bytes()), Ok(b"UUID not found".to_vec()));
    assert_eq!(network.handle_enter(payload.as_bytes()), Ok(()));
    assert_eq!(network.handle_protocol(b"@query", ALICE.as_bytes()), Ok(Some(b"127.0.0.1:9000".to_vec())));
    assert_eq!(network.handle_protocol(b"", b""), Err(InvalidInput::UnknownVerb));
}

#[test]
fn requests_read_as_commands() {
    let address = SocketAddress { a: 127, b: 0, c: 0, d: 1, port: 9000 };
    let enter = request("@enter", &format!("127.0.0.1:9000,{}", ALICE));
    assert_eq!(Command::parse(&enter), Ok(Command::Enter { address, id: ALICE_ID }));
    assert_eq!(Command::parse(&request("@query", ALICE)), Ok(Command::Query { id: ALICE_ID }));
    assert_eq!(Command::parse(&request("@quit", ALICE)), Ok(Command::Quit { id: ALICE_ID }));
    assert_eq!(Command::parse(b"@quit"), Err(InvalidInput::MissingSeparator));
    assert_eq!(Command::parse(b"quit://x"), Err(InvalidInput::UnknownVerb));
    assert_eq!(Command::from_parts(b"@quit", ALICE.as_bytes()), Ok(Command::Quit { id: ALICE_ID }));
    assert_eq!(Command::from_parts(b"@quit ", ALICE.as_bytes()), Err(InvalidInput::UnknownVerb));
    assert_eq!(Command::from_parts(b"@enter", b","), Err(InvalidInput::BadAddress));
}

#[test]
fn commands_write_their_requests() {
    let address = SocketAddress { a: 10, b: 0, c: 0, d: 200, port: 8080 };
    let commands = [
        Command::Enter { address, id: ALICE_ID },
        Command::Query { id: ALICE_ID },
        Command::Quit { id: 0 },
        Command::Enter { address, id: u128::MAX },
    ];
    assert_eq!(commands[0].to_bytes(), request("@enter", &format!("10.0.0.200:8080,{}", ALICE)));
    assert_eq!(commands[1].to_bytes(), request("@query", ALICE));
    assert_eq!(commands[2].to_bytes(), request("@quit", "00000000-0000-0000-0000-000000000000"));
    for command in commands.iter() {
        assert_eq!(Command::parse(&command.to_bytes()), Ok(*command));
    }
}

#[test]
fn registry_inserts_removes_and_replies() {
    let first = SocketAddress { a: 1, b: 1, c: 1, d: 1, port: 1 };
    let second = SocketAddress { a: 2, b: 2, c: 2, d: 2, port: 2 };
    let mut network = Network::new();
    network.insert(7, first);
    network.insert(7, second);
    network.insert(8, first);
    assert_eq!(network.get_address(7), Some(&second));
    assert_eq!(network.reply(7), b"2.2.2.2:2".to_vec());
    assert_eq!(network.reply(9), b"UUID not found".to_vec());
    network.remove(7);
    network.remove(7);
    assert_eq!(network.get_address(7), None);
    assert_eq!(network.get_address(8), Some(&first));
    assert_eq!(network.execute(Command::Query { id: 8 }), Some(b"1.1.1.1:1".to_vec()));
    assert_eq!(network.execute(Command::Quit { id: 8 }), None);
    assert_eq!(network.execute(Command::Enter { address: second, id: 8 }), None);
    assert_eq!(network.execute(Command::Query { id: 8 }), Some(b"2.2.2.2:2".to_vec()));
}
