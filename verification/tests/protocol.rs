use packet_racers::protocol::ProtocolType;
use std::str::FromStr;

#[test]
fn names_select_the_kinds() {
    assert_eq!(ProtocolType::from_str("tcp"), Ok(ProtocolType::Tcp));
    assert_eq!(ProtocolType::from_str("Tcp"), Ok(ProtocolType::Tcp));
    assert_eq!(ProtocolType::from_str("udp"), Ok(ProtocolType::Udp));
    assert_eq!(ProtocolType::from_str("Udp"), Ok(ProtocolType::Udp));
    assert_eq!(ProtocolType::from_str("gudp"), Ok(ProtocolType::GuaranteedUdp));
    assert_eq!(ProtocolType::from_str("GuaranteedUdp"), Ok(ProtocolType::GuaranteedUdp));
}

#[test]
fn unknown_names_are_refused() {
    assert_eq!(ProtocolType::from_str("sctp"), Err("Unknown protocol: sctp".to_string()));
    assert_eq!(ProtocolType::from_str("TCP"), Err("Unknown protocol: TCP".to_string()));
    assert_eq!(ProtocolType::from_str(""), Err("Unknown protocol: ".to_string()));
    assert_eq!(ProtocolType::from_str("guaranteed_udp"), Err("Unknown protocol: guaranteed_udp".to_string()));
}

#[test]
fn strings_parse_into_kinds() {
    assert_eq!("gudp".parse::<ProtocolType>(), Ok(ProtocolType::GuaranteedUdp));
    assert_eq!("Udp".parse::<ProtocolType>(), Ok(ProtocolType::Udp));
    assert_eq!("quic".parse::<ProtocolType>(), Err("Unknown protocol: quic".to_string()));
}

#[test]
fn kinds_have_names() {
    assert_eq!(ProtocolType::Tcp.name(), "tcp");
    assert_eq!(ProtocolType::Udp.name(), "udp");
    assert_eq!(ProtocolType::GuaranteedUdp.name(), "guaranteed_udp");
}
