use packet_racers::protocol::guaranteed_udp::{
    ack_bytes, is_ack, ReceiveAction, ReceiveEvent, ReceivePhase, ReliableReceive, ReliableSend,
    SendAction, SendEvent, SendPhase, ACK_LEN, ACK_TIMEOUT_SECS,
};

/// Drives a send over a channel that loses the first `lost` acknowledgments
/// and counts the transmissions.
fn transmissions_with_lost_acks(packet_len: usize, lost: usize) -> (usize, Result<usize, String>) {
    let mut send = ReliableSend::new(packet_len);
    let mut action = send.next_action();
    let mut transmissions = 0;
    let mut waits = 0;
    loop {
        match action {
            SendAction::Transmit => {
                transmissions += 1;
                action = send.handle(SendEvent::Transmitted);
            }
            SendAction::AwaitAck { timeout_secs } => {
                assert_eq!(timeout_secs, 1);
                let event = if waits < lost {
                    SendEvent::TimedOut
                } else {
                    SendEvent::Received(b"ACK\n".to_vec())
                };
                waits += 1;
                action = send.handle(event);
            }
            SendAction::Return(result) => return (transmissions, result),
        }
    }
}

#[test]
fn token_is_ack_newline() {
    assert_eq!(ack_bytes(), *b"ACK\n");
    assert_eq!(ACK_LEN, 4);
    assert_eq!(ACK_TIMEOUT_SECS, 1);
    assert!(is_ack(b"ACK\n"));
    assert!(!is_ack(b"ACK"));
    assert!(!is_ack(b"ACK\n\n"));
    assert!(!is_ack(b"ack\n"));
    assert!(!is_ack(b"NAK\n"));
    assert!(!is_ack(b""));
}

#[test]
fn acknowledged_at_once_takes_one_transmission() {
    assert_eq!(transmissions_with_lost_acks(100, 0), (1, Ok(100)));
}

#[test]
fn lost_acks_take_one_more_transmission_each() {
    for lost in 0..20 {
        assert_eq!(transmissions_with_lost_acks(37, lost), (lost + 1, Ok(37)));
    }
}

#[test]
fn anything_but_the_token_means_retransmission() {
    let outcomes = vec![
        SendEvent::TimedOut,
        SendEvent::ReceiveFailed,
        SendEvent::Received(b"ACK".to_vec()),
        SendEvent::Received(b"ACK\nX".to_vec()),
        SendEvent::Received(b"KCA\n".to_vec()),
        SendEvent::Received(Vec::new()),
    ];
    for outcome in outcomes {
        let mut send = ReliableSend::new(5);
        assert_eq!(send.handle(SendEvent::Transmitted), SendAction::AwaitAck { timeout_secs: 1 });
        assert_eq!(send.handle(outcome), SendAction::Transmit);
        assert_eq!(*send.phase(), SendPhase::Retrying);
    }
}

#[test]
fn failed_transmission_fails_the_send() {
    let mut send = ReliableSend::new(5);
    let action = send.handle(SendEvent::TransmitFailed("network unreachable".to_string()));
    assert_eq!(action, SendAction::Return(Err("network unreachable".to_string())));
    let mut send = ReliableSend::new(5);
    send.handle(SendEvent::Transmitted);
    send.handle(SendEvent::TimedOut);
    let action = send.handle(SendEvent::TransmitFailed("gone".to_string()));
    assert_eq!(action, SendAction::Return(Err("gone".to_string())));
    assert_eq!(send.handle(SendEvent::Transmitted), SendAction::Return(Err("gone".to_string())));
}

#[test]
fn events_out_of_turn_change_nothing() {
    let mut send = ReliableSend::new(9);
    assert_eq!(send.handle(SendEvent::TimedOut), SendAction::Transmit);
    assert_eq!(send.handle(SendEvent::Received(b"ACK\n".to_vec())), SendAction::Transmit);
    assert_eq!(*send.phase(), SendPhase::Sending);
    send.handle(SendEvent::Transmitted);
    assert_eq!(send.handle(SendEvent::Transmitted), SendAction::AwaitAck { timeout_secs: 1 });
    send.handle(SendEvent::Received(b"ACK\n".to_vec()));
    assert_eq!(send.handle(SendEvent::TimedOut), SendAction::Return(Ok(9)));
    assert_eq!(send.packet_len(), 9);
}

#[test]
fn receive_acknowledges_then_delivers() {
    let mut receive = ReliableReceive::new();
    assert_eq!(receive.next_action(), ReceiveAction::Receive);
    assert_eq!(receive.handle(ReceiveEvent::Datagram(42)), ReceiveAction::SendAck);
    assert_eq!(*receive.phase(), ReceivePhase::Acknowledging { len: 42 });
    assert_eq!(receive.handle(ReceiveEvent::AckSent), ReceiveAction::Return(Ok(42)));
    assert_eq!(receive.handle(ReceiveEvent::Datagram(7)), ReceiveAction::Return(Ok(42)));
}

#[test]
fn receive_failures_are_passed_on() {
    let mut receive = ReliableReceive::new();
    assert_eq!(
        receive.handle(ReceiveEvent::ReceiveFailed("closed".to_string())),
        ReceiveAction::Return(Err("closed".to_string()))
    );
    let mut receive = ReliableReceive::new();
    receive.handle(ReceiveEvent::Datagram(0));
    assert_eq!(
        receive.handle(ReceiveEvent::AckFailed("refused".to_string())),
        ReceiveAction::Return(Err("refused".to_string()))
    );
    let mut receive = ReliableReceive::new();
    assert_eq!(receive.handle(ReceiveEvent::AckSent), ReceiveAction::Receive);
}
