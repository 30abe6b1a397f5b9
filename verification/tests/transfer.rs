use packet_racers::address::SocketAddress;
use packet_racers::file_transfer::{FileTransfer, TransferAction, TransferOptions, TransferProgress};
use packet_racers::user::User;

fn sender() -> User {
    User::new(SocketAddress { a: 127, b: 0, c: 0, d: 1, port: 8000 })
}

fn transfer(packet_size: usize) -> FileTransfer<Vec<usize>> {
    FileTransfer::new(sender(), TransferOptions::new(packet_size, Vec::new()))
}

/// Drives a transfer over a transport that reports every packet in full.
/// Returns the packets handed out and the sum of the reported counts.
fn run_whole_packets(total: usize, packet_size: usize) -> (Vec<(usize, usize)>, usize) {
    let mut transfer = transfer(packet_size);
    let mut packets = Vec::new();
    let mut reported = 0;
    let mut last_sent = 0;
    let mut action = transfer.start(total);
    loop {
        match action {
            TransferAction::SendPacket { start, end } => {
                match transfer.progress() {
                    TransferProgress::InProgress { bytes_sent, total_bytes } => {
                        assert!(*bytes_sent >= last_sent);
                        assert!(*bytes_sent < *total_bytes);
                        assert_eq!(*total_bytes, total);
                        assert_eq!(*bytes_sent, start);
                        last_sent = *bytes_sent;
                    }
                    other => panic!("packet handed out in state {:?}", other),
                }
                packets.push((start, end));
                reported += end - start;
                action = transfer.on_send_result(Ok(end - start));
            }
            TransferAction::Return(result) => {
                assert_eq!(result, Ok(()));
                assert_eq!(*transfer.progress(), TransferProgress::Complete);
                return (packets, reported);
            }
            TransferAction::ReadFile => panic!("a started transfer asks for the file"),
        }
    }
}

#[test]
fn empty_file_completes_without_a_packet() {
    let mut transfer = transfer(100);
    assert_eq!(*transfer.progress(), TransferProgress::NotStarted);
    assert_eq!(transfer.next_action(), TransferAction::ReadFile);
    let action = transfer.start(0);
    assert_eq!(action, TransferAction::Return(Ok(())));
    assert_eq!(*transfer.progress(), TransferProgress::Complete);
    assert_eq!(run_whole_packets(0, 7), (Vec::new(), 0));
}

#[test]
fn packets_are_the_rounded_up_quotient() {
    for (total, packet_size) in [(1, 1), (1, 100), (99, 100), (100, 100), (101, 100), (250, 100),
        (1000, 100), (7, 3), (9, 3), (10, 3), (5, 1)] {
        let (packets, reported) = run_whole_packets(total, packet_size);
        assert_eq!(packets.len(), (total + packet_size - 1) / packet_size);
        assert_eq!(reported, total);
    }
}

#[test]
fn packets_cover_the_file_in_order() {
    let (packets, reported) = run_whole_packets(250, 100);
    assert_eq!(packets, vec![(0, 100), (100, 200), (200, 250)]);
    assert_eq!(reported, 250);
}

#[test]
fn progress_follows_the_reported_count() {
    let mut transfer = transfer(3);
    assert_eq!(transfer.start(5), TransferAction::SendPacket { start: 0, end: 3 });
    assert_eq!(transfer.on_send_result(Ok(1)), TransferAction::SendPacket { start: 1, end: 4 });
    assert_eq!(*transfer.progress(), TransferProgress::InProgress { bytes_sent: 1, total_bytes: 5 });
    assert_eq!(transfer.on_send_result(Ok(0)), TransferAction::SendPacket { start: 1, end: 4 });
    assert_eq!(transfer.on_send_result(Ok(3)), TransferAction::SendPacket { start: 4, end: 5 });
    assert_eq!(*transfer.progress(), TransferProgress::InProgress { bytes_sent: 4, total_bytes: 5 });
    assert_eq!(transfer.on_send_result(Ok(1)), TransferAction::Return(Ok(())));
    assert_eq!(*transfer.progress(), TransferProgress::Complete);
}

#[test]
fn count_beyond_the_file_completes_the_transfer() {
    let mut transfer = transfer(4);
    transfer.start(10);
    assert_eq!(transfer.on_send_result(Ok(usize::MAX)), TransferAction::Return(Ok(())));
    assert_eq!(*transfer.progress(), TransferProgress::Complete);
}

#[test]
fn failure_ends_the_transfer_with_its_message() {
    let mut transfer = transfer(4);
    transfer.start(10);
    transfer.on_send_result(Ok(4));
    let action = transfer.on_send_result(Err("connection reset".to_string()));
    assert_eq!(action, TransferAction::Return(Err("connection reset".to_string())));
    assert_eq!(*transfer.progress(), TransferProgress::Error("connection reset".to_string()));
    assert_eq!(transfer.on_send_result(Ok(4)), TransferAction::Return(Err("connection reset".to_string())));
    assert_eq!(*transfer.progress(), TransferProgress::Error("connection reset".to_string()));
}

#[test]
fn a_transfer_can_be_started_again() {
    let mut transfer = transfer(4);
    transfer.start(3);
    transfer.on_send_result(Err("lost".to_string()));
    assert_eq!(transfer.start(6), TransferAction::SendPacket { start: 0, end: 4 });
    assert_eq!(*transfer.progress(), TransferProgress::InProgress { bytes_sent: 0, total_bytes: 6 });
}

#[test]
fn answers_before_the_start_change_nothing() {
    let mut transfer = transfer(4);
    assert_eq!(transfer.on_send_result(Ok(4)), TransferAction::ReadFile);
    assert_eq!(*transfer.progress(), TransferProgress::NotStarted);
}

#[test]
fn transfer_owns_its_transport_and_sender() {
    let user = sender();
    let id = user.id();
    let mut transfer = FileTransfer::new(user, TransferOptions::new(100, Vec::new()));
    transfer.protocol_mut().push(5usize);
    transfer.protocol_mut().push(6usize);
    assert_eq!(*transfer.options().protocol(), vec![5usize, 6usize]);
    assert_eq!(transfer.options().packet_size(), 100);
    assert_eq!(transfer.sender().id(), id);
}

#[test]
fn packet_is_the_slice_to_send() {
    let file_data = b"0123456789";
    let mut transfer = transfer(4);
    assert_eq!(transfer.packet(file_data), None);
    transfer.start(file_data.len());
    assert_eq!(transfer.packet(file_data), Some(&b"0123"[..]));
    transfer.on_send_result(Ok(4));
    assert_eq!(transfer.packet(file_data), Some(&b"4567"[..]));
    transfer.on_send_result(Ok(3));
    assert_eq!(transfer.packet(file_data), Some(&b"789"[..]));
    assert_eq!(transfer.packet(&file_data[..9]), None);
    transfer.on_send_result(Ok(3));
    assert_eq!(transfer.packet(file_data), None);
}
