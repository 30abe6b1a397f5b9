//! The chunked transfer engine.
//!
//! A [`FileTransfer`] decides, packet by packet, what has to be sent next and
//! keeps the observable progress. It performs no I/O itself: the caller reads
//! the file, hands each packet to the transport, and reports the transport's
//! answer back.

use vstd::prelude::*;
use vstd::slice::slice_subrange;
use crate::user::User;

verus! {

/// Immutable configuration of one transfer: the packet size and the transport
/// the transfer owns.
pub struct TransferOptions<P> {
    packet_size: usize,
    protocol: P,
}

impl<P> TransferOptions<P> {
    pub closed spec fn spec_packet_size(&self) -> usize {
        self.packet_size
    }

    pub closed spec fn spec_protocol(&self) -> &P {
        &self.protocol
    }

    /// Options for packets of `packet_size` bytes over `protocol`.
    pub fn new(packet_size: usize, protocol: P) -> (options: Self)
        requires
            packet_size > 0,
        ensures
            options.packet_size() == packet_size,
            *options.protocol() == protocol,
    {
        Self { packet_size, protocol }
    }

    #[verifier::when_used_as_spec(spec_packet_size)]
    pub fn packet_size(&self) -> (size: usize)
        ensures
            size == self.packet_size(),
    {
        self.packet_size
    }

    #[verifier::when_used_as_spec(spec_protocol)]
    pub fn protocol(&self) -> (protocol: &P)
        ensures
            protocol == self.protocol(),
    {
        &self.protocol
    }

    /// The owned transport, for the caller to send through.
    pub fn protocol_mut(&mut self) -> (protocol: &mut P)
        ensures
            *protocol == *old(self).protocol(),
            *final(self).protocol() == *final(protocol),
            final(self).packet_size() == old(self).packet_size(),
        no_unwind
    {
        &mut self.protocol
    }
}

/// Where a transfer stands.
#[derive(Debug, PartialEq, Eq)]
pub enum TransferProgress {
    NotStarted,
    InProgress { bytes_sent: usize, total_bytes: usize },
    Complete,
    Error(String),
}

/// What the caller has to do next for a transfer.
#[derive(Debug, PartialEq, Eq)]
pub enum TransferAction {
    /// Nothing is under way: read the file and start the transfer.
    ReadFile,
    /// Send the bytes `[start, end)` of the file as one packet and report the
    /// transport's answer.
    SendPacket { start: usize, end: usize },
    /// The transfer has ended with this result.
    Return(Result<(), String>),
}

impl TransferProgress {
    /// While a transfer runs, part of the file is still unsent.
    pub open spec fn well_formed(self) -> bool {
        self matches TransferProgress::InProgress { bytes_sent, total_bytes } ==> bytes_sent
            < total_bytes
    }

    /// The state right after a file of `total_bytes` bytes has been read: an
    /// empty file is complete at once.
    pub open spec fn started(total_bytes: usize) -> TransferProgress {
        if total_bytes == 0 {
            TransferProgress::Complete
        } else {
            TransferProgress::InProgress { bytes_sent: 0, total_bytes }
        }
    }

    /// The state after the transport answered `result` for the packet that was
    /// handed out. A success advances by the count the transport reports; once
    /// nothing is left the transfer is complete. A failure ends the transfer.
    /// Outside a running transfer an answer changes nothing.
    pub open spec fn after_result(self, result: Result<usize, String>) -> TransferProgress {
        match self {
            TransferProgress::InProgress { bytes_sent, total_bytes } => match result {
                Ok(bytes) => if bytes_sent + bytes >= total_bytes {
                    TransferProgress::Complete
                } else {
                    TransferProgress::InProgress {
                        bytes_sent: (bytes_sent + bytes) as usize,
                        total_bytes,
                    }
                },
                Err(message) => TransferProgress::Error(message),
            },
            _ => self,
        }
    }

    /// The action a state calls for, with packets of `packet_size` bytes.
    pub open spec fn action(self, packet_size: usize) -> TransferAction {
        match self {
            TransferProgress::NotStarted => TransferAction::ReadFile,
            TransferProgress::InProgress { bytes_sent, total_bytes } => TransferAction::SendPacket {
                start: bytes_sent,
                end: if bytes_sent + packet_size <= total_bytes {
                    (bytes_sent + packet_size) as usize
                } else {
                    total_bytes
                },
            },
            TransferProgress::Complete => TransferAction::Return(Ok(())),
            TransferProgress::Error(message) => TransferAction::Return(Err(message)),
        }
    }
}

/// One transfer of one file by one sender over one transport.
pub struct FileTransfer<P> {
    sender: User,
    options: TransferOptions<P>,
    progress: TransferProgress,
}

impl<P> FileTransfer<P> {
    #[verifier::type_invariant]
    spec fn well_formed(&self) -> bool {
        self.progress.well_formed() && self.options.packet_size() > 0
    }

    pub closed spec fn spec_sender(&self) -> &User {
        &self.sender
    }

    pub closed spec fn spec_options(&self) -> &TransferOptions<P> {
        &self.options
    }

    pub closed spec fn spec_progress(&self) -> &TransferProgress {
        &self.progress
    }

    /// The action the transfer currently calls for.
    pub open spec fn pending(&self) -> TransferAction {
        self.progress().action(self.options().packet_size())
    }

    /// A transfer that has not started.
    pub fn new(sender: User, options: TransferOptions<P>) -> (transfer: Self)
        requires
            options.packet_size() > 0,
        ensures
            *transfer.sender() == sender,
            *transfer.options() == options,
            *transfer.progress() == TransferProgress::NotStarted,
    {
        Self { sender, options, progress: TransferProgress::NotStarted }
    }

    #[verifier::when_used_as_spec(spec_sender)]
    pub fn sender(&self) -> (sender: &User)
        ensures
            sender == self.sender(),
    {
        &self.sender
    }

    #[verifier::when_used_as_spec(spec_options)]
    pub fn options(&self) -> (options: &TransferOptions<P>)
        ensures
            options == self.options(),
    {
        &self.options
    }

    #[verifier::when_used_as_spec(spec_progress)]
    pub fn progress(&self) -> (progress: &TransferProgress)
        ensures
            progress == self.progress(),
            progress.well_formed(),
    {
        proof {
            use_type_invariant(self);
        }
        &self.progress
    }

    /// Starts (or restarts) the transfer of a file of `total_bytes` bytes that
    /// the caller has read.
    pub fn start(&mut self, total_bytes: usize) -> (action: TransferAction)
        ensures
            *final(self).progress() == TransferProgress::started(total_bytes),
            final(self).options() == old(self).options(),
            final(self).sender() == old(self).sender(),
            action == final(self).pending(),
            total_bytes == 0 ==> action == TransferAction::Return(Ok(())),
    {
        proof {
            use_type_invariant(&*self);
        }
        if total_bytes == 0 {
            self.progress = TransferProgress::Complete;
        } else {
            self.progress = TransferProgress::InProgress { bytes_sent: 0, total_bytes };
        }
        self.next_action()
    }

    /// Takes the transport's answer for the packet that was handed out.
    /// While the transfer runs on, the count of bytes sent does not go down
    /// and stays below the total, which stays as it is.
    pub fn on_send_result(&mut self, result: Result<usize, String>) -> (action: TransferAction)
        ensures
            *final(self).progress() == old(self).progress().after_result(result),
            final(self).options() == old(self).options(),
            final(self).sender() == old(self).sender(),
            action == final(self).pending(),
            *final(self).progress() matches TransferProgress::InProgress {
                bytes_sent: after,
                total_bytes: total_after,
            } ==> *old(self).progress() matches TransferProgress::InProgress {
                bytes_sent: before,
                total_bytes: total_before,
            } && before <= after && after < total_after && total_after == total_before,
    {
        proof {
            use_type_invariant(&*self);
        }
        match self.progress {
            TransferProgress::InProgress { bytes_sent, total_bytes } => {
                match result {
                    Ok(bytes) => {
                        if bytes >= total_bytes - bytes_sent {
                            self.progress = TransferProgress::Complete;
                        } else {
                            self.progress = TransferProgress::InProgress {
                                bytes_sent: bytes_sent + bytes,
                                total_bytes,
                            };
                        }
                    },
                    Err(message) => {
                        self.progress = TransferProgress::Error(message);
                    },
                }
            },
            _ => {},
        }
        self.next_action()
    }

    /// The action the transfer currently calls for. A packet it hands out
    /// is never empty and lies within the file.
    pub fn next_action(&self) -> (action: TransferAction)
        ensures
            action == self.pending(),
            self.options().packet_size() > 0,
            action matches TransferAction::SendPacket { start, end } ==> (
            *self.progress() matches TransferProgress::InProgress { bytes_sent, total_bytes }
                && start == bytes_sent && start < end && end <= total_bytes),
    {
        proof {
            use_type_invariant(self);
        }
        match &self.progress {
            TransferProgress::NotStarted => TransferAction::ReadFile,
            TransferProgress::InProgress { bytes_sent, total_bytes } => {
                let remaining: usize = *total_bytes - *bytes_sent;
                let end: usize = if self.options.packet_size <= remaining {
                    *bytes_sent + self.options.packet_size
                } else {
                    *total_bytes
                };
                TransferAction::SendPacket { start: *bytes_sent, end }
            },
            TransferProgress::Complete => TransferAction::Return(Ok(())),
            TransferProgress::Error(message) => TransferAction::Return(Err(message.clone())),
        }
    }

    /// The packet to send next out of `file_data`, the file that the transfer
    /// was started with: the bytes from the count sent so far up to one
    /// packet size further, or up to the end of the file. There is none
    /// unless the transfer runs, nor where `file_data` is shorter than the
    /// file the transfer was started with.
    pub fn packet<'a>(&self, file_data: &'a [u8]) -> (packet: Option<&'a [u8]>)
        ensures
            match self.pending() {
                TransferAction::SendPacket { start, end } => if end <= file_data@.len() {
                    packet is Some && packet->Some_0@ == file_data@.subrange(
                        start as int,
                        end as int,
                    ) && start < end
                } else {
                    packet is None
                },
                _ => packet is None,
            },
    {
        match self.next_action() {
            TransferAction::SendPacket { start, end } => {
                proof {
                    use_type_invariant(self);
                }
                if end <= file_data.len() && start <= end {
                    Some(slice_subrange(file_data, start, end))
                } else {
                    None
                }
            },
            _ => None,
        }
    }

    /// The owned transport, for the caller to send through.
    pub fn protocol_mut(&mut self) -> (protocol: &mut P)
        ensures
            *protocol == *old(self).options().protocol(),
            *final(self).options().protocol() == *final(protocol),
            final(self).options().packet_size() == old(self).options().packet_size(),
            final(self).progress() == old(self).progress(),
            final(self).sender() == old(self).sender(),
    {
        proof {
            use_type_invariant(&*self);
        }
        self.options.protocol_mut()
    }
}

/// The progress of a transfer of `total_bytes` bytes after the transport has
/// given the answers `results`, oldest first.
pub open spec fn progress_after(
    total_bytes: usize,
    results: Seq<Result<usize, String>>,
) -> TransferProgress
    decreases results.len(),
{
    if results.len() == 0 {
        TransferProgress::started(total_bytes)
    } else {
        progress_after(total_bytes, results.drop_last()).after_result(results.last())
    }
}

/// The sum of the byte counts that the successful answers in `results` report.
pub open spec fn reported_bytes(results: Seq<Result<usize, String>>) -> nat
    decreases results.len(),
{
    if results.len() == 0 {
        0
    } else {
        reported_bytes(results.drop_last()) + match results.last() {
            Ok(bytes) => bytes as nat,
            Err(_) => 0,
        }
    }
}

/// The number of packets of `packet_size` bytes that cover `total_bytes`
/// bytes: the quotient, rounded up.
pub open spec fn packets_needed(total_bytes: nat, packet_size: nat) -> nat {
    ((total_bytes + packet_size - 1) / (packet_size as int)) as nat
}

/// The length of the packet that is handed out in state `progress`.
pub open spec fn packet_len(progress: TransferProgress, packet_size: usize) -> nat {
    match progress {
        TransferProgress::InProgress { bytes_sent, total_bytes } => if bytes_sent + packet_size
            <= total_bytes {
            packet_size as nat
        } else {
            (total_bytes - bytes_sent) as nat
        },
        _ => 0,
    }
}

/// Every answer in `results` answers a packet that was handed out, and
/// reports no failure.
pub open spec fn answers_packets(total_bytes: usize, results: Seq<Result<usize, String>>) -> bool {
    forall|i: int|
        0 <= i < results.len() ==> (#[trigger] progress_after(total_bytes, results.take(i)))
            is InProgress && results[i] is Ok
}

/// Every answer in `results` answers a packet that was handed out, and
/// reports that the whole packet was sent.
pub open spec fn whole_packets_reported(
    total_bytes: usize,
    packet_size: usize,
    results: Seq<Result<usize, String>>,
) -> bool {
    forall|i: int|
        0 <= i < results.len() ==> {
            let before = #[trigger] progress_after(total_bytes, results.take(i));
            before is InProgress && results[i] == Ok::<usize, String>(
                packet_len(before, packet_size) as usize,
            )
        }
}

proof fn lemma_packets_needed(total_bytes: nat, packet_size: nat, count: nat)
    requires
        packet_size > 0,
    ensures
        count * packet_size < total_bytes <==> count < packets_needed(total_bytes, packet_size),
{
    let needed = packets_needed(total_bytes, packet_size);
    let top = (total_bytes + packet_size - 1) as int;
    let size = packet_size as int;
    vstd::arithmetic::div_mod::lemma_fundamental_div_mod(top, size);
    vstd::arithmetic::div_mod::lemma_mod_bound(top, size);
    assert(top == size * (top / size) + top % size);
    assert(needed == top / size);
    if count < needed {
        assert(count * packet_size <= (needed - 1) * packet_size) by (nonlinear_arith)
            requires
                count <= needed - 1,
                packet_size > 0,
        ;
        assert((needed - 1) * packet_size == size * needed - size) by (nonlinear_arith)
            requires
                size == packet_size,
        ;
    } else {
        assert(count * packet_size >= needed * packet_size) by (nonlinear_arith)
            requires
                count >= needed,
                packet_size > 0,
        ;
        assert(needed * packet_size == size * needed) by (nonlinear_arith)
            requires
                size == packet_size,
        ;
    }
}

proof fn lemma_take_prefix<A>(s: Seq<A>, i: int)
    requires
        0 <= i < s.len(),
    ensures
        s.drop_last().take(i) == s.take(i),
        s.take(s.len() as int) == s,
        i + 1 <= s.len() ==> s.take(i + 1).drop_last() == s.take(i) && s.take(i + 1).last() == s[i],
{
    assert(s.drop_last().take(i) =~= s.take(i));
    assert(s.take(s.len() as int) =~= s);
    assert(s.take(i + 1).drop_last() =~= s.take(i));
}

/// While a started transfer runs, the bytes counted as sent are exactly the
/// bytes its answers reported; once it is complete, the answers reported at
/// least the whole file.
pub proof fn lemma_reported_bytes(total_bytes: usize, results: Seq<Result<usize, String>>)
    requires
        answers_packets(total_bytes, results),
    ensures
        match progress_after(total_bytes, results) {
            TransferProgress::InProgress { bytes_sent, total_bytes: total } => total == total_bytes
                && bytes_sent == reported_bytes(results) && bytes_sent < total_bytes,
            TransferProgress::Complete => reported_bytes(results) >= total_bytes,
            _ => false,
        },
    decreases results.len(),
{
    if results.len() > 0 {
        let earlier = results.drop_last();
        assert forall|i: int| 0 <= i < earlier.len() implies (#[trigger] progress_after(
            total_bytes,
            earlier.take(i),
        )) is InProgress && earlier[i] is Ok by {
            lemma_take_prefix(results, i);
        }
        lemma_reported_bytes(total_bytes, earlier);
        assert(results.take(results.len() - 1) =~= earlier);
        assert(progress_after(total_bytes, results.take(results.len() - 1)) is InProgress);
    }
}

/// The count of bytes sent never goes down and stays below the file's size:
/// of two moments of one transfer at which it is running, the later one has
/// sent at least as much, towards the same total.
pub proof fn lemma_bytes_sent_monotone(
    total_bytes: usize,
    results: Seq<Result<usize, String>>,
    earlier: int,
    later: int,
)
    requires
        0 <= earlier <= later <= results.len(),
    ensures
        progress_after(total_bytes, results.take(later)).well_formed(),
        progress_after(total_bytes, results.take(later)) matches TransferProgress::InProgress {
            bytes_sent: sent_later,
            total_bytes: total_later,
        } ==> total_later == total_bytes && (progress_after(
            total_bytes,
            results.take(earlier),
        ) matches TransferProgress::InProgress { bytes_sent: sent_earlier, total_bytes: total_earlier }
            && total_earlier == total_bytes && sent_earlier <= sent_later),
    decreases later,
{
    if later == 0 {
        assert(results.take(0) =~= Seq::<Result<usize, String>>::empty());
    } else {
        let upto = results.take(later);
        assert(upto.drop_last() =~= results.take(later - 1));
        if earlier < later {
            lemma_bytes_sent_monotone(total_bytes, results, earlier, later - 1);
        } else {
            lemma_bytes_sent_monotone(total_bytes, results, later - 1, later - 1);
        }
    }
}

/// When the transport reports every packet as sent in full, a file of
/// `total_bytes` bytes takes exactly `packets_needed` packets: after fewer
/// answers the transfer still runs, having sent that many whole packets, and
/// with the last of them it is complete, the reported counts adding up to the
/// file's size.
pub proof fn lemma_whole_packets(
    total_bytes: usize,
    packet_size: usize,
    results: Seq<Result<usize, String>>,
)
    requires
        packet_size > 0,
        whole_packets_reported(total_bytes, packet_size, results),
    ensures
        results.len() <= packets_needed(total_bytes as nat, packet_size as nat),
        results.len() < packets_needed(total_bytes as nat, packet_size as nat) ==> progress_after(
            total_bytes,
            results,
        ) == (TransferProgress::InProgress {
            bytes_sent: (results.len() * packet_size) as usize,
            total_bytes,
        }) && reported_bytes(results) == results.len() * packet_size,
        results.len() == packets_needed(total_bytes as nat, packet_size as nat) ==> progress_after(
            total_bytes,
            results,
        ) == TransferProgress::Complete && reported_bytes(results) == total_bytes,
    decreases results.len(),
{
    let needed = packets_needed(total_bytes as nat, packet_size as nat);
    let count = results.len();
    lemma_packets_needed(total_bytes as nat, packet_size as nat, count);
    if count == 0 {
        assert(0 * packet_size == 0) by (nonlinear_arith);
    } else {
        let earlier = results.drop_last();
        assert forall|i: int| 0 <= i < earlier.len() implies {
            let before = #[trigger] progress_after(total_bytes, earlier.take(i));
            before is InProgress && earlier[i] == Ok::<usize, String>(
                packet_len(before, packet_size) as usize,
            )
        } by {
            lemma_take_prefix(results, i);
        }
        lemma_whole_packets(total_bytes, packet_size, earlier);
        lemma_packets_needed(total_bytes as nat, packet_size as nat, (count - 1) as nat);
        assert(results.take(count - 1) =~= earlier);
        let before = progress_after(total_bytes, results.take(count - 1));
        assert(before is InProgress);
        assert(before == progress_after(total_bytes, earlier));
        assert(earlier.len() < needed);
        assert(count * packet_size == (count - 1) * packet_size + packet_size)
            by (nonlinear_arith);
    }
}


/// Every answer in `results` answers a packet that was handed out, and
/// reports no more bytes than that packet held.
pub open spec fn honest_reports(
    total_bytes: usize,
    packet_size: usize,
    results: Seq<Result<usize, String>>,
) -> bool {
    forall|i: int|
        0 <= i < results.len() ==> {
            let before = #[trigger] progress_after(total_bytes, results.take(i));
            before is InProgress && results[i] is Ok && results[i]->Ok_0 <= packet_len(
                before,
                packet_size,
            )
        }
}

proof fn lemma_reported_at_most(
    total_bytes: usize,
    packet_size: usize,
    results: Seq<Result<usize, String>>,
)
    requires
        honest_reports(total_bytes, packet_size, results),
    ensures
        answers_packets(total_bytes, results),
        reported_bytes(results) <= results.len() * packet_size,
        reported_bytes(results) <= total_bytes,
    decreases results.len(),
{
    if results.len() == 0 {
        assert(0 * packet_size == 0) by (nonlinear_arith);
    } else {
        let count = results.len();
        let earlier = results.drop_last();
        assert forall|i: int| 0 <= i < earlier.len() implies {
            let before = #[trigger] progress_after(total_bytes, earlier.take(i));
            before is InProgress && earlier[i] is Ok && earlier[i]->Ok_0 <= packet_len(
                before,
                packet_size,
            )
        } by {
            lemma_take_prefix(results, i);
        }
        lemma_reported_at_most(total_bytes, packet_size, earlier);
        lemma_reported_bytes(total_bytes, earlier);
        assert(results.take(count - 1) =~= earlier);
        let before = progress_after(total_bytes, results.take(count - 1));
        assert(before is InProgress);
        assert(count * packet_size == (count - 1) * packet_size + packet_size)
            by (nonlinear_arith);
    }
}

/// When the transport never reports more than it was handed, a transfer
/// that is complete has reported exactly the file's size, in no fewer than
/// `packets_needed` packets.
pub proof fn lemma_honest_reports(
    total_bytes: usize,
    packet_size: usize,
    results: Seq<Result<usize, String>>,
)
    requires
        packet_size > 0,
        honest_reports(total_bytes, packet_size, results),
        progress_after(total_bytes, results) is Complete,
    ensures
        reported_bytes(results) == total_bytes,
        results.len() >= packets_needed(total_bytes as nat, packet_size as nat),
{
    lemma_reported_at_most(total_bytes, packet_size, results);
    lemma_reported_bytes(total_bytes, results);
    lemma_packets_needed(total_bytes as nat, packet_size as nat, results.len());
}

/// A file of no bytes is complete as soon as it has been read: it needs no
/// packet and none is handed out.
pub proof fn lemma_empty_file(packet_size: usize)
    requires
        packet_size > 0,
    ensures
        packets_needed(0, packet_size as nat) == 0,
        TransferProgress::started(0) == TransferProgress::Complete,
        TransferProgress::started(0).action(packet_size) == TransferAction::Return(Ok(())),
        progress_after(0, Seq::<Result<usize, String>>::empty()) == TransferProgress::Complete,
{
    lemma_packets_needed(0, packet_size as nat, 0);
    assert(0 * packet_size == 0) by (nonlinear_arith);
}

} // verus!
