//! The receiver state machine: accepts one offer, writes verified chunks
//! in arrival order, mirrors control signals, and acknowledges the
//! completion.
//!
//! The machine is pure: the surrounding application accepts the
//! connection, reads and decodes each message, polls the registry every
//! tick, and performs the file writes this machine approves. A chunk is
//! approved only when its recomputed digest matches the carried one, and
//! the ghost transcript `written` records exactly the bytes approved, in
//! order.

use crate::errors::CoreError;
use crate::hashing::{blake3_hex, hash_hex};
use crate::protocol::{ControlAction, FileMetadata, MessageType, MessageView, TransferProgress,
    TransferRecord};
use crate::registry::{TransferRegistry, TransferStatus};
use vstd::prelude::*;
use vstd::string::StringExecFns;

verus! {

/// Where the receiver stands in its run.
#[derive(Clone, Copy, Debug, PartialEq, Eq, Structural)]
pub enum ReceiverPhase {
    /// No offer has arrived yet.
    AwaitingOffer,
    /// Offer accepted; chunks are being written.
    Receiving,
    /// Completion acknowledged.
    Done,
    /// Aborted: cancelled, faulted, or out of space.
    Failed,
}

/// The receiver state machine for one incoming transfer.
pub struct FileReceiver {
    pub transfer_id: String,
    pub file_name: String,
    pub file_size: u64,
    pub bytes_received: u64,
    pub last_status: TransferStatus,
    pub phase: ReceiverPhase,
    /// Whether the destination file stands open.
    pub file_open: bool,
    /// The bytes approved for the destination file, in write order.
    pub written: Ghost<Seq<u8>>,
}

impl FileReceiver {
    /// The machine's invariant: the byte counter equals the length of the
    /// approved transcript, and while receiving the file stands open.
    pub open spec fn wf(&self) -> bool {
        &&& self.bytes_received == self.written@.len()
        &&& (self.phase is Receiving ==> self.file_open)
    }

    /// A fresh machine for one accepted connection.
    pub fn new() -> (r: FileReceiver)
        ensures
            r.wf(),
            r.phase is AwaitingOffer,
            r.bytes_received == 0,
            r.written@ == Seq::<u8>::empty(),
            !r.file_open,
            r.last_status is InProgress,
    {
        FileReceiver {
            transfer_id: String::new(),
            file_name: String::new(),
            file_size: 0,
            bytes_received: 0,
            last_status: TransferStatus::InProgress,
            phase: ReceiverPhase::AwaitingOffer,
            file_open: false,
            written: Ghost(Seq::empty()),
        }
    }

    /// Judges an arriving offer against the free space at the save
    /// directory. Too little space rejects the offer before any file is
    /// opened; otherwise the transfer is registered in progress, the
    /// history row to record is returned, and the driver opens the
    /// destination file at `file_path`.
    pub fn on_offer(
        &mut self,
        transfer_id: String,
        metadata: &FileMetadata,
        sender_id: String,
        file_path: String,
        free_space: u64,
        registry: &mut TransferRegistry,
    ) -> (r: Result<TransferRecord, CoreError>)
        requires
            old(self).wf(),
            old(self).phase is AwaitingOffer,
            !old(self).file_open,
            old(registry).wf(),
            metadata.size <= i64::MAX as u64,
        ensures
            final(self).wf(),
            final(registry).wf(),
            r is Ok <==> free_space >= metadata.size,
            r matches Err(e) ==> e == CoreError::DiskSpace,
            r is Err ==> {
                &&& !final(self).file_open
                &&& final(self).phase is Failed
                &&& final(registry)@ == old(registry)@
                &&& final(self).written@ == old(self).written@
            },
            r matches Ok(record) ==> {
                &&& final(self).phase is Receiving
                &&& final(self).file_open
                &&& final(self).transfer_id@ == transfer_id@
                &&& final(self).file_name@ == metadata.name@
                &&& final(self).file_size == metadata.size
                &&& final(self).bytes_received == 0
                &&& final(self).written@ == Seq::<u8>::empty()
                &&& final(self).last_status is InProgress
                &&& final(registry)@ == old(registry)@.insert(
                    transfer_id@,
                    TransferStatus::InProgress,
                )
                &&& record.id@ == transfer_id@
                &&& record.device_id@ == sender_id@
                &&& record.device_name is None
                &&& record.file_name@ == metadata.name@
                &&& record.file_path@ == file_path@
                &&& record.total_size == metadata.size as i64
                &&& record.direction@ == "receive"@
                &&& record.status@ == "in_progress"@
                &&& record.bytes_transferred == 0
                &&& record.file_hash@ == metadata.hash@
            },
    {
        if free_space < metadata.size {
            self.phase = ReceiverPhase::Failed;
            return Err(CoreError::DiskSpace);
        }
        registry.insert(transfer_id.clone(), TransferStatus::InProgress);
        let record = TransferRecord {
            id: transfer_id.clone(),
            device_id: sender_id,
            device_name: None,
            file_name: metadata.name.clone(),
            file_path,
            total_size: metadata.size as i64,
            direction: String::from_str("receive"),
            status: String::from_str("in_progress"),
            bytes_transferred: 0,
            file_hash: metadata.hash.clone(),
            created_at: 0,
            updated_at: 0,
        };
        self.transfer_id = transfer_id;
        self.file_name = metadata.name.clone();
        self.file_size = metadata.size;
        self.bytes_received = 0;
        self.written = Ghost(Seq::empty());
        self.last_status = TransferStatus::InProgress;
        self.phase = ReceiverPhase::Receiving;
        self.file_open = true;
        Ok(record)
    }

    /// Verifies one chunk against its carried digest. A match appends the
    /// bytes to the approved transcript and hands them back for the file
    /// write, with the progress event to emit; a mismatch is fatal and
    /// approves nothing.
    pub fn on_chunk(&mut self, data: Vec<u8>, chunk_hash: &String) -> (r: Result<
        (Vec<u8>, TransferProgress),
        CoreError,
    >)
        requires
            old(self).wf(),
            old(self).phase is Receiving,
            old(self).bytes_received + data@.len() <= u64::MAX,
        ensures
            final(self).wf(),
            final(self).transfer_id == old(self).transfer_id,
            final(self).file_size == old(self).file_size,
            blake3_hex(data@) == chunk_hash@ <==> r is Ok,
            r matches Err(e) ==> {
                &&& e == CoreError::ChunkHash
                &&& final(self).phase is Failed
                &&& final(self).written@ == old(self).written@
                &&& final(self).bytes_received == old(self).bytes_received
            },
            r matches Ok(out) ==> {
                &&& final(self).phase is Receiving
                &&& out.0@ == data@
                &&& final(self).written@ == old(self).written@ + data@
                &&& final(self).bytes_received == old(self).bytes_received + data@.len()
                &&& out.1.transfer_id@ == old(self).transfer_id@
                &&& out.1.file_name@ == old(self).file_name@
                &&& out.1.bytes_sent == final(self).bytes_received
                &&& out.1.total_bytes == old(self).file_size
                &&& out.1.direction@ == "receive"@
                &&& out.1.status@ == "in_progress"@
            },
    {
        let actual = hash_hex(data.as_slice());
        if !actual.eq(chunk_hash) {
            self.phase = ReceiverPhase::Failed;
            return Err(CoreError::ChunkHash);
        }
        self.written = Ghost(self.written@ + data@);
        self.bytes_received = self.bytes_received + data.len() as u64;
        let progress = TransferProgress {
            transfer_id: self.transfer_id.clone(),
            file_name: self.file_name.clone(),
            bytes_sent: self.bytes_received,
            total_bytes: self.file_size,
            direction: String::from_str("receive"),
            status: String::from_str("in_progress"),
        };
        Ok((data, progress))
    }

    /// Mirrors a pause announced by the peer into the registry.
    pub fn on_peer_pause(&mut self, registry: &mut TransferRegistry)
        requires
            old(self).wf(),
            old(self).phase is Receiving,
            old(registry).wf(),
        ensures
            final(self).wf(),
            final(registry).wf(),
            final(self).phase is Receiving,
            final(self).last_status is Paused,
            final(self).written@ == old(self).written@,
            final(self).bytes_received == old(self).bytes_received,
            final(self).transfer_id == old(self).transfer_id,
            final(registry)@ == old(registry)@.insert(
                old(self).transfer_id@,
                TransferStatus::Paused,
            ),
    {
        registry.insert(self.transfer_id.clone(), TransferStatus::Paused);
        self.last_status = TransferStatus::Paused;
    }

    /// Mirrors a resumption announced by the peer into the registry.
    pub fn on_peer_resume(&mut self, registry: &mut TransferRegistry)
        requires
            old(self).wf(),
            old(self).phase is Receiving,
            old(registry).wf(),
        ensures
            final(self).wf(),
            final(registry).wf(),
            final(self).phase is Receiving,
            final(self).last_status is InProgress,
            final(self).written@ == old(self).written@,
            final(self).bytes_received == old(self).bytes_received,
            final(self).transfer_id == old(self).transfer_id,
            final(registry)@ == old(registry)@.insert(
                old(self).transfer_id@,
                TransferStatus::InProgress,
            ),
    {
        registry.insert(self.transfer_id.clone(), TransferStatus::InProgress);
        self.last_status = TransferStatus::InProgress;
    }

    /// Mirrors a cancellation announced by the peer and aborts: the
    /// registry turns `Cancelled` and the transfer fails as cancelled by
    /// the peer. No further chunk is approved.
    pub fn on_peer_cancel(&mut self, registry: &mut TransferRegistry) -> (r: CoreError)
        requires
            old(self).wf(),
            old(self).phase is Receiving,
            old(registry).wf(),
        ensures
            final(self).wf(),
            final(registry).wf(),
            final(self).phase is Failed,
            final(self).written@ == old(self).written@,
            final(self).bytes_received == old(self).bytes_received,
            final(registry)@ == old(registry)@.insert(
                old(self).transfer_id@,
                TransferStatus::Cancelled,
            ),
            r == CoreError::CancelledByPeer,
    {
        registry.insert(self.transfer_id.clone(), TransferStatus::Cancelled);
        self.phase = ReceiverPhase::Failed;
        CoreError::CancelledByPeer
    }

    /// Reacts to one poll of the registry, mirroring a local transition
    /// to the sender: a cancellation aborts, a pause or resumption is
    /// announced on its transition. Nothing is written here.
    pub fn on_tick(&mut self, status: TransferStatus) -> (r: ControlAction)
        requires
            old(self).wf(),
            old(self).phase is Receiving,
        ensures
            final(self).wf(),
            final(self).transfer_id == old(self).transfer_id,
            final(self).written@ == old(self).written@,
            final(self).bytes_received == old(self).bytes_received,
            final(self).file_size == old(self).file_size,
            status is Cancelled ==> r is Abort,
            match r {
                ControlAction::Abort(m, err) => {
                    &&& status is Cancelled
                    &&& err == CoreError::Cancelled
                    &&& m@ == (MessageView::TransferCancel {
                        transfer_id: old(self).transfer_id@,
                    })
                    &&& final(self).phase is Failed
                },
                ControlAction::Emit(m) => {
                    &&& final(self).phase is Receiving
                    &&& ((status is Paused && !(old(self).last_status is Paused) && m@
                        == (MessageView::TransferPause {
                        transfer_id: old(self).transfer_id@,
                    }) && final(self).last_status is Paused) || (status is InProgress && old(
                        self,
                    ).last_status is Paused && m@ == (MessageView::TransferResume {
                        transfer_id: old(self).transfer_id@,
                    }) && final(self).last_status is InProgress))
                },
                ControlAction::Wait => false,
                ControlAction::Continue => {
                    &&& !(status is Cancelled)
                    &&& !(status is Paused && !(old(self).last_status is Paused))
                    &&& !(status is InProgress && old(self).last_status is Paused)
                    &&& final(self).phase is Receiving
                },
            },
    {
        match status {
            TransferStatus::Cancelled => {
                let msg = MessageType::TransferCancel { transfer_id: self.transfer_id.clone() };
                self.phase = ReceiverPhase::Failed;
                self.last_status = TransferStatus::Cancelled;
                ControlAction::Abort(msg, CoreError::Cancelled)
            },
            TransferStatus::Paused => {
                if self.last_status == TransferStatus::Paused {
                    ControlAction::Continue
                } else {
                    self.last_status = TransferStatus::Paused;
                    ControlAction::Emit(
                        MessageType::TransferPause { transfer_id: self.transfer_id.clone() },
                    )
                }
            },
            TransferStatus::InProgress => {
                if self.last_status == TransferStatus::Paused {
                    self.last_status = TransferStatus::InProgress;
                    ControlAction::Emit(
                        MessageType::TransferResume { transfer_id: self.transfer_id.clone() },
                    )
                } else {
                    ControlAction::Continue
                }
            },
            _ => {
                self.last_status = status;
                ControlAction::Continue
            },
        }
    }

    /// Closes the run on the sender's completion: the driver flushes the
    /// file, reports the history row completed, sends the returned
    /// acknowledgment — which echoes this transfer's id — and closes the
    /// connection.
    pub fn on_complete(&mut self) -> (ack: MessageType)
        requires
            old(self).wf(),
            old(self).phase is Receiving,
        ensures
            final(self).wf(),
            final(self).phase is Done,
            final(self).written@ == old(self).written@,
            final(self).bytes_received == old(self).bytes_received,
            final(self).transfer_id == old(self).transfer_id,
            final(self).file_size == old(self).file_size,
            ack@ == (MessageView::TransferCompleteAck { transfer_id: old(self).transfer_id@ }),
    {
        self.phase = ReceiverPhase::Done;
        self.file_open = false;
        MessageType::TransferCompleteAck { transfer_id: self.transfer_id.clone() }
    }
}

} // verus!
