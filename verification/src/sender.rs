//! The sender state machine: streams one file as an offer, a strictly
//! ordered run of integrity-tagged chunks, and a completion that must be
//! acknowledged.
//!
//! The machine is pure: the surrounding application opens the connection,
//! reads the file and the registry, and hands every observation in as an
//! event. Each step says exactly which message leaves, how the counters
//! move, and when the transfer is allowed to count as done — never before
//! the matching acknowledgment arrived.

use crate::chunking::{calculate_chunk_size, chunk_count, lemma_chunk_count, lemma_chunk_step,
    spec_chunk_size};
use crate::errors::CoreError;
use crate::hashing::{blake3_hex, hash_hex};
use crate::protocol::{ControlAction, FileMetadata, MessageType, MessageView, MetadataView,
    TransferProgress};
use crate::registry::{TransferRegistry, TransferStatus};
use vstd::prelude::*;
use vstd::string::StringExecFns;

verus! {

/// Where the sender stands in its run.
#[derive(Clone, Copy, Debug, PartialEq, Eq, Structural)]
pub enum SenderPhase {
    /// Emitting chunks, or paused between them.
    Streaming,
    /// Completion sent; waiting for the acknowledgment.
    AwaitingAck,
    /// The matching acknowledgment arrived.
    Done,
    /// Aborted: cancelled, faulted, or timed out.
    Failed,
}

/// The sender state machine for one outgoing transfer.
pub struct FileSender {
    pub transfer_id: String,
    pub file_name: String,
    pub file_size: u64,
    pub chunk_size: usize,
    pub bytes_sent: u64,
    pub chunk_index: u32,
    pub last_status: TransferStatus,
    pub phase: SenderPhase,
}

impl FileSender {
    /// The machine's invariant: the chunk size follows the adaptive rule,
    /// and while streaming the counters describe a prefix of the chunk
    /// schedule — all emitted chunks were full, or the file is fully sent
    /// and the counter equals the schedule's length.
    pub open spec fn wf(&self) -> bool {
        &&& self.chunk_size == spec_chunk_size(self.file_size)
        &&& self.bytes_sent <= self.file_size
        &&& chunk_count(self.file_size as int, self.chunk_size as int) <= u32::MAX
        &&& (self.phase is Streaming ==> (self.bytes_sent < self.file_size && self.bytes_sent
            == self.chunk_index * self.chunk_size) || (self.bytes_sent == self.file_size
            && self.chunk_index == chunk_count(self.file_size as int, self.chunk_size as int)))
    }

    /// Builds the machine and the file offer that opens the transfer.
    /// The file must cut into at most `u32::MAX` chunks, the range the
    /// chunk counter can index.
    pub fn start(
        device_id: String,
        device_name: String,
        transfer_id: String,
        file_name: String,
        file_size: u64,
        file_hash: String,
    ) -> (r: (FileSender, MessageType))
        requires
            chunk_count(file_size as int, spec_chunk_size(file_size)) <= u32::MAX,
        ensures
            r.0.wf(),
            r.0.transfer_id@ == transfer_id@,
            r.0.file_name@ == file_name@,
            r.0.file_size == file_size,
            r.0.bytes_sent == 0,
            r.0.chunk_index == 0,
            r.0.last_status is InProgress,
            r.0.phase is Streaming,
            r.1@ == (MessageView::FileOffer {
                transfer_id: transfer_id@,
                metadata: MetadataView {
                    name: file_name@,
                    size: file_size,
                    hash: file_hash@,
                    chunk_size: spec_chunk_size(file_size) as u32,
                },
                sender_id: device_id@,
                sender_name: device_name@,
            }),
    {
        let chunk_size = calculate_chunk_size(file_size);
        let offer = MessageType::FileOffer {
            transfer_id: transfer_id.clone(),
            metadata: FileMetadata {
                name: file_name.clone(),
                size: file_size,
                hash: file_hash,
                chunk_size: chunk_size as u32,
            },
            sender_id: device_id,
            sender_name: device_name,
        };
        let sm = FileSender {
            transfer_id,
            file_name,
            file_size,
            chunk_size,
            bytes_sent: 0,
            chunk_index: 0,
            last_status: TransferStatus::InProgress,
            phase: SenderPhase::Streaming,
        };
        proof {
            lemma_chunk_count(file_size as int, chunk_size as int);
            assert(0 == 0 * (chunk_size as int)) by (nonlinear_arith);
        }
        (sm, offer)
    }

    /// Reacts to one observation of the registry, mirroring a transition
    /// to the receiver: cancellation aborts before the next chunk, a
    /// pause is announced once and then waited out, and a resumption is
    /// announced when streaming may continue. The counters never move
    /// here, so a paused transfer sends nothing until it resumes.
    pub fn check_status(&mut self, status: TransferStatus) -> (r: ControlAction)
        requires
            old(self).wf(),
            old(self).phase is Streaming,
        ensures
            final(self).wf(),
            final(self).transfer_id == old(self).transfer_id,
            final(self).file_name == old(self).file_name,
            final(self).file_size == old(self).file_size,
            final(self).chunk_size == old(self).chunk_size,
            final(self).bytes_sent == old(self).bytes_sent,
            final(self).chunk_index == old(self).chunk_index,
            status is Cancelled ==> r is Abort,
            match r {
                ControlAction::Abort(m, err) => {
                    &&& status is Cancelled
                    &&& err == CoreError::Cancelled
                    &&& m@ == (MessageView::TransferCancel {
                        transfer_id: old(self).transfer_id@,
                    })
                    &&& final(self).phase is Failed
                },
                ControlAction::Emit(m) => {
                    &&& final(self).phase is Streaming
                    &&& ((status is Paused && !(old(self).last_status is Paused) && m@
                        == (MessageView::TransferPause {
                        transfer_id: old(self).transfer_id@,
                    }) && final(self).last_status is Paused) || (status is InProgress && old(
                        self,
                    ).last_status is Paused && m@ == (MessageView::TransferResume {
                        transfer_id: old(self).transfer_id@,
                    }) && final(self).last_status is InProgress))
                },
                ControlAction::Wait => {
                    &&& status is Paused
                    &&& old(self).last_status is Paused
                    &&& *final(self) == *old(self)
                },
                ControlAction::Continue => {
                    &&& !(status is Paused)
                    &&& !(status is Cancelled)
                    &&& !(status is InProgress && old(self).last_status is Paused)
                    &&& final(self).phase is Streaming
                    &&& final(self).last_status == status
                },
            },
    {
        match status {
            TransferStatus::Cancelled => {
                let msg = MessageType::TransferCancel { transfer_id: self.transfer_id.clone() };
                self.phase = SenderPhase::Failed;
                self.last_status = TransferStatus::Cancelled;
                ControlAction::Abort(msg, CoreError::Cancelled)
            },
            TransferStatus::Paused => {
                if self.last_status == TransferStatus::Paused {
                    ControlAction::Wait
                } else {
                    self.last_status = TransferStatus::Paused;
                    ControlAction::Emit(
                        MessageType::TransferPause { transfer_id: self.transfer_id.clone() },
                    )
                }
            },
            TransferStatus::InProgress => {
                if self.last_status == TransferStatus::Paused {
                    self.last_status = TransferStatus::InProgress;
                    ControlAction::Emit(
                        MessageType::TransferResume { transfer_id: self.transfer_id.clone() },
                    )
                } else {
                    self.last_status = TransferStatus::InProgress;
                    ControlAction::Continue
                }
            },
            _ => {
                self.last_status = status;
                ControlAction::Continue
            },
        }
    }

    /// Packs the next stretch of the file into a chunk message and the
    /// progress event that follows it. The driver reads full chunks until
    /// the final, possibly shorter one, so the data's length is the next
    /// piece of the chunk schedule.
    pub fn next_chunk(&mut self, data: Vec<u8>) -> (r: (MessageType, TransferProgress))
        requires
            old(self).wf(),
            old(self).phase is Streaming,
            old(self).last_status is InProgress,
            data@.len() > 0,
            data@.len() == if old(self).file_size - old(self).bytes_sent
                < old(self).chunk_size as u64 {
                old(self).file_size - old(self).bytes_sent
            } else {
                old(self).chunk_size as int
            },
        ensures
            final(self).wf(),
            final(self).transfer_id == old(self).transfer_id,
            final(self).file_name == old(self).file_name,
            final(self).file_size == old(self).file_size,
            final(self).chunk_size == old(self).chunk_size,
            final(self).phase is Streaming,
            final(self).last_status is InProgress,
            final(self).bytes_sent == old(self).bytes_sent + data@.len(),
            final(self).chunk_index == old(self).chunk_index + 1,
            r.0@ == (MessageView::ChunkData {
                transfer_id: old(self).transfer_id@,
                chunk_index: old(self).chunk_index,
                data: data@,
                chunk_hash: blake3_hex(data@),
            }),
            r.1.transfer_id@ == old(self).transfer_id@,
            r.1.file_name@ == old(self).file_name@,
            r.1.bytes_sent == final(self).bytes_sent,
            r.1.total_bytes == old(self).file_size,
            r.1.direction@ == "send"@,
            r.1.status@ == "in_progress"@,
    {
        proof {
            let s = self.file_size as int;
            let c = self.chunk_size as int;
            let i = self.chunk_index as int;
            lemma_chunk_count(s, c);
            assert(self.bytes_sent < self.file_size);
            assert(self.bytes_sent == i * c);
            lemma_chunk_step(s, c, i);
            assert((i + 1) * c == i * c + c) by (nonlinear_arith);
        }
        let n = data.len();
        let chunk_hash = hash_hex(data.as_slice());
        let msg = MessageType::ChunkData {
            transfer_id: self.transfer_id.clone(),
            chunk_index: self.chunk_index,
            data,
            chunk_hash,
        };
        self.bytes_sent = self.bytes_sent + n as u64;
        self.chunk_index = self.chunk_index + 1;
        let progress = TransferProgress {
            transfer_id: self.transfer_id.clone(),
            file_name: self.file_name.clone(),
            bytes_sent: self.bytes_sent,
            total_bytes: self.file_size,
            direction: String::from_str("send"),
            status: String::from_str("in_progress"),
        };
        (msg, progress)
    }

    /// Closes the streaming part once the file is exhausted: the chunk
    /// counter has reached the schedule's length exactly, the registry
    /// entry turns `Completed`, and the completion message goes out.
    pub fn finish(&mut self, registry: &mut TransferRegistry) -> (r: MessageType)
        requires
            old(self).wf(),
            old(self).phase is Streaming,
            old(self).last_status is InProgress,
            old(self).bytes_sent == old(self).file_size,
            old(registry).wf(),
        ensures
            final(self).wf(),
            final(self).transfer_id == old(self).transfer_id,
            final(self).file_size == old(self).file_size,
            final(self).bytes_sent == old(self).file_size,
            final(self).phase is AwaitingAck,
            final(self).chunk_index == chunk_count(
                old(self).file_size as int,
                spec_chunk_size(old(self).file_size),
            ),
            final(registry).wf(),
            final(registry)@ == old(registry)@.insert(
                old(self).transfer_id@,
                TransferStatus::Completed,
            ),
            r@ == (MessageView::TransferComplete { transfer_id: old(self).transfer_id@ }),
    {
        proof {
            let s = self.file_size as int;
            let c = self.chunk_size as int;
            lemma_chunk_count(s, c);
            if self.bytes_sent < self.file_size {
            } else if self.bytes_sent == self.file_size && self.bytes_sent
                == self.chunk_index * c && self.file_size > 0 {
                let i = self.chunk_index as int;
                assert((i - 1) * c < s && s <= i * c ==> chunk_count(s, c) == i) by (
                nonlinear_arith)
                    requires
                        c > 0,
                        s == i * c,
                        s > 0,
                        chunk_count(s, c) * c >= s,
                        (chunk_count(s, c) - 1) * c < s,
                ;
            }
        }
        registry.insert(self.transfer_id.clone(), TransferStatus::Completed);
        self.phase = SenderPhase::AwaitingAck;
        MessageType::TransferComplete { transfer_id: self.transfer_id.clone() }
    }

    /// Judges one message read while waiting for the acknowledgment: the
    /// acknowledgment that echoes this transfer's id completes the run;
    /// anything else is a protocol fault.
    pub fn on_ack_message(&mut self, msg: &MessageType) -> (r: Result<(), CoreError>)
        requires
            old(self).wf(),
            old(self).phase is AwaitingAck,
        ensures
            final(self).wf(),
            final(self).transfer_id == old(self).transfer_id,
            final(self).file_size == old(self).file_size,
            final(self).bytes_sent == old(self).bytes_sent,
            final(self).chunk_index == old(self).chunk_index,
            r is Ok <==> (msg@ matches MessageView::TransferCompleteAck { transfer_id: aid }
                && aid == old(self).transfer_id@),
            r is Ok ==> final(self).phase is Done,
            r matches Err(e) ==> e == CoreError::Protocol && final(self).phase is Failed,
    {
        match msg {
            MessageType::TransferCompleteAck { transfer_id: ack_id } => {
                if ack_id.eq(&self.transfer_id) {
                    self.phase = SenderPhase::Done;
                    Ok(())
                } else {
                    self.phase = SenderPhase::Failed;
                    Err(CoreError::Protocol)
                }
            },
            _ => {
                self.phase = SenderPhase::Failed;
                Err(CoreError::Protocol)
            },
        }
    }

    /// Gives the acknowledgment wait up: the transfer failed, and may
    /// never be reported successful.
    pub fn on_ack_timeout(&mut self) -> (r: CoreError)
        requires
            old(self).wf(),
            old(self).phase is AwaitingAck,
        ensures
            final(self).wf(),
            final(self).phase is Failed,
            r == CoreError::AckTimeout,
    {
        self.phase = SenderPhase::Failed;
        CoreError::AckTimeout
    }

    /// The final progress event of a completed transfer.
    pub fn completed_progress(&self) -> (r: TransferProgress)
        requires
            self.phase is Done,
        ensures
            r.transfer_id@ == self.transfer_id@,
            r.file_name@ == self.file_name@,
            r.bytes_sent == self.file_size,
            r.total_bytes == self.file_size,
            r.direction@ == "send"@,
            r.status@ == "completed"@,
    {
        TransferProgress {
            transfer_id: self.transfer_id.clone(),
            file_name: self.file_name.clone(),
            bytes_sent: self.file_size,
            total_bytes: self.file_size,
            direction: String::from_str("send"),
            status: String::from_str("completed"),
        }
    }
}

} // verus!
