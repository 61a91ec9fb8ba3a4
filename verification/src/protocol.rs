//! The message protocol schema: the tagged union exchanged between sender
//! and receiver, and the records handed to the history collaborator.
//!
//! Each exec type has a view type that the contracts and the codec spec
//! speak of: strings become `Seq<char>`, byte vectors become `Seq<u8>`.

use crate::errors::CoreError;
use vstd::prelude::*;

verus! {

/// Description of a file, produced by the sender before any chunk is
/// emitted and consumed by the receiver on the offer.
#[derive(Clone, Debug)]
pub struct FileMetadata {
    /// Base name of the file.
    pub name: String,
    /// Total length of the file in bytes.
    pub size: u64,
    /// Lowercase-hex BLAKE3 digest of the full file contents.
    pub hash: String,
    /// Chunk size the sender will use for this file.
    pub chunk_size: u32,
}

/// Mathematical model of [`FileMetadata`].
pub struct MetadataView {
    pub name: Seq<char>,
    pub size: u64,
    pub hash: Seq<char>,
    pub chunk_size: u32,
}

impl View for FileMetadata {
    type V = MetadataView;

    open spec fn view(&self) -> MetadataView {
        MetadataView {
            name: self.name@,
            size: self.size,
            hash: self.hash@,
            chunk_size: self.chunk_size,
        }
    }
}

/// One row of the transfer history, as the core hands it to the history
/// collaborator on an accepted offer.
#[derive(Clone, Debug)]
pub struct TransferRecord {
    pub id: String,
    pub device_id: String,
    pub device_name: Option<String>,
    pub file_name: String,
    pub file_path: String,
    pub total_size: i64,
    /// `send` or `receive`.
    pub direction: String,
    /// `in_progress`, `completed`, `failed` or `cancelled`.
    pub status: String,
    pub bytes_transferred: i64,
    pub file_hash: String,
    pub created_at: i64,
    pub updated_at: i64,
}

/// Mathematical model of [`TransferRecord`].
pub struct RecordView {
    pub id: Seq<char>,
    pub device_id: Seq<char>,
    pub device_name: Option<Seq<char>>,
    pub file_name: Seq<char>,
    pub file_path: Seq<char>,
    pub total_size: i64,
    pub direction: Seq<char>,
    pub status: Seq<char>,
    pub bytes_transferred: i64,
    pub file_hash: Seq<char>,
    pub created_at: i64,
    pub updated_at: i64,
}

impl View for TransferRecord {
    type V = RecordView;

    open spec fn view(&self) -> RecordView {
        RecordView {
            id: self.id@,
            device_id: self.device_id@,
            device_name: match self.device_name {
                Some(n) => Some(n@),
                None => None,
            },
            file_name: self.file_name@,
            file_path: self.file_path@,
            total_size: self.total_size,
            direction: self.direction@,
            status: self.status@,
            bytes_transferred: self.bytes_transferred,
            file_hash: self.file_hash@,
            created_at: self.created_at,
            updated_at: self.updated_at,
        }
    }
}

/// The tagged message union on the per-transfer stream. The structural
/// triple `FileOffer` / `TransferComplete` / `TransferCompleteAck`
/// brackets every transfer; `ChunkData` carries the payload; the three
/// control messages mirror registry transitions; `TransferError` reports a
/// fatal fault; `PairRequest` serves the pairing collaborator on the same
/// transport. Further kinds exist in richer schemas (handshakes,
/// per-chunk acks, history synchronisation); the core state machines do
/// not require them and this schema leaves them out, treating an unknown
/// kind as a protocol fault.
#[derive(Clone, Debug)]
pub enum MessageType {
    FileOffer {
        transfer_id: String,
        metadata: FileMetadata,
        sender_id: String,
        sender_name: String,
    },
    ChunkData {
        transfer_id: String,
        chunk_index: u32,
        data: Vec<u8>,
        chunk_hash: String,
    },
    TransferPause {
        transfer_id: String,
    },
    TransferResume {
        transfer_id: String,
    },
    TransferCancel {
        transfer_id: String,
    },
    TransferComplete {
        transfer_id: String,
    },
    TransferCompleteAck {
        transfer_id: String,
    },
    TransferError {
        transfer_id: String,
        message: String,
    },
    PairRequest {
        device_id: String,
        device_name: String,
        pairing_code: String,
    },
}

/// Mathematical model of [`MessageType`].
pub enum MessageView {
    FileOffer {
        transfer_id: Seq<char>,
        metadata: MetadataView,
        sender_id: Seq<char>,
        sender_name: Seq<char>,
    },
    ChunkData {
        transfer_id: Seq<char>,
        chunk_index: u32,
        data: Seq<u8>,
        chunk_hash: Seq<char>,
    },
    TransferPause {
        transfer_id: Seq<char>,
    },
    TransferResume {
        transfer_id: Seq<char>,
    },
    TransferCancel {
        transfer_id: Seq<char>,
    },
    TransferComplete {
        transfer_id: Seq<char>,
    },
    TransferCompleteAck {
        transfer_id: Seq<char>,
    },
    TransferError {
        transfer_id: Seq<char>,
        message: Seq<char>,
    },
    PairRequest {
        device_id: Seq<char>,
        device_name: Seq<char>,
        pairing_code: Seq<char>,
    },
}

impl View for MessageType {
    type V = MessageView;

    open spec fn view(&self) -> MessageView {
        match self {
            MessageType::FileOffer { transfer_id, metadata, sender_id, sender_name } => {
                MessageView::FileOffer {
                    transfer_id: transfer_id@,
                    metadata: metadata@,
                    sender_id: sender_id@,
                    sender_name: sender_name@,
                }
            },
            MessageType::ChunkData { transfer_id, chunk_index, data, chunk_hash } => {
                MessageView::ChunkData {
                    transfer_id: transfer_id@,
                    chunk_index: *chunk_index,
                    data: data@,
                    chunk_hash: chunk_hash@,
                }
            },
            MessageType::TransferPause { transfer_id } => {
                MessageView::TransferPause { transfer_id: transfer_id@ }
            },
            MessageType::TransferResume { transfer_id } => {
                MessageView::TransferResume { transfer_id: transfer_id@ }
            },
            MessageType::TransferCancel { transfer_id } => {
                MessageView::TransferCancel { transfer_id: transfer_id@ }
            },
            MessageType::TransferComplete { transfer_id } => {
                MessageView::TransferComplete { transfer_id: transfer_id@ }
            },
            MessageType::TransferCompleteAck { transfer_id } => {
                MessageView::TransferCompleteAck { transfer_id: transfer_id@ }
            },
            MessageType::TransferError { transfer_id, message } => {
                MessageView::TransferError { transfer_id: transfer_id@, message: message@ }
            },
            MessageType::PairRequest { device_id, device_name, pairing_code } => {
                MessageView::PairRequest {
                    device_id: device_id@,
                    device_name: device_name@,
                    pairing_code: pairing_code@,
                }
            },
        }
    }
}

/// What a state machine asks of its driver after observing the registry.
pub enum ControlAction {
    /// Keep going.
    Continue,
    /// Send this control message, then keep going.
    Emit(MessageType),
    /// Stay paused: sleep one tick and poll again.
    Wait,
    /// Send this message, then abort with this error.
    Abort(MessageType, CoreError),
}

/// A progress event handed to the UI sink after every chunk and at
/// completion.
#[derive(Clone, Debug)]
pub struct TransferProgress {
    pub transfer_id: String,
    pub file_name: String,
    pub bytes_sent: u64,
    pub total_bytes: u64,
    /// `send` or `receive`.
    pub direction: String,
    /// `in_progress` or `completed`.
    pub status: String,
}

} // verus!
