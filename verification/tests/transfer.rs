//! End-to-end transfer scenarios driving the sender and receiver state
//! machines over the verified codec, with the real digest linked in.

use proxishare::codec::{decode_message, encode_message};
use proxishare::errors::CoreError;
use proxishare::hashing::{hash_hex, hasher_finalize_hex, hasher_new, hasher_update};
use proxishare::protocol::{ControlAction, FileMetadata, MessageType};
use proxishare::receiver::{FileReceiver, ReceiverPhase};
use proxishare::registry::{TransferRegistry, TransferStatus};
use proxishare::sender::{FileSender, SenderPhase};

/// Deterministic pseudo-random file contents.
fn content(len: usize, seed: u64) -> Vec<u8> {
    let mut v = Vec::with_capacity(len);
    let mut x = seed.wrapping_mul(6364136223846793005).wrapping_add(1442695040888963407);
    while v.len() < len {
        x = x.wrapping_mul(6364136223846793005).wrapping_add(1442695040888963407);
        v.push((x >> 33) as u8);
    }
    v
}

/// Streams `file` through a complete sender run, collecting every message
/// it puts on the wire; the acknowledgment is consumed at the end.
fn run_sender(file: &[u8], transfer_id: &str) -> (FileSender, Vec<MessageType>, TransferRegistry) {
    let mut registry = TransferRegistry::new();
    registry.insert(transfer_id.to_string(), TransferStatus::InProgress);
    let file_hash = hash_hex(file);
    let (mut sm, offer) = FileSender::start(
        "sender-device".to_string(),
        "sender-name".to_string(),
        transfer_id.to_string(),
        "file.bin".to_string(),
        file.len() as u64,
        file_hash,
    );
    let mut wire = vec![offer];
    let mut offset: usize = 0;
    loop {
        match sm.check_status(registry.status_of(&transfer_id.to_string())) {
            ControlAction::Continue => {}
            other => panic!("unexpected control action: {:?}", action_name(&other)),
        }
        let remaining = file.len() - offset;
        if remaining == 0 {
            break;
        }
        let take = remaining.min(sm.chunk_size);
        let data = file[offset..offset + take].to_vec();
        offset += take;
        let (msg, progress) = sm.next_chunk(data);
        assert_eq!(progress.bytes_sent, offset as u64);
        assert_eq!(progress.total_bytes, file.len() as u64);
        assert_eq!(progress.direction, "send");
        assert_eq!(progress.status, "in_progress");
        wire.push(msg);
    }
    let complete = sm.finish(&mut registry);
    wire.push(complete);
    assert_eq!(registry.get(&transfer_id.to_string()), Some(TransferStatus::Completed));
    (sm, wire, registry)
}

fn action_name(a: &ControlAction) -> &'static str {
    match a {
        ControlAction::Continue => "continue",
        ControlAction::Emit(_) => "emit",
        ControlAction::Wait => "wait",
        ControlAction::Abort(_, _) => "abort",
    }
}

/// Feeds wire messages through the codec and the receiver, returning the
/// bytes it wrote and the acknowledgment it sent.
fn run_receiver(wire: &[MessageType], free_space: u64) -> (Vec<u8>, Option<MessageType>, FileReceiver) {
    let mut registry = TransferRegistry::new();
    let mut rx = FileReceiver::new();
    let mut disk: Vec<u8> = Vec::new();
    let mut ack = None;
    for msg in wire {
        let bytes = encode_message(msg).expect("encodable");
        let decoded = decode_message(&bytes).expect("decodable");
        match decoded {
            MessageType::FileOffer { transfer_id, metadata, sender_id, .. } => {
                let record = rx
                    .on_offer(
                        transfer_id,
                        &metadata,
                        sender_id,
                        "/save/file.bin".to_string(),
                        free_space,
                        &mut registry,
                    )
                    .expect("offer accepted");
                assert_eq!(record.direction, "receive");
                assert_eq!(record.status, "in_progress");
                assert_eq!(record.file_hash, metadata.hash);
            }
            MessageType::ChunkData { data, chunk_hash, .. } => {
                let (approved, progress) = rx.on_chunk(data, &chunk_hash).expect("chunk verified");
                disk.extend_from_slice(&approved);
                assert_eq!(progress.bytes_sent, disk.len() as u64);
                assert_eq!(progress.direction, "receive");
            }
            MessageType::TransferComplete { .. } => {
                ack = Some(rx.on_complete());
            }
            other => panic!("unexpected wire message: {:?}", other),
        }
    }
    (disk, ack, rx)
}

#[test]
fn s1_small_file_round_trip() {
    let file = content(800_000, 7);
    let (mut sm, wire, _) = run_sender(&file, "t-s1");
    assert_eq!(sm.chunk_size, 65536);
    // One offer, thirteen chunks, one completion.
    assert_eq!(wire.len(), 1 + 13 + 1);
    let chunk_lens: Vec<usize> = wire
        .iter()
        .filter_map(|m| match m {
            MessageType::ChunkData { data, .. } => Some(data.len()),
            _ => None,
        })
        .collect();
    assert_eq!(chunk_lens.len(), 13);
    for len in &chunk_lens[..12] {
        assert_eq!(*len, 65536);
    }
    assert_eq!(chunk_lens[12], 800_000 - 12 * 65536);

    let (disk, ack, _) = run_receiver(&wire, u64::MAX);
    assert_eq!(disk, file);
    // Destination digest equals the offered digest.
    let offered_hash = match &wire[0] {
        MessageType::FileOffer { metadata, .. } => metadata.hash.clone(),
        _ => unreachable!(),
    };
    assert_eq!(hash_hex(&disk), offered_hash);
    // Exactly one acknowledgment, echoing the id; the sender accepts it.
    let ack = ack.expect("one ack");
    assert!(matches!(
        &ack,
        MessageType::TransferCompleteAck { transfer_id } if transfer_id == "t-s1"
    ));
    assert!(sm.on_ack_message(&ack).is_ok());
    assert_eq!(sm.phase, SenderPhase::Done);
    let final_progress = sm.completed_progress();
    assert_eq!(final_progress.status, "completed");
    assert_eq!(final_progress.bytes_sent, 800_000);
}

#[test]
fn s2_fifty_mib_uses_one_mib_chunks() {
    let file = vec![0u8; 50 * 1024 * 1024];
    let (sm, wire, _) = run_sender(&file, "t-s2");
    assert_eq!(sm.chunk_size, 1024 * 1024);
    let chunks = wire
        .iter()
        .filter(|m| matches!(m, MessageType::ChunkData { .. }))
        .count();
    assert_eq!(chunks, 50);
    assert_eq!(sm.chunk_index, 50);
}

#[test]
fn s3_four_hundred_mib_uses_four_mib_chunks() {
    let file = vec![0u8; 400 * 1024 * 1024];
    let (sm, wire, _) = run_sender(&file, "t-s3");
    assert_eq!(sm.chunk_size, 4 * 1024 * 1024);
    let chunks = wire
        .iter()
        .filter(|m| matches!(m, MessageType::ChunkData { .. }))
        .count();
    assert_eq!(chunks, 100);
}

#[test]
fn s4_pause_suspends_and_resume_continues() {
    let file = content(3 * 65536, 11);
    let tid = "t-s4".to_string();
    let mut registry = TransferRegistry::new();
    registry.insert(tid.clone(), TransferStatus::InProgress);
    let file_hash = hash_hex(&file);
    let (mut sm, _offer) = FileSender::start(
        "d".to_string(),
        "n".to_string(),
        tid.clone(),
        "f".to_string(),
        file.len() as u64,
        file_hash,
    );
    let (_m1, _) = sm.next_chunk(file[..65536].to_vec());
    let bytes_at_pause = sm.bytes_sent;
    let index_at_pause = sm.chunk_index;

    // The UI writes Paused; the sender announces the pause once, then waits.
    assert!(registry.pause_transfer(&tid));
    match sm.check_status(registry.status_of(&tid)) {
        ControlAction::Emit(MessageType::TransferPause { transfer_id }) => {
            assert_eq!(transfer_id, "t-s4")
        }
        _ => panic!("expected a pause announcement"),
    }
    for _ in 0..4 {
        assert!(matches!(
            sm.check_status(registry.status_of(&tid)),
            ControlAction::Wait
        ));
        assert_eq!(sm.bytes_sent, bytes_at_pause);
        assert_eq!(sm.chunk_index, index_at_pause);
    }

    // Back to InProgress: one resume announcement, then streaming continues
    // at exactly the paused position.
    assert!(registry.resume_transfer(&tid));
    match sm.check_status(registry.status_of(&tid)) {
        ControlAction::Emit(MessageType::TransferResume { transfer_id }) => {
            assert_eq!(transfer_id, "t-s4")
        }
        _ => panic!("expected a resume announcement"),
    }
    assert_eq!(sm.bytes_sent, bytes_at_pause);
    let (m2, _) = sm.next_chunk(file[65536..2 * 65536].to_vec());
    match m2 {
        MessageType::ChunkData { chunk_index, .. } => assert_eq!(chunk_index, index_at_pause),
        _ => panic!("expected a chunk"),
    }
}

#[test]
fn s5_cancellation_is_final_on_both_sides() {
    let file = content(2 * 65536, 13);
    let tid = "t-s5".to_string();
    let mut registry = TransferRegistry::new();
    registry.insert(tid.clone(), TransferStatus::InProgress);
    let file_hash = hash_hex(&file);
    let (mut sm, offer) = FileSender::start(
        "d".to_string(),
        "n".to_string(),
        tid.clone(),
        "f".to_string(),
        file.len() as u64,
        file_hash,
    );
    let (chunk1, _) = sm.next_chunk(file[..65536].to_vec());

    // The UI cancels; the sender aborts before its next chunk and tells
    // the receiver.
    assert!(registry.cancel_transfer(&tid));
    let cancel_msg = match sm.check_status(registry.status_of(&tid)) {
        ControlAction::Abort(m, err) => {
            assert_eq!(err, CoreError::Cancelled);
            m
        }
        _ => panic!("expected an abort"),
    };
    assert_eq!(sm.phase, SenderPhase::Failed);
    assert!(matches!(cancel_msg, MessageType::TransferCancel { .. }));

    // The receiver had the offer and one chunk; the cancel arrives by wire.
    let mut rx_registry = TransferRegistry::new();
    let mut rx = FileReceiver::new();
    match offer {
        MessageType::FileOffer { transfer_id, metadata, sender_id, .. } => {
            rx.on_offer(
                transfer_id,
                &metadata,
                sender_id,
                "/save/f".to_string(),
                u64::MAX,
                &mut rx_registry,
            )
            .unwrap();
        }
        _ => unreachable!(),
    }
    match chunk1 {
        MessageType::ChunkData { data, chunk_hash, .. } => {
            rx.on_chunk(data, &chunk_hash).unwrap();
        }
        _ => unreachable!(),
    }
    let err = rx.on_peer_cancel(&mut rx_registry);
    assert_eq!(err, CoreError::CancelledByPeer);
    assert_eq!(rx.phase, ReceiverPhase::Failed);
    // History label for both cancellation kinds.
    assert_eq!(err.label(), "cancelled");
    assert_eq!(CoreError::Cancelled.label(), "cancelled");
    assert_eq!(CoreError::Io.label(), "failed");
    // The partial file stays: one chunk's bytes were written.
    assert_eq!(rx.bytes_received, 65536);
    assert_eq!(
        rx_registry.get(&tid),
        Some(TransferStatus::Cancelled)
    );
}

#[test]
fn s6_offer_without_space_is_rejected_before_any_file() {
    let mut registry = TransferRegistry::new();
    let mut rx = FileReceiver::new();
    let metadata = FileMetadata {
        name: "big.bin".to_string(),
        size: 2 * 1024 * 1024,
        hash: hash_hex(b"irrelevant"),
        chunk_size: 1024 * 1024,
    };
    let r = rx.on_offer(
        "t-s6".to_string(),
        &metadata,
        "peer".to_string(),
        "/save/big.bin".to_string(),
        1024 * 1024,
        &mut registry,
    );
    assert_eq!(r.unwrap_err(), CoreError::DiskSpace);
    assert!(!rx.file_open);
    assert_eq!(rx.phase, ReceiverPhase::Failed);
    assert_eq!(registry.get(&"t-s6".to_string()), None);
}

#[test]
fn hash_mismatch_rejects_the_chunk_and_writes_nothing() {
    let mut registry = TransferRegistry::new();
    let mut rx = FileReceiver::new();
    let metadata = FileMetadata {
        name: "f".to_string(),
        size: 8,
        hash: hash_hex(b"12345678"),
        chunk_size: 65536,
    };
    rx.on_offer(
        "t-flip".to_string(),
        &metadata,
        "peer".to_string(),
        "/save/f".to_string(),
        u64::MAX,
        &mut registry,
    )
    .unwrap();
    let good = b"12345678".to_vec();
    let good_hash = hash_hex(&good);
    // A single bit flipped in the payload, the digest untouched.
    let mut flipped = good.clone();
    flipped[3] ^= 0x01;
    let r = rx.on_chunk(flipped, &good_hash);
    assert_eq!(r.unwrap_err(), CoreError::ChunkHash);
    assert_eq!(rx.bytes_received, 0);
    assert_eq!(rx.phase, ReceiverPhase::Failed);
}

#[test]
fn no_ack_no_success() {
    let file = content(100, 3);
    let (mut sm, _, _) = run_sender(&file, "t-ack");
    assert_eq!(sm.phase, SenderPhase::AwaitingAck);
    // A wrong id is a protocol fault, not success.
    let wrong = MessageType::TransferCompleteAck { transfer_id: "other".to_string() };
    assert_eq!(sm.on_ack_message(&wrong).unwrap_err(), CoreError::Protocol);
    assert_eq!(sm.phase, SenderPhase::Failed);

    let (mut sm2, _, _) = run_sender(&file, "t-ack2");
    // An unexpected message kind is a protocol fault.
    let unexpected = MessageType::TransferPause { transfer_id: "t-ack2".to_string() };
    assert_eq!(sm2.on_ack_message(&unexpected).unwrap_err(), CoreError::Protocol);

    let (mut sm3, _, _) = run_sender(&file, "t-ack3");
    // The window closes: a timeout is final.
    assert_eq!(sm3.on_ack_timeout(), CoreError::AckTimeout);
    assert_eq!(sm3.phase, SenderPhase::Failed);
}

#[test]
fn streaming_hasher_matches_one_shot_digest() {
    let data = content(200_000, 21);
    let mut h = hasher_new();
    hasher_update(&mut h, &data[..70_000]);
    hasher_update(&mut h, &data[70_000..]);
    let streamed = hasher_finalize_hex(&h);
    assert_eq!(streamed, hash_hex(&data));
    assert_eq!(streamed.len(), 64);
}

#[test]
fn blake3_digest_of_empty_input() {
    // The well-known BLAKE3 digest of the empty string.
    assert_eq!(
        hash_hex(b""),
        "af1349b9f5f9a1a6a0404dea36dcc9499bcb25c9adc112b7cc9a93cae41f3262"
    );
    assert_ne!(hash_hex(b"a"), hash_hex(b"b"));
}

#[test]
fn empty_file_transfer_completes_without_chunks() {
    let (mut sm, wire, _) = run_sender(&[], "t-empty");
    assert_eq!(wire.len(), 2);
    assert_eq!(sm.chunk_index, 0);
    let (disk, ack, _) = run_receiver(&wire, u64::MAX);
    assert!(disk.is_empty());
    assert!(sm.on_ack_message(&ack.unwrap()).is_ok());
}

#[test]
fn receiver_mirrors_local_registry_transitions() {
    let mut registry = TransferRegistry::new();
    let mut rx = FileReceiver::new();
    let metadata = FileMetadata {
        name: "f".to_string(),
        size: 10,
        hash: hash_hex(b"0123456789"),
        chunk_size: 65536,
    };
    rx.on_offer(
        "t-tick".to_string(),
        &metadata,
        "peer".to_string(),
        "/save/f".to_string(),
        u64::MAX,
        &mut registry,
    )
    .unwrap();

    // A local pause is announced once; a steady pause announces nothing.
    assert!(registry.pause_transfer(&"t-tick".to_string()));
    match rx.on_tick(registry.status_of(&"t-tick".to_string())) {
        ControlAction::Emit(MessageType::TransferPause { transfer_id }) => {
            assert_eq!(transfer_id, "t-tick")
        }
        _ => panic!("expected a pause announcement"),
    }
    assert!(matches!(
        rx.on_tick(registry.status_of(&"t-tick".to_string())),
        ControlAction::Continue
    ));
    // Resumption is announced on the transition back.
    assert!(registry.resume_transfer(&"t-tick".to_string()));
    match rx.on_tick(registry.status_of(&"t-tick".to_string())) {
        ControlAction::Emit(MessageType::TransferResume { transfer_id }) => {
            assert_eq!(transfer_id, "t-tick")
        }
        _ => panic!("expected a resume announcement"),
    }
    // A local cancellation tells the sender and aborts.
    assert!(registry.cancel_transfer(&"t-tick".to_string()));
    match rx.on_tick(registry.status_of(&"t-tick".to_string())) {
        ControlAction::Abort(MessageType::TransferCancel { transfer_id }, err) => {
            assert_eq!(transfer_id, "t-tick");
            assert_eq!(err, CoreError::Cancelled);
        }
        _ => panic!("expected an abort"),
    }
    assert_eq!(rx.phase, ReceiverPhase::Failed);
}
