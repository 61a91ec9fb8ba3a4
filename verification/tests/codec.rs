//! The wire codec: canonical layout, round trips, and rejection of
//! malformed payloads.

use proxishare::codec::{decode_message, encode_message, frame_message};
use proxishare::errors::CoreError;
use proxishare::protocol::{FileMetadata, MessageType};

fn sample_offer() -> MessageType {
    MessageType::FileOffer {
        transfer_id: "id-1".to_string(),
        metadata: FileMetadata {
            name: "naïve löl.bin".to_string(),
            size: 800_000,
            hash: "ab".repeat(32),
            chunk_size: 65536,
        },
        sender_id: "dev-a".to_string(),
        sender_name: "Alice".to_string(),
    }
}

fn all_samples() -> Vec<MessageType> {
    vec![
        sample_offer(),
        MessageType::ChunkData {
            transfer_id: "id-1".to_string(),
            chunk_index: 12,
            data: vec![0, 1, 2, 250, 255],
            chunk_hash: "cd".repeat(32),
        },
        MessageType::TransferPause { transfer_id: "id-1".to_string() },
        MessageType::TransferResume { transfer_id: "id-1".to_string() },
        MessageType::TransferCancel { transfer_id: "id-1".to_string() },
        MessageType::TransferComplete { transfer_id: "id-1".to_string() },
        MessageType::TransferCompleteAck { transfer_id: "id-1".to_string() },
        MessageType::TransferError {
            transfer_id: "id-1".to_string(),
            message: "disk on fire".to_string(),
        },
        MessageType::PairRequest {
            device_id: "dev-a".to_string(),
            device_name: "Alice".to_string(),
            pairing_code: "042751".to_string(),
        },
    ]
}

fn assert_same(a: &MessageType, b: &MessageType) {
    // Compare through the canonical encoding: equal payloads spell equal
    // messages.
    assert_eq!(encode_message(a).unwrap(), encode_message(b).unwrap());
}

#[test]
fn every_kind_round_trips() {
    for msg in all_samples() {
        let bytes = encode_message(&msg).expect("encodable");
        let back = decode_message(&bytes).expect("decodable");
        assert_same(&msg, &back);
    }
}

#[test]
fn pause_has_the_documented_layout() {
    let msg = MessageType::TransferPause { transfer_id: "ab".to_string() };
    let bytes = encode_message(&msg).unwrap();
    assert_eq!(bytes, vec![3u8, 0, 0, 0, 2, b'a', b'b']);
}

#[test]
fn chunk_layout_is_tag_id_index_data_digest() {
    let msg = MessageType::ChunkData {
        transfer_id: "t".to_string(),
        chunk_index: 258,
        data: vec![9, 8],
        chunk_hash: "hh".to_string(),
    };
    let bytes = encode_message(&msg).unwrap();
    let expected = vec![
        2u8, // tag
        0, 0, 0, 1, b't', // transfer id
        0, 0, 1, 2, // chunk index 258 big-endian
        0, 0, 0, 2, 9, 8, // payload
        0, 0, 0, 2, b'h', b'h', // digest
    ];
    assert_eq!(bytes, expected);
}

#[test]
fn frame_prefixes_the_payload_length_big_endian() {
    let msg = MessageType::TransferComplete { transfer_id: "xy".to_string() };
    let payload = encode_message(&msg).unwrap();
    let frame = frame_message(&msg).unwrap();
    assert_eq!(frame.len(), payload.len() + 4);
    let len = u32::from_be_bytes([frame[0], frame[1], frame[2], frame[3]]) as usize;
    assert_eq!(len, payload.len());
    assert_eq!(&frame[4..], &payload[..]);
}

#[test]
fn malformed_payloads_are_deserialize_faults() {
    // Empty payload.
    assert_eq!(decode_message(&vec![]).unwrap_err(), CoreError::Deserialize);
    // Unknown tag.
    assert_eq!(decode_message(&vec![42u8, 0, 0, 0, 0]).unwrap_err(), CoreError::Deserialize);
    // Truncated string length.
    assert_eq!(decode_message(&vec![3u8, 0, 0]).unwrap_err(), CoreError::Deserialize);
    // String length runs past the payload.
    assert_eq!(
        decode_message(&vec![3u8, 0, 0, 0, 9, b'a']).unwrap_err(),
        CoreError::Deserialize
    );
    // Invalid UTF-8 in a string field.
    assert_eq!(
        decode_message(&vec![3u8, 0, 0, 0, 1, 0xFF]).unwrap_err(),
        CoreError::Deserialize
    );
    // Trailing garbage after a complete message.
    let mut bytes = encode_message(&MessageType::TransferPause {
        transfer_id: "ab".to_string(),
    })
    .unwrap();
    bytes.push(0);
    assert_eq!(decode_message(&bytes).unwrap_err(), CoreError::Deserialize);
}

#[test]
fn corrupted_offer_does_not_decode_as_sent() {
    let bytes = encode_message(&sample_offer()).unwrap();
    // Flip one byte inside the metadata size field: either the decoder
    // rejects the payload, or it reads a different message.
    let mut corrupted = bytes.clone();
    let pos = 4 + 4 + 4; // tag, id prefix, id bytes, into the name prefix
    corrupted[pos] ^= 0x40;
    match decode_message(&corrupted) {
        Err(e) => assert_eq!(e, CoreError::Deserialize),
        Ok(other) => {
            assert_ne!(encode_message(&other).unwrap(), bytes);
        }
    }
}
