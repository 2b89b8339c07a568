//! Gzip wrapper behaviour and the batch codec round trip.

use iggy::batching::{MessagesBatch, MessagesBatchAttributes};
use iggy::compression::{CompressionAlgorithm, Compressor, GzCompressor};
use iggy::error::Error;
use iggy::message::{Message, MessageState};

const DATA: &str = r#"
        (a stench is in 3 5)
         (a pit is nearby)
         (is the wumpus near)
         (Did you go to 3 8)
         (Yes -- Nothing is there)
        (Shoot -- Shoot left)
        (Kill the wumpus -- shoot up)))
        (defun ss (&optional (sentences *sentences*))
        "Run some test sentences, and count how many were¬
        not parsed."
        (count-if-not
        #'(lambda (s)
        (format t "~2&>>> ~(~{~a ~}~)~%"¬
        s)
        (write (second (parse s)) :pretty t))
        *sentences*))"#;

#[test]
fn test_gzip_compress() {
    let compressor = GzCompressor::new();
    let compression_buffer = Vec::new();
    let result = compressor.compress(DATA.as_bytes().to_owned(), compression_buffer);
    assert!(result.is_ok());
    let compressed = result.unwrap();
    assert_ne!(compressed.len(), DATA.len());
}

#[test]
fn test_gzip_decompress() {
    let compressor = GzCompressor::new();
    let compression_buffer = Vec::new();
    let compressed_data = compressor
        .compress(DATA.as_bytes().to_vec(), compression_buffer)
        .unwrap();
    let mut decompression_buffer = Vec::new();
    let result = compressor.decompress(compressed_data.as_slice(), &mut decompression_buffer);

    assert!(result.is_ok());
    assert_eq!(decompression_buffer, DATA.as_bytes());
}

#[test]
fn should_create_attributes_with_gzip_compression_algorithm() {
    let attributes = MessagesBatchAttributes::new(CompressionAlgorithm::Gzip).create();
    let messages_batch = MessagesBatch::new(1337, 69, 420, attributes, Vec::new());
    let compression_algorithm = messages_batch.get_compression_algorithm().unwrap();

    assert_eq!(compression_algorithm, CompressionAlgorithm::Gzip);
}

#[test]
fn reserved_compression_codes_are_rejected() {
    assert!(matches!(
        CompressionAlgorithm::from_code(2),
        Err(Error::InvalidCompressionAlgorithm(2))
    ));
    assert!(matches!(
        CompressionAlgorithm::from_code(3),
        Err(Error::InvalidCompressionAlgorithm(3))
    ));
}

fn message(offset: u64, payload: Vec<u8>) -> Message {
    Message {
        offset,
        state: MessageState::Available,
        timestamp: 123,
        id: 456,
        checksum: 789,
        headers: None,
        length: payload.len() as u32,
        payload,
    }
}

#[test]
fn gzip_batch_round_trip_restores_five_messages() {
    let messages: Vec<Message> = (0..5u64)
        .map(|i| message(10 + i, vec![i as u8; 40]))
        .collect();
    let attributes = MessagesBatchAttributes::new(CompressionAlgorithm::Gzip).create();
    let batch = MessagesBatch::messages_to_batch(10, 4, attributes, messages.clone()).unwrap();
    assert_eq!(batch.base_offset, 10);
    assert_eq!(batch.last_offset_delta, 4);
    let decoded = batch.into_messages().unwrap();
    assert_eq!(decoded.len(), 5);
    for (i, m) in decoded.iter().enumerate() {
        assert_eq!(m.offset, 10 + i as u64);
    }
    assert_eq!(decoded, messages);
}

#[test]
fn uncompressed_batch_round_trip_restores_messages_with_headers() {
    let mut m = message(3, vec![1, 2, 3]);
    m.headers = Some(vec![iggy::message::MessageHeader {
        key: b"source".to_vec(),
        kind: 2,
        value: b"sensor-1".to_vec(),
    }]);
    let attributes = MessagesBatchAttributes::new(CompressionAlgorithm::Uncompressed).create();
    let batch =
        MessagesBatch::messages_to_batch(3, 0, attributes, vec![m.clone()]).unwrap();
    let decoded = batch.into_messages().unwrap();
    assert_eq!(decoded, vec![m]);
}

#[test]
fn batch_length_counts_metadata_and_payload() {
    let m = message(0, vec![7; 10]);
    let attributes = MessagesBatchAttributes::new(CompressionAlgorithm::Uncompressed).create();
    let batch = MessagesBatch::messages_to_batch(0, 0, attributes, vec![m]).unwrap();
    // one message frame: 45 fixed bytes plus the 10 payload bytes
    assert_eq!(batch.messages.len(), 55);
    assert_eq!(batch.length, 17 + 55);
    assert_eq!(batch.get_size_bytes(), 17 + 55);
}

#[test]
fn batch_intersection_follows_the_documented_formula() {
    let attributes = MessagesBatchAttributes::new(CompressionAlgorithm::Uncompressed).create();
    let batch = MessagesBatch::new(10, 17, 4, attributes, Vec::new());
    // covers offsets 10..=14
    assert!(batch.is_contained_or_overlapping_within_offset_range(8, 12));
    assert!(batch.is_contained_or_overlapping_within_offset_range(10, 14));
    assert!(batch.is_contained_or_overlapping_within_offset_range(12, 20));
    // the second disjunct also takes a batch that sits at or before the
    // range start and ends within the range end
    assert!(batch.is_contained_or_overlapping_within_offset_range(15, 20));
    // a range entirely below the batch matches neither disjunct
    assert!(!batch.is_contained_or_overlapping_within_offset_range(5, 8));
    // a range that strictly contains the batch matches neither disjunct:
    // the batch neither reaches the range end nor starts at or before the
    // range start while ending inside it
    assert!(!batch.is_contained_or_overlapping_within_offset_range(5, 20));
}

#[test]
fn corrupt_gzip_payload_fails_to_decode() {
    let attributes = MessagesBatchAttributes::new(CompressionAlgorithm::Gzip).create();
    let batch = MessagesBatch::new(0, 17 + 3, 0, attributes, vec![1, 2, 3]);
    assert!(batch.into_messages().is_err());
}

#[test]
fn unknown_header_kind_fails_to_decode() {
    let attributes = MessagesBatchAttributes::new(CompressionAlgorithm::Uncompressed).create();
    let mut m = message(0, vec![]);
    m.headers = Some(vec![iggy::message::MessageHeader {
        key: b"k".to_vec(),
        kind: 7,
        value: b"v".to_vec(),
    }]);
    let batch = MessagesBatch::messages_to_batch(0, 0, attributes, vec![m]).unwrap();
    let mut bytes = batch.messages.clone();
    // the kind byte of the first header: 41 fixed bytes, 4 length bytes,
    // then the 1-byte key
    bytes[41 + 4 + 1] = 99;
    let broken = MessagesBatch::new(0, 17 + bytes.len() as u32, 0, attributes, bytes);
    assert!(matches!(broken.into_messages(), Err(Error::InvalidCommand)));
}

#[test]
fn unknown_message_state_code_fails_to_decode() {
    let attributes = MessagesBatchAttributes::new(CompressionAlgorithm::Uncompressed).create();
    let m = message(0, vec![]);
    let batch = MessagesBatch::messages_to_batch(0, 0, attributes, vec![m]).unwrap();
    let mut bytes = batch.messages.clone();
    bytes[8] = 99; // the state byte of the first frame
    let broken = MessagesBatch::new(0, 17 + bytes.len() as u32, 0, attributes, bytes);
    assert!(matches!(broken.into_messages(), Err(Error::InvalidCommand)));
}
