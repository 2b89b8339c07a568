//! Binary and textual round trips of the admin commands.

use iggy::create_topic::CreateTopic;
use iggy::error::Error;
use iggy::identifier::{IdKind, Identifier};
use iggy::update_topic::UpdateTopic;

#[test]
fn create_topic_should_be_serialized_as_bytes() {
    let command = CreateTopic {
        stream_id: Identifier::numeric(1).unwrap(),
        topic_id: 2,
        partitions_count: 3,
        message_expiry_secs: Some(10),
        max_topic_size_bytes: Some(100),
        replication_factor: 1,
        name: "test".to_string(),
    };
    let bytes = command.as_bytes();
    let mut position = 0;
    let stream_id = Identifier::from_bytes(&bytes).unwrap();
    position += stream_id.get_size_bytes() as usize;
    let topic_id = u32::from_le_bytes(bytes[position..position + 4].try_into().unwrap());
    let partitions_count = u32::from_le_bytes(bytes[position + 4..position + 8].try_into().unwrap());
    let message_expiry_secs =
        match u32::from_le_bytes(bytes[position + 8..position + 12].try_into().unwrap()) {
            0 => None,
            size => Some(size),
        };
    let max_topic_size_bytes =
        match u64::from_le_bytes(bytes[position + 12..position + 20].try_into().unwrap()) {
            0 => None,
            time_secs => Some(time_secs),
        };
    let replication_factor = bytes[position + 20];
    let name_length = bytes[position + 21];
    let name = std::str::from_utf8(&bytes[position + 22..(position + 22 + name_length as usize)])
        .unwrap()
        .to_string();

    assert!(!bytes.is_empty());
    assert_eq!(stream_id, command.stream_id);
    assert_eq!(topic_id, command.topic_id);
    assert_eq!(partitions_count, command.partitions_count);
    assert_eq!(message_expiry_secs, command.message_expiry_secs);
    assert_eq!(max_topic_size_bytes, command.max_topic_size_bytes);
    assert_eq!(replication_factor, command.replication_factor);
    assert_eq!(name.len() as u8, command.name.len() as u8);
    assert_eq!(name, command.name);
}

#[test]
fn create_topic_should_be_deserialized_from_bytes() {
    let stream_id = Identifier::numeric(1).unwrap();
    let topic_id = 2u32;
    let partitions_count = 3u32;
    let name = "test".to_string();
    let message_expiry_secs = 10u32;
    let max_topic_size_bytes = 100u64;
    let replication_factor = 1u8;
    let stream_id_bytes = stream_id.as_bytes();
    let mut bytes = Vec::with_capacity(14 + stream_id_bytes.len() + name.len());
    bytes.extend(stream_id_bytes);
    bytes.extend_from_slice(&topic_id.to_le_bytes());
    bytes.extend_from_slice(&partitions_count.to_le_bytes());
    bytes.extend_from_slice(&message_expiry_secs.to_le_bytes());
    bytes.extend_from_slice(&max_topic_size_bytes.to_le_bytes());
    bytes.push(replication_factor);
    bytes.push(name.len() as u8);
    bytes.extend(name.as_bytes());

    let command = CreateTopic::from_bytes(&bytes);
    assert!(command.is_ok());

    let command = command.unwrap();
    assert_eq!(command.stream_id, stream_id);
    assert_eq!(command.topic_id, topic_id);
    assert_eq!(command.partitions_count, partitions_count);
    assert_eq!(command.message_expiry_secs, Some(message_expiry_secs));
    assert_eq!(command.max_topic_size_bytes, Some(max_topic_size_bytes));
    assert_eq!(command.replication_factor, replication_factor);
    assert_eq!(command.name, name);
}

#[test]
fn create_topic_should_be_read_from_string() {
    let stream_id = Identifier::numeric(1).unwrap();
    let topic_id = 2u32;
    let partitions_count = 3u32;
    let message_expiry_secs = 10u32;
    let max_topic_size_bytes = 100u64;
    let replication_factor = 1u8;
    let name = "test".to_string();
    let input = format!(
        "{}|{topic_id}|{partitions_count}|{message_expiry_secs}|{max_topic_size_bytes}|{replication_factor}|{name}",
        stream_id.to_text()
    );
    let command = CreateTopic::from_str(&input);
    assert!(command.is_ok());

    let command = command.unwrap();
    assert_eq!(command.stream_id, stream_id);
    assert_eq!(command.topic_id, topic_id);
    assert_eq!(command.partitions_count, partitions_count);
    assert_eq!(command.message_expiry_secs, Some(message_expiry_secs));
    assert_eq!(command.max_topic_size_bytes, Some(max_topic_size_bytes));
    assert_eq!(command.name, name);
}

#[test]
fn update_topic_should_be_serialized_as_bytes() {
    let command = UpdateTopic {
        stream_id: Identifier::numeric(1).unwrap(),
        topic_id: Identifier::numeric(2).unwrap(),
        message_expiry_secs: Some(10),
        max_topic_size_bytes: Some(100),
        replication_factor: 1,
        name: "test".to_string(),
    };

    let bytes = command.as_bytes();
    let mut position = 0;
    let stream_id = Identifier::from_bytes(&bytes).unwrap();
    position += stream_id.get_size_bytes() as usize;
    let topic_id = Identifier::from_bytes(&bytes[position..]).unwrap();
    position += topic_id.get_size_bytes() as usize;
    let message_expiry_secs = u32::from_le_bytes(bytes[position..position + 4].try_into().unwrap());
    let message_expiry_secs = match message_expiry_secs {
        0 => None,
        _ => Some(message_expiry_secs),
    };
    let max_topic_size_bytes =
        u64::from_le_bytes(bytes[position + 4..position + 12].try_into().unwrap());
    let max_topic_size_bytes = match max_topic_size_bytes {
        0 => None,
        _ => Some(max_topic_size_bytes),
    };
    let replication_factor = bytes[position + 12];
    let name_length = bytes[position + 13];
    let name = std::str::from_utf8(&bytes[position + 14..position + 14 + name_length as usize])
        .unwrap()
        .to_string();

    assert!(!bytes.is_empty());
    assert_eq!(stream_id, command.stream_id);
    assert_eq!(topic_id, command.topic_id);
    assert_eq!(message_expiry_secs, command.message_expiry_secs);
    assert_eq!(max_topic_size_bytes, command.max_topic_size_bytes);
    assert_eq!(replication_factor, command.replication_factor);
    assert_eq!(name.len() as u8, command.name.len() as u8);
    assert_eq!(name, command.name);
}

#[test]
fn update_topic_should_be_deserialized_from_bytes() {
    let stream_id = Identifier::numeric(1).unwrap();
    let topic_id = Identifier::numeric(2).unwrap();
    let name = "test".to_string();
    let message_expiry_secs = 10u32;
    let max_topic_size_bytes = 100u64;
    let replication_factor = 1u8;

    let stream_id_bytes = stream_id.as_bytes();
    let topic_id_bytes = topic_id.as_bytes();
    let mut bytes =
        Vec::with_capacity(5 + stream_id_bytes.len() + topic_id_bytes.len() + name.len());
    bytes.extend(stream_id_bytes);
    bytes.extend(topic_id_bytes);
    bytes.extend_from_slice(&message_expiry_secs.to_le_bytes());
    bytes.extend_from_slice(&max_topic_size_bytes.to_le_bytes());
    bytes.push(replication_factor);
    bytes.push(name.len() as u8);
    bytes.extend(name.as_bytes());

    let command = UpdateTopic::from_bytes(&bytes);
    assert!(command.is_ok());

    let command = command.unwrap();
    assert_eq!(command.stream_id, stream_id);
    assert_eq!(command.topic_id, topic_id);
    assert_eq!(command.message_expiry_secs, Some(message_expiry_secs));
    assert_eq!(command.max_topic_size_bytes, Some(max_topic_size_bytes));
    assert_eq!(command.replication_factor, replication_factor);
    assert_eq!(command.name, name);
}

#[test]
fn update_topic_should_be_read_from_string() {
    let stream_id = Identifier::numeric(1).unwrap();
    let topic_id = Identifier::numeric(2).unwrap();
    let message_expiry_secs = 10u32;
    let max_topic_size_bytes = 100u64;
    let replication_factor = 1u8;
    let name = "test".to_string();
    let input = format!(
        "{}|{}|{}|{}|{}|{}",
        stream_id.to_text(),
        topic_id.to_text(),
        message_expiry_secs,
        max_topic_size_bytes,
        replication_factor,
        name
    );
    let command = UpdateTopic::from_str(&input);
    assert!(command.is_ok());

    let command = command.unwrap();
    assert_eq!(command.stream_id, stream_id);
    assert_eq!(command.topic_id, topic_id);
    assert_eq!(command.message_expiry_secs, Some(message_expiry_secs));
    assert_eq!(command.max_topic_size_bytes, Some(max_topic_size_bytes));
    assert_eq!(command.replication_factor, replication_factor);
    assert_eq!(command.name, name);
}

#[test]
fn create_topic_textual_then_binary_round_trip_restores_the_value() {
    let command = CreateTopic::from_str("1|2|3|10|100|1|test").unwrap();
    let bytes = command.as_bytes();
    let restored = CreateTopic::from_bytes(&bytes).unwrap();
    assert_eq!(restored, command);
    assert_eq!(restored.topic_id, 2);
    assert_eq!(restored.partitions_count, 3);
    assert_eq!(restored.message_expiry_secs, Some(10));
    assert_eq!(restored.max_topic_size_bytes, Some(100));
    assert_eq!(restored.name, "test");
}

#[test]
fn create_topic_with_empty_name_is_rejected() {
    let command = CreateTopic {
        stream_id: Identifier::numeric(1).unwrap(),
        topic_id: 2,
        partitions_count: 0,
        message_expiry_secs: None,
        max_topic_size_bytes: None,
        replication_factor: 1,
        name: String::new(),
    };
    assert!(matches!(command.validate(), Err(Error::InvalidTopicName)));
}

#[test]
fn create_topic_with_zero_topic_id_is_rejected() {
    let command = CreateTopic {
        stream_id: Identifier::numeric(1).unwrap(),
        topic_id: 0,
        partitions_count: 1,
        message_expiry_secs: None,
        max_topic_size_bytes: None,
        replication_factor: 1,
        name: "test".to_string(),
    };
    assert!(matches!(command.validate(), Err(Error::InvalidTopicId)));
}

#[test]
fn create_topic_with_too_many_partitions_is_rejected() {
    let command = CreateTopic {
        stream_id: Identifier::numeric(1).unwrap(),
        topic_id: 2,
        partitions_count: 1001,
        message_expiry_secs: None,
        max_topic_size_bytes: None,
        replication_factor: 1,
        name: "test".to_string(),
    };
    assert!(matches!(command.validate(), Err(Error::TooManyPartitions)));
}

#[test]
fn update_topic_with_zero_replication_factor_is_rejected() {
    let command = UpdateTopic {
        stream_id: Identifier::numeric(1).unwrap(),
        topic_id: Identifier::numeric(2).unwrap(),
        message_expiry_secs: None,
        max_topic_size_bytes: None,
        replication_factor: 0,
        name: "test".to_string(),
    };
    assert!(matches!(
        command.validate(),
        Err(Error::InvalidReplicationFactor)
    ));
}

#[test]
fn create_topic_with_wrong_field_count_is_rejected() {
    assert!(matches!(
        CreateTopic::from_str("1|2|3|10|100|1"),
        Err(Error::InvalidCommand)
    ));
}

#[test]
fn create_topic_with_non_utf8_name_bytes_is_rejected() {
    let stream_id = Identifier::numeric(1).unwrap();
    let mut bytes = stream_id.as_bytes();
    bytes.extend_from_slice(&2u32.to_le_bytes());
    bytes.extend_from_slice(&1u32.to_le_bytes());
    bytes.extend_from_slice(&0u32.to_le_bytes());
    bytes.extend_from_slice(&0u64.to_le_bytes());
    bytes.push(1);
    bytes.push(2);
    bytes.push(0xFF);
    bytes.push(0xFE);
    assert!(matches!(
        CreateTopic::from_bytes(&bytes),
        Err(Error::InvalidCommand)
    ));
}

#[test]
fn identifier_binary_round_trip_restores_the_value() {
    let numeric = Identifier::numeric(42).unwrap();
    let restored = Identifier::from_bytes(&numeric.as_bytes()).unwrap();
    assert_eq!(restored, numeric);

    let named = Identifier::named("orders").unwrap();
    let restored = Identifier::from_bytes(&named.as_bytes()).unwrap();
    assert_eq!(restored, named);
}

#[test]
fn identifier_textual_round_trip_restores_the_value() {
    let numeric = Identifier::numeric(7).unwrap();
    let parsed = Identifier::from_str_value(&numeric.to_text()).unwrap();
    assert_eq!(parsed, numeric);

    let named = Identifier::named("orders").unwrap();
    let parsed = Identifier::from_str_value(&named.to_text()).unwrap();
    assert_eq!(parsed, named);
    assert!(matches!(parsed.kind, IdKind::Named));
}

#[test]
fn identifier_frames_with_non_utf8_names_are_rejected() {
    // kind 2 (named), length 2, bytes that are not UTF-8
    let bytes = vec![2u8, 2, 0xFF, 0xFE];
    assert!(matches!(
        Identifier::from_bytes(&bytes),
        Err(Error::InvalidIdentifier)
    ));
}

#[test]
fn identifier_rejects_zero_and_oversized_names() {
    assert!(matches!(
        Identifier::numeric(0),
        Err(Error::InvalidIdentifier)
    ));
    let long = "a".repeat(256);
    assert!(matches!(
        Identifier::named(&long),
        Err(Error::InvalidIdentifier)
    ));
}
