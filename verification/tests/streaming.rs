//! The append/read path: segments, partitions, streams and the system.

use iggy::batching::{MessagesBatch, MessagesBatchAttributes};
use iggy::compression::CompressionAlgorithm;
use iggy::error::Error;
use iggy::identifier::Identifier;
use iggy::message::{Message, MessageState};
use iggy::partition::Partition;
use iggy::permissions::{GlobalPermissions, Permissioner, Permissions, User};
use iggy::segment::Segment;
use iggy::storage::InMemorySegmentStorage;
use iggy::stream::Stream;
use iggy::system::{parse_delete_stream, Session, System};
use iggy::topic::Topic;

fn message(offset: u64, payload: Vec<u8>) -> Message {
    Message {
        offset,
        state: MessageState::Available,
        timestamp: 1,
        id: 2,
        checksum: 3,
        headers: None,
        length: payload.len() as u32,
        payload,
    }
}

fn batch_of(base: u64, count: u64, payload_len: usize) -> MessagesBatch {
    let messages: Vec<Message> = (0..count)
        .map(|i| message(base + i, vec![(base + i) as u8; payload_len]))
        .collect();
    let attributes = MessagesBatchAttributes::new(CompressionAlgorithm::Uncompressed).create();
    MessagesBatch::messages_to_batch(base, (count - 1) as u32, attributes, messages).unwrap()
}

#[test]
fn get_messages_with_zero_count_is_empty() {
    let storage = InMemorySegmentStorage::new();
    let segment = Segment::create(1, 2, 1, 0, 1_000_000, None);
    let messages = segment.get_messages(&storage, 5, 0).unwrap();
    assert!(messages.is_empty());
}

#[test]
fn get_messages_before_the_start_reads_from_the_start() {
    let mut storage = InMemorySegmentStorage::new();
    let mut segment = Segment::create(1, 2, 1, 10, 1_000_000, None);
    let batch = batch_of(10, 5, 4);
    segment.append_messages(batch, 14).unwrap();
    segment.persist_messages(&mut storage).unwrap();
    // an offset below the segment start is clamped to the start
    let low = segment.get_messages(&storage, 2, 5).unwrap();
    let from_start = segment.get_messages(&storage, 10, 5).unwrap();
    assert_eq!(low, from_start);
    assert_eq!(low.len(), 5);
}

#[test]
fn get_messages_merges_disk_and_buffer_in_offset_order() {
    let mut storage = InMemorySegmentStorage::new();
    let mut segment = Segment::create(1, 2, 1, 0, 1_000_000, None);
    segment.append_messages(batch_of(0, 10, 4), 9).unwrap();
    segment.persist_messages(&mut storage).unwrap();
    segment.append_messages(batch_of(10, 5, 4), 14).unwrap();
    segment.append_messages(batch_of(15, 5, 4), 19).unwrap();

    let messages = segment.get_messages(&storage, 8, 6).unwrap();
    let offsets: Vec<u64> = messages.iter().map(|m| m.offset).collect();
    assert_eq!(offsets, vec![8, 9, 10, 11, 12, 13]);
}

#[test]
fn get_messages_reads_the_buffer_alone_when_the_range_sits_inside_it() {
    let mut storage = InMemorySegmentStorage::new();
    let mut segment = Segment::create(1, 2, 1, 0, 1_000_000, None);
    segment.append_messages(batch_of(0, 10, 4), 9).unwrap();
    segment.persist_messages(&mut storage).unwrap();
    segment.append_messages(batch_of(10, 5, 4), 14).unwrap();

    let messages = segment.get_messages(&storage, 11, 3).unwrap();
    let offsets: Vec<u64> = messages.iter().map(|m| m.offset).collect();
    assert_eq!(offsets, vec![11, 12, 13]);
}

#[test]
fn appending_to_a_closed_segment_fails() {
    let mut storage = InMemorySegmentStorage::new();
    // a tiny cap: the first persist closes the segment
    let mut segment = Segment::create(1, 2, 7, 0, 10, None);
    segment.append_messages(batch_of(0, 1, 4), 0).unwrap();
    segment.persist_messages(&mut storage).unwrap();
    assert!(segment.is_closed);
    let result = segment.append_messages(batch_of(1, 1, 4), 1);
    assert!(matches!(result, Err(Error::SegmentClosed(0, 7))));
}

#[test]
fn segment_size_accounts_for_every_appended_batch() {
    let mut storage = InMemorySegmentStorage::new();
    let mut segment = Segment::create(1, 2, 1, 0, 1_000_000, None);
    let b1 = batch_of(0, 2, 4);
    let b2 = batch_of(2, 3, 4);
    let s1 = b1.get_size_bytes();
    let s2 = b2.get_size_bytes();
    segment.append_messages(b1, 1).unwrap();
    segment.append_messages(b2, 4).unwrap();
    assert_eq!(segment.current_size_bytes, s1 + s2);
    segment.persist_messages(&mut storage).unwrap();
    // persisting moves batches to disk without changing the size
    assert_eq!(segment.current_size_bytes, s1 + s2);
    assert_eq!(segment.get_messages_count(), 5);
}

#[test]
fn append_crossing_the_cap_rolls_over_to_a_fresh_segment() {
    let mut storage = InMemorySegmentStorage::new();
    // cap 1024; each appended message frames to a 102-byte batch
    let mut partition = Partition::create(1, 2, 1, 1024, None);
    let attributes = MessagesBatchAttributes::new(CompressionAlgorithm::Uncompressed).create();
    for i in 0..50u64 {
        partition
            .append_messages(&mut storage, vec![message(0, vec![i as u8; 40])], attributes)
            .unwrap();
    }
    assert_eq!(partition.current_offset, 49);
    assert!(partition.segments.len() >= 2);
    for w in partition.segments.windows(2) {
        assert!(w[0].is_closed);
        assert_eq!(w[1].start_offset, w[0].end_offset + 1);
    }
    let active = partition.segments.last().unwrap();
    assert!(!active.is_closed);
}

#[test]
fn partition_offsets_are_contiguous_across_appends_and_reads() {
    let mut storage = InMemorySegmentStorage::new();
    let mut partition = Partition::create(1, 2, 1, 1_000_000, None);
    let attributes = MessagesBatchAttributes::new(CompressionAlgorithm::Uncompressed).create();
    for count in [1usize, 2, 3] {
        let messages: Vec<Message> = (0..count).map(|i| message(0, vec![i as u8; 8])).collect();
        partition
            .append_messages(&mut storage, messages, attributes)
            .unwrap();
    }
    assert_eq!(partition.current_offset, 5);
    let polled = partition.poll_messages(&storage, 0, 100).unwrap();
    let offsets: Vec<u64> = polled.iter().map(|m| m.offset).collect();
    assert_eq!(offsets, vec![0, 1, 2, 3, 4, 5]);
}

#[test]
fn should_be_created_given_valid_parameters() {
    let stream_id = 1;
    let topic_id = 2;
    let name = "test";
    let partitions_count = 3;
    let message_expiry_secs = 10;
    let max_topic_size_bytes = 2 * 1024 * 1024 * 1024u64; // 2 GB
    let replication_factor = 1;

    let topic = Topic::create(
        stream_id,
        topic_id,
        name.to_string(),
        partitions_count,
        1000,
        Some(message_expiry_secs),
        Some(max_topic_size_bytes),
        replication_factor,
        0,
    )
    .unwrap();

    assert_eq!(topic.stream_id, stream_id);
    assert_eq!(topic.topic_id, topic_id);
    assert_eq!(topic.name, name);
    assert_eq!(topic.partitions.len(), partitions_count as usize);
    assert_eq!(topic.message_expiry_secs, Some(message_expiry_secs));

    for (i, partition) in topic.partitions.iter().enumerate() {
        assert_eq!(partition.stream_id, stream_id);
        assert_eq!(partition.topic_id, topic.topic_id);
        assert_eq!(partition.partition_id, i as u32 + 1);
        assert_eq!(partition.segments.len(), 1);
    }
}

#[test]
fn should_get_topic_by_id_and_name() {
    let stream_id = 1;
    let stream_name = "test_stream";
    let topic_id = 2;
    let topic_name = "test_topic";
    let message_expiry_secs = Some(10);
    let max_topic_size_bytes = Some(100);
    let mut stream = Stream::create(stream_id, stream_name, 64);
    stream
        .create_topic(
            topic_id,
            topic_name,
            1,
            message_expiry_secs,
            max_topic_size_bytes,
            1,
        )
        .unwrap();

    let topic = stream.get_topic(&Identifier::numeric(topic_id).unwrap());
    assert!(topic.is_ok());
    let topic = topic.unwrap();
    assert_eq!(topic.topic_id, topic_id);
    assert_eq!(topic.name, topic_name);

    let topic = stream.get_topic(&Identifier::named(topic_name).unwrap());
    assert!(topic.is_ok());
    let topic = topic.unwrap();
    assert_eq!(topic.topic_id, topic_id);
    assert_eq!(topic.name, topic_name);
}

#[test]
fn creating_the_same_topic_id_twice_fails() {
    let mut stream = Stream::create(1, "events", 100);
    stream
        .create_topic(2, "test", 3, Some(10), Some(100), 1)
        .unwrap();
    let again = stream.create_topic(2, "test", 3, Some(10), Some(100), 1);
    assert!(matches!(again, Err(Error::TopicIdAlreadyExists(2, 1))));
}

#[test]
fn creating_the_same_topic_name_twice_fails() {
    let mut stream = Stream::create(1, "events", 100);
    stream.create_topic(2, "test", 1, None, None, 1).unwrap();
    let again = stream.create_topic(3, "Test", 1, None, None, 1);
    match again {
        Err(Error::TopicNameAlreadyExists(name, 1)) => assert_eq!(name, "test"),
        other => panic!("unexpected result: {:?}", other),
    }
}

#[test]
fn updating_a_topic_renames_it_and_propagates_the_expiry() {
    let mut stream = Stream::create(1, "events", 100);
    stream.create_topic(2, "old", 2, Some(10), None, 1).unwrap();
    stream
        .update_topic(
            &Identifier::numeric(2).unwrap(),
            "fresh",
            Some(99),
            None,
            2,
        )
        .unwrap();
    let topic = stream
        .get_topic(&Identifier::named("fresh").unwrap())
        .unwrap();
    assert_eq!(topic.message_expiry_secs, Some(99));
    assert_eq!(topic.replication_factor, 2);
    for partition in topic.get_partitions() {
        assert_eq!(partition.message_expiry_secs, Some(99));
        for segment in &partition.segments {
            assert_eq!(segment.message_expiry_secs, Some(99));
        }
    }
}

#[test]
fn missing_partition_lookup_reports_the_full_path() {
    let topic = Topic::create(1, 2, "t".to_string(), 1, 100, None, None, 1, 0).unwrap();
    assert!(matches!(
        topic.get_partition(9),
        Err(Error::PartitionNotFound(9, 2, 1))
    ));
}

#[test]
fn unauthenticated_sessions_are_rejected() {
    let mut system = System::create(1000);
    system.create_stream(1, "events").unwrap();
    let session = Session {
        client_id: 5,
        user_id: 0,
    };
    let result = system.find_topic(
        &session,
        &Identifier::numeric(1).unwrap(),
        &Identifier::numeric(2).unwrap(),
    );
    assert!(matches!(result, Err(Error::Unauthenticated)));
}

#[test]
fn an_enabled_permissioner_denies_users_without_rights() {
    let mut system = System::create(1000);
    system.create_stream(1, "events").unwrap();
    let session = Session {
        client_id: 5,
        user_id: 42,
    };
    system
        .create_topic(
            &session,
            &Identifier::numeric(1).unwrap(),
            2,
            "test",
            1,
            None,
            None,
            1,
        )
        .unwrap();
    system.permissioner.enable();
    let denied = system.find_topic(
        &session,
        &Identifier::numeric(1).unwrap(),
        &Identifier::numeric(2).unwrap(),
    );
    assert!(matches!(denied, Err(Error::PermissionDenied)));
}

#[test]
fn permissioner_init_collects_the_fast_path_sets() {
    let mut permissioner = Permissioner::new();
    let global = GlobalPermissions {
        manage_servers: false,
        read_servers: false,
        manage_users: false,
        read_users: false,
        manage_streams: false,
        read_streams: false,
        manage_topics: true,
        read_topics: true,
        poll_messages: true,
        send_messages: false,
    };
    let user = User {
        id: 42,
        permissions: Some(Permissions {
            global,
            streams: Some(vec![(
                7,
                iggy::permissions::StreamPermissions {
                    manage_stream: false,
                    read_stream: true,
                    manage_topics: false,
                    read_topics: true,
                    poll_messages: true,
                    send_messages: true,
                },
            )]),
        }),
    };
    permissioner.init(vec![user]);
    assert_eq!(
        permissioner.users_that_can_poll_messages_from_all_streams,
        vec![42]
    );
    assert!(permissioner
        .users_that_can_send_messages_to_all_streams
        .is_empty());
    assert_eq!(
        permissioner.users_that_can_poll_messages_from_specific_streams,
        vec![(42, 7)]
    );
    assert_eq!(
        permissioner.users_that_can_send_messages_to_specific_streams,
        vec![(42, 7)]
    );
    assert_eq!(permissioner.users_permissions.len(), 1);
    assert_eq!(permissioner.users_permissions[0].0, 42);
    assert_eq!(permissioner.users_streams_permissions.len(), 1);
}

#[test]
fn delete_stream_datagrams_must_hold_exactly_four_bytes() {
    assert!(matches!(
        parse_delete_stream(&[1, 2, 3]),
        Err(Error::InvalidCommand)
    ));
    assert_eq!(parse_delete_stream(&[5, 0, 0, 0]).unwrap(), 5);
}

#[test]
fn deleting_a_stream_removes_it() {
    let mut storage = InMemorySegmentStorage::new();
    let mut system = System::create(1000);
    system.create_stream(9, "events").unwrap();
    system.delete_stream(&mut storage, 9).unwrap();
    assert!(matches!(
        system.delete_stream(&mut storage, 9),
        Err(Error::StreamIdNotFound(9))
    ));
}

#[test]
fn partitions_of_one_topic_keep_their_data_apart() {
    let mut storage = InMemorySegmentStorage::new();
    let mut topic = Topic::create(1, 2, "t".to_string(), 2, 1_000_000, None, None, 1, 0).unwrap();
    let attributes = MessagesBatchAttributes::new(CompressionAlgorithm::Uncompressed).create();
    // both partitions' segments start at offset 0; their files must not mix
    topic
        .append_messages(&mut storage, 1, vec![message(0, b"one".to_vec())], attributes)
        .unwrap();
    topic
        .append_messages(&mut storage, 2, vec![message(0, b"two".to_vec())], attributes)
        .unwrap();
    let first = topic.poll_messages(&storage, 1, 0, 10).unwrap();
    let second = topic.poll_messages(&storage, 2, 0, 10).unwrap();
    assert_eq!(first.len(), 1);
    assert_eq!(second.len(), 1);
    assert_eq!(first[0].payload, b"one".to_vec());
    assert_eq!(second[0].payload, b"two".to_vec());
}

#[test]
fn purging_a_topic_resets_its_partitions() {
    let mut storage = InMemorySegmentStorage::new();
    let mut topic = Topic::create(1, 2, "t".to_string(), 1, 1_000_000, None, None, 1, 0).unwrap();
    let attributes = MessagesBatchAttributes::new(CompressionAlgorithm::Uncompressed).create();
    topic
        .append_messages(&mut storage, 1, vec![message(0, vec![1, 2, 3])], attributes)
        .unwrap();
    assert_eq!(topic.partitions[0].current_offset, 0);
    assert!(topic.partitions[0].should_increment_offset);
    topic.purge(&mut storage).unwrap();
    assert_eq!(topic.partitions[0].current_offset, 0);
    assert!(!topic.partitions[0].should_increment_offset);
    let polled = topic.poll_messages(&storage, 1, 0, 10).unwrap();
    assert!(polled.is_empty());
}
