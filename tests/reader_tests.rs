use std::io::Cursor;

use rosbags_rs::chunked::{mcap_contents, read_mcap_file};
use rosbags_rs::error::BagError;
use rosbags_rs::metadata::{
    resolve_storage_plugin, BagFileInformation, BagMetadata, QosProfilesField, TopicMetadata,
    TopicWithMessageCount,
};
use rosbags_rs::reader::{sort_by_timestamp, Reader, StorageContents, StoredMessage};
use rosbags_rs::writer::Writer;
use rosbags_rs::types::{
    Connection, Duration, Message, MessageDefinition, MessageDefinitionFormat, StartingTime,
    StoragePlugin,
};

fn topic(name: &str, ty: &str, count: u64, fmt: &str) -> TopicWithMessageCount {
    TopicWithMessageCount {
        message_count: count,
        topic_metadata: TopicMetadata {
            name: name.to_string(),
            message_type: ty.to_string(),
            serialization_format: fmt.to_string(),
            offered_qos_profiles: QosProfilesField::String(String::new()),
            type_description_hash: String::new(),
        },
    }
}

fn manifest(storage: &str, files: &[&str], topics: Vec<TopicWithMessageCount>, count: u64) -> BagMetadata {
    BagMetadata {
        rosbag2_bagfile_information: BagFileInformation {
            version: 9,
            storage_identifier: storage.to_string(),
            relative_file_paths: files.iter().map(|f| f.to_string()).collect(),
            duration: Duration { nanoseconds: 40 },
            starting_time: StartingTime { nanoseconds_since_epoch: 10 },
            message_count: count,
            compression_format: String::new(),
            compression_mode: String::new(),
            topics_with_message_count: topics,
            files: Vec::new(),
            custom_data: None,
            ros_distro: None,
        },
    }
}

fn conn(id: u32, topic: &str, ty: &str, count: u64) -> Connection {
    Connection {
        id,
        topic: topic.to_string(),
        message_type: ty.to_string(),
        message_definition: MessageDefinition::default(),
        type_description_hash: String::new(),
        message_count: count,
        serialization_format: "cdr".to_string(),
        offered_qos_profiles: Vec::new(),
    }
}

fn stored(topic: &str, ts: u64) -> StoredMessage {
    StoredMessage { topic: topic.to_string(), timestamp: ts, data: vec![ts as u8] }
}

fn three_topic_reader() -> Reader {
    let m = manifest(
        "sqlite3",
        &["bag.db3"],
        vec![topic("/a", "t/A", 2, "cdr"), topic("/b", "t/B", 2, "cdr"), topic("/c", "t/C", 2, "cdr")],
        6,
    );
    let mut r = Reader::new("bag".to_string(), m).unwrap();
    let contents = StorageContents {
        connections: Vec::new(),
        definitions: Vec::new(),
        messages: vec![
            stored("/c", 50),
            stored("/a", 10),
            stored("/b", 30),
            stored("/a", 20),
            stored("/c", 40),
            stored("/b", 60),
        ],
    };
    r.open(contents).unwrap();
    r
}

fn stamps(v: &[Message]) -> Vec<u64> {
    v.iter().map(|m| m.timestamp).collect()
}

#[test]
fn messages_come_in_timestamp_order() {
    let r = three_topic_reader();
    let all = r.messages().unwrap();
    assert_eq!(stamps(&all), vec![10, 20, 30, 40, 50, 60]);
    assert_eq!(all[0].connection.id, 1);
    assert_eq!(all[0].topic, "/a");
    assert_eq!(all[0].data, vec![10]);
}

#[test]
fn filter_by_time_window() {
    let r = three_topic_reader();
    let v = r.messages_filtered(None, Some(20), Some(40)).unwrap();
    assert_eq!(stamps(&v), vec![20, 30]);
    let empty = r.messages_filtered(None, Some(30), Some(30)).unwrap();
    assert!(empty.is_empty());
}

#[test]
fn filter_by_topic() {
    let r = three_topic_reader();
    let wanted: Vec<Connection> =
        r.connections().iter().filter(|c| c.topic != "/b").cloned().collect();
    let v = r.messages_filtered(Some(&wanted), None, None).unwrap();
    assert_eq!(v.len(), 4);
    assert!(v.iter().all(|m| m.topic == "/a" || m.topic == "/c"));
    assert_eq!(stamps(&v), vec![10, 20, 40, 50]);
    let none: Vec<Connection> = Vec::new();
    assert_eq!(r.messages_filtered(Some(&none), None, None).unwrap().len(), 6);
}

#[test]
fn topics_sum_to_message_count() {
    let r = three_topic_reader();
    let topics = r.topics();
    assert_eq!(topics.len(), 3);
    let total: u64 = topics.iter().map(|t| t.message_count).sum();
    assert_eq!(total, r.message_count());
    assert_eq!(r.duration(), 40);
    assert_eq!(r.start_time(), 10);
    assert_eq!(r.end_time(), 50);
}

#[test]
fn reading_before_open_or_after_close_fails() {
    let m = manifest("sqlite3", &["bag.db3"], vec![topic("/a", "t/A", 0, "cdr")], 0);
    let mut r = Reader::new("bag".to_string(), m).unwrap();
    assert!(!r.is_open());
    assert!(matches!(r.messages(), Err(BagError::BagNotOpen)));
    assert!(r.topics().is_empty());
    r.open(StorageContents { connections: Vec::new(), definitions: Vec::new(), messages: Vec::new() })
        .unwrap();
    assert!(r.is_open());
    assert_eq!(r.connections().len(), 1);
    r.close().unwrap();
    r.close().unwrap();
    assert!(matches!(r.messages_filtered(None, None, None), Err(BagError::BagNotOpen)));
    assert!(r.metadata().is_some());
}

#[test]
fn database_topics_replace_manifest_topics() {
    let m = manifest("", &["bag.db3"], vec![topic("/a", "t/A", 9, "cdr")], 9);
    let mut r = Reader::new("bag".to_string(), m).unwrap();
    assert_eq!(r.message_count(), 9);
    assert_eq!(r.storage_plugin().unwrap(), StoragePlugin::Sqlite3);
    let defs = vec![(
        "t/Z".to_string(),
        MessageDefinition { format: MessageDefinitionFormat::Msg, data: "int32 x".to_string() },
    )];
    r.open(StorageContents {
        connections: vec![conn(1, "/z", "t/Z", 1)],
        definitions: defs,
        messages: vec![stored("/z", 5)],
    })
    .unwrap();
    assert_eq!(r.connections().len(), 1);
    assert_eq!(r.connections()[0].topic, "/z");
    assert_eq!(r.connections()[0].message_definition.data, "int32 x");
    assert_eq!(r.message_count(), 1);
    assert_eq!(r.messages().unwrap()[0].connection.message_definition.format, MessageDefinitionFormat::Msg);
}

#[test]
fn chunked_topics_merge_counts() {
    let m = manifest("mcap", &["bag.mcap"], vec![topic("/a", "t/A", 9, "cdr")], 9);
    let mut r = Reader::new("bag".to_string(), m).unwrap();
    r.open(StorageContents {
        connections: vec![conn(1, "/a", "cdr", 2), conn(2, "/new", "cdr", 1)],
        definitions: Vec::new(),
        messages: vec![stored("/a", 3), stored("/new", 2), stored("/a", 1)],
    })
    .unwrap();
    let cs = r.connections();
    assert_eq!(cs.len(), 2);
    assert_eq!(cs[0].message_type, "t/A");
    assert_eq!(cs[0].message_count, 2);
    assert_eq!(cs[1].topic, "/new");
    assert_eq!(cs[1].id, 2);
    assert_eq!(stamps(&r.messages().unwrap()), vec![1, 2, 3]);
}

#[test]
fn message_without_connection_is_refused() {
    let m = manifest("mcap", &["bag.mcap"], vec![topic("/a", "t/A", 1, "cdr")], 1);
    let mut r = Reader::new("bag".to_string(), m).unwrap();
    let res = r.open(StorageContents {
        connections: Vec::new(),
        definitions: Vec::new(),
        messages: vec![stored("/ghost", 1)],
    });
    assert!(matches!(res, Err(BagError::ConnectionNotFound { .. })));
    assert!(!r.is_open());
}

#[test]
fn validation_errors() {
    let mut m = manifest("sqlite3", &["bag.db3"], vec![topic("/a", "t/A", 1, "cdr")], 1);
    m.rosbag2_bagfile_information.version = 10;
    assert!(matches!(m.validate(), Err(BagError::UnsupportedVersion { version: 10 })));
    assert!(Reader::new("bag".to_string(), m.clone()).is_err());
    m.rosbag2_bagfile_information.version = 9;
    m.rosbag2_bagfile_information.storage_identifier = "rosbag1".to_string();
    assert!(matches!(m.validate(), Err(BagError::UnsupportedStorageFormat { .. })));
    m.rosbag2_bagfile_information.storage_identifier = String::new();
    m.rosbag2_bagfile_information.relative_file_paths = vec!["bag.bin".to_string()];
    assert!(matches!(m.validate(), Err(BagError::UnsupportedStorageFormat { .. })));
    m.rosbag2_bagfile_information.relative_file_paths = vec!["bag.mcap".to_string()];
    assert!(m.validate().is_ok());
    m.rosbag2_bagfile_information.compression_format = "lz4".to_string();
    assert!(matches!(m.validate(), Err(BagError::UnsupportedCompressionFormat { .. })));
    m.rosbag2_bagfile_information.compression_format = "zstd".to_string();
    assert!(m.is_compressed());
    m.rosbag2_bagfile_information.topics_with_message_count.push(topic("/b", "t/B", 0, "ros1"));
    match m.validate() {
        Err(BagError::UnsupportedSerializationFormat { format }) => assert_eq!(format, "ros1"),
        other => panic!("unexpected {:?}", other),
    }
}

#[test]
fn manifest_accessors() {
    let mut m = manifest("sqlite3", &["bag.db3"], Vec::new(), 3);
    assert_eq!(m.end_time(), 50);
    assert_eq!(m.message_count(), 3);
    assert!(m.compression_mode().is_none());
    m.rosbag2_bagfile_information.compression_mode = "file".to_string();
    assert_eq!(m.compression_mode(), Some("file"));
    assert_eq!(m.info().version, 9);
    m.rosbag2_bagfile_information.message_count = 0;
    assert_eq!(m.end_time(), 0);
}

#[test]
fn storage_choice_by_extension() {
    let paths = vec!["x.mcap".to_string()];
    assert_eq!(resolve_storage_plugin("", &paths).unwrap(), StoragePlugin::Mcap);
    assert_eq!(resolve_storage_plugin("sqlite3", &paths).unwrap(), StoragePlugin::Sqlite3);
    let both = vec!["x.mcap".to_string(), "y.db3".to_string()];
    assert_eq!(resolve_storage_plugin("", &both).unwrap(), StoragePlugin::Sqlite3);
    match resolve_storage_plugin("other", &paths) {
        Err(BagError::UnsupportedStorageFormat { format }) => assert_eq!(format, "other"),
        other => panic!("unexpected {:?}", other),
    }
}

#[test]
fn sorting_is_stable() {
    let mk = |ts: u64, tag: u8| Message {
        connection: conn(1, "/a", "t", 0),
        topic: "/a".to_string(),
        timestamp: ts,
        data: vec![tag],
    };
    let sorted = sort_by_timestamp(vec![mk(5, 1), mk(3, 2), mk(5, 3), mk(1, 4)]);
    let tags: Vec<u8> = sorted.iter().map(|m| m.data[0]).collect();
    assert_eq!(tags, vec![4, 2, 1, 3]);
}

#[test]
fn writer_output_reads_back_in_order() {
    let mut w = Writer::new("rt".to_string(), None, None);
    w.configure_buffer(10, 2).unwrap();
    w.open().unwrap();
    let a = w.add_connection("/a".to_string(), "t/A".to_string(), None, None, None, None).unwrap();
    let b = w.add_connection("/b".to_string(), "t/B".to_string(), None, None, None, None).unwrap();
    let written = [(&a, 30u64, vec![3u8]), (&b, 10, vec![1]), (&a, 20, vec![2]), (&b, 40, vec![4])];
    for (c, ts, data) in written.iter() {
        w.write(c, *ts, data).unwrap();
    }
    let manifest = w.close().unwrap().unwrap();
    let work = w.take_storage_work();
    let mut messages = Vec::new();
    for batch in work.batches {
        for (c, ts, data) in batch {
            messages.push(StoredMessage { topic: c.topic.clone(), timestamp: ts, data });
        }
    }
    let measured: Vec<Connection> = work
        .connections
        .iter()
        .map(|c| {
            let mut c = c.clone();
            c.message_count = messages.iter().filter(|m| m.topic == c.topic).count() as u64;
            c
        })
        .collect();
    let mut r = Reader::new("rt".to_string(), manifest).unwrap();
    r.open(StorageContents { connections: measured, definitions: Vec::new(), messages })
        .unwrap();
    let back = r.messages().unwrap();
    assert_eq!(stamps(&back), vec![10, 20, 30, 40]);
    let payloads: Vec<Vec<u8>> = back.iter().map(|m| m.data.clone()).collect();
    assert_eq!(payloads, vec![vec![1], vec![2], vec![3], vec![4]]);
    assert_eq!(r.message_count(), 4);
    assert_eq!(r.start_time(), 10);
    assert_eq!(r.end_time(), 40);
}

#[test]
fn chunked_file_contents() {
    let mut out = Cursor::new(Vec::new());
    {
        let mut w = mcap::Writer::new(&mut out).unwrap();
        let schema = w.add_schema("t/A", "ros2msg", b"int32 x").unwrap();
        let ch_a = w.add_channel(schema, "/a", "cdr", &Default::default()).unwrap();
        let ch_b = w.add_channel(schema, "/b", "cdr", &Default::default()).unwrap();
        for (i, (ch, ts)) in [(ch_a, 30u64), (ch_b, 10), (ch_a, 20)].iter().enumerate() {
            let header = mcap::records::MessageHeader {
                channel_id: *ch,
                sequence: i as u32,
                log_time: *ts,
                publish_time: *ts,
            };
            w.write_to_known_channel(&header, &[i as u8]).unwrap();
        }
        w.finish().unwrap();
    }
    let bytes = out.into_inner();
    let msgs = read_mcap_file(&bytes).unwrap();
    assert_eq!(msgs.len(), 3);
    assert_eq!(msgs[0].0, "/a");
    assert_eq!(msgs[0].1, "cdr");
    assert_eq!(msgs[1].2, 10);
    assert_eq!(msgs[2].3, vec![2u8]);
    let contents = mcap_contents(msgs);
    assert_eq!(contents.connections.len(), 2);
    assert_eq!(contents.connections[0].topic, "/a");
    assert_eq!(contents.connections[0].message_count, 2);
    assert_eq!(contents.connections[1].id, 2);
    assert_eq!(contents.messages.len(), 3);
    let m = manifest("mcap", &["bag.mcap"], vec![topic("/a", "t/A", 0, "cdr"), topic("/b", "t/B", 0, "cdr")], 3);
    let mut r = Reader::new("bag".to_string(), m).unwrap();
    r.open(contents).unwrap();
    assert_eq!(stamps(&r.messages().unwrap()), vec![10, 20, 30]);
    assert_eq!(r.connections()[0].message_type, "t/A");
    assert_eq!(r.connections()[0].message_count, 2);
    assert!(read_mcap_file(&[1, 2, 3]).is_err());
}

#[test]
fn both_backends_yield_the_same_messages() {
    let mut w = Writer::new("x".to_string(), None, None);
    w.open().unwrap();
    let a = w.add_connection("/a".to_string(), "t/A".to_string(), None, None, None, None).unwrap();
    let b = w.add_connection("/b".to_string(), "t/B".to_string(), None, None, None, None).unwrap();
    for (c, ts) in [(&b, 5u64), (&a, 3), (&a, 9), (&b, 1)] {
        w.write(c, ts, &[ts as u8, 0xAA]).unwrap();
    }
    let manifest = w.close().unwrap().unwrap();
    let work = w.take_storage_work();
    let records: Vec<_> = work.batches.iter().flatten().cloned().collect();

    let measured: Vec<Connection> = work
        .connections
        .iter()
        .map(|c| {
            let mut c = c.clone();
            c.message_count = records.iter().filter(|r| r.0.topic == c.topic).count() as u64;
            c
        })
        .collect();
    let relational = StorageContents {
        connections: measured,
        definitions: Vec::new(),
        messages: records
            .iter()
            .map(|(c, ts, d)| StoredMessage { topic: c.topic.clone(), timestamp: *ts, data: d.clone() })
            .collect(),
    };
    let mut out = Cursor::new(Vec::new());
    {
        let mut mw = mcap::Writer::new(&mut out).unwrap();
        let mut ids = std::collections::HashMap::new();
        for c in &work.connections {
            let s = mw.add_schema(&c.message_type, "ros2msg", b"").unwrap();
            ids.insert(c.topic.clone(), mw.add_channel(s, &c.topic, "cdr", &Default::default()).unwrap());
        }
        for (i, (c, ts, d)) in records.iter().enumerate() {
            let header = mcap::records::MessageHeader {
                channel_id: ids[&c.topic],
                sequence: i as u32,
                log_time: *ts,
                publish_time: *ts,
            };
            mw.write_to_known_channel(&header, d).unwrap();
        }
        mw.finish().unwrap();
    }
    let chunked = mcap_contents(read_mcap_file(&out.into_inner()).unwrap());

    let mut m2 = manifest.clone();
    m2.rosbag2_bagfile_information.storage_identifier = "mcap".to_string();
    let mut r1 = Reader::new("x".to_string(), manifest).unwrap();
    r1.open(relational).unwrap();
    let mut r2 = Reader::new("x".to_string(), m2).unwrap();
    r2.open(chunked).unwrap();
    let v1 = r1.messages().unwrap();
    let v2 = r2.messages().unwrap();
    let key = |v: &[Message]| -> Vec<(String, u64, Vec<u8>)> {
        v.iter().map(|m| (m.topic.clone(), m.timestamp, m.data.clone())).collect()
    };
    assert_eq!(key(&v1), key(&v2));
    assert_eq!(stamps(&v1), vec![1, 3, 5, 9]);
    let counts = |r: &Reader| -> Vec<(String, u64)> {
        r.connections().iter().map(|c| (c.topic.clone(), c.message_count)).collect()
    };
    assert_eq!(counts(&r1), counts(&r2));
}

#[test]
fn chunked_files_are_read_and_broken_records_refused() {
    for compression in [None, Some(mcap::Compression::Zstd)] {
        let mut out = Cursor::new(Vec::new());
        {
            let mut w = mcap::WriteOptions::new().compression(compression).create(&mut out).unwrap();
            let s = w.add_schema("t/A", "ros2msg", b"").unwrap();
            let c = w.add_channel(s, "/a", "cdr", &Default::default()).unwrap();
            for i in 0..3u32 {
                let header = mcap::records::MessageHeader {
                    channel_id: c,
                    sequence: i,
                    log_time: 10 - i as u64,
                    publish_time: 1,
                };
                w.write_to_known_channel(&header, &[i as u8]).unwrap();
            }
            w.finish().unwrap();
        }
        let msgs = read_mcap_file(&out.into_inner()).unwrap();
        let stamps: Vec<u64> = msgs.iter().map(|m| m.2).collect();
        assert_eq!(stamps, vec![10, 9, 8]);
    }

    let mut short = b"\x89MCAP0\r\n".to_vec();
    short.push(9);
    short.extend_from_slice(&33u64.to_le_bytes());
    short.extend_from_slice(&[0u8; 33]);
    short.extend_from_slice(b"\x89MCAP0\r\n");
    assert!(matches!(read_mcap_file(&short), Err(BagError::InvalidMessageData { .. })));

    let mut huge = b"\x89MCAP0\r\n".to_vec();
    huge.push(5);
    huge.extend_from_slice(&[0xFF; 8]);
    assert!(matches!(read_mcap_file(&huge), Err(BagError::InvalidMessageData { .. })));
}
