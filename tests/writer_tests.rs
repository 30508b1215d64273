use rosbags_rs::cdr::{CdrSerializer, Endianness};
use rosbags_rs::error::BagError;
use rosbags_rs::metadata::{QosProfilesField, VERSION_LATEST};
use rosbags_rs::types::{CompressionFormat, CompressionMode, QosProfile, StoragePlugin};
use rosbags_rs::writer::Writer;

fn open_writer(name: &str) -> Writer {
    let mut w = Writer::new(name.to_string(), None, None);
    w.open().unwrap();
    w
}

#[test]
fn test_writer_creation() {
    let writer = Writer::new("test_bag".to_string(), None, None);
    assert!(!writer.is_open());
    assert_eq!(writer.version(), VERSION_LATEST);
}

#[test]
fn test_writer_open_close() {
    let mut writer = Writer::new("test_bag".to_string(), None, None);
    assert!(!writer.is_open());
    writer.open().unwrap();
    assert!(writer.is_open());
    let manifest = writer.close().unwrap();
    assert!(!writer.is_open());
    let info = manifest.unwrap().rosbag2_bagfile_information;
    assert_eq!(info.relative_file_paths, vec!["test_bag.db3".to_string()]);
    assert!(writer.close().unwrap().is_none());
}

#[test]
fn test_set_compression() {
    let mut writer = Writer::new("test_bag".to_string(), None, None);
    let result = writer.set_compression(CompressionMode::Message, CompressionFormat::Zstd);
    assert!(result.is_ok());
    writer.open().unwrap();
    let result = writer.set_compression(CompressionMode::File, CompressionFormat::Zstd);
    assert!(result.is_err());
    assert!(matches!(result.unwrap_err(), BagError::BagAlreadyOpen));
}

#[test]
fn test_add_connection() {
    let mut writer = open_writer("test_bag");
    let connection = writer
        .add_connection(
            "/test_topic".to_string(),
            "std_msgs/msg/String".to_string(),
            None,
            None,
            None,
            None,
        )
        .unwrap();
    assert_eq!(connection.topic, "/test_topic");
    assert_eq!(connection.message_type, "std_msgs/msg/String");
    assert_eq!(connection.id, 1);
    assert_eq!(writer.connections().len(), 1);
    assert_eq!(connection.serialization_format, "cdr");
}

#[test]
fn test_duplicate_connection() {
    let mut writer = open_writer("test_bag");
    writer
        .add_connection(
            "/test_topic".to_string(),
            "std_msgs/msg/String".to_string(),
            None,
            None,
            None,
            None,
        )
        .unwrap();
    let result = writer.add_connection(
        "/test_topic".to_string(),
        "std_msgs/msg/String".to_string(),
        None,
        None,
        None,
        None,
    );
    assert!(result.is_err());
    assert!(matches!(result.unwrap_err(), BagError::ConnectionAlreadyExists { .. }));
}

#[test]
fn test_write_message() {
    let mut writer = open_writer("test_bag");
    let connection = writer
        .add_connection(
            "/test_topic".to_string(),
            "std_msgs/msg/String".to_string(),
            None,
            None,
            None,
            None,
        )
        .unwrap();
    let test_data = b"Hello, ROS2!";
    let timestamp = 1_234_567_890_000_000_000;
    let result = writer.write(&connection, timestamp, test_data);
    assert!(result.is_ok());
    assert_eq!(writer.message_count(connection.id), 1);
}

#[test]
fn writing_needs_open_bag_and_known_connection() {
    let mut writer = Writer::new("b".to_string(), None, None);
    assert!(matches!(
        writer.add_connection("/x".to_string(), "t".to_string(), None, None, None, None),
        Err(BagError::BagNotOpen)
    ));
    writer.open().unwrap();
    let c = writer
        .add_connection("/x".to_string(), "t".to_string(), None, None, None, None)
        .unwrap();
    let mut stranger = c.clone();
    stranger.id = 7;
    assert!(matches!(writer.write(&stranger, 1, b"a"), Err(BagError::ConnectionNotFound { .. })));
    let mut closed = Writer::new("c".to_string(), None, None);
    assert!(matches!(closed.write(&c, 1, b"a"), Err(BagError::BagNotOpen)));
    assert!(matches!(closed.write_raw_message(&c, 1, b"a"), Err(BagError::BagNotOpen)));
}

fn cdr_string(s: &str) -> Vec<u8> {
    let mut ser = CdrSerializer::new(Endianness::LittleEndian);
    ser.write_string(s);
    ser.into_bytes()
}

#[test]
fn single_topic_single_message_manifest() {
    let mut w = open_writer("one");
    let c = w
        .add_connection("/x".to_string(), "std_msgs/String".to_string(), None, None, None, None)
        .unwrap();
    let payload = cdr_string("hi");
    w.write(&c, 1_000_000_000, &payload).unwrap();
    let info = w.close().unwrap().unwrap().rosbag2_bagfile_information;
    assert_eq!(info.message_count, 1);
    assert_eq!(info.topics_with_message_count.len(), 1);
    assert_eq!(info.topics_with_message_count[0].message_count, 1);
    assert_eq!(info.duration.nanoseconds, 0);
    assert_eq!(info.starting_time.nanoseconds_since_epoch, 1_000_000_000);
    let work = w.take_storage_work();
    assert_eq!(work.message_types.len(), 1);
    assert_eq!(work.connections.len(), 1);
    assert_eq!(work.batches.len(), 1);
    assert_eq!(work.batches[0][0].2, payload);
}

#[test]
fn zero_messages_manifest() {
    let mut w = open_writer("empty");
    let m = w.close().unwrap().unwrap();
    assert_eq!(m.rosbag2_bagfile_information.message_count, 0);
    assert_eq!(m.duration(), 0);
    assert_eq!(m.start_time(), 0);
    assert_eq!(m.end_time(), 0);
    assert!(m.validate().is_ok());
}

#[test]
fn batch_flush_at_threshold() {
    let mut w = Writer::new("batched".to_string(), None, None);
    w.configure_buffer(10, 3).unwrap();
    w.open().unwrap();
    let a = w.add_connection("/a".to_string(), "t/A".to_string(), None, None, None, None).unwrap();
    let b = w.add_connection("/b".to_string(), "t/B".to_string(), None, None, None, None).unwrap();
    for i in 0..7u64 {
        let c = if i % 2 == 0 { &a } else { &b };
        w.write(c, 100 + i, &[i as u8]).unwrap();
    }
    w.close().unwrap();
    let work = w.take_storage_work();
    let sizes: Vec<usize> = work.batches.iter().map(|b| b.len()).collect();
    assert_eq!(sizes, vec![3, 3, 1]);
    let stamps: Vec<u64> = work.batches.iter().flatten().map(|r| r.1).collect();
    assert_eq!(stamps, vec![100, 101, 102, 103, 104, 105, 106]);
    assert_eq!(w.message_count(a.id), 4);
    assert_eq!(w.message_count(b.id), 3);
    assert_eq!(w.total_message_count(), 7);
}

#[test]
fn flush_by_size_limit() {
    let mut w = Writer::new("sized".to_string(), None, None);
    w.configure_buffer(0, 100).unwrap();
    w.open().unwrap();
    let a = w.add_connection("/a".to_string(), "t/A".to_string(), None, None, None, None).unwrap();
    w.write(&a, 5, &[1, 2, 3]).unwrap();
    assert_eq!(w.take_storage_work().batches.len(), 1);
}

#[test]
fn message_compression_stores_zstd_frame() {
    let mut w = Writer::new("z".to_string(), None, None);
    w.set_compression(CompressionMode::Message, CompressionFormat::Zstd).unwrap();
    w.open().unwrap();
    let a = w.add_connection("/a".to_string(), "t/A".to_string(), None, None, None, None).unwrap();
    let data = vec![7u8; 64];
    w.write(&a, 1, &data).unwrap();
    w.flush_buffer().unwrap();
    let work = w.take_storage_work();
    let stored = &work.batches[0][0].2;
    assert_ne!(stored, &data);
    assert_eq!(&stored[0..4], &[0x28, 0xB5, 0x2F, 0xFD]);
    let info = w.generate_metadata().rosbag2_bagfile_information;
    assert_eq!(info.compression_format, "zstd");
    assert_eq!(info.compression_mode, "message");
}

#[test]
fn file_compression_names_storage_file() {
    let mut w = Writer::new("f".to_string(), None, Some(StoragePlugin::Mcap));
    w.set_compression(CompressionMode::File, CompressionFormat::Zstd).unwrap();
    w.open().unwrap();
    let info = w.generate_metadata().rosbag2_bagfile_information;
    assert_eq!(info.relative_file_paths, vec!["f.mcap.zstd".to_string()]);
    assert_eq!(info.storage_identifier, "mcap");
    assert_eq!(info.files[0].path, "f.mcap.zstd");
}

#[test]
fn raw_messages_and_batches() {
    let mut w = open_writer("raw");
    let a = w.add_connection("/a".to_string(), "t/A".to_string(), None, None, None, None).unwrap();
    w.write_raw_message(&a, 50, &[1]).unwrap();
    w.copy_raw_message_from_reader(&a, 10, &[2]).unwrap();
    let batch = vec![(a.clone(), 30u64, vec![3u8]), (a.clone(), 70u64, vec![4u8])];
    w.write_raw_messages_batch(&batch).unwrap();
    assert!(w.write_raw_messages_batch(&[]).is_ok());
    let info = w.generate_metadata().rosbag2_bagfile_information;
    assert_eq!(info.message_count, 4);
    assert_eq!(info.starting_time.nanoseconds_since_epoch, 10);
    assert_eq!(info.duration.nanoseconds, 60);
    let work = w.take_storage_work();
    let sizes: Vec<usize> = work.batches.iter().map(|b| b.len()).collect();
    assert_eq!(sizes, vec![2, 2]);
}

#[test]
fn qos_types_and_custom_data_in_manifest() {
    let mut w = open_writer("q");
    w.set_custom_data("k".to_string(), "v1".to_string()).unwrap();
    w.set_custom_data("k".to_string(), "v2".to_string()).unwrap();
    w.set_custom_data("j".to_string(), "w".to_string()).unwrap();
    let q = vec![QosProfile::default()];
    w.add_connection("/a".to_string(), "t/A".to_string(), None, Some("h".to_string()), None, Some(q))
        .unwrap();
    w.add_connection("/b".to_string(), "t/A".to_string(), None, None, None, None).unwrap();
    let info = w.generate_metadata().rosbag2_bagfile_information;
    let custom = info.custom_data.unwrap();
    assert_eq!(custom, vec![("k".to_string(), "v2".to_string()), ("j".to_string(), "w".to_string())]);
    assert_eq!(info.topics_with_message_count[0].topic_metadata.type_description_hash, "h");
    match &info.topics_with_message_count[0].topic_metadata.offered_qos_profiles {
        QosProfilesField::List(l) => assert_eq!(l.len(), 1),
        QosProfilesField::String(_) => panic!("expected a list"),
    }
    assert_eq!(info.ros_distro.as_deref(), Some("rosbags"));
    let work = w.take_storage_work();
    assert_eq!(work.message_types.len(), 1);
    assert_eq!(work.connections.len(), 2);
    assert_eq!(work.connections[1].id, 2);
}

#[test]
fn relational_backend_refuses_storage_compression() {
    let mut w = Writer::new("s".to_string(), None, None);
    w.set_compression(CompressionMode::Storage, CompressionFormat::Zstd).unwrap();
    assert!(matches!(w.open(), Err(BagError::Writer { .. })));
    assert!(!w.is_open());
    let mut m = Writer::new("m".to_string(), None, Some(StoragePlugin::Mcap));
    m.set_compression(CompressionMode::Storage, CompressionFormat::Zstd).unwrap();
    assert!(m.open().is_ok());
}

#[test]
fn file_compression_bytes() {
    let data = vec![5u8; 100];
    let frame = rosbags_rs::writer::compress_bytes(&data).unwrap();
    assert_ne!(frame, data);
    assert_eq!(&frame[0..4], &[0x28, 0xB5, 0x2F, 0xFD]);
}
