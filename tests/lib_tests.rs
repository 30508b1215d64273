use rosbags_rs::types::{CompressionFormat, CompressionMode, QosProfile, StoragePlugin};

#[test]
fn test_library_compiles() {}

#[test]
fn names_of_enumerations() {
    assert_eq!(CompressionMode::Off.as_str(), "");
    assert_eq!(CompressionMode::Message.as_str(), "message");
    assert_eq!(CompressionMode::File.as_str(), "file");
    assert_eq!(CompressionMode::Storage.as_str(), "storage");
    assert_eq!(CompressionFormat::Absent.as_str(), "");
    assert_eq!(CompressionFormat::Zstd.as_str(), "zstd");
    assert_eq!(StoragePlugin::Sqlite3.as_str(), "sqlite3");
    assert_eq!(StoragePlugin::Mcap.as_str(), "mcap");
}

#[test]
fn default_qos_profile() {
    let q = QosProfile::default();
    assert_eq!(q.depth, 0);
    assert!(!q.avoid_ros_namespace_conventions);
    assert_eq!(q.deadline.sec, 0);
}
