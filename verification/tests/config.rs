use agentfs::config::{MountConfig, MountErrorKind, MountType};

#[test]
fn test_parse_bind_mount() {
    let config: Result<MountConfig, _> = "type=bind,src=/tmp,dst=/data".parse();
    assert!(config.is_ok());

    let canonical = std::path::Path::new("/tmp")
        .canonicalize()
        .map(|p| p.to_string_lossy().into_owned())
        .map_err(|e| e.to_string());
    let expected = canonical.clone().unwrap();
    let config = config.unwrap().with_canonical_source(canonical).unwrap();
    match config.mount_type {
        MountType::Bind { src } => {
            assert_eq!(src, expected);
            assert_eq!(config.dst, "/data");
        }
        MountType::Sqlite { .. } => panic!("a bind mount was asked for"),
    }
}

#[test]
fn test_parse_bind_mount_with_aliases() {
    let config: Result<MountConfig, _> = "type=bind,source=/tmp,target=/data".parse();
    assert!(config.is_ok());

    let canonical = std::path::Path::new("/tmp")
        .canonicalize()
        .map(|p| p.to_string_lossy().into_owned())
        .map_err(|e| e.to_string());
    let expected = canonical.clone().unwrap();
    let config = config.unwrap().with_canonical_source(canonical).unwrap();
    match config.mount_type {
        MountType::Bind { src } => {
            assert_eq!(src, expected);
            assert_eq!(config.dst, "/data");
        }
        MountType::Sqlite { .. } => panic!("a bind mount was asked for"),
    }
}

#[test]
fn test_missing_type() {
    let config: Result<MountConfig, _> = "src=/tmp,dst=/data".parse();
    assert!(config.is_err());
    assert!(config.unwrap_err().contains("Missing required field 'type'"));
}

#[test]
fn test_missing_dst() {
    let config: Result<MountConfig, _> = "type=bind,src=/tmp".parse();
    assert!(config.is_err());
    assert!(config.unwrap_err().contains("requires 'dst' field"));
}

#[test]
fn test_bind_missing_src() {
    let config: Result<MountConfig, _> = "type=bind,dst=/data".parse();
    assert!(config.is_err());
    assert!(config.unwrap_err().contains("requires 'src' field"));
}

#[test]
fn test_invalid_type() {
    let config: Result<MountConfig, _> = "type=foobar,dst=/data".parse();
    assert!(config.is_err());
    assert!(config.unwrap_err().contains("Unsupported mount type"));
}

#[test]
fn test_invalid_key_value_format() {
    let config: Result<MountConfig, _> = "type=bind,invalid,dst=/data".parse();
    assert!(config.is_err());
    assert!(config.unwrap_err().contains("Invalid mount option"));
}

#[test]
fn test_duplicate_keys() {
    let config: Result<MountConfig, _> = "type=bind,src=/tmp,src=/var,dst=/data".parse();
    assert!(config.is_err());
    assert!(config.unwrap_err().contains("Duplicate key 'src'"));
}

#[test]
fn test_relative_destination() {
    let config: Result<MountConfig, _> = "type=bind,src=/tmp,dst=relative/path".parse();
    assert!(config.is_err());
    assert!(config.unwrap_err().contains("must be absolute"));
}

#[test]
fn test_nonexistent_source() {
    let parsed: Result<MountConfig, _> = "type=bind,src=/nonexistent-path-12345,dst=/data".parse();
    let canonical = std::path::Path::new("/nonexistent-path-12345")
        .canonicalize()
        .map(|p| p.to_string_lossy().into_owned())
        .map_err(|e| e.to_string());
    let config = parsed.unwrap().with_canonical_source(canonical).map_err(|e| e.message());
    assert!(config.is_err());
    assert!(config.unwrap_err().contains("Failed to canonicalize"));
}

#[test]
fn exact_messages() {
    let err = MountConfig::parse("type=bind,invalid,dst=/data").unwrap_err();
    assert_eq!(err.kind, MountErrorKind::InvalidOption);
    assert_eq!(err.message(), "Invalid mount option 'invalid'. Expected format: key=value.");

    let err = MountConfig::parse("type=bind,src=/tmp,src=/var,dst=/data").unwrap_err();
    assert_eq!(err.kind, MountErrorKind::DuplicateKey);
    assert_eq!(err.message(), "Duplicate key 'src' in mount specification.");

    let err = MountConfig::parse("src=/tmp,dst=/data").unwrap_err();
    assert_eq!(err.kind, MountErrorKind::MissingType);
    assert_eq!(
        err.message(),
        "Missing required field 'type'. Example: type=bind,src=/host/path,dst=/sandbox/path."
    );

    let err = MountConfig::parse("type=sqlite,dst=/agent").unwrap_err();
    assert_eq!(err.kind, MountErrorKind::SqliteMissingSource);
    assert_eq!(
        err.message(),
        "SQLite mount requires 'src' field. Example: type=sqlite,src=agent.db,dst=/agent."
    );

    let err = MountConfig::parse("type=sqlite,src=a.db").unwrap_err();
    assert_eq!(err.kind, MountErrorKind::SqliteMissingDestination);

    let err = MountConfig::parse("type=bind,dst=/data").unwrap_err();
    assert_eq!(err.kind, MountErrorKind::BindMissingSource);

    let err = MountConfig::parse("type=bind,src=/tmp").unwrap_err();
    assert_eq!(err.kind, MountErrorKind::BindMissingDestination);

    let err = MountConfig::parse("type=bind,src=/tmp,dst=relative/path").unwrap_err();
    assert_eq!(err.kind, MountErrorKind::RelativeDestination);
    assert_eq!(err.message(), "Destination path 'relative/path' must be absolute.");

    let err = MountConfig::parse("type=foobar,dst=/data").unwrap_err();
    assert_eq!(err.kind, MountErrorKind::UnsupportedType);
    assert_eq!(err.message(), "Unsupported mount type 'foobar'. Supported types: bind, sqlite.");

    let err = MountConfig::parse("type=bind,src=/x,dst=/data")
        .unwrap()
        .with_canonical_source(Err("No such file".to_string()))
        .unwrap_err();
    assert_eq!(err.kind, MountErrorKind::Canonicalize);
    assert_eq!(err.message(), "Failed to canonicalize source path '/x': No such file.");
}

#[test]
fn sqlite_mount_keeps_its_source() {
    let config = MountConfig::parse("type=sqlite,src=agent.db,dst=/agent").unwrap();
    let config = config.with_canonical_source(Err("unused".to_string())).unwrap();
    match config.mount_type {
        MountType::Sqlite { src } => assert_eq!(src, "agent.db"),
        MountType::Bind { .. } => panic!("a mount on a backing store was asked for"),
    }
    assert_eq!(config.dst, "/agent");
}

#[test]
fn value_may_hold_equals_signs() {
    let config = MountConfig::parse("type=sqlite,src=a=b,dst=/agent").unwrap();
    match config.mount_type {
        MountType::Sqlite { src } => assert_eq!(src, "a=b"),
        MountType::Bind { .. } => panic!("a mount on a backing store was asked for"),
    }
}

#[test]
fn src_comes_before_its_alias() {
    let config = MountConfig::parse("type=sqlite,source=late,src=first,target=/t,dst=/d").unwrap();
    match config.mount_type {
        MountType::Sqlite { src } => assert_eq!(src, "first"),
        MountType::Bind { .. } => panic!("a mount on a backing store was asked for"),
    }
    assert_eq!(config.dst, "/d");
}
