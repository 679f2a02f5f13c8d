use agentfs::bind::BindVfs;
use agentfs::mount::{MountTable, Vfs};
use agentfs::passthrough::{PassthroughFile, PassthroughVfs};
use agentfs::path::path_depth;
use agentfs::sqlite::SqliteVfs;
use agentfs::text::to_chars;

#[test]
fn bind_test_translate_path_exact_match() {
    let vfs = BindVfs::new("/tmp/agent".to_string(), "/agent".to_string());

    let result = vfs.translate_path("/agent").unwrap();
    assert_eq!(result, "/tmp/agent");
}

#[test]
fn bind_test_translate_path_with_subpath() {
    let vfs = BindVfs::new("/tmp/agent".to_string(), "/agent".to_string());

    let result = vfs.translate_path("/agent/subdir/file.txt").unwrap();
    assert_eq!(result, "/tmp/agent/subdir/file.txt");
}

#[test]
fn bind_test_translate_path_no_match() {
    let vfs = BindVfs::new("/tmp/agent".to_string(), "/agent".to_string());

    let result = vfs.translate_path("/other/path");
    assert!(result.is_err());
}

#[test]
fn test_translate_path_partial_match() {
    let vfs = BindVfs::new("/tmp/agent".to_string(), "/agent".to_string());

    // /agentfoo should not match /agent
    let result = vfs.translate_path("/agentfoo");
    assert!(result.is_err());
}

#[test]
fn test_is_not_virtual() {
    let vfs = BindVfs::new("/tmp/agent".to_string(), "/agent".to_string());
    assert!(!vfs.is_virtual());
}

#[test]
fn passthrough_test_translate_path_exact_match() {
    let vfs = PassthroughVfs::new("/tmp/agent".to_string(), "/agent".to_string());

    let result = vfs.translate_path("/agent").unwrap();
    assert_eq!(result, "/tmp/agent");
}

#[test]
fn passthrough_test_translate_path_with_subpath() {
    let vfs = PassthroughVfs::new("/tmp/agent".to_string(), "/agent".to_string());

    let result = vfs.translate_path("/agent/subdir/file.txt").unwrap();
    assert_eq!(result, "/tmp/agent/subdir/file.txt");
}

#[test]
fn passthrough_test_translate_path_no_match() {
    let vfs = PassthroughVfs::new("/tmp/agent".to_string(), "/agent".to_string());

    let result = vfs.translate_path("/other/path");
    assert!(result.is_err());
}

#[test]
fn test_mount_table_longest_prefix() {
    let mut table = MountTable::new();

    // Add two overlapping mount points
    table.add_mount(
        "/agent".to_string(),
        Vfs::Passthrough(PassthroughVfs::new("/tmp/agent".to_string(), "/agent".to_string())),
    );

    table.add_mount(
        "/agent/special".to_string(),
        Vfs::Passthrough(PassthroughVfs::new(
            "/tmp/special".to_string(),
            "/agent/special".to_string(),
        )),
    );

    // Path /agent/special/file should match the more specific mount
    let result = table.resolve("/agent/special/file");
    assert!(result.is_some());

    let (_, translated) = result.unwrap();
    assert_eq!(translated, "/tmp/special/file");

    // Path /agent/normal should match the less specific mount
    let result = table.resolve("/agent/normal");
    assert!(result.is_some());

    let (_, translated) = result.unwrap();
    assert_eq!(translated, "/tmp/agent/normal");
}

#[test]
fn test_mount_table_no_match() {
    let mut table = MountTable::new();

    table.add_mount(
        "/agent".to_string(),
        Vfs::Passthrough(PassthroughVfs::new("/tmp/agent".to_string(), "/agent".to_string())),
    );

    let result = table.resolve("/other/path");
    assert!(result.is_none());
}

#[test]
fn sqlite_test_translate_path_match() {
    let vfs = SqliteVfs::new("/agent".to_string());
    let result = vfs.translate_path("/agent/test.txt");
    assert!(result.is_ok());
    assert_eq!(result.unwrap(), "__sqlite_vfs__/agent/test.txt");
    assert!(vfs.is_virtual());
    assert_eq!(vfs.mount_point(), "/agent");
}

#[test]
fn sqlite_test_translate_path_no_match() {
    let vfs = SqliteVfs::new("/agent".to_string());
    let result = vfs.translate_path("/other/path");
    assert!(result.is_err());
}

#[test]
fn longest_prefix_whatever_the_order_of_mounting() {
    let bind_a = || Vfs::Bind(BindVfs::new("/host/a".to_string(), "/agent".to_string()));
    let bind_b = || Vfs::Bind(BindVfs::new("/host/b".to_string(), "/agent/special".to_string()));

    let mut first = MountTable::new();
    first.add_mount("/agent".to_string(), bind_a());
    first.add_mount("/agent/special".to_string(), bind_b());
    let mut second = MountTable::new();
    second.add_mount("/agent/special".to_string(), bind_b());
    second.add_mount("/agent".to_string(), bind_a());

    for table in [&first, &second] {
        assert_eq!(table.mounts()[0].sandbox_path, "/agent/special");
        assert_eq!(table.mounts()[1].sandbox_path, "/agent");
        assert_eq!(table.resolve("/agent/special/x").unwrap().1, "/host/b/x");
        assert_eq!(table.resolve("/agent/y").unwrap().1, "/host/a/y");
        assert_eq!(table.resolve_index("/agent/special"), Some(0));
        assert_eq!(table.resolve_index("/agent"), Some(1));
        assert_eq!(table.resolve_index("/agentx"), None);
    }
}

#[test]
fn mounts_of_one_depth_keep_their_order() {
    let mut table = MountTable::new();
    table.add_mount("/a".to_string(), Vfs::Bind(BindVfs::new("/1".to_string(), "/a".to_string())));
    table.add_mount("/b".to_string(), Vfs::Bind(BindVfs::new("/2".to_string(), "/b".to_string())));
    table.add_mount(
        "/a/c".to_string(),
        Vfs::Sqlite(SqliteVfs::new("/a/c".to_string())),
    );
    let order: Vec<&str> = table.mounts().iter().map(|m| m.sandbox_path.as_str()).collect();
    assert_eq!(order, vec!["/a/c", "/a", "/b"]);
    let (vfs, translated) = table.resolve("/a/c/f").unwrap();
    assert!(vfs.is_virtual());
    assert_eq!(translated, "__sqlite_vfs__/a/c/f");
}

#[test]
fn translation_joins_with_one_slash() {
    let vfs = BindVfs::new("/host/".to_string(), "/agent".to_string());
    assert_eq!(vfs.translate_path("/agent//x").unwrap(), "/host/x");
    assert_eq!(vfs.translate_path("/agent/").unwrap(), "/host/");
    let empty = BindVfs::new("".to_string(), "/agent".to_string());
    assert_eq!(empty.translate_path("/agent/x").unwrap(), "x");
    assert_eq!(vfs.host_root(), "/host/");
    assert_eq!(vfs.sandbox_root(), "/agent");
}

#[test]
fn depth_counts_as_the_standard_library_does() {
    for p in ["", "/", "/agent", "/agent/special", "/a//b/", "/a/./b", ".", "./a", "a/b", "/..", "a/.", "/a/b/.."] {
        let expected = std::path::Path::new(p).components().count();
        assert_eq!(path_depth(&to_chars(p)), expected, "depth of {:?}", p);
    }
}

#[test]
fn file_ops_of_a_mounted_path() {
    let mut table = MountTable::new();
    let vfs = PassthroughVfs::new("/tmp/agent".to_string(), "/agent".to_string());
    assert_eq!(vfs.create_file_ops(7, 2), PassthroughFile { fd: 7, flags: 2 });
    table.add_mount("/agent".to_string(), Vfs::Passthrough(vfs));
    assert_eq!(table.create_file_ops("/agent/f", 9, 1), Some(PassthroughFile { fd: 9, flags: 1 }));
    assert_eq!(table.create_file_ops("/elsewhere", 9, 1), None);
    let mut file = PassthroughFile::new(3, 0);
    assert_eq!(file.as_raw_fd(), Some(3));
    assert!(file.set_flags(5).is_ok());
    assert_eq!(file.get_flags(), 5);
}
