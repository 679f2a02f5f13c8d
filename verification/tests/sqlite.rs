use agentfs::abi::{DT_DIR, DT_LNK, DT_REG, F_GETFL, F_SETFL, O_CREAT, SEEK_CUR, SEEK_END, SEEK_SET};
use agentfs::error::VfsError;
use agentfs::fs::Filesystem;
use agentfs::sqlite::{SqliteFile, SqliteVfs, CHUNK_SIZE};
use agentfs::stat::{stat_from_inode, Stat};
use agentfs::store::Store;

fn mounted() -> (SqliteVfs, Store) {
    (SqliteVfs::new("/agent".to_string()), Store::new(1000))
}

#[test]
fn test_translate_path_match() {
    let (vfs, _) = mounted();
    let result = vfs.translate_path("/agent/test.txt");
    assert!(result.is_ok());
    assert!(result.unwrap().contains("__sqlite_vfs__"));
}

#[test]
fn resolve_path_under_the_mount() {
    let (vfs, mut store) = mounted();
    assert_eq!(vfs.resolve_path(&store, "/agent").unwrap(), 1);
    assert_eq!(vfs.resolve_path(&store, "/agent/").unwrap(), 1);
    assert!(matches!(vfs.resolve_path(&store, "/agent/f"), Err(VfsError::NotFound)));
    assert!(matches!(vfs.resolve_path(&store, "/agentx"), Err(VfsError::NotFound)));
    assert!(matches!(vfs.resolve_path(&store, "/other"), Err(VfsError::NotFound)));
    let ino = vfs.create_file(&mut store, "/agent/f", 0o644, 5).unwrap();
    assert_eq!(ino, 2);
    assert_eq!(vfs.resolve_path(&store, "/agent/f").unwrap(), 2);
    assert_eq!(vfs.resolve_path(&store, "/agent//f").unwrap(), 2);
}

#[test]
fn create_file_forces_the_file_type() {
    let (vfs, mut store) = mounted();
    let a = vfs.create_file(&mut store, "/agent/a", 0o600, 7).unwrap();
    assert_eq!(store.find_inode(a).unwrap().mode, 0o100600);
    let b = vfs.create_file(&mut store, "/agent/b", 0o040755, 7).unwrap();
    assert_eq!(store.find_inode(b).unwrap().mode, 0o040755);
    let row = store.find_inode(a).unwrap();
    assert_eq!((row.size, row.uid, row.gid, row.atime, row.mtime, row.ctime), (0, 0, 0, 7, 7, 7));
    let c = vfs.create_file(&mut store, "/agent/b/c", 0, 8).unwrap();
    assert_eq!(vfs.resolve_path(&store, "/agent/b/c").unwrap(), c);
}

#[test]
fn create_file_refusals() {
    let (vfs, mut store) = mounted();
    assert!(matches!(vfs.create_file(&mut store, "", 0o644, 1), Err(VfsError::NotFound)));
    assert!(matches!(vfs.create_file(&mut store, "/", 0o644, 1), Err(VfsError::NotFound)));
    assert!(matches!(vfs.create_file(&mut store, "/agent", 0o644, 1), Err(VfsError::NotFound)));
    assert!(matches!(vfs.create_file(&mut store, "/agent/no/f", 0o644, 1), Err(VfsError::NotFound)));
    match vfs.create_file(&mut store, "/agent/..", 0o644, 1) {
        Err(e @ VfsError::InvalidInput(_)) => assert_eq!(e.message(), "Invalid input: Invalid file name"),
        other => panic!("unexpected {:?}", other),
    }
    vfs.create_file(&mut store, "/agent/f", 0o644, 1).unwrap();
    match vfs.create_file(&mut store, "/agent/f", 0o644, 1) {
        Err(e @ VfsError::Other(_)) => assert_eq!(e.message(), "Failed to create dentry"),
        other => panic!("unexpected {:?}", other),
    }
    // Nothing was added by the refused calls.
    assert!(store.find_inode(3).is_none());
}

#[test]
fn open_creates_only_when_asked() {
    let (vfs, mut store) = mounted();
    assert!(matches!(vfs.open_file(&mut store, "/agent/f", 0, 0o644, 1), Err(VfsError::NotFound)));
    let file = vfs.open(&mut store, "/agent/f", O_CREAT | 1, 0o644, 1).unwrap();
    assert_eq!(file, SqliteFile { ino: 2, offset: 0, flags: O_CREAT | 1, dir_pos: 0 });
    let again = vfs.open_file(&mut store, "/agent/f", 0, 0o644, 2).unwrap();
    assert_eq!(again.ino, 2);
    let dir = vfs.open_file(&mut store, "/agent", 0, 0, 2).unwrap();
    assert_eq!(dir.ino, 1);
    assert_eq!(vfs.create_file_ops(9, 4), SqliteFile::new(0, 4));
}

#[test]
fn write_then_read_round_trip() {
    for len in [0usize, 1, 4, CHUNK_SIZE - 1, CHUNK_SIZE, CHUNK_SIZE + 1, 3 * CHUNK_SIZE + 17] {
        let (vfs, mut store) = mounted();
        let mut file = vfs.open_file(&mut store, "/agent/f", O_CREAT, 0o644, 1).unwrap();
        let data: Vec<u8> = (0..len).map(|i| (i % 251) as u8).collect();
        assert_eq!(file.write(&mut store, &data, 2).unwrap(), len);
        assert_eq!(file.offset, len as i64);
        assert_eq!(file.seek(&store, 0, SEEK_SET).unwrap(), 0);
        let back = file.read(&store, len).unwrap();
        assert_eq!(back, data, "a write of {} bytes", len);
        assert_eq!(file.offset, len as i64);
        // At the end of the file a read yields nothing.
        assert_eq!(file.read(&store, 10).unwrap(), Vec::<u8>::new());
        assert_eq!(vfs.stat(&store, "/agent/f").unwrap().st_size, len as i64);
    }
}

#[test]
fn writes_are_cut_into_chunks() {
    let (vfs, mut store) = mounted();
    let mut file = vfs.open_file(&mut store, "/agent/f", O_CREAT, 0o644, 1).unwrap();
    let data = vec![7u8; 2 * CHUNK_SIZE + 5];
    file.write(&mut store, &data, 2).unwrap();
    let fs = Filesystem::from_store(store);
    assert_eq!(fs.read_file("/f").unwrap().len(), 2 * CHUNK_SIZE + 5);
    let store = fs.store();
    assert_eq!(store.read_len(2, 0, 1), 1);
    assert_eq!(store.read_len(2, CHUNK_SIZE as i64, CHUNK_SIZE), CHUNK_SIZE);
    assert_eq!(store.read_len(2, 2 * CHUNK_SIZE as i64, CHUNK_SIZE), 5);
}

#[test]
fn write_grows_the_file_and_sets_mtime() {
    let (vfs, mut store) = mounted();
    let mut file = vfs.open_file(&mut store, "/agent/f", O_CREAT, 0o644, 1).unwrap();
    file.write(&mut store, b"abcdef", 2).unwrap();
    file.seek(&store, 0, SEEK_SET).unwrap();
    file.write(&mut store, b"xy", 3).unwrap();
    let row = store.find_inode(2).unwrap();
    assert_eq!((row.size, row.mtime, row.ctime), (6, 3, 1));
    // The chunk at offset 0 was replaced as a whole.
    file.seek(&store, 0, SEEK_SET).unwrap();
    assert_eq!(file.read(&store, 6).unwrap(), b"xy");
    // A write to a file whose inode is gone fails.
    let mut gone = SqliteFile::new(99, 0);
    match gone.write(&mut store, b"x", 4) {
        Err(e) => {
            assert_eq!(e.message(), "Failed to write data");
            assert_eq!(e.errno(), -5);
        }
        Ok(_) => panic!("the inode does not exist"),
    }
    assert_eq!(gone.write(&mut store, b"", 4).unwrap(), 0);
}

#[test]
fn seek_cases() {
    let (vfs, mut store) = mounted();
    let mut file = vfs.open_file(&mut store, "/agent/f", O_CREAT, 0o644, 1).unwrap();
    file.write(&mut store, b"0123456789", 2).unwrap();
    assert_eq!(file.seek(&store, 3, SEEK_SET).unwrap(), 3);
    assert_eq!(file.seek(&store, 4, SEEK_CUR).unwrap(), 7);
    assert_eq!(file.seek(&store, -2, SEEK_CUR).unwrap(), 5);
    assert_eq!(file.seek(&store, -1, SEEK_END).unwrap(), 9);
    assert_eq!(file.read(&store, 5).unwrap(), b"9");
    assert_eq!(file.seek(&store, 0, SEEK_END).unwrap(), 10);
    match file.seek(&store, -11, SEEK_END) {
        Err(e) => assert_eq!(e.message(), "Invalid input: Negative seek offset"),
        Ok(_) => panic!("a negative offset"),
    }
    match file.seek(&store, 0, 7) {
        Err(e) => assert_eq!(e.message(), "Invalid input: Invalid whence"),
        Ok(_) => panic!("an unknown whence"),
    }
    assert_eq!(file.offset, 10);
}

#[test]
fn stat_record_of_a_file() {
    let (vfs, mut store) = mounted();
    let mut file = vfs.open_file(&mut store, "/agent/f", O_CREAT, 0o644, 50).unwrap();
    file.write(&mut store, &vec![1u8; 1025], 60).unwrap();
    let st = vfs.stat(&store, "/agent/f").unwrap();
    let expected = Stat {
        st_dev: 0,
        st_ino: 2,
        st_nlink: 1,
        st_mode: 0o100644,
        st_uid: 0,
        st_gid: 0,
        st_rdev: 0,
        st_size: 1025,
        st_blksize: 4096,
        st_blocks: 3,
        st_atime: 50,
        st_atime_nsec: 0,
        st_mtime: 60,
        st_mtime_nsec: 0,
        st_ctime: 50,
        st_ctime_nsec: 0,
    };
    assert_eq!(st, expected);
    assert_eq!(file.fstat(&store).unwrap(), expected);
    assert!(matches!(vfs.stat(&store, "/agent/none"), Err(VfsError::NotFound)));
    assert!(matches!(SqliteFile::new(42, 0).fstat(&store), Err(VfsError::NotFound)));
    let mut row = store.find_inode(2).unwrap();
    for (size, blocks) in [(0, 0), (1, 1), (512, 1), (513, 2), (1024, 2)] {
        row.size = size;
        assert_eq!(stat_from_inode(2, &row).st_blocks, blocks);
    }
}

#[test]
fn getdents_lists_once() {
    let (vfs, mut store) = mounted();
    let d = vfs.create_file(&mut store, "/agent/d", 0o040755, 1).unwrap();
    vfs.create_file(&mut store, "/agent/d/y", 0o644, 1).unwrap();
    vfs.create_file(&mut store, "/agent/d/x", 0o644, 1).unwrap();
    vfs.create_file(&mut store, "/agent/d/sub", 0o040700, 1).unwrap();
    vfs.create_file(&mut store, "/agent/d/l", 0o120777, 1).unwrap();
    let mut dir = vfs.open_file(&mut store, "/agent/d", 0, 0, 2).unwrap();
    let entries = dir.getdents(&store).unwrap();
    let d = d as u64;
    assert_eq!(
        entries,
        vec![
            (d, ".".to_string(), DT_DIR),
            (d, "..".to_string(), DT_DIR),
            (6, "l".to_string(), DT_LNK),
            (5, "sub".to_string(), DT_DIR),
            (4, "x".to_string(), DT_REG),
            (3, "y".to_string(), DT_REG),
        ]
    );
    assert_eq!(dir.dir_pos, 1);
    assert_eq!(dir.getdents(&store).unwrap(), vec![]);
}

#[test]
fn file_flags_and_controls() {
    let mut file = SqliteFile::new(2, 0o2);
    assert_eq!(file.get_flags(), 0o2);
    assert_eq!(file.fcntl(F_GETFL, 0).unwrap(), 2);
    assert_eq!(file.fcntl(F_SETFL, 0o4000).unwrap(), 0);
    assert_eq!(file.get_flags(), 0o4000);
    assert_eq!(file.fcntl(F_SETFL, 0x1_0000_0005).unwrap(), 0);
    assert_eq!(file.get_flags(), 5);
    assert_eq!(file.fcntl(F_SETFL, -1).unwrap(), 0);
    assert_eq!(file.get_flags(), -1);
    match file.fcntl(1030, 0) {
        Err(e) => assert_eq!(e.message(), "Unsupported fcntl command: 1030"),
        Ok(_) => panic!("not a command of a virtual file"),
    }
    match file.fcntl(-3, 0) {
        Err(e) => assert_eq!(e.message(), "Unsupported fcntl command: -3"),
        Ok(_) => panic!("not a command of a virtual file"),
    }
    match file.ioctl(1, 2) {
        Err(e) => assert_eq!(e.message(), "ioctl not supported on SQLite VFS"),
        Ok(_) => panic!("a virtual file answers no device requests"),
    }
    assert!(file.set_flags(9).is_ok());
    assert_eq!(file.get_flags(), 9);
    assert_eq!(file.as_raw_fd(), None);
    assert!(file.fsync().is_ok() && file.fdatasync().is_ok() && file.close().is_ok());
}
