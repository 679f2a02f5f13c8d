use agentfs::abi;
use agentfs::bytes::{low_bits, to_u32, to_u64};
use agentfs::dirent::encode_dirents;
use agentfs::error::VfsError;
use agentfs::fdtable::{FdEntry, FdTable};
use agentfs::stat::Stat;
use agentfs::text::{chars_lt, decimal_string, from_chars, split_chars, to_chars};

#[test]
fn numbers_of_the_system_call_interface() {
    assert_eq!(abi::ENOENT, libc::ENOENT);
    assert_eq!(abi::EIO, libc::EIO);
    assert_eq!(abi::EBADF, libc::EBADF);
    assert_eq!(abi::EACCES, libc::EACCES);
    assert_eq!(abi::EFAULT, libc::EFAULT);
    assert_eq!(abi::ENOTDIR, libc::ENOTDIR);
    assert_eq!(abi::ENOSYS, libc::ENOSYS);
    assert_eq!(abi::AT_FDCWD, libc::AT_FDCWD);
    assert_eq!(abi::O_CREAT, libc::O_CREAT);
    assert_eq!(abi::O_CLOEXEC, libc::O_CLOEXEC);
    assert_eq!(abi::SEEK_SET, libc::SEEK_SET);
    assert_eq!(abi::SEEK_CUR, libc::SEEK_CUR);
    assert_eq!(abi::SEEK_END, libc::SEEK_END);
    assert_eq!(abi::F_DUPFD, libc::F_DUPFD);
    assert_eq!(abi::F_GETFL, libc::F_GETFL);
    assert_eq!(abi::F_SETFL, libc::F_SETFL);
    assert_eq!(abi::F_DUPFD_CLOEXEC, libc::F_DUPFD_CLOEXEC);
    assert_eq!(abi::DT_UNKNOWN, libc::DT_UNKNOWN);
    assert_eq!(abi::DT_DIR, libc::DT_DIR);
    assert_eq!(abi::DT_REG, libc::DT_REG);
    assert_eq!(abi::DT_LNK, libc::DT_LNK);
    assert_eq!(abi::S_IFMT, libc::S_IFMT);
    assert_eq!(abi::S_IFREG, libc::S_IFREG);
    assert_eq!(abi::S_IFDIR, libc::S_IFDIR);
    assert_eq!(abi::S_IFLNK, libc::S_IFLNK);
    assert_eq!(abi::CLONE_FILES, libc::CLONE_FILES as u64);
    assert_eq!(abi::STAT_SIZE, std::mem::size_of::<libc::stat>());
    assert_eq!(abi::FD_SETSIZE, libc::FD_SETSIZE);
    assert_eq!(abi::FD_SETSIZE / 8, std::mem::size_of::<libc::fd_set>());
}

#[test]
fn error_numbers_and_messages() {
    assert_eq!(VfsError::NotFound.errno(), -2);
    assert_eq!(VfsError::PermissionDenied.errno(), -13);
    assert_eq!(VfsError::InvalidInput("x".to_string()).errno(), -5);
    assert_eq!(VfsError::Other("x".to_string()).errno(), -5);
    let io = VfsError::from(std::io::Error::from_raw_os_error(2));
    assert!(matches!(io, VfsError::IoError(_)));
    assert_eq!(io.errno(), -5);
    assert_eq!(io.message(), format!("IO error: {}", std::io::Error::from_raw_os_error(2)));
    assert_eq!(VfsError::NotFound.message(), "Not found");
    assert_eq!(VfsError::PermissionDenied.message(), "Permission denied");
    assert_eq!(VfsError::InvalidInput("bad".to_string()).message(), "Invalid input: bad");
    assert_eq!(VfsError::Other("plain".to_string()).message(), "plain");
}

#[test]
fn allocate_returns_the_lowest_free_descriptor() {
    let mut table = FdTable::new();
    let entry = || FdEntry::Passthrough { kernel_fd: 9, flags: 0, path: None };
    let mut open: Vec<i32> = Vec::new();
    // A fixed walk through allocations and releases; after every step the
    // descriptor handed out is the smallest one from 3 up that is not open.
    let script = [1, 1, 1, 1, 1, -4, -3, 1, -6, 1, 1, -5, -7, -3, 1, 1, 1, 1, -8, 1];
    for step in script {
        if step > 0 {
            let vfd = table.allocate(entry());
            let expected = (3..).find(|fd| !open.contains(fd)).unwrap();
            assert_eq!(vfd, expected);
            assert!(vfd >= 3);
            open.push(vfd);
        } else {
            let fd = -step;
            assert_eq!(table.deallocate(fd).is_some(), open.contains(&fd));
            open.retain(|x| *x != fd);
        }
        assert!(table.has_room());
    }
}

#[test]
fn allocate_min_and_allocate_at() {
    let mut table = FdTable::new();
    let entry = |k| FdEntry::Passthrough { kernel_fd: k, flags: 0, path: None };
    assert_eq!(table.allocate_min(10, entry(1)), 10);
    assert_eq!(table.allocate_min(10, entry(2)), 11);
    assert_eq!(table.allocate_min(0, entry(3)), 3);
    // Descriptors 4 to 9 were passed over: allocate hands out the lowest.
    assert_eq!(table.allocate(entry(4)), 4);
    assert!(table.allocate_at(5, entry(5)).is_none());
    let old = table.allocate_at(5, entry(6)).unwrap();
    assert_eq!(old.kernel_fd(), Some(5));
    assert_eq!(table.translate(5), Some(6));
    // A released descriptor that is placed over is not handed out again.
    table.deallocate(4);
    assert!(table.allocate_at(4, entry(7)).is_none());
    assert_eq!(table.allocate(entry(8)), 6);
    // Releasing a standard stream does not make it reusable.
    assert!(table.deallocate(0).is_some());
    assert_eq!(table.translate(0), None);
    assert_eq!(table.allocate(entry(9)), 7);
    assert!(table.duplicate(99).is_none());
    assert!(table.duplicate_at(99, 3).is_none());
    assert_eq!(table.translate(3), Some(3));
}

#[test]
fn deep_clone_is_independent() {
    let mut table = FdTable::new();
    let entry = |k| FdEntry::Passthrough { kernel_fd: k, flags: 1, path: Some("/p".to_string()) };
    table.allocate(entry(30));
    let mut copy = table.deep_clone();
    assert_eq!(copy.translate(3), Some(30));
    assert_eq!(copy.get(3).unwrap().path(), Some(&"/p".to_string()));
    copy.deallocate(3);
    copy.allocate(entry(31));
    copy.allocate(entry(32));
    assert_eq!(table.translate(3), Some(30));
    assert_eq!(table.translate(4), None);
    table.allocate(entry(40));
    assert_eq!(copy.translate(4), Some(32));
    let fresh = FdTable::default();
    assert_eq!(fresh.translate(2), Some(2));
    assert_eq!(fresh.get(1).unwrap().flags(), 0);
    assert_eq!(FdEntry::Virtual { file_ops: 4, flags: 0, path: None }.file_ops(), Some(4));
    assert_eq!(entry(1).file_ops(), None);
}

#[test]
fn stat_record_layout() {
    let st = Stat {
        st_dev: 0x0102030405060708,
        st_ino: 2,
        st_nlink: 1,
        st_mode: 0o100644,
        st_uid: 1000,
        st_gid: 100,
        st_rdev: 0,
        st_size: -1,
        st_blksize: 4096,
        st_blocks: 8,
        st_atime: 11,
        st_atime_nsec: 12,
        st_mtime: 13,
        st_mtime_nsec: 14,
        st_ctime: 15,
        st_ctime_nsec: 16,
    };
    let bytes = st.to_bytes();
    assert_eq!(bytes.len(), std::mem::size_of::<libc::stat>());
    let mut expected = Vec::new();
    expected.extend_from_slice(&st.st_dev.to_ne_bytes());
    expected.extend_from_slice(&st.st_ino.to_ne_bytes());
    expected.extend_from_slice(&st.st_nlink.to_ne_bytes());
    expected.extend_from_slice(&st.st_mode.to_ne_bytes());
    expected.extend_from_slice(&st.st_uid.to_ne_bytes());
    expected.extend_from_slice(&st.st_gid.to_ne_bytes());
    expected.extend_from_slice(&[0; 4]);
    expected.extend_from_slice(&st.st_rdev.to_ne_bytes());
    for field in [
        st.st_size, st.st_blksize, st.st_blocks, st.st_atime, st.st_atime_nsec, st.st_mtime,
        st.st_mtime_nsec, st.st_ctime, st.st_ctime_nsec,
    ] {
        expected.extend_from_slice(&field.to_ne_bytes());
    }
    expected.extend_from_slice(&[0; 24]);
    assert_eq!(bytes, expected);
    assert_eq!(&bytes[48..56], &[0xff; 8]);
}

#[test]
fn dirent_records() {
    let entries = vec![
        (1u64, ".".to_string(), 4u8),
        (0x1122334455667788, "file-with-a-long-name".to_string(), 8),
        (3, "é".to_string(), 10),
    ];
    let bytes = encode_dirents(&entries, 4096);
    // 19 + 1 + 1 -> 24; 19 + 21 + 1 -> 48; 19 + 2 + 1 -> 24.
    assert_eq!(bytes.len(), 96);
    assert_eq!(&bytes[0..8], &1u64.to_ne_bytes());
    assert_eq!(&bytes[8..16], &1i64.to_ne_bytes());
    assert_eq!(&bytes[16..18], &24u16.to_ne_bytes());
    assert_eq!(bytes[18], 4);
    assert_eq!(&bytes[19..24], b".\0\0\0\0");
    assert_eq!(&bytes[24..32], &0x1122334455667788u64.to_ne_bytes());
    assert_eq!(&bytes[32..40], &2i64.to_ne_bytes());
    assert_eq!(&bytes[40..42], &48u16.to_ne_bytes());
    assert_eq!(bytes[42], 8);
    assert_eq!(&bytes[43..64], b"file-with-a-long-name");
    assert_eq!(&bytes[64..72], &[0; 8]);
    assert_eq!(&bytes[80..88], &3i64.to_ne_bytes());
    assert_eq!(&bytes[91..94], "é\0".as_bytes());
    assert_eq!(encode_dirents(&entries, 71).len(), 24);
    assert_eq!(encode_dirents(&entries, 72).len(), 72);
    assert_eq!(encode_dirents(&entries, 0).len(), 0);
    assert_eq!(encode_dirents(&Vec::new(), 100).len(), 0);
}

#[test]
fn text_helpers() {
    assert_eq!(from_chars(&to_chars("héllo")), "héllo");
    let parts: Vec<String> = split_chars(&to_chars("a,,b,"), ',').iter().map(|p| from_chars(p)).collect();
    assert_eq!(parts, vec!["a", "", "b", ""]);
    assert_eq!(split_chars(&to_chars(""), ',').len(), 1);
    for (a, b) in [("", "a"), ("a", "b"), ("a", "ab"), ("B", "a"), ("ab", "b"), ("z", "é")] {
        assert!(chars_lt(&to_chars(a), &to_chars(b)), "{:?} < {:?}", a, b);
        assert!(!chars_lt(&to_chars(b), &to_chars(a)));
        assert_eq!(a < b, true);
    }
    assert!(!chars_lt(&to_chars("same"), &to_chars("same")));
    assert_eq!(decimal_string(-40), "-40");
    assert_eq!(to_u64(-1), u64::MAX);
    assert_eq!(to_u64(5), 5);
    assert_eq!(to_u32(-2), u32::MAX - 1);
    assert_eq!(low_bits(0x1_0000_0003), 3);
    assert_eq!(low_bits(-1), -1);
    assert_eq!(low_bits(0x8000_0000), i32::MIN);
    assert_eq!(low_bits(i64::MIN), 0);
}
