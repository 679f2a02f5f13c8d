use agentfs::fs::{Filesystem, FsError};
use agentfs::store::{Store, ROOT_INO};

#[test]
fn test_initialize_schema() {
    let store = Store::new(1_700_000_000);
    let root = store.find_inode(ROOT_INO).unwrap();
    assert_eq!(root.ino, 1);
    assert_eq!(root.mode, 0o040755);
    assert_eq!(root.atime, 1_700_000_000);
    assert_eq!(root.mtime, 1_700_000_000);
    assert_eq!(root.ctime, 1_700_000_000);
    assert_eq!((root.uid, root.gid, root.size), (0, 0, 0));
    assert!(store.find_inode(2).is_none());
}

#[test]
fn test_filesystem_operations() {
    let mut fs = Filesystem::new(100);

    // Create a directory
    fs.mkdir("/test_dir", 101).unwrap();

    // Check directory exists
    let stats = fs.stat("/test_dir").unwrap();
    assert!(stats.is_some());
    assert!(stats.unwrap().is_directory());

    // Write a file
    let data = b"Hello, AgentFS!";
    fs.write_file("/test_dir/test.txt", data, 102).unwrap();

    // Read the file
    let read_data = fs.read_file("/test_dir/test.txt").unwrap();
    assert_eq!(read_data, data);

    // List directory
    let entries = fs.readdir("/test_dir").unwrap();
    assert_eq!(entries, vec!["test.txt"]);
}

#[test]
fn normalize_path_cases() {
    let fs = Filesystem::new(0);
    assert_eq!(fs.normalize_path(""), "/");
    assert_eq!(fs.normalize_path("/"), "/");
    assert_eq!(fs.normalize_path("///"), "/");
    assert_eq!(fs.normalize_path("/a/b/"), "/a/b");
    assert_eq!(fs.normalize_path("/a//b"), "/a/b");
    assert_eq!(fs.normalize_path("/a/./b"), "/a/b");
    assert_eq!(fs.normalize_path("/a/../b"), "/b");
    assert_eq!(fs.normalize_path("/../.."), "/");
    assert_eq!(fs.normalize_path("/a/b/../../c/"), "/c");
    // A path without a leading slash only gets one.
    assert_eq!(fs.normalize_path("a/../b"), "/a/../b");
    assert_eq!(fs.normalize_path("a/"), "/a");
}

#[test]
fn split_path_cases() {
    let fs = Filesystem::new(0);
    assert_eq!(fs.split_path("/"), Vec::<String>::new());
    assert_eq!(fs.split_path("/a/b"), vec!["a", "b"]);
    assert_eq!(fs.split_path("/a//b/./c/.."), vec!["a", "b"]);
    assert_eq!(fs.split_path("x/y"), vec!["x", "y"]);
}

#[test]
fn stats_of_files_directories_and_links() {
    let mut fs = Filesystem::new(10);
    fs.mkdir("/d", 11).unwrap();
    fs.write_file("/d/f", b"abc", 12).unwrap();
    fs.symlink("/d/f", "/l", 13).unwrap();

    let d = fs.lstat("/d").unwrap();
    assert!(d.is_directory() && !d.is_file() && !d.is_symlink());
    assert_eq!((d.ino, d.mode, d.nlink, d.size), (2, 0o040755, 1, 0));
    assert_eq!((d.atime, d.mtime, d.ctime), (11, 11, 11));

    let f = fs.lstat("/d/f").unwrap();
    assert!(f.is_file());
    assert_eq!((f.ino, f.mode, f.nlink, f.size, f.uid, f.gid), (3, 0o100644, 1, 3, 0, 0));

    let l = fs.lstat("/l").unwrap();
    assert!(l.is_symlink());
    assert_eq!((l.ino, l.mode, l.size), (4, 0o120777, 4));

    // stat follows the link, lstat does not.
    let through = fs.stat("/l").unwrap().unwrap();
    assert_eq!(through.ino, 3);
    assert!(through.is_file());

    let root = fs.stat("/").unwrap().unwrap();
    assert_eq!((root.ino, root.nlink), (ROOT_INO, 0));
    assert!(fs.lstat("/missing").is_none());
    assert_eq!(fs.stat("/missing"), Ok(None));
    assert_eq!(fs.get_link_count(3), 1);
    assert_eq!(fs.get_link_count(99), 0);
}

#[test]
fn relative_link_targets_start_at_the_directory_of_the_link() {
    let mut fs = Filesystem::new(0);
    fs.mkdir("/a", 1).unwrap();
    fs.mkdir("/a/b", 1).unwrap();
    fs.write_file("/a/target", b"x", 1).unwrap();
    fs.symlink("../target", "/a/b/up", 1).unwrap();
    fs.symlink("b/up", "/a/chain", 1).unwrap();
    let target = fs.lstat("/a/target").unwrap().ino;
    assert_eq!(fs.stat("/a/b/up").unwrap().unwrap().ino, target);
    assert_eq!(fs.stat("/a/chain").unwrap().unwrap().ino, target);
    assert_eq!(fs.readlink("/a/b/up"), Ok(Some("../target".to_string())));
}

#[test]
fn readlink_cases() {
    let mut fs = Filesystem::new(0);
    fs.write_file("/f", b"", 1).unwrap();
    fs.symlink("/f", "/l", 1).unwrap();
    assert_eq!(fs.readlink("/l"), Ok(Some("/f".to_string())));
    assert_eq!(fs.readlink("/f"), Err(FsError::NotSymlink));
    assert_eq!(fs.readlink("/nothing"), Ok(None));
    assert_eq!(FsError::NotSymlink.message(), "Not a symbolic link");
}

#[test]
fn a_cycle_of_links_is_refused() {
    let mut fs = Filesystem::new(0);
    fs.symlink("/b", "/a", 1).unwrap();
    fs.symlink("/a", "/b", 1).unwrap();
    assert_eq!(fs.stat("/a"), Err(FsError::TooManyLinks));
    assert_eq!(fs.stat("/b"), Err(FsError::TooManyLinks));
    assert_eq!(FsError::TooManyLinks.message(), "Too many levels of symbolic links");
    // A link to itself is the shortest cycle.
    fs.symlink("self", "/self", 1).unwrap();
    assert_eq!(fs.stat("/self"), Err(FsError::TooManyLinks));
    // lstat does not follow.
    assert!(fs.lstat("/a").unwrap().is_symlink());
}

#[test]
fn a_chain_of_links_up_to_the_limit() {
    // 40 links lead to a file, and stat follows all of them. A 41st link is
    // one too many.
    let mut fs = Filesystem::new(0);
    fs.write_file("/l0", b"end", 1).unwrap();
    for i in 1..=41 {
        fs.symlink(&format!("/l{}", i - 1), &format!("/l{}", i), 1).unwrap();
    }
    let end = fs.lstat("/l0").unwrap().ino;
    let through = fs.stat("/l40").unwrap().unwrap();
    assert!(through.is_file());
    assert_eq!(through.ino, end);
    assert!(fs.stat("/l39").unwrap().unwrap().is_file());
    assert_eq!(fs.stat("/l41"), Err(FsError::TooManyLinks));
}

#[test]
fn create_then_remove_leaves_nothing() {
    let mut fs = Filesystem::new(0);
    fs.mkdir("/d", 1).unwrap();
    assert!(fs.stat("/d").unwrap().is_some());
    fs.remove("/d").unwrap();
    assert_eq!(fs.stat("/d"), Ok(None));
    assert_eq!(fs.remove("/d"), Err(FsError::PathMissing));

    fs.write_file("/f", b"data", 2).unwrap();
    fs.remove("/f").unwrap();
    assert_eq!(fs.stat("/f"), Ok(None));
    assert!(fs.read_file("/f").is_none());
    assert_eq!(fs.remove("/f"), Err(FsError::PathMissing));
    // The rows of the inode went with its last name.
    assert!(fs.store().find_inode(3).is_none());
    assert_eq!(fs.store().read_range(3, 0, 4), Vec::<u8>::new());

    fs.symlink("/x", "/l", 3).unwrap();
    fs.remove("/l").unwrap();
    assert!(fs.lstat("/l").is_none());
    assert!(fs.store().find_symlink(4).is_none());
    assert_eq!(fs.remove("/l"), Err(FsError::PathMissing));
}

#[test]
fn every_refusal() {
    let mut fs = Filesystem::new(0);
    assert_eq!(fs.mkdir("/", 1), Err(FsError::CreateRoot));
    assert_eq!(fs.mkdir("/a/b", 1), Err(FsError::ParentMissing));
    fs.mkdir("/a", 1).unwrap();
    assert_eq!(fs.mkdir("/a", 1), Err(FsError::DirectoryExists));
    assert_eq!(fs.write_file("/", b"x", 1), Err(FsError::WriteRoot));
    assert_eq!(fs.write_file("/no/f", b"x", 1), Err(FsError::ParentMissing));
    assert_eq!(fs.symlink("/t", "/", 1), Err(FsError::SymlinkAtRoot));
    assert_eq!(fs.symlink("/t", "/no/l", 1), Err(FsError::ParentMissing));
    assert_eq!(fs.symlink("/t", "/a", 1), Err(FsError::PathExists));
    assert_eq!(fs.remove("/"), Err(FsError::RemoveRoot));
    assert_eq!(fs.remove("/nothing"), Err(FsError::PathMissing));
    fs.write_file("/a/f", b"x", 1).unwrap();
    assert_eq!(fs.remove("/a"), Err(FsError::DirectoryNotEmpty));
    assert_eq!(FsError::DirectoryNotEmpty.message(), "Directory not empty");
    assert_eq!(FsError::CreateRoot.message(), "Cannot create root directory");
    assert_eq!(FsError::ParentMissing.message(), "Parent directory does not exist");
    assert_eq!(FsError::DirectoryExists.message(), "Directory already exists");
    assert_eq!(FsError::WriteRoot.message(), "Cannot write to root directory");
    assert_eq!(FsError::SymlinkAtRoot.message(), "Cannot create symlink at root");
    assert_eq!(FsError::PathExists.message(), "Path already exists");
    assert_eq!(FsError::SymlinkWithoutTarget.message(), "Symlink has no target");
    assert_eq!(FsError::RemoveRoot.message(), "Cannot remove root directory");
    assert_eq!(FsError::PathMissing.message(), "Path does not exist");
    assert_eq!(FsError::NoInode.message(), "Failed to get inode");
}

#[test]
fn write_file_replaces_the_content() {
    let mut fs = Filesystem::new(0);
    fs.write_file("/f", b"first content", 1).unwrap();
    let ino = fs.lstat("/f").unwrap().ino;
    fs.write_file("/f", b"2nd", 5).unwrap();
    let st = fs.lstat("/f").unwrap();
    assert_eq!((st.ino, st.size, st.mtime, st.ctime), (ino, 3, 5, 1));
    assert_eq!(fs.read_file("/f").unwrap(), b"2nd");
    fs.write_file("/f", b"", 6).unwrap();
    assert_eq!(fs.read_file("/f").unwrap(), b"");
    assert_eq!(fs.lstat("/f").unwrap().size, 0);
}

#[test]
fn readdir_is_sorted_by_name() {
    let mut fs = Filesystem::new(0);
    for name in ["/m", "/b", "/zz", "/a", "/ab", "/B"] {
        fs.mkdir(name, 1).unwrap();
    }
    assert_eq!(fs.readdir("/").unwrap(), vec!["B", "a", "ab", "b", "m", "zz"]);
    assert_eq!(fs.readdir("/a").unwrap(), Vec::<String>::new());
    assert!(fs.readdir("/none").is_none());
    assert_eq!(fs.resolve_path("/zz"), Some(4));
    assert_eq!(fs.resolve_path("/"), Some(ROOT_INO));
    assert_eq!(fs.resolve_path("/q"), None);
}

#[test]
fn store_rows() {
    let mut store = Store::new(0);
    let a = store.insert_inode(0o100644, 0, 1).unwrap();
    assert_eq!(a, 2);
    store.insert_dentry("a".to_string(), ROOT_INO, a);
    assert_eq!(store.lookup(ROOT_INO, &"a".to_string()), Some(2));
    assert_eq!(store.lookup(ROOT_INO, &"b".to_string()), None);
    assert_eq!(store.lookup(a, &"a".to_string()), None);
    assert!(store.has_children(ROOT_INO));
    assert!(!store.has_children(a));
    assert!(store.is_linked(a));
    assert_eq!(store.link_count(a), 1);
    store.insert_dentry("again".to_string(), ROOT_INO, a);
    assert_eq!(store.link_count(a), 2);
    let listed = store.children(ROOT_INO);
    assert_eq!(listed, vec![("a".to_string(), 2), ("again".to_string(), 2)]);
    store.delete_dentry(ROOT_INO, &"a".to_string());
    assert_eq!(store.link_count(a), 1);
    store.insert_chunk(a, 0, vec![1, 2, 3]);
    store.insert_chunk(a, 10, vec![9]);
    assert_eq!(store.content(a), vec![1, 2, 3, 9]);
    assert_eq!(store.read_range(a, 1, 20), vec![2, 3, 0, 0, 0, 0, 0, 0, 0, 9]);
    assert_eq!(store.read_len(a, 0, 2), 2);
    assert_eq!(store.byte_at(a, 10), 9);
    store.delete_chunk(a, 0);
    assert_eq!(store.content(a), vec![9]);
    store.delete_chunks(a);
    assert_eq!(store.content(a), Vec::<u8>::new());
    store.insert_symlink(a, "t".to_string());
    assert_eq!(store.find_symlink(a), Some("t".to_string()));
    store.delete_symlink(a);
    assert_eq!(store.find_symlink(a), None);
    let mut row = store.find_inode(a).unwrap();
    row.size = 77;
    store.update_inode(row);
    assert_eq!(store.find_inode(a).unwrap().size, 77);
    store.delete_inode(a);
    assert!(store.find_inode(a).is_none());
    // Numbers are never given out twice.
    assert_eq!(store.insert_inode(0, 0, 0), Some(3));
}

#[test]
fn a_later_chunk_shows_through_an_earlier_one() {
    let mut store = Store::new(0);
    let f = store.insert_inode(0o100644, 0, 1).unwrap();
    store.insert_chunk(f, 0, vec![1; 8]);
    store.insert_chunk(f, 4, vec![2; 2]);
    assert_eq!(store.read_range(f, 0, 8), vec![1, 1, 1, 1, 2, 2, 1, 1]);
    assert_eq!(store.read_range(f, 5, 100), vec![2, 1, 1]);
    assert_eq!(store.read_range(f, 8, 100), Vec::<u8>::new());
}

#[test]
fn a_link_without_a_target_on_record() {
    let mut store = Store::new(0);
    let ino = store.insert_inode(0o120777, 0, 1).unwrap();
    store.insert_dentry("l".to_string(), ROOT_INO, ino);
    let fs = Filesystem::from_store(store);
    assert_eq!(fs.stat("/l"), Err(FsError::SymlinkWithoutTarget));
    assert_eq!(fs.readlink("/l"), Ok(None));
    assert!(fs.lstat("/l").unwrap().is_symlink());
}

#[test]
fn inode_numbers_run_out() {
    let root = agentfs::store::Inode {
        ino: 1,
        mode: 0o040755,
        uid: 0,
        gid: 0,
        size: 0,
        atime: 0,
        mtime: 0,
        ctime: 0,
    };
    let full = || Store::from_rows(vec![root], vec![], vec![], vec![], i64::MAX).unwrap();
    let mut fs = Filesystem::from_store(full());
    assert_eq!(fs.mkdir("/d", 1), Err(FsError::NoInode));
    assert_eq!(fs.write_file("/f", b"x", 1), Err(FsError::NoInode));
    assert_eq!(fs.symlink("/t", "/l", 1), Err(FsError::NoInode));
    assert_eq!(fs.readdir("/").unwrap(), Vec::<String>::new());

    let mut store = full();
    assert_eq!(store.insert_inode(0, 0, 0), None);
    let vfs = agentfs::sqlite::SqliteVfs::new("/agent".to_string());
    match vfs.create_file(&mut store, "/agent/f", 0o644, 1) {
        Err(e) => assert_eq!(e.message(), "Failed to create inode"),
        Ok(_) => panic!("no inode number is left"),
    }
}
