use agentfs::fs::{CatError, Filesystem};
use agentfs::rows::{
    column_integer, column_or_zero, decode_chunk, decode_dentry, decode_inode, decode_symlink,
    SqlValue,
};
use agentfs::store::{highest_ino, with_root, Chunk, Dentry, Inode, Store, Symlink};

fn whole(n: i64) -> SqlValue {
    SqlValue::Integer(n)
}

fn text(s: &str) -> SqlValue {
    SqlValue::Text(s.to_string())
}

#[test]
fn columns() {
    let row = vec![whole(7), text("x"), SqlValue::Null, SqlValue::Real, SqlValue::Blob(vec![1])];
    assert_eq!(column_integer(&row, 0), Some(7));
    for idx in 1..6 {
        assert_eq!(column_integer(&row, idx), None);
        assert_eq!(column_or_zero(&row, idx), 0);
    }
    assert_eq!(column_or_zero(&row, 0), 7);
}

#[test]
fn inode_rows() {
    let row = vec![whole(5), whole(0o100644), whole(1000), whole(100), whole(42), whole(1), whole(2), whole(3)];
    assert_eq!(
        decode_inode(&row),
        Inode { ino: 5, mode: 0o100644, uid: 1000, gid: 100, size: 42, atime: 1, mtime: 2, ctime: 3 }
    );
    // What is missing counts as 0; mode, user and group are cut to 32 bits.
    let row = vec![whole(6), whole(0x1_0000_0001), whole(-1), text("no number")];
    assert_eq!(
        decode_inode(&row),
        Inode { ino: 6, mode: 1, uid: u32::MAX, gid: 0, size: 0, atime: 0, mtime: 0, ctime: 0 }
    );
    assert_eq!(decode_inode(&vec![]).ino, 0);
}

#[test]
fn other_rows() {
    let d = decode_dentry(&vec![text("name"), whole(1), whole(2)]);
    assert_eq!((d.name.as_str(), d.parent_ino, d.ino), ("name", 1, 2));
    let d = decode_dentry(&vec![whole(3), SqlValue::Null]);
    assert_eq!((d.name.as_str(), d.parent_ino, d.ino), ("", 0, 0));

    let c = decode_chunk(&vec![whole(2), whole(65536), SqlValue::Blob(vec![1, 2])]).unwrap();
    assert_eq!((c.ino, c.offset, c.data), (2, 65536, vec![1, 2]));
    let c = decode_chunk(&vec![whole(2), whole(0), text("hé")]).unwrap();
    assert_eq!(c.data, "hé".as_bytes());
    assert!(decode_chunk(&vec![whole(2), whole(0), SqlValue::Null]).is_none());
    assert!(decode_chunk(&vec![whole(2), whole(0)]).is_none());
    assert!(decode_chunk(&vec![text("x"), whole(0), SqlValue::Blob(vec![])]).is_none());
    assert!(decode_chunk(&vec![whole(1), SqlValue::Null, SqlValue::Blob(vec![])]).is_none());

    let s = decode_symlink(&vec![whole(4), text("/t")]).unwrap();
    assert_eq!((s.ino, s.target.as_str()), (4, "/t"));
    assert_eq!(decode_symlink(&vec![SqlValue::Null, text("/t")]).unwrap().ino, 0);
    assert!(decode_symlink(&vec![whole(4), whole(5)]).is_none());
    assert!(decode_symlink(&vec![whole(4)]).is_none());
}

fn dir(ino: i64) -> Inode {
    Inode { ino, mode: 0o040755, uid: 0, gid: 0, size: 0, atime: 0, mtime: 0, ctime: 0 }
}

fn file(ino: i64) -> Inode {
    Inode { mode: 0o100644, ..dir(ino) }
}

fn entry(name: &str, parent_ino: i64, ino: i64) -> Dentry {
    Dentry { name: name.to_string(), parent_ino, ino }
}

#[test]
fn stores_from_rows() {
    let store = Store::from_rows(
        vec![dir(1), file(2)],
        vec![entry("f", 1, 2)],
        vec![Chunk { ino: 2, offset: 0, data: b"abc".to_vec() }],
        vec![],
        2,
    )
    .unwrap();
    assert_eq!(store.last_ino(), 2);
    assert_eq!(store.inodes().len(), 2);
    assert_eq!(store.dentries()[0].name, "f");
    assert_eq!(store.chunks()[0].data, b"abc");
    assert!(store.symlinks().is_empty());
    let fs = Filesystem::from_store(store);
    assert_eq!(fs.read_file("/f").unwrap(), b"abc");

    // No root, a root that is no directory, a number twice, a name twice, a
    // chunk twice, a link twice, a number that was never given out.
    assert!(Store::from_rows(vec![file(2)], vec![], vec![], vec![], 2).is_none());
    assert!(Store::from_rows(vec![file(1)], vec![], vec![], vec![], 1).is_none());
    assert!(Store::from_rows(vec![dir(1), dir(1)], vec![], vec![], vec![], 1).is_none());
    assert!(Store::from_rows(
        vec![dir(1)],
        vec![entry("a", 1, 1), entry("a", 1, 1)],
        vec![],
        vec![],
        1
    )
    .is_none());
    let chunk = || Chunk { ino: 1, offset: 0, data: vec![] };
    assert!(Store::from_rows(vec![dir(1)], vec![], vec![chunk(), chunk()], vec![], 1).is_none());
    let link = || Symlink { ino: 1, target: "t".to_string() };
    assert!(Store::from_rows(vec![dir(1)], vec![], vec![], vec![link(), link()], 1).is_none());
    assert!(Store::from_rows(vec![dir(1), file(2)], vec![], vec![], vec![], 1).is_none());
    assert!(Store::from_rows(vec![dir(1)], vec![entry("a", 1, 2)], vec![], vec![], 1).is_none());
    assert!(Store::from_rows(vec![dir(1)], vec![entry("a", 2, 1)], vec![], vec![], 1).is_none());
    assert!(Store::from_rows(
        vec![dir(1)],
        vec![],
        vec![Chunk { ino: 2, offset: 0, data: vec![] }],
        vec![],
        1
    )
    .is_none());
    assert!(Store::from_rows(
        vec![dir(1)],
        vec![],
        vec![],
        vec![Symlink { ino: 2, target: String::new() }],
        1
    )
    .is_none());
    assert!(Store::from_rows(vec![dir(1)], vec![], vec![], vec![], 0).is_none());
    assert!(Store::from_rows(vec![dir(1)], vec![], vec![], vec![], 1).is_some());
}

#[test]
fn showing_the_content_of_a_file() {
    let mut fs = Filesystem::new(0);
    fs.mkdir("/d", 1).unwrap();
    fs.write_file("/d/f", b"content", 1).unwrap();
    fs.symlink("/d/f", "/l", 1).unwrap();
    assert_eq!(fs.cat_filesystem("/d/f").unwrap(), b"content");
    assert_eq!(fs.cat_filesystem("d//f").unwrap(), b"content");
    assert_eq!(fs.cat_filesystem("/d"), Err(CatError::IsDirectory));
    assert_eq!(fs.cat_filesystem("/"), Err(CatError::IsDirectory));
    assert_eq!(fs.cat_filesystem("/l"), Err(CatError::NotRegular));
    assert_eq!(fs.cat_filesystem("/none"), Err(CatError::NotFound));
    // Dots are names like any other here.
    assert_eq!(fs.cat_filesystem("/d/../d/f"), Err(CatError::NotFound));
}

#[test]
fn listing_the_tree_level_by_level() {
    let mut fs = Filesystem::new(0);
    fs.mkdir("/b", 1).unwrap();
    fs.write_file("/a", b"", 1).unwrap();
    fs.write_file("/b/z", b"", 1).unwrap();
    fs.mkdir("/b/c", 1).unwrap();
    let top: Vec<(String, bool)> =
        fs.ls_filesystem(1, "").into_iter().map(|l| (l.path, l.is_dir)).collect();
    assert_eq!(top, vec![("a".to_string(), false), ("b".to_string(), true)]);
    let below: Vec<(i64, String, bool)> =
        fs.ls_filesystem(2, "b").into_iter().map(|l| (l.ino, l.path, l.is_dir)).collect();
    assert_eq!(below, vec![(5, "b/c".to_string(), true), (4, "b/z".to_string(), false)]);
    assert!(fs.ls_filesystem(3, "a").is_empty());
}

#[test]
fn a_root_is_added_where_none_is() {
    let rows = with_root(vec![], 77);
    assert_eq!(rows, vec![Inode { atime: 77, mtime: 77, ctime: 77, ..dir(1) }]);
    // Other inodes do not stand for the root.
    let rows = with_root(vec![file(5), file(2)], 78);
    assert_eq!(rows.len(), 3);
    assert_eq!(rows[2], Inode { atime: 78, mtime: 78, ctime: 78, ..dir(1) });
    assert_eq!(highest_ino(&rows), 5);
    // A root that is there stays as it is.
    let rows = with_root(vec![file(3), dir(1)], 79);
    assert_eq!(rows, vec![file(3), dir(1)]);
    assert_eq!(highest_ino(&rows), 3);
    assert_eq!(highest_ino(&vec![]), 1);
    assert_eq!(highest_ino(&vec![file(-4)]), 1);
    let store = Store::from_rows(with_root(vec![file(5)], 1), vec![], vec![], vec![], 5).unwrap();
    assert_eq!(store.find_inode(1).unwrap().mode, 0o040755);
}
