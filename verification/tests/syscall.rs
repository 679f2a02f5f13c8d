use agentfs::abi::{AT_FDCWD, O_CLOEXEC, O_CREAT, SEEK_SET};
use agentfs::bind::BindVfs;
use agentfs::error::VfsError;
use agentfs::fdset::{
    check_kernel_fds_fit, check_kernel_fds_valid, poll_to_kernel, poll_to_virtual,
    translate_to_kernel, translate_to_virtual, FdSet, PollFd,
};
use agentfs::fdtable::{FdEntry, FdTable};
use agentfs::files::OpenFiles;
use agentfs::mount::{MountTable, Vfs};
use agentfs::registry::{init_fd_tables, FdTables};
use agentfs::sqlite::SqliteVfs;
use agentfs::store::Store;
use agentfs::syscall::{getdents_reply, read_reply, reply_for_stat};
use agentfs::syscall::{
    classify, finish_dup, finish_dup2, finish_dup3, finish_fcntl_dup, finish_openat,
    finish_pselect6, format_result, handle_access, handle_clone, handle_clone3, handle_close,
    handle_connect, handle_dup, handle_dup2, handle_dup3, handle_faccessat2, handle_fcntl,
    handle_fork, handle_fstat, handle_getdents64, handle_getpeername, handle_ioctl,
    handle_lgetxattr, handle_llistxattr, handle_lseek, handle_mmap, handle_newfstatat,
    handle_openat, handle_pipe2, handle_poll, handle_pread64, handle_pselect6, handle_pwrite64,
    handle_read, handle_readlink, handle_readlinkat, handle_readv, handle_rename, handle_sendto,
    handle_socket, handle_statfs, handle_statx, handle_unlink, handle_vfork, handle_write,
    handle_writev, init_mount_table, init_strace, kernel_dirfd, release_file, serve_fstat,
    serve_getdents64,
    serve_newfstatat, serve_openat, serve_read, serve_write, translate_path, AtStep, CloseStep,
    Closed, Dup2Reply, Dup2Step, DupStep, FcntlStep, FdTarget, IoStep, Sandbox,
};

fn passthrough(kernel_fd: i32) -> FdEntry {
    FdEntry::Passthrough { kernel_fd, flags: 0, path: None }
}

fn bind_mounts() -> MountTable {
    let mut table = MountTable::new();
    table.add_mount(
        "/agent".to_string(),
        Vfs::Bind(BindVfs::new("/tmp/agent".to_string(), "/agent".to_string())),
    );
    table
}

fn virtual_mounts() -> (MountTable, Store, OpenFiles, FdTable) {
    let mut table = MountTable::new();
    table.add_mount("/agent".to_string(), Vfs::Sqlite(SqliteVfs::new("/agent".to_string())));
    (table, Store::new(1000), OpenFiles::new(), FdTable::new())
}

fn sqlite_at(mounts: &MountTable, i: usize) -> &SqliteVfs {
    match &mounts.mounts()[i].vfs {
        Vfs::Sqlite(vfs) => vfs,
        other => panic!("not a virtual mount: {:?}", other),
    }
}

fn open_virtual(
    mounts: &MountTable,
    store: &mut Store,
    files: &mut OpenFiles,
    fd_table: &mut FdTable,
    path: &str,
    flags: i32,
    mode: Option<u32>,
) -> i64 {
    match handle_openat(mounts, fd_table, AT_FDCWD, Some(path)) {
        AtStep::Virtual(i) => {
            serve_openat(sqlite_at(mounts, i), store, files, fd_table, path, flags, mode, 2000)
        }
        other => panic!("not served in-process: {:?}", other),
    }
}

fn file_of(fd_table: &FdTable, vfd: i32) -> u64 {
    match handle_read(fd_table, vfd, true) {
        IoStep::Serve(id) => id,
        other => panic!("not a virtual descriptor: {:?}", other),
    }
}

#[test]
fn bind_passthrough_open_read_close() {
    let mounts = bind_mounts();
    let mut fd_table = FdTable::new();

    // openat(AT_FDCWD, "/agent/x", O_RDONLY) is injected with the host path.
    let call = match handle_openat(&mounts, &fd_table, AT_FDCWD, Some("/agent/x")) {
        AtStep::Inject(call) => call,
        other => panic!("unexpected {:?}", other),
    };
    assert_eq!(call.dirfd, AT_FDCWD);
    assert_eq!(call.path.as_deref(), Some("/tmp/agent/x"));

    // The kernel returns descriptor 7; the guest gets a virtual one.
    let vfd = finish_openat(&mut fd_table, 7, 0);
    assert!(vfd >= 3);
    assert_eq!(vfd, 3);
    assert_eq!(fd_table.translate(3), Some(7));

    // read(vfd, buf, 5) is injected on the kernel descriptor.
    assert_eq!(handle_read(&fd_table, vfd as i32, true), IoStep::Inject(7));

    // close(vfd) closes the kernel descriptor.
    assert_eq!(handle_close(&mut fd_table, vfd as i32), CloseStep::Inject(7));

    // A following read is no longer intercepted.
    assert_eq!(handle_read(&fd_table, vfd as i32, true), IoStep::PassThrough);

    // A failed open in the kernel is returned as it is.
    assert_eq!(finish_openat(&mut fd_table, -2, 0), -2);
    assert_eq!(fd_table.translate(3), None);
}

#[test]
fn virtual_mount_full_lifecycle() {
    let (mounts, mut store, mut files, mut fd_table) = virtual_mounts();

    let vfd1 = open_virtual(
        &mounts, &mut store, &mut files, &mut fd_table, "/agent/f", O_CREAT | 1, Some(0o644),
    );
    assert_eq!(vfd1, 3);
    let id1 = file_of(&fd_table, 3);
    assert_eq!(handle_write(&fd_table, 3, true), IoStep::Serve(id1));
    assert_eq!(serve_write(&mut files, &mut store, id1, b"abcd", 2001), 4);
    assert_eq!(handle_close(&mut fd_table, 3), CloseStep::Done(id1));

    let vfd2 = open_virtual(&mounts, &mut store, &mut files, &mut fd_table, "/agent/f", 0, None);
    assert_eq!(vfd2, 3);
    let id2 = file_of(&fd_table, 3);
    let reply = serve_read(&mut files, &store, id2, 8);
    assert_eq!(reply.value, 4);
    assert_eq!(reply.data, b"abcd");

    let vfs = match handle_newfstatat(&mounts, &fd_table, AT_FDCWD, Some("/agent/f")) {
        AtStep::Virtual(i) => sqlite_at(&mounts, i),
        other => panic!("unexpected {:?}", other),
    };
    let reply = serve_newfstatat(vfs, &store, "/agent/f");
    assert_eq!(reply.value, 0);
    let st = reply.stat.unwrap();
    assert_eq!(st.st_size, 4);
    assert_eq!(st.st_mode & 0o170000, 0o100000);
    assert_eq!(st.to_bytes().len(), 144);

    // What is not there is reported as such.
    let reply = serve_newfstatat(vfs, &store, "/agent/none");
    assert_eq!((reply.value, reply.stat), (-2, None));
    assert_eq!(open_virtual(&mounts, &mut store, &mut files, &mut fd_table, "/agent/none", 0, None), -2);
    assert_eq!(
        open_virtual(&mounts, &mut store, &mut files, &mut fd_table, "/agent/..", O_CREAT, None),
        -5
    );
    // The default mode of a new file is 0644.
    open_virtual(&mounts, &mut store, &mut files, &mut fd_table, "/agent/g", O_CREAT, None);
    assert_eq!(serve_newfstatat(vfs, &store, "/agent/g").stat.unwrap().st_mode, 0o100644);
}

#[test]
fn longest_prefix_match() {
    let mut mounts = MountTable::new();
    mounts.add_mount(
        "/agent".to_string(),
        Vfs::Bind(BindVfs::new("/host/a".to_string(), "/agent".to_string())),
    );
    mounts.add_mount(
        "/agent/special".to_string(),
        Vfs::Bind(BindVfs::new("/host/b".to_string(), "/agent/special".to_string())),
    );
    assert_eq!(translate_path(&mounts, "/agent/special/x").as_deref(), Some("/host/b/x"));
    assert_eq!(translate_path(&mounts, "/agent/y").as_deref(), Some("/host/a/y"));
    assert_eq!(translate_path(&mounts, "/elsewhere"), None);
}

#[test]
fn fork_fd_inheritance() {
    let (mounts, mut store, mut files, _) = virtual_mounts();
    let mut tables = init_fd_tables();
    let parent = 100;
    tables.get_fd_table(parent);

    // The parent opens /agent/f and writes to it.
    let vfd = open_virtual(
        &mounts, &mut store, &mut files, tables.table_mut(parent), "/agent/f", O_CREAT | 2, Some(0o644),
    );
    assert_eq!(vfd, 3);
    let id = file_of(tables.table(parent), 3);
    assert_eq!(serve_write(&mut files, &mut store, id, b"contents", 1), 8);
    let mut file = files.get(id).unwrap();
    file.seek(&store, 0, SEEK_SET).unwrap();
    files.put(id, file);

    // fork returns the child in the parent.
    handle_fork(&mut tables, parent, 101);
    assert!(tables.knows(101));

    // The child reads through the inherited descriptor.
    let child_id = file_of(tables.table(101), 3);
    assert_eq!(child_id, id);
    let reply = serve_read(&mut files, &store, child_id, 64);
    assert_eq!(reply.data, b"contents");

    // The child closes its descriptor and exits. The parent still holds the
    // file object.
    assert_eq!(handle_close(tables.table_mut(101), 3), CloseStep::Done(id));
    assert_eq!(classify(tables.table(101), 3), FdTarget::Unknown);
    release_file(&mut files, &tables, id);
    assert!(files.get(id).is_some());

    // The parent's descriptor is as it was, and a write succeeds.
    assert_eq!(classify(tables.table(parent), 3), FdTarget::Virtual(id));
    assert_eq!(serve_write(&mut files, &mut store, id, b"more", 2), 4);

    // With the parent's descriptor the file object goes, too.
    assert_eq!(handle_close(tables.table_mut(parent), 3), CloseStep::Done(id));
    assert!(!tables.uses_file(id));
    release_file(&mut files, &tables, id);
    assert!(files.get(id).is_none());
}

#[test]
fn dup2_over_existing_virtual_fd() {
    let (mounts, mut store, mut files, mut fd_table) = virtual_mounts();
    let vfd1 = open_virtual(&mounts, &mut store, &mut files, &mut fd_table, "/agent/a", O_CREAT, None) as i32;
    let vfd2 = open_virtual(&mounts, &mut store, &mut files, &mut fd_table, "/agent/b", O_CREAT, None) as i32;
    let (a, b) = (file_of(&fd_table, vfd1), file_of(&fd_table, vfd2));
    serve_write(&mut files, &mut store, a, b"from a", 1);
    serve_write(&mut files, &mut store, b, b"from b", 1);
    let mut file = files.get(a).unwrap();
    file.seek(&store, 0, SEEK_SET).unwrap();
    files.put(a, file);

    // dup2(vfd1, vfd2) returns vfd2 and lets the file object of b go.
    let step = handle_dup2(&mut fd_table, vfd1, vfd2);
    assert_eq!(step, Dup2Step::Done { value: vfd2 as i64, closed: Closed::Virtual(b) });

    // A read on vfd2 now returns the bytes of /agent/a.
    assert_eq!(file_of(&fd_table, vfd2), a);
    assert_eq!(serve_read(&mut files, &store, file_of(&fd_table, vfd2), 3).data, b"fro");

    // Closing vfd1 leaves vfd2 usable, at the shared offset.
    assert_eq!(handle_close(&mut fd_table, vfd1), CloseStep::Done(a));
    assert_eq!(serve_read(&mut files, &store, file_of(&fd_table, vfd2), 16).data, b"m a");
}

#[test]
fn getdents_on_virtual_directory() {
    let (mounts, mut store, mut files, mut fd_table) = virtual_mounts();
    let vfs = sqlite_at(&mounts, 0);
    let d = vfs.create_file(&mut store, "/agent/d", 0o040755, 1).unwrap() as u64;
    let y = vfs.create_file(&mut store, "/agent/d/y", 0o644, 1).unwrap() as u64;
    let x = vfs.create_file(&mut store, "/agent/d/x", 0o644, 1).unwrap() as u64;

    let vfd = open_virtual(&mounts, &mut store, &mut files, &mut fd_table, "/agent/d", 0, None) as i32;
    let id = match handle_getdents64(&fd_table, vfd) {
        IoStep::Serve(id) => id,
        other => panic!("unexpected {:?}", other),
    };
    let reply = serve_getdents64(&mut files, &store, id, true, 4096);
    assert_eq!(reply.value, 4 * 24);

    let record = |ino: u64, off: i64, d_type: u8, name: &[u8]| {
        let mut r = Vec::new();
        r.extend_from_slice(&ino.to_ne_bytes());
        r.extend_from_slice(&off.to_ne_bytes());
        r.extend_from_slice(&24u16.to_ne_bytes());
        r.push(d_type);
        r.extend_from_slice(name);
        r.resize(24, 0);
        r
    };
    let mut expected = Vec::new();
    expected.extend(record(d, 1, 4, b"."));
    expected.extend(record(d, 2, 4, b".."));
    expected.extend(record(x, 3, 8, b"x"));
    expected.extend(record(y, 4, 8, b"y"));
    assert_eq!(reply.data, expected);

    // A second call returns nothing.
    let reply = serve_getdents64(&mut files, &store, id, true, 4096);
    assert_eq!((reply.value, reply.data.len()), (0, 0));
}

#[test]
fn getdents_fills_the_buffer_record_by_record() {
    let (mounts, mut store, mut files, mut fd_table) = virtual_mounts();
    let vfs = sqlite_at(&mounts, 0);
    vfs.create_file(&mut store, "/agent/a-name-of-20-chars..", 0o644, 1).unwrap();
    let open = |store: &mut Store, files: &mut OpenFiles, fd_table: &mut FdTable| {
        let vfd = open_virtual(&mounts, store, files, fd_table, "/agent", 0, None) as i32;
        file_of(fd_table, vfd)
    };
    // Two records of 24 bytes and one of 40: 19 + 20 + 1 = 40.
    let id = open(&mut store, &mut files, &mut fd_table);
    assert_eq!(serve_getdents64(&mut files, &store, id, true, 88).value, 88);
    let id = open(&mut store, &mut files, &mut fd_table);
    assert_eq!(serve_getdents64(&mut files, &store, id, true, 87).value, 48);
    let id = open(&mut store, &mut files, &mut fd_table);
    assert_eq!(serve_getdents64(&mut files, &store, id, true, 47).value, 24);
    let id = open(&mut store, &mut files, &mut fd_table);
    assert_eq!(serve_getdents64(&mut files, &store, id, true, 23).value, 0);
    // Without a buffer the call fails, and the listing is spent.
    let id = open(&mut store, &mut files, &mut fd_table);
    assert_eq!(serve_getdents64(&mut files, &store, id, false, 4096).value, -14);
    assert_eq!(serve_getdents64(&mut files, &store, id, true, 4096).value, 0);
}

#[test]
fn descriptors_that_only_need_translating() {
    let mut fd_table = FdTable::new();
    let vfd = fd_table.allocate(passthrough(40));
    let virt = fd_table.allocate(FdEntry::Virtual { file_ops: 0, flags: 0, path: None });
    for handler in [
        handle_pread64, handle_pwrite64, handle_lseek, handle_readv, handle_writev,
        handle_sendto, handle_connect, handle_getpeername, handle_mmap,
    ] {
        assert_eq!(handler(&fd_table, vfd), Some(40));
        assert_eq!(handler(&fd_table, virt), None);
        assert_eq!(handler(&fd_table, 77), None);
    }
    assert_eq!(handle_mmap(&fd_table, -1), None);
    // The standard streams translate to themselves: ioctl is left alone.
    assert_eq!(handle_ioctl(&fd_table, 1), None);
    assert_eq!(handle_ioctl(&fd_table, vfd), Some(40));
    assert_eq!(handle_ioctl(&fd_table, 77), None);
    assert_eq!(handle_fstat(&fd_table, vfd), IoStep::Inject(40));
    assert_eq!(handle_fstat(&fd_table, virt), IoStep::Serve(0));
    assert_eq!(handle_read(&fd_table, virt, false), IoStep::Fault);
    assert_eq!(handle_write(&fd_table, virt, false), IoStep::Fault);
    assert_eq!(kernel_dirfd(&fd_table, AT_FDCWD), -100);
    assert_eq!(kernel_dirfd(&fd_table, vfd), 40);
    assert_eq!(kernel_dirfd(&fd_table, 77), 77);
}

#[test]
fn paths_that_only_need_translating() {
    let mounts = bind_mounts();
    for handler in [
        handle_access, handle_statfs, handle_readlink, handle_unlink, handle_llistxattr,
        handle_lgetxattr,
    ] {
        assert_eq!(handler(&mounts, Some("/agent/f")).as_deref(), Some("/tmp/agent/f"));
        assert_eq!(handler(&mounts, Some("/etc/passwd")), None);
        assert_eq!(handler(&mounts, None), None);
    }
    let paths = handle_rename(&mounts, Some("/agent/a"), Some("/home/b")).unwrap();
    assert_eq!(paths.oldpath.as_deref(), Some("/tmp/agent/a"));
    assert_eq!(paths.newpath.as_deref(), Some("/home/b"));
    let paths = handle_rename(&mounts, Some("/x"), Some("/agent/b")).unwrap();
    assert_eq!((paths.oldpath.as_deref(), paths.newpath.as_deref()), (Some("/x"), Some("/tmp/agent/b")));
    assert!(handle_rename(&mounts, Some("/x"), Some("/y")).is_none());
    assert!(handle_rename(&mounts, None, None).is_none());

    let mut fd_table = FdTable::new();
    let dir = fd_table.allocate(passthrough(9));
    let call = handle_readlinkat(&mounts, &fd_table, dir, Some("/agent/l")).unwrap();
    assert_eq!((call.dirfd, call.path.as_deref()), (9, Some("/tmp/agent/l")));
    // Outside every mount the path stays, and the directory descriptor is
    // translated all the same.
    let call = handle_readlinkat(&mounts, &fd_table, dir, Some("l")).unwrap();
    assert_eq!((call.dirfd, call.path), (9, None));
    assert!(handle_readlinkat(&mounts, &fd_table, AT_FDCWD, Some("/l")).is_none());
    assert!(handle_readlinkat(&mounts, &fd_table, 55, Some("/l")).is_none());
    assert!(handle_readlinkat(&mounts, &fd_table, dir, None).is_none());

    let call = handle_faccessat2(&mounts, &fd_table, dir, "rel").unwrap();
    assert_eq!((call.dirfd, call.path), (9, None));
    let call = handle_faccessat2(&mounts, &fd_table, AT_FDCWD, "/agent/f").unwrap();
    assert_eq!((call.dirfd, call.path.as_deref()), (-100, Some("/tmp/agent/f")));
    assert!(handle_faccessat2(&mounts, &fd_table, AT_FDCWD, "/f").is_none());
    assert!(handle_faccessat2(&mounts, &fd_table, 55, "/f").is_none());
}

#[test]
fn openat_outside_every_mount() {
    let mounts = bind_mounts();
    let mut fd_table = FdTable::new();
    let dir = fd_table.allocate(passthrough(9));
    match handle_openat(&mounts, &fd_table, dir, Some("notes.txt")) {
        AtStep::Inject(call) => assert_eq!((call.dirfd, call.path), (9, None)),
        other => panic!("unexpected {:?}", other),
    }
    assert!(matches!(handle_openat(&mounts, &fd_table, dir, None), AtStep::PassThrough));
    assert_eq!(finish_openat(&mut fd_table, 11, O_CLOEXEC), 4);
    match fd_table.get(4).unwrap() {
        FdEntry::Passthrough { kernel_fd, flags, .. } => assert_eq!((kernel_fd, flags), (11, O_CLOEXEC)),
        other => panic!("unexpected {:?}", other),
    }
}

#[test]
fn statx_is_not_served_on_virtual_mounts() {
    let (mut mounts, _, _, fd_table) = virtual_mounts();
    mounts.add_mount(
        "/bind".to_string(),
        Vfs::Bind(BindVfs::new("/host".to_string(), "/bind".to_string())),
    );
    assert!(matches!(handle_statx(&mounts, &fd_table, AT_FDCWD, Some("/agent/f")), AtStep::Value(-38)));
    match handle_statx(&mounts, &fd_table, AT_FDCWD, Some("/bind/f")) {
        AtStep::Inject(call) => assert_eq!((call.dirfd, call.path.as_deref()), (-100, Some("/host/f"))),
        other => panic!("unexpected {:?}", other),
    }
    assert!(matches!(handle_statx(&mounts, &fd_table, AT_FDCWD, Some("/f")), AtStep::PassThrough));
    assert!(matches!(handle_statx(&mounts, &fd_table, AT_FDCWD, None), AtStep::PassThrough));
    match handle_newfstatat(&mounts, &fd_table, AT_FDCWD, Some("/bind/f")) {
        AtStep::Inject(call) => assert_eq!(call.path.as_deref(), Some("/host/f")),
        other => panic!("unexpected {:?}", other),
    }
    assert!(matches!(handle_newfstatat(&mounts, &fd_table, AT_FDCWD, Some("/f")), AtStep::PassThrough));

    // Outside every mount the path stays, and a directory descriptor with a
    // kernel descriptor behind it is translated all the same.
    let mut fd_table = fd_table;
    let dir = fd_table.allocate(passthrough(9));
    match handle_newfstatat(&mounts, &fd_table, dir, Some("f")) {
        AtStep::Inject(call) => assert_eq!((call.dirfd, call.path), (9, None)),
        other => panic!("unexpected {:?}", other),
    }
    match handle_statx(&mounts, &fd_table, dir, Some("f")) {
        AtStep::Inject(call) => assert_eq!((call.dirfd, call.path), (9, None)),
        other => panic!("unexpected {:?}", other),
    }
    match handle_statx(&mounts, &fd_table, dir, Some("/bind/f")) {
        AtStep::Inject(call) => assert_eq!((call.dirfd, call.path.as_deref()), (9, Some("/host/f"))),
        other => panic!("unexpected {:?}", other),
    }
    assert!(matches!(handle_statx(&mounts, &fd_table, 77, Some("f")), AtStep::PassThrough));
    assert!(matches!(handle_newfstatat(&mounts, &fd_table, dir, None), AtStep::PassThrough));
}

#[test]
fn dup_of_a_kernel_descriptor() {
    let mut fd_table = FdTable::new();
    let vfd = fd_table.allocate(FdEntry::Passthrough { kernel_fd: 40, flags: 6, path: None });
    assert_eq!(handle_dup(&mut fd_table, vfd), DupStep::Inject(40));
    assert_eq!(handle_dup(&mut fd_table, 99), DupStep::PassThrough);
    // The kernel made descriptor 41: the new virtual descriptor stands for it.
    let new = finish_dup(&mut fd_table, vfd, 41);
    assert_eq!(new, 4);
    assert_eq!(fd_table.translate(4), Some(41));
    assert_eq!(fd_table.get(4).unwrap().flags(), 6);
    assert_eq!(fd_table.translate(vfd), Some(40));
    // A failure of the kernel leaves no descriptor behind.
    assert_eq!(finish_dup(&mut fd_table, vfd, -24), -24);
    assert_eq!(fd_table.translate(5), None);
    // A virtual descriptor is duplicated at once and shares its file object.
    let virt = fd_table.allocate(FdEntry::Virtual { file_ops: 8, flags: 0, path: None });
    assert_eq!(handle_dup(&mut fd_table, virt), DupStep::Value(6));
    assert_eq!(classify(&fd_table, 6), FdTarget::Virtual(8));
}

#[test]
fn dup2_and_dup3_of_a_kernel_descriptor() {
    let mut fd_table = FdTable::new();
    let a = fd_table.allocate(passthrough(40));
    let b = fd_table.allocate(passthrough(50));
    assert_eq!(handle_dup2(&mut fd_table, a, b), Dup2Step::Inject(40));
    assert_eq!(handle_dup3(&mut fd_table, a, b, O_CLOEXEC), Dup2Step::Inject(40));
    assert_eq!(handle_dup2(&mut fd_table, 77, b), Dup2Step::PassThrough);
    // Nothing changed yet.
    assert_eq!(fd_table.translate(b), Some(50));
    assert_eq!(
        finish_dup2(&mut fd_table, b, 60),
        Dup2Reply { value: b as i64, closed: Closed::Kernel(50) }
    );
    assert_eq!(fd_table.translate(b), Some(60));
    assert_eq!(
        finish_dup3(&mut fd_table, 9, O_CLOEXEC, 61),
        Dup2Reply { value: 9, closed: Closed::Nothing }
    );
    assert_eq!(fd_table.get(9).unwrap().flags(), O_CLOEXEC);
    assert_eq!(
        finish_dup2(&mut fd_table, b, -9),
        Dup2Reply { value: -9, closed: Closed::Nothing }
    );
    assert_eq!(fd_table.translate(b), Some(60));
    // The descriptors passed over are handed out next.
    assert_eq!(fd_table.allocate(passthrough(1)), 5);

    // Nothing can be placed at a negative descriptor or at the largest one.
    for bad in [-1, i32::MIN, i32::MAX] {
        assert_eq!(
            handle_dup2(&mut fd_table, a, bad),
            Dup2Step::Done { value: -9, closed: Closed::Nothing }
        );
        assert_eq!(
            finish_dup3(&mut fd_table, bad, 0, 70),
            Dup2Reply { value: -9, closed: Closed::Kernel(70) }
        );
        assert_eq!(handle_dup3(&mut fd_table, 77, bad, 0), Dup2Step::PassThrough);
    }
    assert_eq!(fd_table.translate(5), Some(1));
}

#[test]
fn fcntl_dupfd() {
    let mut fd_table = FdTable::new();
    let vfd = fd_table.allocate(passthrough(40));
    assert_eq!(handle_fcntl(&fd_table, vfd, 0), FcntlStep::Dup { kernel_fd: 40, cloexec: false });
    assert_eq!(handle_fcntl(&fd_table, vfd, 1030), FcntlStep::Dup { kernel_fd: 40, cloexec: true });
    assert_eq!(handle_fcntl(&fd_table, vfd, 3), FcntlStep::Inject(40));
    assert_eq!(handle_fcntl(&fd_table, 99, 0), FcntlStep::PassThrough);
    assert_eq!(finish_fcntl_dup(&mut fd_table, 10, true, 41), 10);
    assert_eq!(fd_table.get(10).unwrap().flags(), O_CLOEXEC);
    assert_eq!(finish_fcntl_dup(&mut fd_table, 10, false, 42), 11);
    assert_eq!(fd_table.get(11).unwrap().flags(), 0);
    assert_eq!(finish_fcntl_dup(&mut fd_table, 0, false, 43), 4);
    assert_eq!(finish_fcntl_dup(&mut fd_table, 0, false, -9), -9);
}

#[test]
fn pipe2_and_socket() {
    let mut fd_table = FdTable::new();
    let reply = handle_pipe2(&mut fd_table, 70, 71, O_CLOEXEC);
    assert_eq!((reply.read_fd, reply.write_fd), (3, 4));
    assert_eq!(reply.bytes, [3i32.to_ne_bytes(), 4i32.to_ne_bytes()].concat());
    assert_eq!(fd_table.translate(3), Some(70));
    assert_eq!(fd_table.translate(4), Some(71));
    assert_eq!(fd_table.get(4).unwrap().flags(), O_CLOEXEC);
    assert_eq!(handle_socket(&mut fd_table, 72), 5);
    assert_eq!(fd_table.translate(5), Some(72));
    assert_eq!(handle_socket(&mut fd_table, -97), -97);
}

#[test]
fn clone_shares_or_copies() {
    let mut tables = FdTables::new();
    tables.get_fd_table(1);
    assert_eq!(tables.table(1).translate(2), Some(2));
    handle_clone(&mut tables, 1, 0x400 | 0x100, 2); // a thread
    handle_clone(&mut tables, 1, 0x100, 3); // a process
    handle_vfork(&mut tables, 1, 4);
    handle_clone3(&mut tables, 1, 5);
    handle_fork(&mut tables, 1, 0); // in the child: nothing to do
    handle_fork(&mut tables, 1, -11); // failed
    assert!(!tables.knows(0) && !tables.knows(-11));

    let vfd = tables.table_mut(1).allocate(passthrough(40));
    assert_eq!(tables.table(2).translate(vfd), Some(40));
    for copy in [3, 4, 5] {
        assert_eq!(tables.table(copy).translate(vfd), None);
    }
    // Through the thread, too.
    tables.table_mut(2).deallocate(vfd);
    assert_eq!(tables.table(1).translate(vfd), None);
    // A copy does not reach back.
    tables.table_mut(3).allocate(passthrough(50));
    assert_eq!(tables.table(1).translate(3), None);
    assert_eq!(tables.table(3).translate(3), Some(50));
}

#[test]
fn select_sets_are_translated_both_ways() {
    let mut fd_table = FdTable::new();
    let a = fd_table.allocate(passthrough(40)); // 3 -> 40
    let b = fd_table.allocate(passthrough(7)); // 4 -> 7
    let v = fd_table.allocate(FdEntry::Virtual { file_ops: 0, flags: 0, path: None }); // 5
    let mut virt = FdSet::new();
    for fd in [0, a, b, v, 9] {
        virt.set(fd);
    }
    assert!(check_kernel_fds_fit(&virt, 10, &fd_table));
    let (kernel, nfds) = translate_to_kernel(&virt, 10, &fd_table);
    assert_eq!(nfds, 41);
    for k in 0..1024 {
        assert_eq!(kernel.is_set(k), [0, 7, 40].contains(&k), "kernel descriptor {}", k);
    }
    // Only descriptors below the count are looked at.
    let (kernel, nfds) = translate_to_kernel(&virt, 4, &fd_table);
    assert_eq!(nfds, 41);
    assert!(kernel.is_set(0) && kernel.is_set(40) && !kernel.is_set(7));
    let (kernel, nfds) = translate_to_kernel(&FdSet::new(), 10, &fd_table);
    assert_eq!(nfds, 1);
    assert!(!kernel.is_set(0));

    // The kernel reports 7 and 40 ready.
    let mut ready = FdSet::new();
    ready.set(7);
    ready.set(40);
    assert!(check_kernel_fds_valid(41, 10, &fd_table));
    let mut back = virt.clone();
    translate_to_virtual(&ready, 41, &mut back, 10, &fd_table);
    for fd in 0..1024 {
        assert_eq!(back.is_set(fd), fd == a || fd == b, "descriptor {}", fd);
    }
    translate_to_virtual(&ready, 8, &mut back, 10, &fd_table);
    assert!(back.is_set(b) && !back.is_set(a));

    let plan = handle_pselect6(10, Some(&virt), None, Some(&FdSet::new()), &fd_table).unwrap();
    assert_eq!(plan.nfds, 41);
    assert!(plan.readfds.unwrap().is_set(40));
    assert!(plan.writefds.is_none());
    assert!(!plan.exceptfds.unwrap().is_set(0));
    assert!(handle_pselect6(10, None, None, None, &fd_table).is_none());
    let done = finish_pselect6(2, &ready, 41, 10, &fd_table).unwrap();
    assert!(done.is_set(a) && done.is_set(b) && !done.is_set(0));
    assert!(finish_pselect6(0, &ready, 41, 10, &fd_table).is_none());
    assert!(finish_pselect6(-4, &ready, 41, 10, &fd_table).is_none());

    // A kernel descriptor that no set can hold is found out beforehand.
    let big = fd_table.allocate(passthrough(5000));
    let mut with_big = FdSet::new();
    with_big.set(big);
    assert!(!check_kernel_fds_fit(&with_big, 10, &fd_table));
    assert!(check_kernel_fds_fit(&with_big, big, &fd_table));
    assert!(!check_kernel_fds_valid(6000, 10, &fd_table));
    assert!(check_kernel_fds_valid(41, 10, &fd_table));
}

#[test]
fn poll_lists_are_translated_both_ways() {
    let mut fd_table = FdTable::new();
    let a = fd_table.allocate(passthrough(40));
    let guest = vec![
        PollFd { fd: a, events: 1, revents: 77 },
        PollFd { fd: 55, events: 4, revents: 0 },
        PollFd { fd: 0, events: 5, revents: 0 },
    ];
    let kernel = poll_to_kernel(&guest, &fd_table);
    assert_eq!(
        kernel,
        vec![
            PollFd { fd: 40, events: 1, revents: 0 },
            PollFd { fd: 55, events: 4, revents: 0 },
            PollFd { fd: 0, events: 5, revents: 0 },
        ]
    );
    let reported = vec![
        PollFd { fd: 40, events: 1, revents: 1 },
        PollFd { fd: 55, events: 4, revents: 32 },
        PollFd { fd: 0, events: 5, revents: 0 },
    ];
    assert_eq!(
        poll_to_virtual(&guest, &reported),
        vec![
            PollFd { fd: a, events: 1, revents: 1 },
            PollFd { fd: 55, events: 4, revents: 32 },
            PollFd { fd: 0, events: 5, revents: 0 },
        ]
    );
    assert!(handle_poll(3, true));
    assert!(!handle_poll(0, true));
    assert!(!handle_poll(3, false));
}

#[test]
fn serve_fstat_of_a_virtual_descriptor() {
    let (mounts, mut store, mut files, mut fd_table) = virtual_mounts();
    let vfd = open_virtual(&mounts, &mut store, &mut files, &mut fd_table, "/agent/f", O_CREAT, None) as i32;
    let id = file_of(&fd_table, vfd);
    serve_write(&mut files, &mut store, id, &[0u8; 600], 5);
    let reply = serve_fstat(&files, &store, id);
    assert_eq!(reply.value, 0);
    let st = reply.stat.unwrap();
    assert_eq!((st.st_ino, st.st_size, st.st_blocks, st.st_blksize, st.st_nlink), (2, 600, 2, 4096, 1));
}

#[test]
fn tracing() {
    let mut sandbox = Sandbox::new(bind_mounts());
    assert!(!sandbox.is_strace_enabled());
    assert_eq!(sandbox.trace_result(12, 0), None);
    init_strace(&mut sandbox, true);
    assert!(sandbox.is_strace_enabled());
    assert_eq!(sandbox.trace_result(12, -2).as_deref(), Some("[12] = -2"));
    init_mount_table(&mut sandbox, MountTable::new());
    assert_eq!(sandbox.mount_table.mounts().len(), 0);
    for (value, text) in [
        (0, "0"), (7, "7"), (-1, "-1"), (10, "10"), (1234567890, "1234567890"),
        (i64::MAX, "9223372036854775807"), (i64::MIN, "-9223372036854775808"),
    ] {
        assert_eq!(format_result(value), text);
        assert_eq!(format_result(value), format!("{}", value));
    }
}

#[test]
fn replies_for_failures() {
    let reply = read_reply(Err(VfsError::NotFound));
    assert_eq!((reply.value, reply.data.len()), (-2, 0));
    let reply = read_reply(Err(VfsError::PermissionDenied));
    assert_eq!(reply.value, -13);
    let reply = read_reply(Ok(vec![1, 2, 3]));
    assert_eq!((reply.value, reply.data), (3, vec![1, 2, 3]));
    let reply = getdents_reply(Err(VfsError::Other("Not a directory".to_string())), true, 100);
    assert_eq!((reply.value, reply.data.len()), (-20, 0));
    let reply = getdents_reply(Ok(vec![(1, "a".to_string(), 8)]), false, 100);
    assert_eq!(reply.value, -14);
    let reply = getdents_reply(Ok(vec![(1, "a".to_string(), 8)]), true, 100);
    assert_eq!((reply.value, reply.data.len()), (24, 24));
    let reply = reply_for_stat(Err(VfsError::PermissionDenied));
    assert_eq!((reply.value, reply.stat), (-13, None));
}

#[test]
fn the_lowest_descriptor_whatever_was_placed() {
    let mut fd_table = FdTable::new();
    // dup2 to descriptor 7, then an open: the open gets 3.
    let a = fd_table.allocate(FdEntry::Virtual { file_ops: 1, flags: 0, path: None });
    assert_eq!(a, 3);
    assert_eq!(
        handle_dup2(&mut fd_table, a, 7),
        Dup2Step::Done { value: 7, closed: Closed::Nothing }
    );
    assert_eq!(finish_openat(&mut fd_table, 50, 0), 4);
    assert_eq!(handle_socket(&mut fd_table, 51), 5);
    assert_eq!(finish_dup(&mut fd_table, 4, 52), 6);
    assert_eq!(handle_dup(&mut fd_table, 7), DupStep::Value(8));
    let reply = handle_pipe2(&mut fd_table, 60, 61, 0);
    assert_eq!((reply.read_fd, reply.write_fd), (9, 10));
    // dup of a kernel descriptor hands out nothing before the kernel answered.
    assert_eq!(handle_dup(&mut fd_table, 4), DupStep::Inject(50));
    assert_eq!(fd_table.translate(11), None);
}
