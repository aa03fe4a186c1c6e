use euralios::fs::{
    mount, open, read_dir, resolve, write_reply_result, File, FileServer, FsFile, Vfs,
};
use euralios::message::{MessageData, SyscallError, DATA, OK, O_READ};

fn ram_server() -> FileServer {
    FileServer { files: Vec::new(), alive: true }
}

fn vfs_with_root() -> Vfs {
    let mut vfs = Vfs::new();
    let s0 = vfs.add_server(ram_server());
    mount(&mut vfs, "/", s0).unwrap();
    vfs
}

#[test]
fn mount_of_unknown_server_is_rejected() {
    let mut vfs = Vfs::new();
    assert_eq!(mount(&mut vfs, "/", 0), Err(SyscallError::InvalidParam));
}

#[test]
fn mount_resolution_longest_prefix_wins() {
    let mut vfs = Vfs::new();
    let s0 = vfs.add_server(ram_server());
    let s1 = vfs.add_server(ram_server());
    mount(&mut vfs, "/", s0).unwrap();
    mount(&mut vfs, "/dev/nic", s1).unwrap();

    assert_eq!(resolve(&vfs.mounts, "/dev/nic/foo"), Some(1));
    assert_eq!(resolve(&vfs.mounts, "/etc/hosts"), Some(0));

    // Opening routes to the winning server with the relative path.
    File::create(&mut vfs, "/dev/nic/foo").unwrap();
    let conn = vfs.conns.last().unwrap();
    assert_eq!(conn.server, s1);
    assert_eq!(vfs.servers[s1].files[0].name, "foo");

    File::create(&mut vfs, "/etc/hosts").unwrap();
    let conn = vfs.conns.last().unwrap();
    assert_eq!(conn.server, s0);
    assert_eq!(vfs.servers[s0].files[0].name, "etc/hosts");
}

#[test]
fn open_without_mount_is_not_found() {
    let mut vfs = Vfs::new();
    assert_eq!(open(&mut vfs, "/anything", O_READ), Err(SyscallError::NotFound));
}

#[test]
fn open_missing_file_is_not_found() {
    let mut vfs = vfs_with_root();
    assert_eq!(File::open(&mut vfs, "/missing").unwrap_err(), SyscallError::NotFound);
}

#[test]
fn write_then_read_round_trip() {
    let mut vfs = vfs_with_root();
    let mut f = File::create(&mut vfs, "/notes").unwrap();
    assert_eq!(f.write(&mut vfs, b"hello, disk"), Ok(11));

    let mut g = File::open(&mut vfs, "/notes").unwrap();
    let mut buf = Vec::new();
    assert_eq!(g.read_to_end(&mut vfs, &mut buf), Ok(11));
    assert_eq!(&buf, b"hello, disk");
}

#[test]
fn create_truncates_existing_file() {
    let mut vfs = vfs_with_root();
    let mut f = File::create(&mut vfs, "/log").unwrap();
    f.write(&mut vfs, b"old contents").unwrap();

    let mut g = File::create(&mut vfs, "/log").unwrap();
    g.write(&mut vfs, b"new").unwrap();

    let mut h = File::open(&mut vfs, "/log").unwrap();
    let mut buf = Vec::new();
    assert_eq!(h.read_to_end(&mut vfs, &mut buf), Ok(3));
    assert_eq!(&buf, b"new");
}

#[test]
fn zero_length_write_returns_ok_zero() {
    let mut vfs = vfs_with_root();
    let mut f = File::create(&mut vfs, "/empty").unwrap();
    assert_eq!(f.write(&mut vfs, &[]), Ok(0));
}

#[test]
fn write_without_permission_is_denied() {
    let mut vfs = vfs_with_root();
    File::create(&mut vfs, "/ro").unwrap();
    let mut f = File::open(&mut vfs, "/ro").unwrap();
    assert_eq!(f.write(&mut vfs, b"x"), Err(SyscallError::PermissionDenied));
}

#[test]
fn read_without_permission_is_denied() {
    let mut vfs = vfs_with_root();
    let mut f = File::create(&mut vfs, "/wo").unwrap();
    let mut buf = Vec::new();
    assert_eq!(f.read_to_end(&mut vfs, &mut buf), Err(SyscallError::PermissionDenied));
}

#[test]
fn dropped_server_gives_channel_closed() {
    let mut vfs = vfs_with_root();
    let mut f = File::create(&mut vfs, "/gone").unwrap();
    vfs.servers[0].alive = false;
    assert_eq!(f.write(&mut vfs, b"x"), Err(SyscallError::ChannelClosed));
    let mut buf = Vec::new();
    assert_eq!(f.read_to_end(&mut vfs, &mut buf), Err(SyscallError::ChannelClosed));
    assert_eq!(File::open(&mut vfs, "/gone").unwrap_err(), SyscallError::ChannelClosed);
}

#[test]
fn write_ack_of_wrong_shape_is_invalid_param() {
    // A server that answers a WRITE with a DATA reply instead of an OK
    // acknowledgement: the client rejects the reply without touching
    // the handle.
    let bad_reply = Ok((
        DATA,
        MessageData::Value(3),
        MessageData::Value(0),
    ));
    assert_eq!(write_reply_result(bad_reply), Err(SyscallError::InvalidParam));

    let good_reply = Ok((OK, MessageData::Value(3), MessageData::Value(0)));
    assert_eq!(write_reply_result(good_reply), Ok(3));

    let error_reply = Err(SyscallError::ChannelClosed);
    assert_eq!(write_reply_result(error_reply), Err(SyscallError::ChannelClosed));
}

#[test]
fn query_parses_server_listing() {
    let mut vfs = Vfs::new();
    let s = vfs.add_server(FileServer {
        files: vec![FsFile { name: "a".to_string(), data: Vec::new() }],
        alive: true,
    });
    mount(&mut vfs, "/x", s).unwrap();

    let mut rd = read_dir(&mut vfs, "/x").unwrap();
    let entry = rd.next().unwrap().unwrap();
    assert_eq!(entry.file_name(), "a");
    assert!(rd.next().is_none());
}

#[test]
fn read_dir_lists_created_files_exactly() {
    let mut vfs = Vfs::new();
    let s = vfs.add_server(ram_server());
    mount(&mut vfs, "/p", s).unwrap();
    File::create(&mut vfs, "/p/f1").unwrap();
    File::create(&mut vfs, "/p/f2").unwrap();
    File::create(&mut vfs, "/p/f3").unwrap();

    let mut rd = read_dir(&mut vfs, "/p").unwrap();
    let mut names = Vec::new();
    while let Some(entry) = rd.next() {
        names.push(entry.unwrap().file_name().to_string());
    }
    names.sort();
    assert_eq!(names, vec!["f1".to_string(), "f2".to_string(), "f3".to_string()]);
}

#[test]
fn read_dir_yields_reverse_listing_order() {
    let mut vfs = Vfs::new();
    let s = vfs.add_server(ram_server());
    mount(&mut vfs, "/p", s).unwrap();
    File::create(&mut vfs, "/p/first").unwrap();
    File::create(&mut vfs, "/p/second").unwrap();

    let mut rd = read_dir(&mut vfs, "/p").unwrap();
    assert_eq!(rd.next().unwrap().unwrap().file_name(), "second");
    assert_eq!(rd.next().unwrap().unwrap().file_name(), "first");
    assert!(rd.next().is_none());
}

#[test]
fn query_on_dead_server_is_channel_closed() {
    let mut vfs = Vfs::new();
    let s = vfs.add_server(ram_server());
    mount(&mut vfs, "/x", s).unwrap();
    vfs.servers[s].alive = false;
    assert_eq!(read_dir(&mut vfs, "/x").unwrap_err(), SyscallError::ChannelClosed);
}

#[test]
fn mount_ties_break_by_insertion_order() {
    let mut vfs = Vfs::new();
    let s0 = vfs.add_server(ram_server());
    let s1 = vfs.add_server(ram_server());
    mount(&mut vfs, "/a", s0).unwrap();
    mount(&mut vfs, "/a", s1).unwrap();
    // Two mounts with equally long prefixes: the earlier one wins.
    assert_eq!(resolve(&vfs.mounts, "/a/x"), Some(0));
}

#[test]
fn longer_prefix_beats_earlier_mount_either_way() {
    let mut vfs = Vfs::new();
    let s0 = vfs.add_server(ram_server());
    let s1 = vfs.add_server(ram_server());
    mount(&mut vfs, "/dev/nic", s0).unwrap();
    mount(&mut vfs, "/", s1).unwrap();
    assert_eq!(resolve(&vfs.mounts, "/dev/nic/foo"), Some(0));
    assert_eq!(resolve(&vfs.mounts, "/var/log"), Some(1));
}
