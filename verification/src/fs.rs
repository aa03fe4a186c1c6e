//! The filesystem namespace and client library.
//!
//! A mount table maps absolute path prefixes to file servers; the
//! longest matching prefix wins and ties break by insertion order.  A
//! `File` is a handle to a per-client connection obtained from `open`;
//! reads, writes and directory queries are remote calls that exchange
//! tagged messages with the server, and every reply is validated for
//! shape before it is believed.
//!
//! Directory listings travel as a JSON envelope: the server renders its
//! file names as JSON bytes, and the client hands the bytes to a JSON
//! reader and keeps only the `"name"` field of each entry of the
//! `"files"` array.

use vstd::prelude::*;
use crate::message::{CommHandle, MemoryHandle, MessageData, SyscallError};
use crate::message::{DATA, JSON, OK, QUERY, READ, WRITE};
use crate::message::{O_CREATE, O_READ, O_TRUNCATE, O_WRITE};

verus! {

/// A flag bit (a power of two) is set in a flag word, stated
/// arithmetically so that concrete flag words evaluate directly.
pub open spec fn flag_on(flags: u64, bit: u64) -> bool {
    (flags / bit) % 2 == 1
}

/// Whether `flags` has the given power-of-two bit set.
fn flag_set(flags: u64, bit: u64) -> (b: bool)
    requires
        0 < bit,
    ensures
        b == flag_on(flags, bit),
{
    (flags / bit) % 2 == 1
}

/// `p` is a prefix of `s`, character for character.
pub open spec fn is_path_prefix(p: Seq<char>, s: Seq<char>) -> bool {
    p.len() <= s.len() && s.subrange(0, p.len() as int) == p
}

/// The path relative to a matched prefix: the rest of the path, with
/// one separating slash dropped.
pub open spec fn rel_path_spec(prefix: Seq<char>, path: Seq<char>) -> Seq<char> {
    let rest = path.subrange(prefix.len() as int, path.len() as int);
    if rest.len() > 0 && rest[0] == '/' {
        rest.subrange(1, rest.len() as int)
    } else {
        rest
    }
}

/// One entry of the mount table: a path prefix and the server mounted
/// there.
#[derive(Debug)]
pub struct Mount {
    pub prefix: String,
    pub server: usize,
}

/// The mount that covers `path`, scanning from `i` with `best` the
/// winner so far: a matching prefix wins only if strictly longer than
/// the current winner's, so the longest prefix wins and ties keep the
/// earliest mount.
pub open spec fn resolve_from(ms: Seq<Mount>, path: Seq<char>, i: int, best: Option<int>) -> Option<
    int,
>
    decreases ms.len() - i,
{
    if i < 0 || i >= ms.len() {
        best
    } else {
        let better = if is_path_prefix(ms[i].prefix@, path) && (match best {
            None => true,
            Some(b) => ms[i].prefix@.len() > ms[b].prefix@.len(),
        }) {
            Some(i)
        } else {
            best
        };
        resolve_from(ms, path, i + 1, better)
    }
}

/// The index of the mount that covers `path`, if any.
pub open spec fn resolve_index(ms: Seq<Mount>, path: Seq<char>) -> Option<int> {
    resolve_from(ms, path, 0, None)
}

/// `p` is a character-for-character prefix of `s`.
fn str_is_prefix(p: &str, s: &str) -> (b: bool)
    ensures
        b == is_path_prefix(p@, s@),
{
    let plen = p.unicode_len();
    let slen = s.unicode_len();
    if plen > slen {
        return false;
    }
    let mut i: usize = 0;
    while i < plen
        invariant
            i <= plen,
            plen == p@.len(),
            slen == s@.len(),
            plen <= slen,
            forall|k: int| 0 <= k < i ==> p@[k] == s@[k],
        decreases plen - i,
    {
        if p.get_char(i) != s.get_char(i) {
            proof {
                assert(s@.subrange(0, plen as int)[i as int] != p@[i as int]);
            }
            return false;
        }
        i = i + 1;
    }
    proof {
        assert(s@.subrange(0, plen as int) =~= p@);
    }
    true
}

/// Resolve a path against the mount table: the mount with the longest
/// matching prefix, earliest first on ties.
pub fn resolve(mounts: &Vec<Mount>, path: &str) -> (r: Option<usize>)
    ensures
        match r {
            Some(i) => resolve_index(mounts@, path@) == Some(i as int),
            None => resolve_index(mounts@, path@) is None,
        },
{
    let mut best: Option<usize> = None;
    let mut i: usize = 0;
    while i < mounts.len()
        invariant
            i <= mounts@.len(),
            match best {
                Some(b) => b < i && resolve_index(mounts@, path@) == resolve_from(
                    mounts@,
                    path@,
                    i as int,
                    Some(b as int),
                ),
                None => resolve_index(mounts@, path@) == resolve_from(
                    mounts@,
                    path@,
                    i as int,
                    None::<int>,
                ),
            },
        decreases mounts@.len() - i,
    {
        let matched = str_is_prefix(mounts[i].prefix.as_str(), path);
        let better = matched && (match best {
            None => true,
            Some(b) => mounts[i].prefix.as_str().unicode_len() > mounts[b].prefix.as_str().unicode_len(),
        });
        if better {
            best = Some(i);
        }
        i = i + 1;
    }
    best
}

/// A file name the server can render into the JSON envelope verbatim:
/// printable ASCII with no quote or backslash, so no escaping is needed.
pub open spec fn char_ok(c: char) -> bool {
    &&& 32 <= (c as int)
    &&& (c as int) < 127
    &&& !(c as int == 34)
    &&& !(c as int == 92)
}

pub open spec fn name_ok(name: Seq<char>) -> bool {
    forall|i: int| 0 <= i < name.len() ==> char_ok(#[trigger] name[i])
}

/// The bytes of an ASCII name.
pub open spec fn ascii_bytes(name: Seq<char>) -> Seq<u8> {
    Seq::new(name.len(), |i: int| name[i] as u8)
}

/// The JSON object for one directory entry: `{"name":"<name>"}`, or an
/// empty object for a name the envelope cannot carry verbatim.
pub open spec fn entry_bytes(name: Seq<char>) -> Seq<u8> {
    if name_ok(name) {
        seq![123u8, 34u8, 110u8, 97u8, 109u8, 101u8, 34u8, 58u8, 34u8] + ascii_bytes(name)
            + seq![34u8, 125u8]
    } else {
        seq![123u8, 125u8]
    }
}

/// The comma-separated entry objects.
pub open spec fn entries_bytes(names: Seq<Seq<char>>) -> Seq<u8>
    decreases names.len(),
{
    if names.len() == 0 {
        Seq::empty()
    } else if names.len() == 1 {
        entry_bytes(names[0])
    } else {
        entries_bytes(names.drop_last()) + seq![44u8] + entry_bytes(names.last())
    }
}

/// The whole directory listing: `{"files":[<entries>]}`.
pub open spec fn dir_json(names: Seq<Seq<char>>) -> Seq<u8> {
    seq![123u8, 34u8, 102u8, 105u8, 108u8, 101u8, 115u8, 34u8, 58u8, 91u8]
        + entries_bytes(names) + seq![93u8, 125u8]
}

/// One file a server holds: a name and its current bytes.
#[derive(Debug)]
pub struct FsFile {
    pub name: String,
    pub data: Vec<u8>,
}

/// The names of a server's files, in order.
pub open spec fn file_names(files: Seq<FsFile>) -> Seq<Seq<char>> {
    files.map(|i: int, f: FsFile| f.name@)
}

/// Append a byte slice.
fn push_bytes(out: &mut Vec<u8>, b: &[u8])
    ensures
        final(out)@ == old(out)@ + b@,
{
    let mut i: usize = 0;
    while i < b.len()
        invariant
            i <= b@.len(),
            out@ == old(out)@ + b@.subrange(0, i as int),
        decreases b@.len() - i,
    {
        out.push(b[i]);
        proof {
            assert(out@ =~= old(out)@ + b@.subrange(0, i + 1));
        }
        i = i + 1;
    }
    proof {
        assert(out@ =~= old(out)@ + b@);
    }
}

/// Whether the name can be rendered verbatim.
fn check_name_ok(name: &str) -> (b: bool)
    ensures
        b == name_ok(name@),
{
    let n = name.unicode_len();
    let mut i: usize = 0;
    while i < n
        invariant
            i <= n,
            n == name@.len(),
            forall|k: int| 0 <= k < i ==> char_ok(#[trigger] name@[k]),
        decreases n - i,
    {
        let c = name.get_char(i) as u32;
        if c < 32 || c >= 127 || c == 34 || c == 92 {
            return false;
        }
        i = i + 1;
    }
    true
}

/// Append one entry object.
fn push_entry(out: &mut Vec<u8>, name: &str)
    ensures
        final(out)@ == old(out)@ + entry_bytes(name@),
{
    if !check_name_ok(name) {
        out.push(123u8);
        out.push(125u8);
        proof {
            assert(out@ =~= old(out)@ + entry_bytes(name@));
        }
        return ;
    }
    let ghost mark0 = out@;
    out.push(123u8);
    out.push(34u8);
    out.push(110u8);
    out.push(97u8);
    out.push(109u8);
    out.push(101u8);
    out.push(34u8);
    out.push(58u8);
    out.push(34u8);
    proof {
        assert(out@ =~= mark0 + seq![123u8, 34u8, 110u8, 97u8, 109u8, 101u8, 34u8, 58u8, 34u8]);
    }
    let ghost mark1 = out@;
    let n = name.unicode_len();
    let mut i: usize = 0;
    while i < n
        invariant
            i <= n,
            n == name@.len(),
            name_ok(name@),
            out@ == mark1 + ascii_bytes(name@).subrange(0, i as int),
        decreases n - i,
    {
        let c = name.get_char(i) as u32;
        out.push(c as u8);
        proof {
            assert(ascii_bytes(name@)[i as int] == name@[i as int] as u8);
            assert(out@ =~= mark1 + ascii_bytes(name@).subrange(0, i + 1));
        }
        i = i + 1;
    }
    proof {
        assert(out@ =~= mark1 + ascii_bytes(name@));
    }
    out.push(34u8);
    out.push(125u8);
    proof {
        assert(out@ =~= old(out)@ + entry_bytes(name@));
    }
}

/// Render a server's directory listing as JSON bytes.
fn build_dir_json(files: &Vec<FsFile>) -> (r: Vec<u8>)
    ensures
        r@ == dir_json(file_names(files@)),
{
    let mut out: Vec<u8> = Vec::new();
    out.push(123u8);
    out.push(34u8);
    out.push(102u8);
    out.push(105u8);
    out.push(108u8);
    out.push(101u8);
    out.push(115u8);
    out.push(34u8);
    out.push(58u8);
    out.push(91u8);
    let ghost names = file_names(files@);
    proof {
        assert(out@ =~= seq![
            123u8, 34u8, 102u8, 105u8, 108u8, 101u8, 115u8, 34u8, 58u8, 91u8]
            + entries_bytes(names.subrange(0, 0)));
    }
    let mut i: usize = 0;
    while i < files.len()
        invariant
            i <= files@.len(),
            names == file_names(files@),
            out@ == seq![123u8, 34u8, 102u8, 105u8, 108u8, 101u8, 115u8, 34u8, 58u8, 91u8]
                + entries_bytes(names.subrange(0, i as int)),
        decreases files@.len() - i,
    {
        if i > 0 {
            out.push(44u8);
        }
        push_entry(&mut out, files[i].name.as_str());
        proof {
            let done = names.subrange(0, i + 1);
            assert(names[i as int] == files@[i as int].name@);
            if i > 0 {
                assert(done.drop_last() =~= names.subrange(0, i as int));
                assert(done.last() == names[i as int]);
            }
            assert(out@ =~= seq![
                123u8, 34u8, 102u8, 105u8, 108u8, 101u8, 115u8, 34u8, 58u8, 91u8]
                + entries_bytes(done));
        }
        i = i + 1;
    }
    proof {
        assert(names.subrange(0, names.len() as int) =~= names);
    }
    out.push(93u8);
    out.push(125u8);
    proof {
        assert(out@ =~= dir_json(names));
    }
    out
}

/// What an open connection points at on its server: the served
/// directory itself, or one of its files.
#[derive(Clone, Copy, Debug)]
pub enum ConnTarget {
    Directory,
    Entry(usize),
}

/// A per-client connection handed out by `open`: the server, the
/// target, the flags granted at open, and whether the connection is
/// still open.
#[derive(Clone, Copy)]
#[derive(Debug)]
pub struct OpenConn {
    pub server: usize,
    pub target: ConnTarget,
    pub flags: u64,
    pub open: bool,
}

/// A file server: the files it serves, and whether its endpoint is
/// still alive (a dropped server closes every channel to it).
#[derive(Debug)]
pub struct FileServer {
    pub files: Vec<FsFile>,
    pub alive: bool,
}

/// The filesystem namespace: the servers, the mount table, and the open
/// connections.
#[derive(Debug)]
pub struct Vfs {
    pub servers: Vec<FileServer>,
    pub mounts: Vec<Mount>,
    pub conns: Vec<OpenConn>,
}

/// Namespace invariant: every mount and connection names a real server,
/// and every file connection a real file.
pub open spec fn vfs_wf(v: Vfs) -> bool {
    &&& (forall|i: int|
        0 <= i < v.mounts@.len() ==> (#[trigger] v.mounts@[i]).server < v.servers@.len())
    &&& (forall|i: int|
        0 <= i < v.conns@.len() ==> (#[trigger] v.conns@[i]).server < v.servers@.len())
    &&& (forall|i: int|
        0 <= i < v.conns@.len() ==> ((#[trigger] v.conns@[i]).target matches ConnTarget::Entry(
            f,
        ) ==> f < v.servers@[v.conns@[i].server as int].files@.len()))
}

impl Vfs {
    /// An empty namespace.
    pub fn new() -> (v: Vfs)
        ensures
            vfs_wf(v),
            v.servers@.len() == 0,
            v.mounts@.len() == 0,
            v.conns@.len() == 0,
    {
        Vfs { servers: Vec::new(), mounts: Vec::new(), conns: Vec::new() }
    }

    /// Add a file server to the namespace, returning its endpoint
    /// number; `mount` binds it to a path prefix.
    pub fn add_server(&mut self, server: FileServer) -> (r: usize)
        requires
            vfs_wf(*old(self)),
        ensures
            vfs_wf(*final(self)),
            final(self).servers@ == old(self).servers@.push(server),
            final(self).mounts@ == old(self).mounts@,
            final(self).conns@ == old(self).conns@,
            r == old(self).servers@.len(),
    {
        let r = self.servers.len();
        self.servers.push(server);
        r
    }
}

/// Register a server endpoint under a path prefix.  Mount registration
/// is append-only; a mount of an endpoint that names no server is
/// rejected.
pub fn mount(vfs: &mut Vfs, path: &str, server: usize) -> (r: Result<(), SyscallError>)
    requires
        vfs_wf(*old(vfs)),
    ensures
        vfs_wf(*final(vfs)),
        server < old(vfs).servers@.len() ==> r == Ok::<(), SyscallError>(())
            && final(vfs).mounts@.len() == old(vfs).mounts@.len() + 1
            && final(vfs).mounts@.subrange(0, old(vfs).mounts@.len() as int) == old(vfs).mounts@
            && final(vfs).mounts@.last().prefix@ == path@
            && final(vfs).mounts@.last().server == server,
        !(server < old(vfs).servers@.len()) ==> r == Err::<(), SyscallError>(
            SyscallError::InvalidParam,
        ) && *final(vfs) == *old(vfs),
        final(vfs).servers@ == old(vfs).servers@,
        final(vfs).conns@ == old(vfs).conns@,
{
    if server >= vfs.servers.len() {
        return Err(SyscallError::InvalidParam);
    }
    vfs.mounts.push(Mount { prefix: path.to_owned(), server });
    proof {
        assert(vfs.mounts@.subrange(0, old(vfs).mounts@.len() as int) =~= old(vfs).mounts@);
    }
    Ok(())
}

/// The first file of `files` named `name`, scanning from `i`.
pub open spec fn find_file_from(files: Seq<FsFile>, name: Seq<char>, i: int) -> Option<int>
    decreases files.len() - i,
{
    if i < 0 || i >= files.len() {
        None
    } else if files[i].name@ == name {
        Some(i)
    } else {
        find_file_from(files, name, i + 1)
    }
}

/// The first file of `files` named `name`.
pub open spec fn find_file(files: Seq<FsFile>, name: Seq<char>) -> Option<int> {
    find_file_from(files, name, 0)
}

/// Two strings hold the same characters.
fn str_equal(a: &str, b: &str) -> (r: bool)
    ensures
        r == (a@ == b@),
{
    let alen = a.unicode_len();
    let blen = b.unicode_len();
    if alen != blen {
        return false;
    }
    let mut i: usize = 0;
    while i < alen
        invariant
            i <= alen,
            alen == a@.len(),
            alen == b@.len(),
            forall|k: int| 0 <= k < i ==> a@[k] == b@[k],
        decreases alen - i,
    {
        if a.get_char(i) != b.get_char(i) {
            return false;
        }
        i = i + 1;
    }
    proof {
        assert(a@ =~= b@);
    }
    true
}

/// The index of the first file named `name`, if any.
fn find_file_index(files: &Vec<FsFile>, name: &str) -> (r: Option<usize>)
    ensures
        match r {
            Some(i) => find_file(files@, name@) == Some(i as int),
            None => find_file(files@, name@) is None,
        },
{
    let mut i: usize = 0;
    while i < files.len()
        invariant
            i <= files@.len(),
            find_file(files@, name@) == find_file_from(files@, name@, i as int),
        decreases files@.len() - i,
    {
        if str_equal(files[i].name.as_str(), name) {
            return Some(i);
        }
        i = i + 1;
    }
    None
}

/// A mount the resolver returns has a matching prefix.
proof fn lemma_resolve_is_prefix(ms: Seq<Mount>, path: Seq<char>, i: int, best: Option<int>)
    requires
        best matches Some(b) ==> 0 <= b < ms.len() && is_path_prefix(ms[b].prefix@, path),
    ensures
        resolve_from(ms, path, i, best) matches Some(x) ==> 0 <= x < ms.len()
            && is_path_prefix(ms[x].prefix@, path),
    decreases ms.len() - i,
{
    if 0 <= i < ms.len() {
        let better = if is_path_prefix(ms[i].prefix@, path) && (match best {
            None => true,
            Some(b) => ms[i].prefix@.len() > ms[b].prefix@.len(),
        }) {
            Some(i)
        } else {
            best
        };
        lemma_resolve_is_prefix(ms, path, i + 1, better);
    }
}

/// How a server changes when bytes are appended to one of its files.
pub open spec fn file_appended(pre: FileServer, post: FileServer, fi: int, bytes: Seq<u8>) -> bool {
    &&& post.alive == pre.alive
    &&& post.files@.len() == pre.files@.len()
    &&& (forall|k: int| 0 <= k < pre.files@.len() && k != fi ==> post.files@[k] == pre.files@[k])
    &&& post.files@[fi].name@ == pre.files@[fi].name@
    &&& post.files@[fi].data@ == pre.files@[fi].data@ + bytes
}

/// How a server changes when one of its files is truncated.
pub open spec fn file_truncated(pre: FileServer, post: FileServer, fi: int) -> bool {
    &&& post.alive == pre.alive
    &&& post.files@.len() == pre.files@.len()
    &&& (forall|k: int| 0 <= k < pre.files@.len() && k != fi ==> post.files@[k] == pre.files@[k])
    &&& post.files@[fi].name@ == pre.files@[fi].name@
    &&& post.files@[fi].data@ == Seq::<u8>::empty()
}

/// How a server changes when an empty file is created.
pub open spec fn file_created(pre: FileServer, post: FileServer, name: Seq<char>) -> bool {
    &&& post.alive == pre.alive
    &&& post.files@.len() == pre.files@.len() + 1
    &&& post.files@.subrange(0, pre.files@.len() as int) == pre.files@
    &&& post.files@.last().name@ == name
    &&& post.files@.last().data@ == Seq::<u8>::empty()
}

/// The reply a server gives, and how its state changes, for one
/// request: the shared statement of the wire protocol.
pub open spec fn reply_spec(
    pre: FileServer,
    post: FileServer,
    target: ConnTarget,
    flags: u64,
    tag: u64,
    data1: MessageData,
    data2: MessageData,
    r: Result<(u64, MessageData, MessageData), SyscallError>,
) -> bool {
    &&& post.alive == pre.alive
    &&& post.files@.len() >= pre.files@.len()
    &&& tag == READ ==> match target {
            ConnTarget::Entry(fi) => if flag_on(flags, O_READ) {
                &&& post == pre
                &&& (r matches Ok((t, d1, d2)) && t == DATA && (d1 matches MessageData::Value(
                    len,
                ) && len == pre.files@[fi as int].data@.len()) && (
                d2 matches MessageData::MemoryHandle(h) && h.bytes@ == pre.files@[
                    fi as int
                ].data@))
            } else {
                r == Err::<(u64, MessageData, MessageData), SyscallError>(
                    SyscallError::PermissionDenied,
                ) && post == pre
            },
            ConnTarget::Directory => r == Err::<(u64, MessageData, MessageData), SyscallError>(
                SyscallError::InvalidParam,
            ) && post == pre,
        }
    &&& tag == WRITE ==> match target {
            ConnTarget::Entry(fi) => if flag_on(flags, O_WRITE) {
                match (data1, data2) {
                    (MessageData::Value(len), MessageData::MemoryHandle(h)) => if len
                        == h.bytes@.len() {
                        &&& file_appended(pre, post, fi as int, h.bytes@)
                        &&& (r matches Ok((t, d1, d2)) && t == OK && d1 == MessageData::Value(
                            h.bytes@.len() as u64,
                        ) && d2 == MessageData::Value(0u64))
                    } else {
                        r == Err::<(u64, MessageData, MessageData), SyscallError>(
                            SyscallError::InvalidParam,
                        ) && post == pre
                    },
                    _ => r == Err::<(u64, MessageData, MessageData), SyscallError>(
                        SyscallError::InvalidParam,
                    ) && post == pre,
                }
            } else {
                r == Err::<(u64, MessageData, MessageData), SyscallError>(
                    SyscallError::PermissionDenied,
                ) && post == pre
            },
            ConnTarget::Directory => r == Err::<(u64, MessageData, MessageData), SyscallError>(
                SyscallError::InvalidParam,
            ) && post == pre,
        }
    &&& tag == QUERY ==> post == pre && (r matches Ok((t, d1, d2)) && t
            == JSON && d1 == MessageData::Value(
            dir_json(file_names(pre.files@)).len() as u64,
        ) && (d2 matches MessageData::MemoryHandle(h) && h.bytes@ == dir_json(
            file_names(pre.files@),
        )))
    &&& !(tag == READ || tag == WRITE || tag == QUERY) ==> r == Err::<
            (u64, MessageData, MessageData),
            SyscallError,
        >(SyscallError::InvalidParam) && post == pre
}

/// Handle one request at a server: validate the tag and payload shape,
/// check the flags granted at open, and produce the reply.  The shapes
/// on the wire are the stable ones: `READ` answers `(DATA, len, pages)`,
/// `WRITE` answers `(OK, written, 0)`, `QUERY` answers `(JSON, len,
/// pages)` with the directory listing.
fn server_handle(
    server: &mut FileServer,
    target: ConnTarget,
    flags: u64,
    tag: u64,
    data1: MessageData,
    data2: MessageData,
) -> (r: Result<(u64, MessageData, MessageData), SyscallError>)
    requires
        target matches ConnTarget::Entry(fi) ==> fi < old(server).files@.len(),
    ensures
        reply_spec(*old(server), *final(server), target, flags, tag, data1, data2, r),
{
    if tag == READ {
        match target {
            ConnTarget::Entry(fi) => {
                if !flag_set(flags, O_READ) {
                    return Err(SyscallError::PermissionDenied);
                }
                let len = server.files[fi].data.len();
                let handle = MemoryHandle::from_u8_slice(server.files[fi].data.as_slice());
                Ok(
                    (
                        DATA,
                        MessageData::Value(len as u64),
                        MessageData::MemoryHandle(handle),
                    ),
                )
            },
            ConnTarget::Directory => Err(SyscallError::InvalidParam),
        }
    } else if tag == WRITE {
        match target {
            ConnTarget::Entry(fi) => {
                if !flag_set(flags, O_WRITE) {
                    return Err(SyscallError::PermissionDenied);
                }
                match (data1, data2) {
                    (MessageData::Value(len), MessageData::MemoryHandle(h)) => {
                        if len != h.bytes.len() as u64 {
                            return Err(SyscallError::InvalidParam);
                        }
                        let written = h.bytes.len();
                        let file = &mut server.files[fi];
                        push_bytes(&mut file.data, h.bytes.as_slice());
                        Ok(
                            (
                                OK,
                                MessageData::Value(written as u64),
                                MessageData::Value(0u64),
                            ),
                        )
                    },
                    _ => Err(SyscallError::InvalidParam),
                }
            },
            ConnTarget::Directory => Err(SyscallError::InvalidParam),
        }
    } else if tag == QUERY {
        let json = build_dir_json(&server.files);
        let len = json.len();
        Ok(
            (
                JSON,
                MessageData::Value(len as u64),
                MessageData::MemoryHandle(MemoryHandle { bytes: json }),
            ),
        )
    } else {
        Err(SyscallError::InvalidParam)
    }
}


/// A found file index is in range and names the file.
proof fn lemma_find_file_in_range(files: Seq<FsFile>, name: Seq<char>, i: int)
    ensures
        find_file_from(files, name, i) matches Some(x) ==> i <= x < files.len() && files[
            x
        ].name@ == name,
    decreases files.len() - i,
{
    if 0 <= i < files.len() {
        lemma_find_file_in_range(files, name, i + 1);
    }
}

/// Handing out one more connection keeps the namespace invariant, as
/// long as no server's file list shrank.
proof fn lemma_wf_push_conn(pre: Vfs, post: Vfs, c: OpenConn)
    requires
        vfs_wf(pre),
        post.mounts@ == pre.mounts@,
        post.conns@ == pre.conns@.push(c),
        post.servers@.len() == pre.servers@.len(),
        forall|j: int|
            0 <= j < pre.servers@.len() ==> (#[trigger] post.servers@[j]).files@.len()
                >= pre.servers@[j].files@.len(),
        c.server < post.servers@.len(),
        c.target matches ConnTarget::Entry(f) ==> f < post.servers@[c.server as int].files@.len(),
    ensures
        vfs_wf(post),
{
    assert forall|i: int| 0 <= i < post.conns@.len() implies ((#[trigger] post.conns@[i]).server
        < post.servers@.len() && (post.conns@[i].target matches ConnTarget::Entry(f) ==> f
        < post.servers@[post.conns@[i].server as int].files@.len())) by {
        if i < pre.conns@.len() {
            assert(post.conns@[i] == pre.conns@[i]);
            assert(pre.conns@[i].server < pre.servers@.len());
            assert(post.servers@[pre.conns@[i].server as int].files@.len() >= pre.servers@[
                pre.conns@[i].server as int
            ].files@.len());
        }
    }
}

/// All servers except the one at `si` are unchanged.
pub open spec fn servers_equal_except(pre: Seq<FileServer>, post: Seq<FileServer>, si: int) -> bool {
    post.len() == pre.len() && (forall|j: int|
        0 <= j < pre.len() && j != si ==> post[j] == pre[j])
}

/// What `open` does: resolve the mount, reach the server, and hand out
/// a fresh per-client connection — to the served directory for an empty
/// relative path, else to the named file, created first under `O_CREATE`
/// and emptied under `O_TRUNCATE`.
pub open spec fn open_outcome(
    pre: Vfs,
    post: Vfs,
    path: Seq<char>,
    flags: u64,
    r: Result<CommHandle, SyscallError>,
) -> bool {
    match resolve_index(pre.mounts@, path) {
        None => r == Err::<CommHandle, SyscallError>(SyscallError::NotFound) && post == pre,
        Some(mi) => {
            let si = pre.mounts@[mi].server as int;
            let server = pre.servers@[si];
            let rel = rel_path_spec(pre.mounts@[mi].prefix@, path);
            if !server.alive {
                r == Err::<CommHandle, SyscallError>(SyscallError::ChannelClosed) && post == pre
            } else if rel.len() == 0 {
                &&& (r matches Ok(h) && h.handle == pre.conns@.len())
                &&& post.servers@ == pre.servers@
                &&& post.mounts@ == pre.mounts@
                &&& post.conns@ == pre.conns@.push(
                    (OpenConn {
                        server: pre.mounts@[mi].server,
                        target: ConnTarget::Directory,
                        flags,
                        open: true,
                    }),
                )
            } else {
                match find_file(server.files@, rel) {
                    Some(fi) => {
                        &&& (r matches Ok(h) && h.handle == pre.conns@.len())
                        &&& post.mounts@ == pre.mounts@
                        &&& post.conns@ == pre.conns@.push(
                            (OpenConn {
                                server: pre.mounts@[mi].server,
                                target: ConnTarget::Entry(fi as usize),
                                flags,
                                open: true,
                            }),
                        )
                        &&& if flag_on(flags, O_TRUNCATE) {
                            servers_equal_except(pre.servers@, post.servers@, si)
                                && file_truncated(server, post.servers@[si], fi)
                        } else {
                            post.servers@ == pre.servers@
                        }
                    },
                    None => if flag_on(flags, O_CREATE) {
                        &&& (r matches Ok(h) && h.handle == pre.conns@.len())
                        &&& post.mounts@ == pre.mounts@
                        &&& post.conns@ == pre.conns@.push(
                            (OpenConn {
                                server: pre.mounts@[mi].server,
                                target: ConnTarget::Entry(server.files@.len() as usize),
                                flags,
                                open: true,
                            }),
                        )
                        &&& servers_equal_except(pre.servers@, post.servers@, si)
                        &&& file_created(server, post.servers@[si], rel)
                    } else {
                        r == Err::<CommHandle, SyscallError>(SyscallError::NotFound) && post
                            == pre
                    },
                }
            }
        },
    }
}

/// Open a path: resolve the covering mount, then obtain a per-client
/// connection from its server.  `NotFound` when no mount covers the
/// path or the file does not exist and `O_CREATE` is not set;
/// `ChannelClosed` when the server's endpoint has been dropped.
pub fn open(vfs: &mut Vfs, path: &str, flags: u64) -> (r: Result<CommHandle, SyscallError>)
    requires
        vfs_wf(*old(vfs)),
    ensures
        vfs_wf(*final(vfs)),
        open_outcome(*old(vfs), *final(vfs), path@, flags, r),
{
    let mi = match resolve(&vfs.mounts, path) {
        Some(mi) => mi,
        None => {
            return Err(SyscallError::NotFound);
        },
    };
    proof {
        lemma_resolve_is_prefix(vfs.mounts@, path@, 0, None);
    }
    let si = vfs.mounts[mi].server;
    if !vfs.servers[si].alive {
        return Err(SyscallError::ChannelClosed);
    }

    let plen = vfs.mounts[mi].prefix.as_str().unicode_len();
    let slen = path.unicode_len();
    let rest = path.substring_char(plen, slen);
    let rest_len = rest.unicode_len();
    let rel: &str = if rest_len > 0 && rest.get_char(0) == '/' {
        rest.substring_char(1, rest_len)
    } else {
        rest
    };
    proof {
        assert(rel@ == rel_path_spec(vfs.mounts@[mi as int].prefix@, path@));
    }

    let handle = CommHandle { handle: vfs.conns.len() };
    let ghost pre = *vfs;
    if rel.unicode_len() == 0 {
        let c = OpenConn { server: si, target: ConnTarget::Directory, flags, open: true };
        vfs.conns.push(c);
        proof {
            lemma_wf_push_conn(pre, *vfs, c);
        }
        return Ok(handle);
    }
    match find_file_index(&vfs.servers[si].files, rel) {
        Some(fi) => {
            proof {
                lemma_find_file_in_range(vfs.servers@[si as int].files@, rel@, 0);
            }
            if flag_set(flags, O_TRUNCATE) {
                let server = &mut vfs.servers[si];
                let file = &mut server.files[fi];
                file.data.clear();
            }
            let c = OpenConn { server: si, target: ConnTarget::Entry(fi), flags, open: true };
            vfs.conns.push(c);
            proof {
                lemma_wf_push_conn(pre, *vfs, c);
            }
            Ok(handle)
        },
        None => {
            if flag_set(flags, O_CREATE) {
                let fi = vfs.servers[si].files.len();
                let server = &mut vfs.servers[si];
                let ghost pre_files = server.files@;
                server.files.push(FsFile { name: rel.to_owned(), data: Vec::new() });
                proof {
                    assert(server.files@.subrange(0, fi as int) =~= pre_files);
                }
                let c = OpenConn { server: si, target: ConnTarget::Entry(fi), flags, open: true };
                vfs.conns.push(c);
                proof {
                    lemma_wf_push_conn(pre, *vfs, c);
                }
                Ok(handle)
            } else {
                Err(SyscallError::NotFound)
            }
        },
    }
}

/// What `rcall` does: a closed or dangling handle fails, a dropped peer
/// gives `ChannelClosed`, and otherwise the request reaches the
/// connection's server and the reply follows the wire protocol.
pub open spec fn rcall_outcome(
    pre: Vfs,
    post: Vfs,
    handle: CommHandle,
    tag: u64,
    data1: MessageData,
    data2: MessageData,
    r: Result<(u64, MessageData, MessageData), SyscallError>,
) -> bool {
    if handle.handle >= pre.conns@.len() {
        r == Err::<(u64, MessageData, MessageData), SyscallError>(SyscallError::InvalidParam)
            && post == pre
    } else {
        let c = pre.conns@[handle.handle as int];
        let si = c.server as int;
        if !c.open || !pre.servers@[si].alive {
            r == Err::<(u64, MessageData, MessageData), SyscallError>(
                SyscallError::ChannelClosed,
            ) && post == pre
        } else {
            &&& post.mounts@ == pre.mounts@
            &&& post.conns@ == pre.conns@
            &&& servers_equal_except(pre.servers@, post.servers@, si)
            &&& reply_spec(
                pre.servers@[si],
                post.servers@[si],
                c.target,
                c.flags,
                tag,
                data1,
                data2,
                r,
            )
        }
    }
}

/// Remote call: send a request over the handle together with a fresh
/// reply endpoint, then receive exactly one reply on it.  The peer
/// server is reached synchronously; a dropped peer gives
/// `ChannelClosed`.  `reply_to` names a reply endpoint to reuse in
/// place of an anonymous one; the model's reply path is the same
/// either way.
pub fn rcall(
    vfs: &mut Vfs,
    handle: &CommHandle,
    tag: u64,
    data1: MessageData,
    data2: MessageData,
    reply_to: Option<CommHandle>,
) -> (r: Result<(u64, MessageData, MessageData), SyscallError>)
    requires
        vfs_wf(*old(vfs)),
    ensures
        vfs_wf(*final(vfs)),
        rcall_outcome(*old(vfs), *final(vfs), *handle, tag, data1, data2, r),
{
    let _ = reply_to;
    if handle.handle >= vfs.conns.len() {
        return Err(SyscallError::InvalidParam);
    }
    let conn = vfs.conns[handle.handle];
    if !conn.open {
        return Err(SyscallError::ChannelClosed);
    }
    if !vfs.servers[conn.server].alive {
        return Err(SyscallError::ChannelClosed);
    }
    let server = &mut vfs.servers[conn.server];
    server_handle(server, conn.target, conn.flags, tag, data1, data2)
}


/// The view of a parsed listing: each entry's name, or `None` for an
/// entry without a string `"name"` field.
pub open spec fn names_seq(v: Seq<Option<String>>) -> Seq<Option<Seq<char>>> {
    v.map(
        |i: int, o: Option<String>|
            match o {
                Some(s) => Some(s@),
                None => None,
            },
    )
}

pub open spec fn names_view(r: Option<Vec<Option<String>>>) -> Option<Seq<Option<Seq<char>>>> {
    match r {
        Some(v) => Some(names_seq(v@)),
        None => None,
    }
}

/// What the JSON reader extracts from a listing: for each element of
/// the `"files"` array, its string `"name"` field if it has one; `None`
/// for bytes that do not parse as JSON.  A parsed value without a
/// `"files"` array gives an empty listing.  A function of the bytes
/// alone.
pub uninterp spec fn dir_names_of(bytes: Seq<u8>) -> Option<Seq<Option<Seq<char>>>>;

/// Relies on serde_json::from_slice and Value::get, Value::as_array,
/// Value::as_str: what they extract is a function of the bytes alone.
#[verifier::external_body]
fn parse_dir_names(bytes: &[u8]) -> (r: Option<Vec<Option<String>>>)
    ensures
        names_view(r) == dir_names_of(bytes@),
{
    let value: serde_json::Value = match serde_json::from_slice(bytes) {
        Ok(value) => value,
        Err(_) => return None,
    };
    let entries = match value.get("files").and_then(|f| f.as_array()) {
        Some(entries) => entries.as_slice(),
        None => &[],
    };
    Some(
        entries.iter().map(
            |entry| entry.get("name").and_then(|n| n.as_str()).map(|s| s.to_string()),
        ).collect(),
    )
}

/// The result of a `File` query: the directory listing the server
/// described, one optional name per entry.
#[derive(Debug)]
pub struct FileQuery(pub Vec<Option<String>>);

/// Represents an open file: a wrapper around the communication handle
/// of its per-client connection.
#[derive(Debug)]
pub struct File(pub CommHandle);


/// The namespace is unchanged except possibly at server `si`, where it
/// is also unchanged — stated componentwise, as the dispatcher reports
/// it.
pub open spec fn namespace_kept(pre: Vfs, post: Vfs, si: int) -> bool {
    &&& post.mounts@ == pre.mounts@
    &&& post.conns@ == pre.conns@
    &&& servers_equal_except(pre.servers@, post.servers@, si)
    &&& post.servers@[si] == pre.servers@[si]
}

/// What `File::write` does: append the bytes to the connection's file
/// and return how many were written; `InvalidParam` on a dangling
/// handle or a directory connection, `ChannelClosed` on a dropped
/// peer, `PermissionDenied` without `O_WRITE`.
pub open spec fn write_outcome(
    pre: Vfs,
    post: Vfs,
    handle: CommHandle,
    bytes: Seq<u8>,
    r: Result<usize, SyscallError>,
) -> bool {
    if handle.handle >= pre.conns@.len() {
        r == Err::<usize, SyscallError>(SyscallError::InvalidParam) && post == pre
    } else {
        let c = pre.conns@[handle.handle as int];
        let si = c.server as int;
        if !c.open || !pre.servers@[si].alive {
            r == Err::<usize, SyscallError>(SyscallError::ChannelClosed) && post == pre
        } else {
            match c.target {
                ConnTarget::Directory => r == Err::<usize, SyscallError>(
                    SyscallError::InvalidParam,
                ) && namespace_kept(pre, post, si),
                ConnTarget::Entry(fi) => if flag_on(c.flags, O_WRITE) {
                    &&& r == Ok::<usize, SyscallError>(bytes.len() as usize)
                    &&& post.mounts@ == pre.mounts@
                    &&& post.conns@ == pre.conns@
                    &&& servers_equal_except(pre.servers@, post.servers@, si)
                    &&& file_appended(pre.servers@[si], post.servers@[si], fi as int, bytes)
                } else {
                    r == Err::<usize, SyscallError>(SyscallError::PermissionDenied)
                        && namespace_kept(pre, post, si)
                },
            }
        }
    }
}


/// A request that does not change any server (a read or a query)
/// leaves the namespace as it was: unchanged outright when the handle
/// never reached a server, componentwise otherwise.
pub open spec fn vfs_kept(pre: Vfs, post: Vfs, handle: CommHandle) -> bool {
    if handle.handle >= pre.conns@.len() {
        post == pre
    } else {
        let c = pre.conns@[handle.handle as int];
        if !c.open || !pre.servers@[c.server as int].alive {
            post == pre
        } else {
            namespace_kept(pre, post, c.server as int)
        }
    }
}

/// What `File::read_to_end` does: append the whole file to `buf` and
/// return its length, leaving the namespace unchanged.
pub open spec fn read_outcome(
    pre: Vfs,
    handle: CommHandle,
    buf_pre: Seq<u8>,
    buf_post: Seq<u8>,
    r: Result<usize, SyscallError>,
) -> bool {
    if handle.handle >= pre.conns@.len() {
        r == Err::<usize, SyscallError>(SyscallError::InvalidParam) && buf_post == buf_pre
    } else {
        let c = pre.conns@[handle.handle as int];
        let si = c.server as int;
        if !c.open || !pre.servers@[si].alive {
            r == Err::<usize, SyscallError>(SyscallError::ChannelClosed) && buf_post == buf_pre
        } else {
            match c.target {
                ConnTarget::Directory => r == Err::<usize, SyscallError>(
                    SyscallError::InvalidParam,
                ) && buf_post == buf_pre,
                ConnTarget::Entry(fi) => if flag_on(c.flags, O_READ) {
                    let data = pre.servers@[si].files@[fi as int].data@;
                    r == Ok::<usize, SyscallError>(data.len() as usize) && buf_post == buf_pre
                        + data
                } else {
                    r == Err::<usize, SyscallError>(SyscallError::PermissionDenied) && buf_post
                        == buf_pre
                },
            }
        }
    }
}

/// What `File::query` does: hand the server's JSON listing to the JSON
/// reader; an unreadable listing is `InvalidParam`.
pub open spec fn query_outcome(pre: Vfs, handle: CommHandle, r: Result<
    FileQuery,
    SyscallError,
>) -> bool {
    if handle.handle >= pre.conns@.len() {
        r == Err::<FileQuery, SyscallError>(SyscallError::InvalidParam)
    } else {
        let c = pre.conns@[handle.handle as int];
        let si = c.server as int;
        if !c.open || !pre.servers@[si].alive {
            r == Err::<FileQuery, SyscallError>(SyscallError::ChannelClosed)
        } else {
            match dir_names_of(dir_json(file_names(pre.servers@[si].files@))) {
                None => r == Err::<FileQuery, SyscallError>(SyscallError::InvalidParam),
                Some(ns) => r matches Ok(q) && names_seq(q.0@) == ns,
            }
        }
    }
}

/// Interpret the reply to a `WRITE`: only `(OK, sent, _)` is a write
/// acknowledgement; an error reply propagates, and any other shape —
/// a `DATA` reply among them — is `InvalidParam`.
pub fn write_reply_result(reply: Result<(u64, MessageData, MessageData), SyscallError>) -> (r:
    Result<usize, SyscallError>)
    ensures
        r == (match reply {
            Ok((t, d1, d2)) => if t == OK && (d1 matches MessageData::Value(sent)) {
                Ok::<usize, SyscallError>((d1->Value_0) as usize)
            } else {
                Err::<usize, SyscallError>(SyscallError::InvalidParam)
            },
            Err(e) => Err::<usize, SyscallError>(e),
        }),
{
    match reply {
        Ok((tag, MessageData::Value(sent), _)) => {
            if tag == OK {
                Ok(sent as usize)
            } else {
                Err(SyscallError::InvalidParam)
            }
        },
        Err(e) => Err(e),
        _ => Err(SyscallError::InvalidParam),
    }
}

impl File {
    /// Opens a file in write-only mode, creating it if it does not
    /// exist and truncating it if it does.
    pub fn create(vfs: &mut Vfs, path: &str) -> (r: Result<File, SyscallError>)
        requires
            vfs_wf(*old(vfs)),
        ensures
            vfs_wf(*final(vfs)),
            match r {
                Ok(f) => open_outcome(
                    *old(vfs),
                    *final(vfs),
                    path@,
                    (O_WRITE + O_CREATE + O_TRUNCATE) as u64,
                    Ok(f.0),
                ),
                Err(e) => open_outcome(
                    *old(vfs),
                    *final(vfs),
                    path@,
                    (O_WRITE + O_CREATE + O_TRUNCATE) as u64,
                    Err(e),
                ),
            },
    {
        match open(vfs, path, O_WRITE + O_CREATE + O_TRUNCATE) {
            Ok(handle) => Ok(File(handle)),
            Err(e) => Err(e),
        }
    }

    /// Opens a file in read-only mode.
    pub fn open(vfs: &mut Vfs, path: &str) -> (r: Result<File, SyscallError>)
        requires
            vfs_wf(*old(vfs)),
        ensures
            vfs_wf(*final(vfs)),
            match r {
                Ok(f) => open_outcome(*old(vfs), *final(vfs), path@, O_READ, Ok(f.0)),
                Err(e) => open_outcome(*old(vfs), *final(vfs), path@, O_READ, Err(e)),
            },
    {
        match open(vfs, path, O_READ) {
            Ok(handle) => Ok(File(handle)),
            Err(e) => Err(e),
        }
    }

    /// Write a buffer into this file, returning how many bytes were
    /// written.  The handle itself is unchanged whatever the outcome.
    pub fn write(&mut self, vfs: &mut Vfs, buf: &[u8]) -> (r: Result<usize, SyscallError>)
        requires
            vfs_wf(*old(vfs)),
        ensures
            vfs_wf(*final(vfs)),
            *final(self) == *old(self),
            write_outcome(*old(vfs), *final(vfs), old(self).0, buf@, r),
    {
        let handle = MemoryHandle::from_u8_slice(buf);
        let len = buf.len();
        let reply = rcall(
            vfs,
            &self.0,
            WRITE,
            MessageData::Value(len as u64),
            MessageData::MemoryHandle(handle),
            None,
        );
        write_reply_result(reply)
    }

    /// Read all bytes of this file, appending them to `buf` and
    /// returning how many were read.
    pub fn read_to_end(&mut self, vfs: &mut Vfs, buf: &mut Vec<u8>) -> (r: Result<
        usize,
        SyscallError,
    >)
        requires
            vfs_wf(*old(vfs)),
        ensures
            vfs_wf(*final(vfs)),
            *final(self) == *old(self),
            vfs_kept(*old(vfs), *final(vfs), old(self).0),
            read_outcome(*old(vfs), old(self).0, old(buf)@, final(buf)@, r),
    {
        match rcall(vfs, &self.0, READ, MessageData::Value(0), MessageData::Value(0), None) {
            Ok((tag, MessageData::Value(_length), MessageData::MemoryHandle(data))) => {
                if tag == DATA {
                    push_bytes(buf, data.as_bytes());
                    Ok(data.bytes.len())
                } else {
                    Err(SyscallError::InvalidParam)
                }
            },
            Err(e) => Err(e),
            _ => Err(SyscallError::InvalidParam),
        }
    }

    /// Ask the server to describe this connection's directory: the
    /// reply is a JSON listing, parsed into a `FileQuery`.
    pub fn query(&self, vfs: &mut Vfs) -> (r: Result<FileQuery, SyscallError>)
        requires
            vfs_wf(*old(vfs)),
        ensures
            vfs_wf(*final(vfs)),
            vfs_kept(*old(vfs), *final(vfs), self.0),
            query_outcome(*old(vfs), self.0, r),
    {
        match rcall(vfs, &self.0, QUERY, MessageData::Value(0), MessageData::Value(0), None) {
            Ok((tag, MessageData::Value(_length), MessageData::MemoryHandle(data))) => {
                if tag == JSON {
                    match parse_dir_names(data.as_bytes()) {
                        Some(names) => Ok(FileQuery(names)),
                        None => Err(SyscallError::InvalidParam),
                    }
                } else {
                    Err(SyscallError::InvalidParam)
                }
            },
            Err(e) => Err(e),
            _ => Err(SyscallError::InvalidParam),
        }
    }
}


/// The name shown for a listing entry: the entry's own name, or
/// `"_bad_"` for an entry the listing carried without one.
pub open spec fn listing_names(ns: Seq<Option<Seq<char>>>) -> Seq<Seq<char>> {
    ns.map(
        |i: int, o: Option<Seq<char>>|
            match o {
                Some(n) => n,
                None => "_bad_"@,
            },
    )
}

/// The names of a sequence of directory entries.
pub open spec fn dir_entries_names(es: Seq<DirEntry>) -> Seq<Seq<char>> {
    es.map(|i: int, e: DirEntry| e.name@)
}

/// One directory entry.
#[derive(Debug)]
pub struct DirEntry {
    pub name: String,
}

impl DirEntry {
    /// The bare file name of this entry, without any leading path
    /// component.
    pub fn file_name(&self) -> (r: &str)
        ensures
            r@ == self.name@,
    {
        self.name.as_str()
    }
}

/// The entries of a directory, yielded from the last to the first.
#[derive(Debug)]
pub struct ReadDir {
    pub entries: Vec<DirEntry>,
}

impl ReadDir {
    /// The next entry: entries come out from the back, so in reverse
    /// insertion order; `None` once all are out.
    pub fn next(&mut self) -> (r: Option<Result<DirEntry, SyscallError>>)
        ensures
            old(self).entries@.len() == 0 ==> r is None && final(self).entries@ == old(
                self,
            ).entries@,
            old(self).entries@.len() > 0 ==> (r matches Some(e) && (e matches Ok(entry)
                && entry == old(self).entries@.last())) && final(self).entries@ == old(
                self,
            ).entries@.drop_last(),
    {
        if let Some(entry) = self.entries.pop() {
            return Some(Ok(entry));
        }
        None
    }
}

/// What `read_dir` does: open the path read-only, query the server for
/// its listing, and keep one entry per listing element.
pub open spec fn read_dir_outcome(
    pre: Vfs,
    post: Vfs,
    path: Seq<char>,
    r: Result<ReadDir, SyscallError>,
) -> bool {
    match resolve_index(pre.mounts@, path) {
        None => r == Err::<ReadDir, SyscallError>(SyscallError::NotFound) && post == pre,
        Some(mi) => {
            let si = pre.mounts@[mi].server as int;
            let server = pre.servers@[si];
            let rel = rel_path_spec(pre.mounts@[mi].prefix@, path);
            if !server.alive {
                r == Err::<ReadDir, SyscallError>(SyscallError::ChannelClosed) && post == pre
            } else if rel.len() > 0 && find_file(server.files@, rel) is None {
                r == Err::<ReadDir, SyscallError>(SyscallError::NotFound) && post == pre
            } else {
                &&& post.mounts@ == pre.mounts@
                &&& post.servers@ == pre.servers@
                &&& post.conns@.len() == pre.conns@.len() + 1
                &&& match dir_names_of(dir_json(file_names(server.files@))) {
                    None => r == Err::<ReadDir, SyscallError>(SyscallError::InvalidParam),
                    Some(ns) => r matches Ok(rd) && dir_entries_names(rd.entries@)
                        == listing_names(ns),
                }
            }
        },
    }
}

/// List a directory: open the path read-only, ask its server for the
/// JSON listing, and return the entries.  Iterating the result yields
/// the entries in reverse listing order.
pub fn read_dir(vfs: &mut Vfs, path: &str) -> (r: Result<ReadDir, SyscallError>)
    requires
        vfs_wf(*old(vfs)),
    ensures
        vfs_wf(*final(vfs)),
        read_dir_outcome(*old(vfs), *final(vfs), path@, r),
{
    let ghost pre = *old(vfs);
    let f = match File::open(vfs, path) {
        Ok(f) => f,
        Err(e) => {
            return Err(e);
        },
    };
    let ghost mid = *vfs;
    let query = match f.query(vfs) {
        Ok(q) => q,
        Err(e) => {
            proof {
                assert(!flag_on(O_READ, O_TRUNCATE));
                assert(!flag_on(O_READ, O_CREATE));
                assert(vfs.servers@ =~= mid.servers@);
                assert(mid.servers@ == pre.servers@);
                assert(vfs.conns@.len() == pre.conns@.len() + 1);
            }
            return Err(e);
        },
    };
    proof {
        assert(!flag_on(O_READ, O_TRUNCATE));
        assert(vfs.servers@ =~= mid.servers@);
        assert(mid.servers@ == pre.servers@);
        assert(vfs.conns@.len() == pre.conns@.len() + 1);
    }
    let ghost ns = names_seq(query.0@);
    let mut entries: Vec<DirEntry> = Vec::new();
    let mut i: usize = 0;
    while i < query.0.len()
        invariant
            i <= query.0@.len(),
            ns == names_seq(query.0@),
            dir_entries_names(entries@) == listing_names(ns).subrange(0, i as int),
        decreases query.0@.len() - i,
    {
        let name: String = match &query.0[i] {
            Some(n) => n.clone(),
            None => "_bad_".to_owned(),
        };
        proof {
            assert(listing_names(ns)[i as int] == (match ns[i as int] {
                Some(n) => n,
                None => "_bad_"@,
            }));
            assert(ns[i as int] == (match query.0@[i as int] {
                Some(s) => Some(s@),
                None => None::<Seq<char>>,
            }));
        }
        let ghost pre_entries = entries@;
        proof {
            assert(dir_entries_names(pre_entries).len() == pre_entries.len());
            assert(ns.len() == query.0@.len());
            assert(listing_names(ns).len() == ns.len());
        }
        entries.push(DirEntry { name });
        proof {
            assert forall|k: int| 0 <= k < entries@.len() implies dir_entries_names(
                entries@,
            )[k] == listing_names(ns).subrange(0, i + 1)[k] by {
                assert(dir_entries_names(entries@)[k] == entries@[k].name@);
                if k < i {
                    assert(entries@[k] == pre_entries[k]);
                    assert(dir_entries_names(pre_entries)[k] == pre_entries[k].name@);
                    assert(dir_entries_names(pre_entries)[k] == listing_names(ns).subrange(
                        0,
                        i as int,
                    )[k]);
                } else {
                    assert(listing_names(ns)[k] == (match ns[k] {
                        Some(n) => n,
                        None => "_bad_"@,
                    }));
                }
            }
            assert(dir_entries_names(entries@) =~= listing_names(ns).subrange(0, i + 1));
        }
        i = i + 1;
    }
    proof {
        assert(ns.len() == query.0@.len());
        assert(listing_names(ns).subrange(0, ns.len() as int) =~= listing_names(ns));
        assert(dir_entries_names(entries@) == listing_names(ns));
    }
    Ok(ReadDir { entries })
}

/// Writing bytes to a file that was created empty and then reading the
/// file back yields exactly those bytes: the round trip through the
/// write and read contracts loses nothing.
pub proof fn lemma_write_read_round_trip(
    pre: FileServer,
    mid: FileServer,
    fi: int,
    bytes: Seq<u8>,
    buf0: Seq<u8>,
    buf1: Seq<u8>,
)
    requires
        0 <= fi < pre.files@.len(),
        pre.files@[fi].data@.len() == 0,
        file_appended(pre, mid, fi, bytes),
        buf1 == buf0 + mid.files@[fi].data@,
    ensures
        buf1.len() == buf0.len() + bytes.len(),
        buf1.subrange(buf0.len() as int, buf0.len() + bytes.len() as int) == bytes,
{
    assert(mid.files@[fi].data@ =~= bytes);
    assert(buf1.subrange(buf0.len() as int, buf0.len() + bytes.len() as int) =~= bytes);
}


/// When the JSON reader recovers exactly the names the server rendered
/// — one entry per file, each with its name — the entries `read_dir`
/// builds are exactly the server's file names, in listing order, and so
/// also as a multiset.
pub proof fn lemma_listing_faithful(
    names: Seq<Seq<char>>,
    ns: Seq<Option<Seq<char>>>,
    entries: Seq<DirEntry>,
)
    requires
        ns.len() == names.len(),
        forall|i: int| 0 <= i < ns.len() ==> ns[i] == Some(names[i]),
        dir_entries_names(entries) == listing_names(ns),
    ensures
        dir_entries_names(entries) == names,
{
    assert forall|i: int| 0 <= i < ns.len() implies listing_names(ns)[i] == names[i] by {
        assert(ns[i] == Some(names[i]));
    }
    assert(listing_names(ns) =~= names);
}

} // verus!
