//! Messages exchanged over rendezvous channels, and the flags and error
//! codes of the system-call surface.
//!
//! A memory handle is a capability naming a contiguous run of physical
//! pages; the model carries the bytes it names.  A communication handle
//! names one endpoint of a rendezvous or an open connection to a server.

use vstd::prelude::*;

verus! {

// Message tags, stable on the wire between processes.
pub const OPEN: u64 = 1;
pub const READ: u64 = 2;
pub const WRITE: u64 = 3;
pub const QUERY: u64 = 4;
pub const DATA: u64 = 5;
pub const OK: u64 = 6;
pub const JSON: u64 = 7;
pub const COMM_HANDLE: u64 = 8;
pub const VIDEO_MEMORY: u64 = 9;

// Open flags.
pub const O_READ: u64 = 1;
pub const O_WRITE: u64 = 2;
pub const O_CREATE: u64 = 4;
pub const O_TRUNCATE: u64 = 8;

/// Permission bit granting I/O port access to an executed process.
pub const EXEC_PERM_IO: u8 = 1;

/// Errors surfaced by the system-call layer.
#[derive(Clone, Copy, Debug, PartialEq, Eq, Structural)]
pub enum SyscallError {
    /// Malformed message, unexpected reply shape, or ill-formed payload.
    InvalidParam,
    /// No mount covers the path, or the path names no file.
    NotFound,
    /// The flag needed for the operation was not granted at open.
    PermissionDenied,
    /// The peer endpoint has been dropped.
    ChannelClosed,
    /// Bad ELF magic, or the loader could not read the binary.
    BadElf,
}

/// A capability naming a contiguous range of physical pages, transferred
/// by reference inside messages; the model owns the bytes the pages hold.
#[derive(Debug)]
pub struct MemoryHandle {
    pub bytes: Vec<u8>,
}

impl MemoryHandle {
    /// Copy a byte slice into freshly allocated pages.
    pub fn from_u8_slice(buf: &[u8]) -> (h: MemoryHandle)
        ensures
            h.bytes@ == buf@,
    {
        let mut bytes: Vec<u8> = Vec::new();
        let mut i: usize = 0;
        while i < buf.len()
            invariant
                i <= buf@.len(),
                bytes@ == buf@.subrange(0, i as int),
            decreases buf@.len() - i,
        {
            bytes.push(buf[i]);
            i = i + 1;
            proof {
                assert(bytes@ =~= buf@.subrange(0, i as int));
            }
        }
        proof {
            assert(bytes@ =~= buf@);
        }
        MemoryHandle { bytes }
    }

    /// The bytes the handle's pages hold.
    pub fn as_bytes(&self) -> (b: &[u8])
        ensures
            b@ == self.bytes@,
    {
        self.bytes.as_slice()
    }
}

/// One endpoint of a rendezvous, or an open connection to a server,
/// named by a kernel-assigned handle number.
#[derive(Clone, Debug, PartialEq, Eq, Structural)]
pub struct CommHandle {
    pub handle: usize,
}

/// One payload slot of a long message.
#[derive(Debug)]
pub enum MessageData {
    Value(u64),
    MemoryHandle(MemoryHandle),
    CommHandle(CommHandle),
}

/// A message: three machine words, or a tag with two payload slots that
/// may transfer memory or endpoint capabilities.
#[derive(Debug)]
pub enum Message {
    Short(u64, u64, u64),
    Long(u64, MessageData, MessageData),
}

impl Message {
    /// The tag of the message.
    pub fn tag(&self) -> (t: u64)
        ensures
            t == message_tag(*self),
    {
        match self {
            Message::Short(tag, _, _) => *tag,
            Message::Long(tag, _, _) => *tag,
        }
    }
}

/// The tag of a message.
pub open spec fn message_tag(m: Message) -> u64 {
    match m {
        Message::Short(tag, _, _) => tag,
        Message::Long(tag, _, _) => tag,
    }
}

} // verus!
