use vstd::prelude::*;

verus! {

pub const MAX_DEVICES: usize = 2;

pub const MAX_FILE_RULES: usize = 20;

/// A packet filter shared with the kernel program.
#[derive(Clone, Copy, PartialEq, Eq, Structural, Hash, Debug)]
pub struct PacketFilter {
    /// Source IPv4 address.
    pub ip: u32,
    /// Source port.
    pub port: u16,
    /// Transport protocol, as numbered in the IPv4 header; `u16::MAX` for any.
    pub proto: u16,
}

/// What to do with a packet that a filter matches.
#[derive(Clone, Copy, PartialEq, Eq, Structural, Hash, Debug)]
pub struct PacketFilterParams {
    /// 1 when the kernel program should raise an event.
    pub trigger_event: u16,
    /// 1 for a short-lived filter, which is not saved in storage.
    pub shortlived: u16,
    /// The XDP action: aborted 0, drop 1, pass 2, tx 3, redirect 4.
    pub action: u32,
}

/// Parameters of a filter on a whole subnet.
#[derive(Clone, Copy, PartialEq, Eq, Structural, Hash, Debug)]
pub struct SubnetFilterParams {
    /// Source port.
    pub port: u16,
    /// Transport protocol, as numbered in the IPv4 header; `u16::MAX` for any.
    pub proto: u16,
    pub extra: PacketFilterParams,
}

/// The rules that protect files.
#[derive(Clone, Copy, Debug)]
pub struct FileRuleList {
    pub rules: [FileRule; MAX_FILE_RULES],
}

/// A file, by inode and device.
#[derive(Clone, Copy, PartialEq, Eq, Structural, Hash, Debug)]
pub struct File {
    pub inode: u64,
    pub dev: u64,
}

impl File {
    /// The file with inode `inode`; the device is not tracked yet and is 0.
    pub fn new(inode: u64) -> (r: Self)
        ensures
            r.inode == inode,
            r.dev == 0,
    {
        File { inode, dev: 0 }
    }
}

/// The operations allowed on a file: each allowed one has its bit set.
#[derive(Clone, Copy, PartialEq, Eq, Structural, Debug)]
pub struct FileRule {
    pub inode: u64,
    pub permissions: u32,
}

impl FileRule {
    pub const NO_OPERATION: u32 = 0;
    pub const OPEN_MASK: u32 = 1;
    pub const READ_MASK: u32 = 2;
    pub const WRITE_MASK: u32 = 4;
    pub const EXEC_MASK: u32 = 8;
}

impl Default for FileRule {
    /// No file, no operation allowed.
    fn default() -> (r: Self)
        ensures
            r.inode == 0,
            r.permissions == FileRule::NO_OPERATION,
    {
        FileRule { inode: 0, permissions: FileRule::NO_OPERATION }
    }
}

} // verus!
