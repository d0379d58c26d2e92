//! Entries of the pinned BPF maps shared between the loader, which fills
//! them, and the kernel probes, which read them.

use vstd::prelude::*;

verus! {

/// Pinned map of credential swap entries (key: padded credential name).
pub const CREDENTIAL_MAP_PATH: &'static str = "/sys/fs/bpf/aether/credentials";

/// Pinned map of connection routing entries (key: destination pattern hash).
pub const ROUTE_MAP_PATH: &'static str = "/sys/fs/bpf/aether/routes";

/// Pinned map from a pid to the bitmap of add-ins active for it.
pub const PID_MAP_PATH: &'static str = "/sys/fs/bpf/aether/pid_addins";

/// Pinned map of file I/O scores (key: inode or path hash).
pub const SHIMMER_MAP_PATH: &'static str = "/sys/fs/bpf/aether/shimmer_scores";

/// A real credential: its bytes, zero-padded, and how many of them count.
#[derive(Debug, Clone)]
pub struct CredentialEntry {
    pub real_value: [u8; 256],
    pub len: u32,
}

impl Default for CredentialEntry {
    fn default() -> (entry: Self)
        ensures
            entry.len == 0,
            forall|i: int| 0 <= i < 256 ==> #[trigger] entry.real_value@[i] == 0,
    {
        CredentialEntry { real_value: [0u8; 256], len: 0 }
    }
}

/// Where a connection is routed: proxy address, port and flags.
#[derive(Debug, Clone)]
pub struct RouteEntry {
    pub proxy_addr: [u8; 16],
    pub proxy_port: u16,
    pub flags: u32,
}

impl Default for RouteEntry {
    fn default() -> (entry: Self)
        ensures
            forall|i: int| 0 <= i < 16 ==> #[trigger] entry.proxy_addr@[i] == 0,
            entry.proxy_port == 0,
            entry.flags == 0,
    {
        RouteEntry { proxy_addr: [0u8; 16], proxy_port: 0, flags: 0 }
    }
}

/// The add-ins active for one process, as a bitmap.
#[derive(Debug, Clone)]
pub struct PidEntry {
    pub addin_bitmap: u64,
}

impl Default for PidEntry {
    fn default() -> (entry: Self)
        ensures
            entry.addin_bitmap == 0,
    {
        PidEntry { addin_bitmap: 0 }
    }
}

/// A file I/O policy entry: a score (0 safe .. 100 malicious) and the action
/// code (0 allow, 1 alert, 2 block).
#[derive(Debug, Clone)]
pub struct ShimmerEntry {
    pub score: u32,
    pub action: u32,
}

impl Default for ShimmerEntry {
    fn default() -> (entry: Self)
        ensures
            entry.score == 0,
            entry.action == 0,
    {
        ShimmerEntry { score: 0, action: 0 }
    }
}

} // verus!
