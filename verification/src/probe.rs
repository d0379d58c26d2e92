//! The credential-swapping probe: whether it is loaded, and the staging
//! files that hand credentials and per-process activations to its loader.
//! Creating the pin directory and writing the files are the caller's.

use vstd::prelude::*;
use vstd::string::StringSliceAdditionalSpecFns;
use vstd::utf8::{encode_utf8, is_char_boundary};
use crate::text::{decimal, decimal_string};

verus! {

/// Where credential staging files go, one per credential key.
pub const CREDENTIAL_STAGING_DIR: &'static str = "/run/aether/ebpf-staging/credentials";

/// Where activation staging files go, one per pid.
pub const PID_STAGING_DIR: &'static str = "/run/aether/ebpf-staging/pids";

/// The little-endian bytes of the low `k` bytes of `n`.
pub open spec fn le_bytes(n: nat, k: nat) -> Seq<u8>
    decreases k,
{
    if k == 0 {
        Seq::empty()
    } else {
        seq![(n % 256) as u8] + le_bytes(n / 256, (k - 1) as nat)
    }
}

/// How many bytes of a credential key name its staging file: at most 31.
pub open spec fn key_name_len(key: Seq<char>) -> int {
    let n = encode_utf8(key).len() as int;
    if n < 31 { n } else { 31 }
}

/// A loaded probe.
pub struct HallucinatorProbe {
    loaded: bool,
}

impl HallucinatorProbe {
    /// Whether the probe is loaded.
    pub closed spec fn loaded(&self) -> bool {
        self.loaded
    }

    /// The probe once loaded and attached (its pin directory made).
    pub fn attached() -> (p: HallucinatorProbe)
        ensures
            p.loaded(),
    {
        HallucinatorProbe { loaded: true }
    }

    /// Whether the probe is loaded.
    pub fn is_loaded(&self) -> (b: bool)
        ensures
            b == self.loaded(),
    {
        self.loaded
    }

    /// The staging file name of a credential: the key's first 31 bytes (all
    /// of it if shorter). The cut must fall between two characters.
    pub fn credential_file_name(key: &str) -> (name: String)
        requires
            is_char_boundary(encode_utf8(key@), key_name_len(key@)),
        ensures
            encode_utf8(name@) == encode_utf8(key@).take(key_name_len(key@)),
    {
        assert(key.spec_bytes() == encode_utf8(key@));
        let len = key.as_bytes().len();
        let n = if len < 31 { len } else { 31 };
        assert(n == key_name_len(key@));
        let (head, _rest) = key.split_at(n);
        assert(head.spec_bytes() == encode_utf8(head@));
        let name = head.to_owned();
        assert(encode_utf8(name@) =~= encode_utf8(key@).take(key_name_len(key@)));
        name
    }

    /// The staging file that activates add-ins for a process: named by the
    /// pid in decimal, holding the bitmap's 8 little-endian bytes.
    pub fn pid_staging_file(pid: u32, addin_bitmap: u64) -> (r: (String, Vec<u8>))
        ensures
            r.0@ == decimal(pid as nat),
            r.1@ == le_bytes(addin_bitmap as nat, 8),
    {
        let name = decimal_string(pid as u64);
        let mut bytes: Vec<u8> = Vec::new();
        let mut x = addin_bitmap;
        let mut k: usize = 0;
        while k < 8
            invariant
                k <= 8,
                bytes@ + le_bytes(x as nat, (8 - k) as nat) == le_bytes(addin_bitmap as nat, 8),
            decreases 8 - k,
        {
            let ghost before = bytes@;
            bytes.push((x % 256) as u8);
            assert(le_bytes(x as nat, (8 - k) as nat) == seq![(x % 256) as u8] + le_bytes(
                (x / 256) as nat,
                (8 - k - 1) as nat,
            ));
            x = x / 256;
            k = k + 1;
        }
        assert(bytes@ =~= le_bytes(addin_bitmap as nat, 8));
        (name, bytes)
    }
}

} // verus!
