//! Network interception setup: which interface the traffic control hook
//! goes on, and what the `tc qdisc add ... clsact` outcome means. Probing
//! the interfaces, running `tc` and logging are the caller's.

use vstd::prelude::*;
use crate::text::{occurs_in, str_contains, str_eq, views};

verus! {

/// The interface on Sprites.
pub const SPRITES_IFACE: &'static str = "spr0";

/// The interface elsewhere.
pub const FALLBACK_IFACE: &'static str = "eth0";

/// Where the credential routing maps are pinned.
pub const BPF_PIN_DIR: &'static str = "/sys/fs/bpf/aether";

/// The first name, from position `i` on, that is not the loopback `lo`.
pub open spec fn first_non_loopback(names: Seq<Seq<char>>, i: int) -> Option<Seq<char>>
    decreases names.len() - i,
{
    if i < 0 || i >= names.len() {
        None
    } else if names[i] != "lo"@ {
        Some(names[i])
    } else {
        first_non_loopback(names, i + 1)
    }
}

/// The interface to intercept: `spr0` if present, else `eth0` if present,
/// else the first listed interface other than `lo` (none if the listing
/// failed or has no other).
pub fn pick_interface(sprites_present: bool, fallback_present: bool, listed: Option<Vec<String>>) -> (r: Option<String>)
    ensures
        sprites_present ==> (r matches Some(n) && n@ == "spr0"@),
        !sprites_present && fallback_present ==> (r matches Some(n) && n@ == "eth0"@),
        !sprites_present && !fallback_present ==> match listed {
            None => r is None,
            Some(v) => match first_non_loopback(views(v@), 0) {
                Some(name) => (r matches Some(n) && n@ == name),
                None => r is None,
            },
        },
{
    if sprites_present {
        return Some(SPRITES_IFACE.to_owned());
    }
    if fallback_present {
        return Some(FALLBACK_IFACE.to_owned());
    }
    match listed {
        None => None,
        Some(names) => {
            let ghost vn = views(names@);
            let mut i: usize = 0;
            while i < names.len()
                invariant
                    i <= names@.len(),
                    vn == views(names@),
                    !sprites_present,
                    !fallback_present,
                    listed == Some(names),
                    first_non_loopback(vn, 0) == first_non_loopback(vn, i as int),
                decreases names.len() - i,
            {
                if !str_eq(names[i].as_str(), "lo") {
                    return Some(names[i].clone());
                }
                i = i + 1;
            }
            None
        },
    }
}

/// What `tc qdisc add dev <iface> clsact` came to.
#[derive(Debug, Clone, Copy, PartialEq, Eq, Structural)]
pub enum TcOutcome {
    /// The qdisc was attached.
    Attached,
    /// It was there already (`tc` said "File exists").
    AlreadyAttached,
    /// `tc` failed otherwise.
    Failed,
}

/// The outcome of running `tc`, from its exit status and error output.
pub fn tc_outcome(success: bool, stderr: &str) -> (r: TcOutcome)
    ensures
        success ==> r == TcOutcome::Attached,
        !success && occurs_in("File exists"@, stderr@) ==> r == TcOutcome::AlreadyAttached,
        !success && !occurs_in("File exists"@, stderr@) ==> r == TcOutcome::Failed,
{
    if success {
        TcOutcome::Attached
    } else if str_contains(stderr, "File exists") {
        TcOutcome::AlreadyAttached
    } else {
        TcOutcome::Failed
    }
}

} // verus!
