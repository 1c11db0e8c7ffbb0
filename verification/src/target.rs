//! The immutable scan configuration: a resolved host address and a worker
//! count.

use vstd::prelude::*;

verus! {

/// How long a single connection attempt may take before the port is treated
/// as closed, in milliseconds.
pub const CONNECT_TIMEOUT_MS: u64 = 200;

/// A resolved host address, IPv4 or IPv6, held as plain integers so that the
/// verified core never touches a socket type.
#[derive(Clone, Copy, PartialEq, Eq, Structural, Debug)]
pub enum HostAddr {
    /// The four octets of an IPv4 address, in order.
    V4(u8, u8, u8, u8),
    /// The eight 16-bit segments of an IPv6 address, in order.
    V6(u16, u16, u16, u16, u16, u16, u16, u16),
}

/// The configuration of one scan: the target address and how many workers
/// share the port space. Created once, never mutated.
#[derive(Clone, Copy, PartialEq, Eq, Structural, Debug)]
pub struct ScanTarget {
    pub addr: HostAddr,
    pub workers: u16,
}

impl ScanTarget {
    /// A target is well formed when at least one worker exists; a stride of
    /// zero would make the partition meaningless.
    pub open spec fn wf(self) -> bool {
        self.workers >= 1
    }

    /// Builds a scan target, rejecting a zero worker count.
    pub fn new(addr: HostAddr, workers: u16) -> (r: Option<ScanTarget>)
        ensures
            r is Some <==> workers >= 1,
            workers >= 1 ==> (r == Some(ScanTarget { addr, workers })),
            r is Some ==> r->0.wf(),
    {
        if workers >= 1 {
            Some(ScanTarget { addr, workers })
        } else {
            None
        }
    }
}

} // verus!
