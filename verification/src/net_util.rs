//! Choosing a free local port: the preferred one first, then upward,
//! wrapping around within 1024..=65535.
use vstd::prelude::*;
use crate::local_server::clamp_port;
use crate::text::to_owned_string;

verus! {

/// How many ports are tried, the preferred one included: every port of
/// 1024..=65535 once.
pub const PORT_TRIES: u32 = 64512;

/// No port was free.
pub enum PortError {
    NoFreePort,
}

impl PortError {
    pub fn message(&self) -> (r: String)
        ensures
            r@ == "هیچ پورت آزادی بین 1024 تا 65535 پیدا نشد."@,
    {
        to_owned_string("هیچ پورت آزادی بین 1024 تا 65535 پیدا نشد.")
    }
}

/// The port tried at step `k`: `k` above the start, wrapping from 65535
/// back to 1024.
pub open spec fn candidate(start: u16, k: int) -> int {
    let c = start + k;
    if c > 65535 {
        1024 + (c - 65536)
    } else {
        c
    }
}

/// The port tried at step `k` (`k < PORT_TRIES`), from a start of at
/// least 1024.
pub fn candidate_port(start: u16, k: u32) -> (p: u16)
    requires
        start >= 1024,
        k < PORT_TRIES,
    ensures
        p == candidate(start, k as int),
        1024 <= p,
{
    let c: u32 = start as u32 + k;
    if c > 65535 {
        (1024 + (c - 65536)) as u16
    } else {
        c as u16
    }
}

/// The first port found free, trying the preferred port (raised to 1024 at
/// least) and then the ports above it, wrapping around; `is_free` probes
/// one port.
pub fn find_free_port<F: Fn(u16) -> bool>(preferred: u16, is_free: F) -> (r: Result<u16, PortError>)
    requires
        forall|p: u16| #[trigger] is_free.requires((p,)),
    ensures
        r matches Ok(p) ==> 1024 <= p && is_free.ensures((p,), true) && exists|k: int|
            0 <= k < PORT_TRIES && p == candidate(clamp_port(preferred), k) && forall|j: int|
                0 <= j < k ==> #[trigger] is_free.ensures(
                    (candidate(clamp_port(preferred), j) as u16,),
                    false,
                ),
        r is Err ==> forall|j: int|
            0 <= j < PORT_TRIES ==> #[trigger] is_free.ensures(
                (candidate(clamp_port(preferred), j) as u16,),
                false,
            ),
        r is Err ==> forall|p: u16| 1024 <= p ==> #[trigger] is_free.ensures((p,), false),
{
    let start: u16 = if preferred < 1024 {
        1024
    } else {
        preferred
    };
    let mut k: u32 = 0;
    while k < PORT_TRIES
        invariant
            start == clamp_port(preferred),
            k <= PORT_TRIES,
            forall|p: u16| #[trigger] is_free.requires((p,)),
            forall|j: int|
                0 <= j < k ==> #[trigger] is_free.ensures((candidate(start, j) as u16,), false),
        decreases PORT_TRIES - k,
    {
        let port = candidate_port(start, k);
        if is_free(port) {
            return Ok(port);
        }
        k = k + 1;
    }
    assert forall|p: u16| 1024 <= p implies #[trigger] is_free.ensures((p,), false) by {
        let k: int = if p >= start {
            p - start
        } else {
            p - 1024 + 65536 - start
        };
        assert(0 <= k < PORT_TRIES);
        assert(candidate(start, k) == p);
        assert(is_free.ensures((candidate(start, k) as u16,), false));
    }
    Err(PortError::NoFreePort)
}

} // verus!
