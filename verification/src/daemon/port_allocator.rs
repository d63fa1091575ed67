//! Automatic ports for processes behind the proxy: candidates from a fixed
//! range are tried in turn, round robin, starting after the last port
//! handed out.

use vstd::prelude::*;
use crate::error::ProxyError;

verus! {

/// The lowest automatic port.
pub const AUTO_PORT_MIN: u16 = 4000;
/// The highest automatic port.
pub const AUTO_PORT_MAX: u16 = 4999;

/// How many automatic ports there are.
pub open spec fn auto_range_size() -> int {
    AUTO_PORT_MAX - AUTO_PORT_MIN + 1
}

/// The `i`th candidate tried when the search starts at `next`.
pub open spec fn candidate(next: u16, i: int) -> int {
    AUTO_PORT_MIN + ((next - AUTO_PORT_MIN) + i) % auto_range_size()
}

/// Whether the `i`th candidate of a search from `next` was passed over:
/// it is assigned, or `is_free` refused it.
pub open spec fn passed_over<F: Fn(u16) -> bool>(assigned: Seq<u16>, is_free: F, next: u16, i: int) -> bool {
    let c = candidate(next, i) as u16;
    assigned.contains(c) || is_free.ensures((c,), false)
}

/// Whether the proxy is on, and where the next automatic search starts.
pub struct PortAllocator {
    proxy_enabled: bool,
    next_auto_port: u16,
}

impl PortAllocator {
    #[verifier::type_invariant]
    spec fn in_range(&self) -> bool {
        AUTO_PORT_MIN <= self.next_auto_port <= AUTO_PORT_MAX
    }

    /// Whether processes get automatic ports and must have DNS-label names.
    pub closed spec fn proxy_on(&self) -> bool {
        self.proxy_enabled
    }

    /// The port the next automatic search starts at.
    pub closed spec fn next_port(&self) -> u16 {
        self.next_auto_port
    }

    /// An allocator with the proxy off, whose first search starts at the
    /// lowest automatic port.
    pub fn new() -> (r: PortAllocator)
        ensures
            !r.proxy_on(),
            r.next_port() == AUTO_PORT_MIN,
    {
        PortAllocator { proxy_enabled: false, next_auto_port: AUTO_PORT_MIN }
    }

    /// Turns the proxy on.
    pub fn enable_proxy(&mut self)
        ensures
            final(self).proxy_on(),
            final(self).next_port() == old(self).next_port(),
    {
        proof {
            use_type_invariant(&*self);
        }
        self.proxy_enabled = true;
    }

    /// Whether the proxy is on.
    pub fn is_proxy_enabled(&self) -> (r: bool)
        ensures
            r == self.proxy_on(),
    {
        self.proxy_enabled
    }

    /// Finds a free automatic port: the candidates from the start port on,
    /// wrapping round the range, skipping those in `assigned`, are offered
    /// to `is_free` (which tries to bind them) until one is taken. The next
    /// search starts after the port found. When every candidate is assigned
    /// or refused, the error names the range and the start port.
    pub fn auto_assign_port<F: Fn(u16) -> bool>(&mut self, assigned: &[u16], is_free: F) -> (r: Result<u16, ProxyError>)
        requires
            forall|p: u16| #[trigger] is_free.requires((p,)),
        ensures
            final(self).proxy_on() == old(self).proxy_on(),
            match r {
                Ok(p) => {
                    &&& exists|k: int| 0 <= k < auto_range_size() && candidate(old(self).next_port(), k) == p && {
                        forall|i: int| 0 <= i < k ==> #[trigger] passed_over(assigned@, is_free, old(self).next_port(), i)
                    }
                    &&& !assigned@.contains(p)
                    &&& is_free.ensures((p,), true)
                    &&& final(self).next_port() == (if p >= AUTO_PORT_MAX { AUTO_PORT_MIN } else { (p + 1) as u16 })
                },
                Err(e) => {
                    &&& e == ProxyError::NoFreeAutoPort { min: AUTO_PORT_MIN, max: AUTO_PORT_MAX, start: old(self).next_port() }
                    &&& final(self).next_port() == old(self).next_port()
                    &&& forall|i: int| 0 <= i < auto_range_size() ==> #[trigger] passed_over(assigned@, is_free, old(self).next_port(), i)
                },
            },
    {
        proof {
            use_type_invariant(&*self);
        }
        let start = self.next_auto_port;
        let range_size: u16 = AUTO_PORT_MAX - AUTO_PORT_MIN + 1;
        let mut i: u16 = 0;
        while i < range_size
            invariant
                range_size == auto_range_size(),
                i <= range_size,
                start == old(self).next_port(),
                *self == *old(self),
                AUTO_PORT_MIN <= start <= AUTO_PORT_MAX,
                forall|p: u16| #[trigger] is_free.requires((p,)),
                forall|j: int| 0 <= j < i ==> #[trigger] passed_over(assigned@, is_free, start, j),
            decreases range_size - i,
        {
            let cand: u16 = AUTO_PORT_MIN + ((start - AUTO_PORT_MIN) + i) % range_size;
            assert(cand == candidate(start, i as int));
            if !contains_port(assigned, cand) {
                let free = is_free(cand);
                if free {
                    self.next_auto_port = if cand >= AUTO_PORT_MAX { AUTO_PORT_MIN } else { cand + 1 };
                    return Ok(cand);
                }
            }
            i = i + 1;
        }
        Err(ProxyError::NoFreeAutoPort { min: AUTO_PORT_MIN, max: AUTO_PORT_MAX, start })
    }
}

impl Default for PortAllocator {
    fn default() -> (r: PortAllocator)
        ensures
            !r.proxy_on(),
            r.next_port() == AUTO_PORT_MIN,
    {
        PortAllocator::new()
    }
}

/// Whether `p` is among `ports`.
pub fn contains_port(ports: &[u16], p: u16) -> (r: bool)
    ensures
        r == ports@.contains(p),
{
    let mut i: usize = 0;
    while i < ports.len()
        invariant
            i <= ports@.len(),
            forall|j: int| 0 <= j < i ==> ports@[j] != p,
        decreases ports.len() - i,
    {
        if ports[i] == p {
            assert(ports@[i as int] == p);
            return true;
        }
        i = i + 1;
    }
    false
}

/// The candidates of one search are the whole range, each port once.
pub proof fn lemma_candidates_cover_range(next: u16, p: u16)
    requires
        AUTO_PORT_MIN <= next <= AUTO_PORT_MAX,
        AUTO_PORT_MIN <= p <= AUTO_PORT_MAX,
    ensures
        exists|k: int| 0 <= k < auto_range_size() && candidate(next, k) == p,
{
    let k = ((p - next) + 1000) % 1000;
    assert(candidate(next, k) == p) by (nonlinear_arith)
        requires
            k == ((p - next) + 1000) % 1000,
            4000 <= next <= 4999,
            4000 <= p <= 4999,
            auto_range_size() == 1000,
            candidate(next, k) == 4000 + ((next - 4000) + k) % 1000,
    ;
}

} // verus!
