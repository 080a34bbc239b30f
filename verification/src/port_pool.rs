//! Process-wide pool of free TCP ports in a configured range.
//!
//! Ports are leased to exactly one proxy at a time and returned to the head
//! of the pool when the proxy's node is destroyed, so freshly released ports
//! are re-used first.

use vstd::prelude::*;

verus! {

/// Errors surfaced by the port pool.
#[derive(Clone, Copy, Debug, PartialEq, Eq, Structural)]
pub enum PortError {
    /// `init` was called with an upper bound below the lower bound.
    InvalidRange,
    /// `get_port` found no free port in the pool.
    PortExhausted,
}

/// An ordered collection of free ports; the front is the next port leased.
#[derive(Clone, Debug)]
pub struct PortPool {
    ports: Vec<u16>,
    port_lower: u16,
    port_upper: u16,
}

impl PortPool {
    /// The sequence of free ports, oldest (next to be leased) first.
    pub closed spec fn view(&self) -> Seq<u16> {
        self.ports@
    }

    pub closed spec fn lower(&self) -> u16 {
        self.port_lower
    }

    pub closed spec fn upper(&self) -> u16 {
        self.port_upper
    }

    /// Every free port lies in the configured range and no port is free twice.
    pub open spec fn wf(&self) -> bool {
        &&& forall|i: int|
            0 <= i < self@.len() ==> self.lower() <= #[trigger] self@[i] <= self.upper()
        &&& forall|i: int, j: int| 0 <= i < j < self@.len() ==> self@[i] != self@[j]
    }

    /// Builds a pool holding every port of `[port_lower, port_upper]`, in
    /// ascending order.  Fails if the range is empty.
    pub fn init(port_lower: u16, port_upper: u16) -> (r: Result<PortPool, PortError>)
        ensures
            r is Ok <==> port_lower <= port_upper,
            r matches Ok(p) ==> {
                &&& p.wf()
                &&& p.lower() == port_lower
                &&& p.upper() == port_upper
                &&& p@.len() == port_upper - port_lower + 1
                &&& forall|i: int| 0 <= i < p@.len() ==> #[trigger] p@[i] == port_lower + i
            },
            r matches Err(e) ==> e == PortError::InvalidRange,
    {
        if port_upper < port_lower {
            return Err(PortError::InvalidRange);
        }
        let count: usize = (port_upper - port_lower) as usize + 1;
        let mut ports: Vec<u16> = Vec::new();
        let mut i: usize = 0;
        while i < count
            invariant
                count == port_upper - port_lower + 1,
                port_lower <= port_upper,
                i <= count,
                ports@.len() == i,
                forall|k: int| 0 <= k < i ==> #[trigger] ports@[k] == port_lower + k,
            decreases count - i,
        {
            ports.push(port_lower + (i as u16));
            i += 1;
        }
        Ok(PortPool { ports, port_lower, port_upper })
    }

    /// Leases the oldest free port, removing it from the pool.
    pub fn get_port(&mut self) -> (r: Result<u16, PortError>)
        ensures
            old(self)@.len() == 0 ==> {
                &&& r matches Err(e) && e == PortError::PortExhausted
                &&& *final(self) == *old(self)
            },
            old(self)@.len() > 0 ==> {
                &&& r matches Ok(p) && p == old(self)@[0]
                &&& final(self)@ == old(self)@.drop_first()
            },
            final(self).lower() == old(self).lower(),
            final(self).upper() == old(self).upper(),
            old(self).wf() ==> final(self).wf(),
    {
        if self.ports.len() == 0 {
            return Err(PortError::PortExhausted);
        }
        let p = self.ports.remove(0);
        Ok(p)
    }

    /// Returns a leased port to the head of the pool, so it is re-used first.
    pub fn return_port(&mut self, port: u16)
        requires
            !old(self)@.contains(port),
            old(self).lower() <= port <= old(self).upper(),
        ensures
            final(self)@ == seq![port] + old(self)@,
            final(self).lower() == old(self).lower(),
            final(self).upper() == old(self).upper(),
            old(self).wf() ==> final(self).wf(),
    {
        self.ports.insert(0, port);
        proof {
            assert(self@ =~= seq![port] + old(self)@);
        }
    }
}

/// Law: consecutive leases hand out distinct ports.  `get_port` returns the
/// pool's head and removes it, so as long as the leased port is not released
/// in between, a second lease returns the next element, which
/// well-formedness makes different from the first.
pub proof fn lemma_acquire_twice_distinct(p: PortPool)
    requires
        p.wf(),
        p@.len() >= 2,
    ensures
        p@[0] != p@.drop_first()[0],
{
    assert(p@.drop_first()[0] == p@[1]);
}

/// Law: after `init(lower, upper)` the pool yields exactly
/// `upper - lower + 1` leases before exhaustion: its contents are the full
/// range, each port once.
pub proof fn lemma_init_capacity(p: PortPool, port_lower: u16, port_upper: u16)
    requires
        port_lower <= port_upper,
        p@.len() == port_upper - port_lower + 1,
        forall|i: int| 0 <= i < p@.len() ==> #[trigger] p@[i] == port_lower + i,
    ensures
        forall|i: int, j: int| 0 <= i < j < p@.len() ==> p@[i] != p@[j],
        forall|q: u16| port_lower <= q <= port_upper ==> p@.contains(q),
{
    assert forall|q: u16| port_lower <= q <= port_upper implies p@.contains(q) by {
        assert(p@[q - port_lower] == q);
    }
}

} // verus!
