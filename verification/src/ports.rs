//! SSH port allocation: a port from the ephemeral range, never one
//! this allocator already handed out and never one the caller reports
//! as in use.
use vstd::prelude::*;
use rand::Rng;

verus! {

/// How many random candidates are drawn before the allocator reports
/// the range as exhausted.
pub const MAX_PORT_ATTEMPTS: usize = 64;

/// Relies on rand's `thread_rng` and `Rng::gen_range` over
/// `49152..65535`: the sample lies in that half-open range, and the
/// range is not empty, so the call does not panic. Nothing is assumed
/// about which port comes back.
#[verifier::external_body]
fn random_ephemeral_port() -> (r: u16)
    ensures
        49152 <= r < 65535,
{
    rand::thread_rng().gen_range(49152..65535)
}

/// Whether `x` occurs in `v`.
fn contains_port(v: &Vec<u16>, x: u16) -> (b: bool)
    ensures
        b == v@.contains(x),
{
    let n = v.len();
    let mut i: usize = 0;
    while i < n
        invariant
            i <= n,
            n == v@.len(),
            forall|j: int| 0 <= j < i ==> v@[j] != x,
        decreases n - i,
    {
        if v[i] == x {
            return true;
        }
        i = i + 1;
    }
    false
}

/// Some port of the ephemeral range `[49152, 65535)` is already
/// reserved or reported in use: the one circumstance under which an
/// allocation may fail.
pub open spec fn some_port_taken(reserved: Seq<u16>, in_use: Seq<u16>) -> bool {
    exists|q: u16|
        #![trigger reserved.contains(q)]
        #![trigger in_use.contains(q)]
        49152 <= q < 65535 && (reserved.contains(q) || in_use.contains(q))
}

/// Policy for choosing a free ephemeral port for a new instance's SSH
/// forward. It remembers every port it handed out, so no two
/// allocations from one allocator ever collide.
pub struct PortAllocator {
    reserved: Vec<u16>,
}

impl PortAllocator {
    /// Every port this allocator has handed out, in order.
    pub closed spec fn reserved_ports(&self) -> Seq<u16> {
        self.reserved@
    }

    /// Handed-out ports are pairwise distinct: the allocator's invariant.
    pub open spec fn wf(&self) -> bool {
        forall|i: int, j: int|
            0 <= i < j < self.reserved_ports().len() ==> self.reserved_ports()[i]
                != self.reserved_ports()[j]
    }

    pub fn new() -> (r: Self)
        ensures
            r.wf(),
            r.reserved_ports() == Seq::<u16>::empty(),
    {
        PortAllocator { reserved: Vec::new() }
    }

    /// Draws candidates until one is neither already handed out nor in
    /// `in_use`, giving up after a bounded number of attempts. A
    /// returned port lies in the ephemeral range `[49152, 65535)`, is
    /// fresh on both counts, and is remembered; on exhaustion the
    /// allocator is unchanged. While no ephemeral-range port is taken
    /// at all, no candidate can be rejected, so allocation succeeds.
    pub fn allocate(&mut self, in_use: &Vec<u16>) -> (r: Option<u16>)
        requires
            old(self).wf(),
        ensures
            final(self).wf(),
            !some_port_taken(old(self).reserved_ports(), in_use@) ==> r is Some,
            match r {
                Some(p) => 49152 <= p < 65535 && !old(self).reserved_ports().contains(p)
                    && !in_use@.contains(p) && final(self).reserved_ports() == old(
                    self,
                ).reserved_ports().push(p),
                None => final(self).reserved_ports() == old(self).reserved_ports(),
            },
    {
        let mut attempt: usize = 0;
        while attempt < MAX_PORT_ATTEMPTS
            invariant
                *self == *old(self),
                old(self).wf(),
                attempt > 0 ==> some_port_taken(old(self).reserved_ports(), in_use@),
            decreases MAX_PORT_ATTEMPTS - attempt,
        {
            let p = random_ephemeral_port();
            if !contains_port(&self.reserved, p) && !contains_port(in_use, p) {
                proof {
                    assert(!old(self).reserved_ports().contains(p));
                }
                self.reserved.push(p);
                proof {
                    assert(self.reserved_ports() == old(self).reserved_ports().push(p));
                    assert forall|i: int, j: int|
                        0 <= i < j < self.reserved_ports().len() implies self.reserved_ports()[i]
                        != self.reserved_ports()[j] by {
                        if j < self.reserved_ports().len() - 1 {
                            assert(old(self).reserved_ports()[i] != old(self).reserved_ports()[j]);
                        } else {
                            assert(self.reserved_ports()[j] == p);
                            assert(self.reserved_ports()[i] == old(self).reserved_ports()[i]);
                            if old(self).reserved_ports()[i] == p {
                                assert(old(self).reserved_ports().contains(p));
                            }
                        }
                    }
                }
                return Some(p);
            }
            proof {
                assert(self.reserved@.contains(p) || in_use@.contains(p));
                assert(some_port_taken(old(self).reserved_ports(), in_use@));
            }
            attempt = attempt + 1;
        }
        None
    }
}

/// No two ports handed out by one allocator are equal: any two
/// distinct allocations, at whatever positions in its history, differ.
pub proof fn lemma_allocations_distinct(a: &PortAllocator, i: int, j: int)
    requires
        a.wf(),
        0 <= i < a.reserved_ports().len(),
        0 <= j < a.reserved_ports().len(),
        i != j,
    ensures
        a.reserved_ports()[i] != a.reserved_ports()[j],
{
}

} // verus!
