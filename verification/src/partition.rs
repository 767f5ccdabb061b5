//! Repartitioning: grouping services into named partitions with configured
//! inter-partition packet loss.
//!
//! Packet loss between partitions is a whole percentage (0 to 100); pairs
//! without an explicit connection fall back to the default rule.
//! Repartitioning is atomic: either the full new topology takes effect, or
//! the old one stays untouched.
use vstd::prelude::*;
use crate::bytes::bytes_eq;
use crate::service::{live_name_in, ServiceRecord, ServiceRegistry};

verus! {

/// A requested partition topology: named partitions of service names, and
/// packet-loss percentages per ordered pair of partition names.
pub struct PartitionTopology {
    /// Partition name, and the names of the services it holds.
    pub partitions: Vec<(Vec<u8>, Vec<Vec<u8>>)>,
    /// (from partition, to partition, packet loss percentage).
    pub connections: Vec<(Vec<u8>, Vec<u8>, u32)>,
    /// Applied to any pair of partitions without an explicit connection.
    pub default_packet_loss_percentage: u32,
}

/// A partition of this name is declared by the topology.
pub open spec fn partition_declared(t: PartitionTopology, n: Seq<u8>) -> bool {
    exists|p: int| 0 <= p < t.partitions@.len() && (#[trigger] t.partitions@[p]).0@ == n
}

/// The service name is assigned to some partition.
pub open spec fn service_assigned(t: PartitionTopology, n: Seq<u8>) -> bool {
    exists|p: int, s: int|
        0 <= p < t.partitions@.len() && 0 <= s < (t.partitions@[p]).1@.len() && (
        #[trigger] t.partitions@[p].1@[s])@ == n
}

/// The topology is valid against the given service records: partition names
/// unique; every listed service live and listed exactly once; every live
/// service assigned to a partition; every connection between declared
/// partitions with a loss of at most 100 percent; default loss in range.
pub open spec fn topology_valid(t: PartitionTopology, recs: Seq<ServiceRecord>) -> bool {
    &&& forall|p1: int, p2: int|
        0 <= p1 < p2 < t.partitions@.len() ==> (#[trigger] t.partitions@[p1]).0@ != (
        #[trigger] t.partitions@[p2]).0@
    &&& forall|p: int, s: int|
        0 <= p < t.partitions@.len() && 0 <= s < (t.partitions@[p]).1@.len() ==> live_name_in(
            recs,
            (#[trigger] t.partitions@[p].1@[s])@,
        )
    &&& forall|p1: int, s1: int, p2: int, s2: int|
        #![trigger (t.partitions@[p1]).1@[s1], (t.partitions@[p2]).1@[s2]]
        0 <= p1 < t.partitions@.len() && 0 <= s1 < (t.partitions@[p1]).1@.len() && 0 <= p2
            < t.partitions@.len() && 0 <= s2 < (t.partitions@[p2]).1@.len() && !(p1 == p2 && s1
            == s2) ==> (t.partitions@[p1]).1@[s1]@ != (t.partitions@[p2]).1@[s2]@
    &&& forall|i: int|
        0 <= i < recs.len() && (#[trigger] recs[i]).live ==> service_assigned(t, recs[i].name@)
    &&& forall|c: int|
        0 <= c < t.connections@.len() ==> partition_declared(t, (#[trigger] t.connections@[c]).0@)
            && partition_declared(t, t.connections@[c].1@) && t.connections@[c].2 <= 100
    &&& t.default_packet_loss_percentage <= 100
}

/// Why a requested topology was rejected.
#[derive(Clone, Copy, PartialEq, Eq, Structural, Debug)]
pub enum PartitionError {
    DuplicatePartitionNameError,
    ServiceNotLiveError,
    ServiceMultiplyAssignedError,
    ServiceUnassignedError,
    UnknownPartitionError,
    PacketLossOutOfRangeError,
}

/// The network's current partition topology.
pub struct NetworkState {
    pub topology: PartitionTopology,
}

impl NetworkState {
    /// A fresh network: no partitions, full connectivity.
    pub fn new() -> (s: Self)
        ensures
            s.topology.partitions@.len() == 0,
            s.topology.connections@.len() == 0,
            s.topology.default_packet_loss_percentage == 0,
    {
        NetworkState {
            topology: PartitionTopology {
                partitions: Vec::new(),
                connections: Vec::new(),
                default_packet_loss_percentage: 0,
            },
        }
    }

    /// Replace the partition topology atomically: the new topology takes
    /// effect exactly when it is valid against the live services; otherwise
    /// nothing changes.
    pub fn repartition(&mut self, services: &ServiceRegistry, t: PartitionTopology) -> (r: Result<
        (),
        PartitionError,
    >)
        ensures
            r is Ok <==> topology_valid(t, services.records@),
            r is Ok ==> final(self).topology == t,
            r is Err ==> *final(self) == *old(self),
    {
        match check_topology(&t, services) {
            Ok(()) => {
                self.topology = t;
                Ok(())
            },
            Err(e) => Err(e),
        }
    }

    /// The packet loss applied between two partitions: the first explicit
    /// connection for the ordered pair, or the default rule.
    pub fn packet_loss_between(&self, from: &Vec<u8>, to: &Vec<u8>) -> (r: u32)
        ensures
            (exists|c: int|
                0 <= c < self.topology.connections@.len() && (
                #[trigger] self.topology.connections@[c]).0@ == from@
                    && self.topology.connections@[c].1@ == to@) ==> exists|c: int|
                {
                    &&& 0 <= c < self.topology.connections@.len()
                    &&& (#[trigger] self.topology.connections@[c]).0@ == from@
                    &&& self.topology.connections@[c].1@ == to@
                    &&& r == self.topology.connections@[c].2
                    &&& forall|c2: int|
                        0 <= c2 < c ==> !((#[trigger] self.topology.connections@[c2]).0@ == from@
                            && self.topology.connections@[c2].1@ == to@)
                },
            !(exists|c: int|
                0 <= c < self.topology.connections@.len() && (
                #[trigger] self.topology.connections@[c]).0@ == from@
                    && self.topology.connections@[c].1@ == to@) ==> r
                == self.topology.default_packet_loss_percentage,
    {
        let conns = &self.topology.connections;
        let mut c: usize = 0;
        while c < conns.len()
            invariant
                c <= conns@.len(),
                conns == &self.topology.connections,
                forall|c2: int|
                    0 <= c2 < c ==> !((#[trigger] conns@[c2]).0@ == from@ && conns@[c2].1@ == to@),
            decreases conns@.len() - c,
        {
            if bytes_eq(&conns[c].0, from) && bytes_eq(&conns[c].1, to) {
                return conns[c].2;
            }
            c = c + 1;
        }
        self.topology.default_packet_loss_percentage
    }
}

/// Validate a requested topology against the live services, reporting the
/// first violated rule.
fn check_topology(t: &PartitionTopology, services: &ServiceRegistry) -> (r: Result<
    (),
    PartitionError,
>)
    ensures
        r is Ok <==> topology_valid(*t, services.records@),
{
    let nparts = t.partitions.len();
    // Partition names unique.
    let mut p1: usize = 0;
    while p1 < nparts
        invariant
            p1 <= nparts,
            nparts == t.partitions@.len(),
            forall|a: int, b: int|
                0 <= a < b < nparts && a < p1 ==> (#[trigger] t.partitions@[a]).0@ != (
                #[trigger] t.partitions@[b]).0@,
        decreases nparts - p1,
    {
        let mut p2: usize = p1 + 1;
        while p2 < nparts
            invariant
                p1 < p2 <= nparts,
                nparts == t.partitions@.len(),
                forall|b: int|
                    p1 < b < p2 ==> (#[trigger] t.partitions@[b]).0@ != t.partitions@[p1 as int].0@,
            decreases nparts - p2,
        {
            if bytes_eq(&t.partitions[p1].0, &t.partitions[p2].0) {
                return Err(PartitionError::DuplicatePartitionNameError);
            }
            p2 = p2 + 1;
        }
        p1 = p1 + 1;
    }
    // Every listed service is live, and listed exactly once.
    let mut p1: usize = 0;
    while p1 < nparts
        invariant
            p1 <= nparts,
            nparts == t.partitions@.len(),
            forall|a: int, s: int|
                0 <= a < p1 && 0 <= s < (t.partitions@[a]).1@.len() ==> live_name_in(
                    services.records@,
                    (#[trigger] t.partitions@[a].1@[s])@,
                ),
            forall|a: int, b: int|
                0 <= a < b < nparts ==> (#[trigger] t.partitions@[a]).0@ != (
                #[trigger] t.partitions@[b]).0@,
        decreases nparts - p1,
    {
        let names = &t.partitions[p1].1;
        let mut s1: usize = 0;
        while s1 < names.len()
            invariant
                s1 <= names@.len(),
                p1 < nparts == t.partitions@.len(),
                names == &t.partitions@[p1 as int].1,
                forall|a: int, s: int|
                    0 <= a < p1 && 0 <= s < (t.partitions@[a]).1@.len() ==> live_name_in(
                        services.records@,
                        (#[trigger] t.partitions@[a].1@[s])@,
                    ),
                forall|s: int|
                    0 <= s < s1 ==> live_name_in(
                        services.records@,
                        (#[trigger] names@[s])@,
                    ),
            decreases names@.len() - s1,
        {
            match services.find_live_by_name(&names[s1]) {
                Some(_) => {},
                None => {
                    return Err(PartitionError::ServiceNotLiveError);
                },
            }
            s1 = s1 + 1;
        }
        proof {
            assert forall|a: int, s: int|
                0 <= a < p1 + 1 && 0 <= s < (t.partitions@[a]).1@.len() implies live_name_in(
                services.records@,
                (#[trigger] t.partitions@[a].1@[s])@,
            ) by {
                if a == p1 {
                    assert(live_name_in(services.records@, names@[s]@));
                }
            }
        }
        p1 = p1 + 1;
    }
    // No service name listed twice.
    let mut p1: usize = 0;
    while p1 < nparts
        invariant
            p1 <= nparts,
            nparts == t.partitions@.len(),
            forall|a1: int, x1: int, a2: int, x2: int|
                #![trigger (t.partitions@[a1]).1@[x1], (t.partitions@[a2]).1@[x2]]
                0 <= a1 < nparts && 0 <= x1 < (t.partitions@[a1]).1@.len() && 0 <= a2 < nparts && 0
                    <= x2 < (t.partitions@[a2]).1@.len() && !(a1 == a2 && x1 == x2) && a1 < p1 && (
                a2 < a1 || (a2 == a1 && x2 <= x1) || a2 < p1) ==> (t.partitions@[a1]).1@[x1]@ != (
                t.partitions@[a2]).1@[x2]@,
        decreases nparts - p1,
    {
        let len1 = t.partitions[p1].1.len();
        let mut x1: usize = 0;
        while x1 < len1
            invariant
                x1 <= len1,
                p1 < nparts == t.partitions@.len(),
                len1 == (t.partitions@[p1 as int]).1@.len(),
                forall|a1: int, y1: int, a2: int, y2: int|
                    #![trigger (t.partitions@[a1]).1@[y1], (t.partitions@[a2]).1@[y2]]
                    0 <= a1 < nparts && 0 <= y1 < (t.partitions@[a1]).1@.len() && 0 <= a2 < nparts
                        && 0 <= y2 < (t.partitions@[a2]).1@.len() && !(a1 == a2 && y1 == y2) && ((a1
                        < p1 && (a2 < a1 || (a2 == a1 && y2 <= y1) || a2 < p1)) || (a1 == p1 && y1
                        < x1 && (a2 < p1 || (a2 == p1 && y2 <= y1)))) ==> (
                    t.partitions@[a1]).1@[y1]@ != (t.partitions@[a2]).1@[y2]@,
            decreases len1 - x1,
        {
            // compare against every earlier slot
            let mut p2: usize = 0;
            while p2 <= p1
                invariant
                    p2 <= p1 + 1,
                    x1 < len1,
                    p1 < nparts == t.partitions@.len(),
                    x1 < len1 == (t.partitions@[p1 as int]).1@.len(),
                    forall|a2: int, y2: int|
                        0 <= a2 < p2 && 0 <= y2 < (t.partitions@[a2]).1@.len() && !(a2
                            == p1 as int && y2 == x1 as int) && (a2 < p1 || y2 <= x1) ==> (
                        t.partitions@[p1 as int]).1@[x1 as int]@ != (
                        #[trigger] t.partitions@[a2].1@[y2])@,
                decreases p1 + 1 - p2,
            {
                let limit = if p2 == p1 {
                    x1 + 1
                } else {
                    t.partitions[p2].1.len()
                };
                let mut y2: usize = 0;
                while y2 < limit
                    invariant
                        y2 <= limit,
                        p2 <= p1 < nparts == t.partitions@.len(),
                        x1 < len1 == (t.partitions@[p1 as int]).1@.len(),
                        limit as int == if p2 == p1 {
                            x1 + 1
                        } else {
                            (t.partitions@[p2 as int]).1@.len() as int
                        },
                        limit <= (t.partitions@[p2 as int]).1@.len() || (p2 == p1 && limit == x1
                            + 1),
                        forall|y: int|
                            0 <= y < y2 && !(p2 == p1 && y == x1 as int) ==> (
                            t.partitions@[p1 as int]).1@[x1 as int]@ != (
                            #[trigger] t.partitions@[p2 as int].1@[y])@,
                    decreases limit - y2,
                {
                    if !(p2 == p1 && y2 == x1) {
                        if bytes_eq(&t.partitions[p1].1[x1], &t.partitions[p2].1[y2]) {
                            return Err(PartitionError::ServiceMultiplyAssignedError);
                        }
                    }
                    y2 = y2 + 1;
                }
                p2 = p2 + 1;
            }
            x1 = x1 + 1;
        }
        p1 = p1 + 1;
    }
    // Every live service is assigned.
    let live = services.live_indexes();
    let mut k: usize = 0;
    while k < live.len()
        invariant
            k <= live@.len(),
            nparts == t.partitions@.len(),
            forall|k2: int|
                0 <= k2 < live@.len() ==> (#[trigger] live@[k2]) < services.records@.len()
                    && services.records@[live@[k2] as int].live,
            forall|i: int|
                0 <= i < services.records@.len() && (#[trigger] services.records@[i]).live
                    ==> exists|k2: int| 0 <= k2 < live@.len() && live@[k2] == i,
            forall|k2: int|
                0 <= k2 < k ==> service_assigned(
                    *t,
                    services.records@[(#[trigger] live@[k2]) as int].name@,
                ),
        decreases live@.len() - k,
    {
        let name = &services.records[live[k]].name;
        let mut found = false;
        let mut p: usize = 0;
        while p < nparts
            invariant
                p <= nparts,
                nparts == t.partitions@.len(),
                found ==> service_assigned(*t, name@),
                !found ==> forall|a: int, s: int|
                    0 <= a < p && 0 <= s < (t.partitions@[a]).1@.len() ==> (
                    #[trigger] t.partitions@[a].1@[s])@ != name@,
            decreases nparts - p,
        {
            if !found {
                let names = &t.partitions[p].1;
                let mut s: usize = 0;
                while s < names.len() && !found
                    invariant
                        s <= names@.len(),
                        p < nparts == t.partitions@.len(),
                        names == &t.partitions@[p as int].1,
                        found ==> service_assigned(*t, name@),
                        !found ==> forall|y: int| 0 <= y < s ==> (#[trigger] names@[y])@ != name@,
                    decreases names@.len() - s + (if found { 0int } else { 1int }),
                {
                    if bytes_eq(&names[s], name) {
                        found = true;
                        proof {
                            assert((t.partitions@[p as int].1@[s as int])@ == name@);
                            assert(service_assigned(*t, name@));
                        }
                    } else {
                        s = s + 1;
                    }
                }
            }
            p = p + 1;
        }
        if !found {
            proof {
                if service_assigned(*t, name@) {
                    let (a, s) = choose|a: int, s: int|
                        0 <= a < t.partitions@.len() && 0 <= s < (t.partitions@[a]).1@.len() && (
                        #[trigger] t.partitions@[a].1@[s])@ == name@;
                }
            }
            return Err(PartitionError::ServiceUnassignedError);
        }
        k = k + 1;
    }
    // Connections reference declared partitions, losses in range.
    let mut c: usize = 0;
    while c < t.connections.len()
        invariant
            c <= t.connections@.len(),
            nparts == t.partitions@.len(),
            forall|c2: int|
                0 <= c2 < c ==> partition_declared(*t, (#[trigger] t.connections@[c2]).0@)
                    && partition_declared(*t, t.connections@[c2].1@) && t.connections@[c2].2 <= 100,
        decreases t.connections@.len() - c,
    {
        if t.connections[c].2 > 100 {
            return Err(PartitionError::PacketLossOutOfRangeError);
        }
        let mut ok0 = false;
        let mut ok1 = false;
        let mut p: usize = 0;
        while p < nparts
            invariant
                p <= nparts,
                c < t.connections@.len(),
                nparts == t.partitions@.len(),
                ok0 ==> partition_declared(*t, t.connections@[c as int].0@),
                ok1 ==> partition_declared(*t, t.connections@[c as int].1@),
                !ok0 ==> forall|a: int|
                    0 <= a < p ==> (#[trigger] t.partitions@[a]).0@ != t.connections@[c as int].0@,
                !ok1 ==> forall|a: int|
                    0 <= a < p ==> (#[trigger] t.partitions@[a]).0@ != t.connections@[c as int].1@,
            decreases nparts - p,
        {
            if !ok0 && bytes_eq(&t.partitions[p].0, &t.connections[c].0) {
                ok0 = true;
            }
            if !ok1 && bytes_eq(&t.partitions[p].0, &t.connections[c].1) {
                ok1 = true;
            }
            p = p + 1;
        }
        if !ok0 || !ok1 {
            return Err(PartitionError::UnknownPartitionError);
        }
        c = c + 1;
    }
    if t.default_packet_loss_percentage > 100 {
        return Err(PartitionError::PacketLossOutOfRangeError);
    }
    Ok(())
}

} // verus!
