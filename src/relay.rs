//! The relay loop's decisions: what to do with one received datagram.
use vstd::prelude::*;

use crate::address::PeerAddr;
use crate::peer_table::{fan_out, is_join, stale_peers, swept, PeerTable};

verus! {

/// What the transport has to do after one datagram arrived.
pub struct Relay {
    /// Whether the sender was not tracked before: a join to report.
    pub joined: bool,
    /// The bytes to send, exactly as received.
    pub payload: Vec<u8>,
    /// Where to send them: every tracked peer but the sender, each once.
    pub destinations: Vec<PeerAddr>,
    /// Peers the sweep evicted: one removal to report for each.
    pub removed: Vec<PeerAddr>,
}

/// The relay's state: the peer table and the expiry window it is swept with.
pub struct RelayLoop {
    table: PeerTable,
    expiry_window: u64,
}

impl View for RelayLoop {
    type V = Map<PeerAddr, u64>;

    closed spec fn view(&self) -> Map<PeerAddr, u64> {
        self.table@
    }
}

impl RelayLoop {
    /// The relay's internal invariant.
    pub closed spec fn wf(&self) -> bool {
        self.table.wf()
    }

    /// The expiry window the relay sweeps with.
    pub closed spec fn window(&self) -> u64 {
        self.expiry_window
    }

    /// A relay with no peers yet.
    pub fn new(expiry_window: u64) -> (r: RelayLoop)
        ensures
            r.wf(),
            r@ == Map::<PeerAddr, u64>::empty(),
            r.window() == expiry_window,
    {
        RelayLoop { table: PeerTable::new(), expiry_window }
    }

    /// The expiry window the relay sweeps with.
    pub fn expiry_window(&self) -> (w: u64)
        ensures
            w == self.window(),
    {
        self.expiry_window
    }

    /// The table of tracked peers.
    pub fn peers(&self) -> (t: &PeerTable)
        requires
            self.wf(),
        ensures
            t.wf(),
            t@ == self@,
    {
        &self.table
    }

    /// Handles one datagram with `payload` from `sender`, received at `now`:
    /// records the sender, picks the peers to relay to, then sweeps stale
    /// peers out of the table.
    pub fn on_datagram(&mut self, sender: PeerAddr, payload: Vec<u8>, now: u64) -> (r: Relay)
        requires
            old(self).wf(),
        ensures
            final(self).wf(),
            final(self).window() == old(self).window(),
            final(self)@ == swept(old(self)@.insert(sender, now), now, old(self).window()),
            r.joined == is_join(old(self)@, sender),
            r.payload@ == payload@,
            r.destinations@.no_duplicates(),
            r.destinations@.to_set() == fan_out(old(self)@, sender),
            r.removed@.no_duplicates(),
            r.removed@.to_set() == stale_peers(
                old(self)@.insert(sender, now),
                now,
                old(self).window(),
            ),
    {
        let ghost start = self.table@;
        let joined = self.table.touch(sender, now);
        let destinations = self.table.all_except(sender);
        proof {
            assert(fan_out(self.table@, sender) =~= fan_out(start, sender));
        }
        let removed = self.table.sweep(now, self.expiry_window);
        Relay { joined, payload, destinations, removed }
    }
}

} // verus!
