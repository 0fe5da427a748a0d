//! The table of live peers: for each address, when it was last heard from.
use vstd::prelude::*;

use crate::address::PeerAddr;

verus! {

/// Whether a peer last heard from at `last_seen` is stale at time `now`
/// under an expiry window `window`. A `last_seen` later than `now` gives no
/// meaningful elapsed time, so such a peer is never stale.
pub open spec fn is_stale(last_seen: u64, now: u64, window: u64) -> bool {
    last_seen <= now && now - last_seen > window
}

/// Whether the first datagram from `addr` would be a join for `peers`.
pub open spec fn is_join(peers: Map<PeerAddr, u64>, addr: PeerAddr) -> bool {
    !peers.contains_key(addr)
}

/// The addresses that a datagram from `sender` is relayed to.
pub open spec fn fan_out(peers: Map<PeerAddr, u64>, sender: PeerAddr) -> Set<PeerAddr> {
    peers.dom().remove(sender)
}

/// The tracked addresses that a sweep at `now` finds stale.
pub open spec fn stale_peers(peers: Map<PeerAddr, u64>, now: u64, window: u64) -> Set<PeerAddr> {
    Set::new(|a: PeerAddr| peers.contains_key(a) && is_stale(peers[a], now, window))
}

/// What is left of `peers` after a sweep at `now`.
pub open spec fn swept(peers: Map<PeerAddr, u64>, now: u64, window: u64) -> Map<PeerAddr, u64> {
    Map::new(|a: PeerAddr| peers.contains_key(a) && !is_stale(peers[a], now, window), |a: PeerAddr| peers[a])
}

/// One row of the table.
#[derive(Clone, Copy, Debug)]
struct Entry {
    addr: PeerAddr,
    last_seen: u64,
}

/// Whether `entries` holds exactly the pairs of `model`, each address once.
spec fn rows_match(entries: Seq<Entry>, model: Map<PeerAddr, u64>) -> bool {
    &&& forall|i: int, j: int|
        0 <= i < entries.len() && 0 <= j < entries.len() && i != j ==> #[trigger] entries[i].addr
            != #[trigger] entries[j].addr
    &&& forall|i: int|
        0 <= i < entries.len() ==> model.contains_key(#[trigger] entries[i].addr)
            && model[entries[i].addr] == entries[i].last_seen
    &&& forall|a: PeerAddr|
        #[trigger] model.contains_key(a) ==> exists|i: int|
            0 <= i < entries.len() && #[trigger] entries[i].addr == a
    &&& model.dom().finite()
    &&& model.len() == entries.len()
}

/// The peer table: a mapping from address to last-seen timestamp.
pub struct PeerTable {
    entries: Vec<Entry>,
    model: Ghost<Map<PeerAddr, u64>>,
}

impl View for PeerTable {
    type V = Map<PeerAddr, u64>;

    closed spec fn view(&self) -> Map<PeerAddr, u64> {
        self.model@
    }
}

impl PeerTable {
    /// The table's internal invariant.
    pub closed spec fn wf(&self) -> bool {
        rows_match(self.entries@, self.model@)
    }

    /// An empty table.
    pub fn new() -> (t: PeerTable)
        ensures
            t.wf(),
            t@ == Map::<PeerAddr, u64>::empty(),
    {
        PeerTable { entries: Vec::new(), model: Ghost(Map::empty()) }
    }

    /// The number of tracked peers.
    pub fn len(&self) -> (n: usize)
        requires
            self.wf(),
        ensures
            n == self@.len(),
    {
        self.entries.len()
    }

    /// Whether no peer is tracked.
    pub fn is_empty(&self) -> (r: bool)
        requires
            self.wf(),
        ensures
            r == (self@.len() == 0),
    {
        self.entries.len() == 0
    }

    /// The row that holds `addr`, if any.
    fn find(&self, addr: PeerAddr) -> (r: Option<usize>)
        requires
            self.wf(),
        ensures
            match r {
                Some(i) => i < self.entries@.len() && self.entries@[i as int].addr == addr,
                None => !self@.contains_key(addr),
            },
    {
        let mut i: usize = 0;
        while i < self.entries.len()
            invariant
                i <= self.entries@.len(),
                forall|k: int| 0 <= k < i ==> #[trigger] self.entries@[k].addr != addr,
            decreases self.entries@.len() - i,
        {
            if self.entries[i].addr == addr {
                return Some(i);
            }
            i = i + 1;
        }
        None
    }

    /// Whether `addr` is tracked.
    pub fn contains(&self, addr: PeerAddr) -> (r: bool)
        requires
            self.wf(),
        ensures
            r == self@.contains_key(addr),
    {
        self.find(addr).is_some()
    }

    /// When `addr` was last heard from, if it is tracked.
    pub fn last_seen(&self, addr: PeerAddr) -> (r: Option<u64>)
        requires
            self.wf(),
        ensures
            r == (if self@.contains_key(addr) { Some(self@[addr]) } else { None::<u64> }),
    {
        match self.find(addr) {
            Some(i) => Some(self.entries[i].last_seen),
            None => None,
        }
    }
    /// Records a datagram from `addr` at time `now`: a new address is added,
    /// a tracked one has its timestamp overwritten. Returns whether `addr`
    /// was new, i.e. whether this is a join.
    pub fn touch(&mut self, addr: PeerAddr, now: u64) -> (new_peer: bool)
        requires
            old(self).wf(),
        ensures
            final(self).wf(),
            final(self)@ == old(self)@.insert(addr, now),
            new_peer == is_join(old(self)@, addr),
    {
        match self.find(addr) {
            Some(i) => {
                let ghost before = self.entries@;
                self.entries.set(i, Entry { addr, last_seen: now });
                self.model = Ghost(self.model@.insert(addr, now));
                assert(forall|k: int|
                    0 <= k < self.entries@.len() ==> #[trigger] self.entries@[k].addr
                        == before[k].addr);
                assert forall|a: PeerAddr| #[trigger] self.model@.contains_key(a) implies exists|k: int|
                    0 <= k < self.entries@.len() && #[trigger] self.entries@[k].addr == a by {
                    let k = choose|k: int| 0 <= k < before.len() && #[trigger] before[k].addr == a;
                    assert(self.entries@[k].addr == a);
                }
                false
            },
            None => {
                let ghost before = self.entries@;
                self.entries.push(Entry { addr, last_seen: now });
                self.model = Ghost(self.model@.insert(addr, now));
                assert(forall|k: int|
                    0 <= k < before.len() ==> #[trigger] self.entries@[k] == before[k]);
                assert(self.entries@[before.len() as int].addr == addr);
                assert forall|a: PeerAddr| #[trigger] self.model@.contains_key(a) implies exists|k: int|
                    0 <= k < self.entries@.len() && #[trigger] self.entries@[k].addr == a by {
                    if a != addr {
                        let k = choose|k: int| 0 <= k < before.len() && #[trigger] before[k].addr == a;
                        assert(self.entries@[k].addr == a);
                    }
                }
                true
            },
        }
    }

    /// Every tracked address other than `excluded`, each exactly once, in
    /// no particular order.
    pub fn all_except(&self, excluded: PeerAddr) -> (r: Vec<PeerAddr>)
        requires
            self.wf(),
        ensures
            r@.no_duplicates(),
            r@.to_set() == fan_out(self@, excluded),
    {
        let mut r: Vec<PeerAddr> = Vec::new();
        let mut i: usize = 0;
        while i < self.entries.len()
            invariant
                self.wf(),
                i <= self.entries@.len(),
                r@.no_duplicates(),
                forall|a: PeerAddr|
                    #[trigger] r@.contains(a) <==> (a != excluded && exists|k: int|
                        0 <= k < i && #[trigger] self.entries@[k].addr == a),
            decreases self.entries@.len() - i,
        {
            let a = self.entries[i].addr;
            if a != excluded {
                proof {
                    assert(!r@.contains(a)) by {
                        if r@.contains(a) {
                            let k = choose|k: int| 0 <= k < i && #[trigger] self.entries@[k].addr == a;
                            assert(self.entries@[k].addr != self.entries@[i as int].addr);
                        }
                    }
                }
                let ghost before = r@;
                r.push(a);
                assert(r@.last() == a);
                assert(forall|x: PeerAddr| #[trigger] r@.contains(x) <==> (before.contains(x) || x == a)) by {
                    assert(forall|j: int| 0 <= j < before.len() ==> r@[j] == before[j]);
                    assert(forall|x: PeerAddr| before.contains(x) ==> r@.contains(x));
                }
            }
            i = i + 1;
        }
        proof {
            assert(r@.to_set() =~= fan_out(self@, excluded));
        }
        r
    }
    /// Removes every peer that is stale at `now` under `window` and returns
    /// the removed addresses, each exactly once. A peer whose timestamp lies
    /// after `now` is kept.
    pub fn sweep(&mut self, now: u64, window: u64) -> (removed: Vec<PeerAddr>)
        requires
            old(self).wf(),
        ensures
            final(self).wf(),
            final(self)@ == swept(old(self)@, now, window),
            removed@.no_duplicates(),
            removed@.to_set() == stale_peers(old(self)@, now, window),
    {
        let ghost rows = self.entries@;
        let ghost start = self.model@;
        let mut kept: Vec<Entry> = Vec::new();
        let ghost mut kept_model = Map::<PeerAddr, u64>::empty();
        let mut removed: Vec<PeerAddr> = Vec::new();
        let mut i: usize = 0;
        while i < self.entries.len()
            invariant
                self.entries@ == rows,
                self.model@ == start,
                rows_match(rows, start),
                i <= rows.len(),
                rows_match(kept@, kept_model),
                forall|a: PeerAddr|
                    #[trigger] kept_model.contains_key(a) <==> exists|k: int|
                        0 <= k < i && #[trigger] rows[k].addr == a && !is_stale(
                            rows[k].last_seen,
                            now,
                            window,
                        ),
                forall|a: PeerAddr|
                    #[trigger] kept_model.contains_key(a) ==> kept_model[a] == start[a],
                removed@.no_duplicates(),
                forall|a: PeerAddr|
                    #[trigger] removed@.contains(a) <==> exists|k: int|
                        0 <= k < i && #[trigger] rows[k].addr == a && is_stale(
                            rows[k].last_seen,
                            now,
                            window,
                        ),
            decreases rows.len() - i,
        {
            let e = self.entries[i];
            proof {
                assert forall|k: int| 0 <= k < i implies #[trigger] rows[k].addr != e.addr by {
                    assert(rows[k].addr != rows[i as int].addr);
                }
            }
            if e.last_seen <= now && now - e.last_seen > window {
                let ghost before = removed@;
                removed.push(e.addr);
                proof {
                    assert(!before.contains(e.addr));
                    assert(removed@.last() == e.addr);
                    assert forall|x: PeerAddr| #[trigger] removed@.contains(x) <==> (before.contains(x) || x == e.addr) by {
                        if before.contains(x) {
                            let j = choose|j: int| 0 <= j < before.len() && before[j] == x;
                            assert(removed@[j] == x);
                        }
                    }
                    assert forall|a: PeerAddr| #[trigger] removed@.contains(a) <==> exists|k: int|
                        0 <= k < i + 1 && #[trigger] rows[k].addr == a && is_stale(rows[k].last_seen, now, window) by {
                        if a == e.addr {
                            assert(rows[i as int].addr == a);
                        }
                    }
                    assert forall|a: PeerAddr| #[trigger] kept_model.contains_key(a) <==> exists|k: int|
                        0 <= k < i + 1 && #[trigger] rows[k].addr == a && !is_stale(rows[k].last_seen, now, window) by {
                        if a == e.addr {
                            assert(!kept_model.contains_key(a));
                        }
                    }
                }
            } else {
                let ghost before = kept@;
                let ghost model_before = kept_model;
                kept.push(e);
                proof {
                    assert(!model_before.contains_key(e.addr));
                    kept_model = kept_model.insert(e.addr, e.last_seen);
                    assert(kept@[before.len() as int] == e);
                    assert(forall|k: int| 0 <= k < before.len() ==> #[trigger] kept@[k] == before[k]);
                    assert forall|k: int| 0 <= k < before.len() implies #[trigger] kept@[k].addr != e.addr by {
                        assert(model_before.contains_key(before[k].addr));
                    }
                    assert forall|a: PeerAddr| #[trigger] kept_model.contains_key(a) implies exists|k: int|
                        0 <= k < kept@.len() && #[trigger] kept@[k].addr == a by {
                        if a != e.addr {
                            let k = choose|k: int| 0 <= k < before.len() && #[trigger] before[k].addr == a;
                            assert(kept@[k].addr == a);
                        }
                    }
                    assert forall|a: PeerAddr| #[trigger] kept_model.contains_key(a) <==> exists|k: int|
                        0 <= k < i + 1 && #[trigger] rows[k].addr == a && !is_stale(rows[k].last_seen, now, window) by {
                        if a == e.addr {
                            assert(rows[i as int].addr == a);
                        }
                    }
                    assert forall|a: PeerAddr| #[trigger] removed@.contains(a) <==> exists|k: int|
                        0 <= k < i + 1 && #[trigger] rows[k].addr == a && is_stale(rows[k].last_seen, now, window) by {
                        if a == e.addr {
                            if removed@.contains(a) {
                                let k = choose|k: int| 0 <= k < i && #[trigger] rows[k].addr == a && is_stale(rows[k].last_seen, now, window);
                                assert(rows[k].addr != rows[i as int].addr);
                            }
                        }
                    }
                    assert(start.contains_key(e.addr) && start[e.addr] == e.last_seen);
                }
            }
            i = i + 1;
        }
        proof {
            assert forall|a: PeerAddr| #[trigger] start.contains_key(a) implies (kept_model.contains_key(a) <==> !is_stale(start[a], now, window)) && (removed@.contains(a) <==> is_stale(start[a], now, window)) by {
                let k = choose|k: int| 0 <= k < rows.len() && #[trigger] rows[k].addr == a;
                assert(rows[k].addr == a);
            }
            assert(kept_model =~= swept(start, now, window));
            assert(removed@.to_set() =~= stale_peers(start, now, window));
        }
        self.entries = kept;
        self.model = Ghost(kept_model);
        removed
    }
}

} // verus!
