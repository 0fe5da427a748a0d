//! Laws of the relay, stated over the models that the operations' contracts
//! speak of.
use vstd::prelude::*;

use crate::address::PeerAddr;
use crate::peer_table::{fan_out, is_join, is_stale, stale_peers, swept};

verus! {

/// Each address of `s`, a sequence without repeats, occurs in it exactly
/// once, and no other value occurs.
proof fn lemma_each_once(s: Seq<PeerAddr>)
    requires
        s.no_duplicates(),
    ensures
        forall|a: PeerAddr|
            #[trigger] s.to_multiset().count(a) == if s.contains(a) {
                1nat
            } else {
                0nat
            },
{
    s.lemma_multiset_has_no_duplicates();
    assert forall|a: PeerAddr|
        #[trigger] s.to_multiset().count(a) == if s.contains(a) {
            1nat
        } else {
            0nat
        } by {
        s.to_multiset_ensures();
    }
}

/// Fan-out is complete: the destinations chosen for a datagram from
/// `sender` (those that `RelayLoop::on_datagram` returns) name every other
/// tracked peer exactly once and nothing else, so there are N - 1 of them
/// when the sender is one of the N tracked peers and N when it is not.
pub proof fn fan_out_reaches_each_other_peer_once(
    peers: Map<PeerAddr, u64>,
    sender: PeerAddr,
    destinations: Seq<PeerAddr>,
)
    requires
        peers.dom().finite(),
        destinations.no_duplicates(),
        destinations.to_set() == fan_out(peers, sender),
    ensures
        forall|a: PeerAddr|
            #[trigger] destinations.to_multiset().count(a) == if peers.contains_key(a) && a
                != sender {
                1nat
            } else {
                0nat
            },
        destinations.len() == if peers.contains_key(sender) {
            (peers.len() - 1) as nat
        } else {
            peers.len()
        },
{
    lemma_each_once(destinations);
    assert forall|a: PeerAddr| destinations.contains(a) <==> (peers.contains_key(a) && a != sender) by {
        assert(destinations.to_set().contains(a) == destinations.contains(a));
    }
    destinations.unique_seq_to_set();
}

/// Touching an address again changes only its timestamp: the tracked
/// addresses, and so their number, stay as they were after the first touch,
/// and every other peer keeps its timestamp.
pub proof fn repeated_touch_keeps_membership(
    peers: Map<PeerAddr, u64>,
    addr: PeerAddr,
    first: u64,
    second: u64,
)
    requires
        peers.dom().finite(),
    ensures
        peers.insert(addr, first).insert(addr, second).dom() == peers.insert(addr, first).dom(),
        peers.insert(addr, first).insert(addr, second).len() == peers.insert(addr, first).len(),
        peers.insert(addr, first).insert(addr, second)[addr] == second,
        forall|b: PeerAddr|
            b != addr && #[trigger] peers.contains_key(b) ==> peers.insert(addr, first).insert(
                addr,
                second,
            )[b] == peers[b],
{
    assert(peers.insert(addr, first).insert(addr, second).dom() =~= peers.insert(
        addr,
        first,
    ).dom());
}

/// A join is reported once: the first datagram from an untracked address
/// is a join, and once its datagram has been handled (touch, then sweep at
/// the same time) the address is tracked, so the next datagram from it is
/// no join.
pub proof fn join_reported_once(peers: Map<PeerAddr, u64>, addr: PeerAddr, now: u64, window: u64)
    ensures
        is_join(peers, addr) == !peers.contains_key(addr),
        !is_join(swept(peers.insert(addr, now), now, window), addr),
{
}

/// Expiry is exact at the window's edge: a peer last seen at `t` is stale,
/// and swept out, at `t + window + eps`, and is neither at
/// `t + window - eps`, for any `eps > 0`.
pub proof fn expiry_at_window_edge(
    peers: Map<PeerAddr, u64>,
    addr: PeerAddr,
    window: u64,
    eps: u64,
)
    requires
        peers.contains_key(addr),
        eps > 0,
    ensures
        peers[addr] + window + eps <= u64::MAX ==> {
            let now = (peers[addr] + window + eps) as u64;
            &&& stale_peers(peers, now, window).contains(addr)
            &&& !swept(peers, now, window).contains_key(addr)
        },
        0 <= peers[addr] + window - eps <= u64::MAX ==> {
            let now = (peers[addr] + window - eps) as u64;
            &&& !stale_peers(peers, now, window).contains(addr)
            &&& swept(peers, now, window).contains_key(addr)
        },
{
}

/// A sweep removes a peer exactly once: an address in the list of removed
/// peers (those that `PeerTable::sweep` returns) occurs there once if it was
/// stale and not at all otherwise.
pub proof fn stale_peer_removed_once(
    peers: Map<PeerAddr, u64>,
    now: u64,
    window: u64,
    removed: Seq<PeerAddr>,
)
    requires
        removed.no_duplicates(),
        removed.to_set() == stale_peers(peers, now, window),
    ensures
        forall|a: PeerAddr|
            #[trigger] removed.to_multiset().count(a) == if peers.contains_key(a) && is_stale(
                peers[a],
                now,
                window,
            ) {
                1nat
            } else {
                0nat
            },
{
    lemma_each_once(removed);
    assert forall|a: PeerAddr|
        removed.contains(a) <==> (peers.contains_key(a) && is_stale(peers[a], now, window)) by {
        assert(removed.to_set().contains(a) == removed.contains(a));
    }
}

/// Clock skew never evicts: a peer whose timestamp is later than the sweep
/// time survives the sweep with its timestamp, whatever the window.
pub proof fn future_peer_survives_sweep(
    peers: Map<PeerAddr, u64>,
    addr: PeerAddr,
    now: u64,
    window: u64,
)
    requires
        peers.contains_key(addr),
        peers[addr] > now,
    ensures
        !stale_peers(peers, now, window).contains(addr),
        swept(peers, now, window).contains_key(addr),
        swept(peers, now, window)[addr] == peers[addr],
{
}

} // verus!
