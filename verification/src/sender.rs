//! Replication coordination: quorum arithmetic and the acknowledgement
//! tracker that one broadcast operation owns.
//!
//! The network sends themselves are performed by the embedding application;
//! this module decides how many acknowledgements a broadcast needs and when
//! it may be considered complete.

use vstd::prelude::*;

use crate::model::dna_sequence::DnaSequence;
use crate::model::patch::Patch;
use crate::model::public_key::PublicKey;

verus! {

/// What one broadcast carries to every peer: a newly registered identity, a
/// full sequence record with the signature that authorized it, or a patch
/// with that signature.
#[derive(Debug, Clone)]
pub enum BroadcastPayload {
    NewIdentity(PublicKey),
    NewSequence(DnaSequence, String),
    NewPatch(Patch, String),
}

/// The route a payload is posted to on each peer.
pub fn route_of(payload: &BroadcastPayload) -> (r: &'static str)
    ensures
        payload matches BroadcastPayload::NewIdentity(_) ==> r@ == "/share_public_key"@,
        payload matches BroadcastPayload::NewSequence(_, _) ==> r@ == "/share_dna_sequence"@,
        payload matches BroadcastPayload::NewPatch(_, _) ==> r@ == "/share_patch"@,
{
    match payload {
        BroadcastPayload::NewIdentity(_) => "/share_public_key",
        BroadcastPayload::NewSequence(_, _) => "/share_dna_sequence",
        BroadcastPayload::NewPatch(_, _) => "/share_patch",
    }
}

/// The full URL for posting to `route` on the peer at `ip`.
pub fn peer_url(ip: &str, route: &str) -> (r: String)
    ensures
        r@ == "http://"@ + ip@ + route@,
{
    let mut s = String::new();
    s.append("http://");
    s.append(ip);
    s.append(route);
    proof {
        assert(s@ =~= "http://"@ + ip@ + route@);
    }
    s
}

/// Byzantine-tolerant quorum threshold for a peer set of size `n_peers`:
/// `floor(2 * n_peers / 3) + 1`.
pub open spec fn spec_threshold(n_peers: nat) -> nat {
    2 * n_peers / 3 + 1
}

/// Whether a broadcast with `n_responses` recorded acknowledgements out of
/// `n_peers` peers has reached its quorum.
pub open spec fn spec_quorum_reached(n_peers: nat, n_responses: nat) -> bool {
    n_responses >= spec_threshold(n_peers)
}

/// Quorum threshold for a peer set of size `n_peers`.
pub fn byzantine_threshold(n_peers: usize) -> (t: usize)
    requires
        n_peers <= usize::MAX / 2,
    ensures
        t == spec_threshold(n_peers as nat),
{
    n_peers * 2 / 3 + 1
}

/// Acknowledgement state of one broadcast operation: the size of the peer
/// set it fans out to and the number of peer responses recorded so far.
///
/// A tracker is owned by exactly one broadcast invocation and never reused.
pub struct ResponseTracker {
    n_peers: usize,
    n_responses: usize,
}

impl ResponseTracker {
    pub closed spec fn spec_n_peers(self) -> nat {
        self.n_peers as nat
    }

    pub closed spec fn spec_n_responses(self) -> nat {
        self.n_responses as nat
    }

    /// A fresh tracker for a broadcast to `n_peers` peers.
    pub fn new(n_peers: usize) -> (t: ResponseTracker)
        requires
            n_peers <= usize::MAX / 2,
        ensures
            t.spec_n_peers() == n_peers,
            t.spec_n_responses() == 0,
    {
        ResponseTracker { n_peers, n_responses: 0 }
    }

    pub fn n_responses(&self) -> (n: usize)
        ensures
            n == self.spec_n_responses(),
    {
        self.n_responses
    }

    /// Record one peer response. Success and failure responses both count:
    /// the coordinator only waits for peers to answer, not to agree.
    pub fn record_response(&mut self)
        requires
            old(self).spec_n_responses() < usize::MAX,
        ensures
            final(self).spec_n_peers() == old(self).spec_n_peers(),
            final(self).spec_n_responses() == old(self).spec_n_responses() + 1,
    {
        self.n_responses = self.n_responses + 1;
    }

    /// Whether the broadcast may be considered complete: at least
    /// `floor(2 * n_peers / 3) + 1` responses have been recorded.
    pub fn quorum_reached(&self) -> (b: bool)
        requires
            self.spec_n_peers() <= usize::MAX / 2,
        ensures
            b == spec_quorum_reached(self.spec_n_peers(), self.spec_n_responses()),
    {
        self.n_responses >= byzantine_threshold(self.n_peers)
    }
}

/// Quorum law: completion of a broadcast depends only on how many peers have
/// responded, never on the order in which they responded. For a peer set of
/// size `n_peers`, any two response histories with the same responses (one a
/// reordering of the other) decide completion alike, and any history that
/// records at least `floor(2 * n_peers / 3) + 1` responses has reached the
/// quorum.
pub proof fn lemma_quorum_order_independent(n_peers: nat, h1: Seq<nat>, h2: Seq<nat>)
    requires
        h1.to_multiset() == h2.to_multiset(),
    ensures
        spec_quorum_reached(n_peers, h1.len()) == spec_quorum_reached(n_peers, h2.len()),
        h1.len() >= spec_threshold(n_peers) ==> spec_quorum_reached(n_peers, h1.len()),
{
    h1.to_multiset_ensures();
    h2.to_multiset_ensures();
    assert(h1.len() == h1.to_multiset().len());
    assert(h2.len() == h2.to_multiset().len());
}

} // verus!
