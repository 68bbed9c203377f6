//! Tests of the replication coordinator's quorum arithmetic and of the
//! broadcast routing.

use dna_store::model::dna_sequence::DnaSequence;
use dna_store::model::patch::Patch;
use dna_store::model::public_key::PublicKey;
use dna_store::sender::byzantine_threshold;
use dna_store::sender::peer_url;
use dna_store::sender::route_of;
use dna_store::sender::BroadcastPayload;
use dna_store::sender::ResponseTracker;

#[test]
fn threshold_values() {
    assert_eq!(byzantine_threshold(0), 1);
    assert_eq!(byzantine_threshold(1), 1);
    assert_eq!(byzantine_threshold(2), 2);
    assert_eq!(byzantine_threshold(3), 3);
    assert_eq!(byzantine_threshold(4), 3);
    assert_eq!(byzantine_threshold(5), 4);
    assert_eq!(byzantine_threshold(6), 5);
    assert_eq!(byzantine_threshold(7), 5);
}

#[test]
fn quorum_reached_at_threshold() {
    let mut tracker = ResponseTracker::new(5);
    for _ in 0..3 {
        assert!(!tracker.quorum_reached());
        tracker.record_response();
    }
    assert!(!tracker.quorum_reached(), "three of five responses are not a quorum");
    tracker.record_response();
    assert!(tracker.quorum_reached(), "four of five responses are a quorum");
    tracker.record_response();
    assert!(tracker.quorum_reached(), "late responses keep the quorum");
}

#[test]
fn quorum_depends_only_on_count() {
    // Peers answering in any order reach the quorum at the same point:
    // completion reads only the count.
    let orders: [[usize; 4]; 3] = [[0, 1, 2, 3], [3, 2, 1, 0], [2, 0, 3, 1]];
    for order in orders.iter() {
        let mut tracker = ResponseTracker::new(5);
        for (k, _peer) in order.iter().enumerate() {
            assert_eq!(tracker.quorum_reached(), k >= 4);
            tracker.record_response();
        }
        assert!(tracker.quorum_reached());
    }
}

#[test]
fn routes_mirror_the_operation() {
    let identity = BroadcastPayload::NewIdentity(PublicKey {
        id: String::from("U1"),
        public_key: Some(vec![1u8]),
    });
    let sequence = BroadcastPayload::NewSequence(
        DnaSequence::new(String::from("U1"), String::from("TACG")),
        String::from("sig"),
    );
    let patch = BroadcastPayload::NewPatch(
        Patch::new(String::from("U1"), String::from("P4:4@1:1:1:1:2:TACCG")),
        String::from("sig"),
    );
    assert_eq!(route_of(&identity), "/share_public_key");
    assert_eq!(route_of(&sequence), "/share_dna_sequence");
    assert_eq!(route_of(&patch), "/share_patch");
}

#[test]
fn peer_urls() {
    assert_eq!(peer_url("127.0.0.1:8082", "/share_patch"), "http://127.0.0.1:8082/share_patch");
    assert_eq!(peer_url("10.0.0.7:80", "/share_public_key"), "http://10.0.0.7:80/share_public_key");
}
