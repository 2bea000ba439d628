use iuna::peers::{
    PeerBook, PeerDirection, PEER_CLOCK_OFFSET_STALE_MS, PEER_MISBEHAVIOR_BAN_MS, PEER_MISBEHAVIOR_BAN_SCORE,
};

const A: &str = "127.0.0.1:1";
const B: &str = "127.0.0.1:2";
const C: &str = "127.0.0.1:3";

fn book(addresses: &[&str]) -> PeerBook {
    PeerBook::from_addresses(addresses.iter().map(|address| address.to_string()).collect())
}

#[test]
fn repeated_misbehavior_bans_for_a_while() {
    let mut peers = book(&[A, B]);
    for strike in 1..=PEER_MISBEHAVIOR_BAN_SCORE {
        assert!(!peers.is_banned_at(A, 1_000));
        peers.record_misbehavior_at(A, &format!("strike {strike}"), 1_000);
    }
    assert!(peers.is_banned_at(A, 1_000));
    assert!(peers.is_banned_at(A, 999 + PEER_MISBEHAVIOR_BAN_MS));
    assert!(!peers.is_banned_at(A, 1_001 + PEER_MISBEHAVIOR_BAN_MS));
    assert!(!peers.is_banned_at(B, 1_000));

    assert_eq!(peers.connectable_addresses_at(1_000), vec![B.to_string()]);
    assert_eq!(
        peers.connectable_addresses_at(1_001 + PEER_MISBEHAVIOR_BAN_MS),
        vec![A.to_string(), B.to_string()]
    );
    let banned = peers.list().into_iter().find(|peer| peer.address == A).unwrap();
    assert_eq!(banned.ban_reason.as_deref(), Some("strike 3"));
    assert_eq!(banned.banned_until_ms, Some(1_000 + PEER_MISBEHAVIOR_BAN_MS));
}

#[test]
fn contact_does_not_lift_a_ban() {
    let mut peers = book(&[A]);
    for _ in 0..PEER_MISBEHAVIOR_BAN_SCORE {
        peers.record_misbehavior_at(A, "spam", 10);
    }
    peers.record_received_at(A, 1, 20);
    assert!(peers.is_banned_at(A, 20));
}

#[test]
fn contact_clears_errors() {
    let mut peers = book(&[A]);
    peers.record_error(A, "refused");
    assert_eq!(peers.list()[0].last_error.as_deref(), Some("refused"));
    peers.record_sent_at(A, 2, 50);
    let peer = &peers.list()[0];
    assert_eq!(peer.last_error, None);
    assert_eq!(peer.messages_sent, 2);
    assert_eq!(peer.last_success_ms, Some(50));
}

#[test]
fn statuses_are_kept() {
    let mut peers = book(&[A]);
    peers.record_status_at(A, 7, "tip".to_string(), 30);
    let peer = &peers.list()[0];
    assert_eq!(peer.last_known_height, Some(7));
    assert_eq!(peer.last_known_tip_hash.as_deref(), Some("tip"));
    assert_eq!(peer.last_contact_ms, Some(30));
}

#[test]
fn network_time_is_the_median_of_good_clocks() {
    let mut peers = book(&[A, B, C]);
    assert_eq!(peers.network_time_offset_ms_at(1_000_000), None);
    assert_eq!(peers.adjusted_time_ms_at(1_000_000), 1_000_000);

    peers.record_clock_observation(A, PeerDirection::Outbound, 1_000_300, 1_000_000);
    peers.record_clock_observation(B, PeerDirection::Outbound, 1_000_100, 1_000_000);
    peers.record_clock_observation(C, PeerDirection::Outbound, 999_900, 1_000_000);
    assert_eq!(peers.network_time_offset_ms_at(1_000_000), Some(100));
    assert_eq!(peers.adjusted_time_ms_at(1_000_000), 1_000_100);
    assert_eq!(peers.bad_clock_peer_count_at(1_000_000), 0);

    peers.record_clock_observation(B, PeerDirection::Outbound, 9_000_000, 1_000_000);
    assert_eq!(peers.bad_clock_peer_count_at(1_000_000), 1);
    assert_eq!(peers.network_time_offset_ms_at(1_000_001 + PEER_CLOCK_OFFSET_STALE_MS), None);
    assert_eq!(peers.bad_clock_peer_count_at(1_000_001 + PEER_CLOCK_OFFSET_STALE_MS), 0);
}

#[test]
fn a_clock_that_shows_nothing_is_passed_over() {
    let mut peers = book(&[A]);
    peers.record_clock_observation(A, PeerDirection::Outbound, 0, 5);
    assert_eq!(peers.list()[0].last_clock_offset_ms, None);
}

#[test]
fn addresses_can_be_replaced_and_removed() {
    let mut peers = book(&[A]);
    peers.observe_inbound_peer(B);
    assert!(peers.is_configured_outbound(A));
    assert!(!peers.is_configured_outbound(B));
    assert_eq!(peers.addresses(), vec![A.to_string()]);

    peers.add_peer(B);
    assert!(peers.is_configured_outbound(B));
    assert_eq!(peers.addresses_except_at(A, 0), vec![B.to_string()]);

    peers.replace_peer_address(B, C);
    assert_eq!(peers.addresses(), vec![A.to_string(), C.to_string()]);
    assert!(peers.remove_peer(A));
    assert!(!peers.remove_peer(A));
    assert_eq!(peers.addresses(), vec![C.to_string()]);
}

#[test]
fn inbound_misbehavior_counts() {
    let mut peers = PeerBook::new();
    peers.record_inbound_misbehavior(A, "bad frame");
    let peer = &peers.list()[0];
    assert_eq!(peer.direction, PeerDirection::Inbound);
    assert_eq!(peer.misbehavior_score, 1);
    assert!(!peers.is_banned(A));
}
