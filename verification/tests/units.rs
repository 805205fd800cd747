//! Unit tests: payload encoding, health arithmetic, interface selection,
//! media-line id helpers and timeout math.

use rover_rtc::client::{clone_bytes, Client, ClientId};
use rover_rtc::errors::WebrtcError;
use rover_rtc::health::ConnectionHealth;
use rover_rtc::payload::Payload;
use rover_rtc::propagated::layer_allowed_exec;
use rover_rtc::tracks::{mid_eq, TrackArena, TrackIn, TrackInEntry, TrackOut, TrackOutState, MediaKind};
use rover_rtc::util::{
    candidate_indices, contains_sub_exec, echo_reply, read_timeout_ms, select_host_index,
    starts_with_exec, to_ascii_lower, IfaceInfo, earlier,
};

#[test]
fn payload_round_trip() {
    let p = Payload { data: vec![1, 2, 3], timestamp: -7 };
    let bytes = Payload::serialize(p);
    let back = Payload::deserialize(bytes).expect("own encoding decodes");
    assert_eq!(back.data, vec![1, 2, 3]);
    assert_eq!(back.timestamp, -7);
}

#[test]
fn payload_wire_format_is_length_prefixed() {
    // Standard configuration: variable-width integers, the vector length
    // first, then its bytes, then the zigzag-encoded timestamp.
    let p = Payload { data: vec![1, 2, 3], timestamp: 0 };
    let bytes = Payload::serialize(p);
    assert_eq!(bytes, vec![3, 1, 2, 3, 0]);
    let back = Payload::deserialize(vec![3, 1, 2, 3, 0]).unwrap();
    assert_eq!(back.data, vec![1, 2, 3]);
    assert_eq!(back.timestamp, 0);
}

#[test]
fn payload_garbage_does_not_decode() {
    // A length prefix longer than what follows is rejected.
    assert!(Payload::deserialize(vec![200]).is_none());
}

#[test]
fn payload_timestamp_renders_epoch() {
    let p = Payload { data: Vec::new(), timestamp: 0 };
    assert_eq!(p.timestamp(), "1970-01-01T00:00:00+00:00");
}

#[test]
fn payload_data_renders_text() {
    let p = Payload::new(b"ciao".to_vec());
    assert_eq!(p.data(), "ciao");
    // Invalid UTF-8 is replaced, not dropped.
    let p = Payload { data: vec![0xFF], timestamp: 0 };
    assert_eq!(p.data(), "\u{FFFD}");
}

#[test]
fn health_thresholds() {
    let mut h = ConnectionHealth::new(0);
    assert!(!h.should_attempt_recovery(30_000));
    h.mark_failure();
    h.mark_failure();
    h.mark_failure();
    h.mark_failure();
    // Idle exactly at the threshold is not yet degraded.
    assert!(!h.should_attempt_recovery(10_000));
    assert!(h.should_attempt_recovery(10_001));
    // Three failures are tolerated.
    let mut h3 = ConnectionHealth::new(0);
    h3.mark_failure();
    h3.mark_failure();
    h3.mark_failure();
    assert!(!h3.should_attempt_recovery(30_000));
    // Activity forgives failures.
    h.mark_activity(20_000);
    assert_eq!(h.consecutive_failures, 0);
    assert!(!h.should_attempt_recovery(25_000));
    // Attempts are bounded.
    let mut spent = ConnectionHealth {
        last_activity: 0,
        consecutive_failures: 9,
        ice_restart_attempts: 3,
    };
    assert!(!spent.should_attempt_recovery(60_000));
    spent.ice_restart_attempts = 2;
    assert!(spent.should_attempt_recovery(60_000));
}

#[test]
fn keyframe_interval_is_enforced() {
    let mut e = TrackInEntry::new(0);
    assert!(e.try_mark_keyframe_request(500));
    assert!(!e.try_mark_keyframe_request(1_499));
    assert!(e.try_mark_keyframe_request(1_500));
    assert_eq!(e.last_keyframe_request, Some(1_500));
}

#[test]
fn arena_handles_stop_resolving_after_retire() {
    let mut arena = TrackArena::new();
    let h = arena.register(TrackIn {
        origin: ClientId(4),
        mid: b"0".to_vec(),
        kind: MediaKind::Video,
    });
    assert!(arena.upgrade(h).is_some());
    arena.retire_origin(ClientId(4));
    assert!(arena.upgrade(h).is_none());
    assert!(arena.upgrade(99).is_none());
}

#[test]
fn track_out_mid_follows_state() {
    let t = TrackOut { track_in: 0, state: TrackOutState::ToOpen };
    assert!(t.mid().is_none());
    let t = TrackOut { track_in: 0, state: TrackOutState::Negotiating(b"5".to_vec()) };
    assert_eq!(t.mid(), Some(&b"5".to_vec()));
    let t = TrackOut { track_in: 0, state: TrackOutState::Open(b"5".to_vec()) };
    assert_eq!(t.mid(), Some(&b"5".to_vec()));
}

#[test]
fn resolution_skips_waiting_mirrors() {
    // A mirror still waiting in ToOpen is no candidate for forwarding.
    let mut arena = TrackArena::new();
    let origin = ClientId(0);
    let h = arena.register(TrackIn { origin, mid: b"0".to_vec(), kind: MediaKind::Video });
    let mut c = Client::new(ClientId(1));
    c.handle_track_opened(h);
    assert!(c.resolve_outgoing_mid(&arena, origin, &b"0".to_vec()).is_none());
    c.set_channel_open();
    c.record_negotiating(0, b"9".to_vec());
    assert_eq!(c.resolve_outgoing_mid(&arena, origin, &b"0".to_vec()), Some(b"9".to_vec()));
}

#[test]
fn layer_filter_accepts_only_absent_empty_or_high() {
    assert!(layer_allowed_exec(&None));
    assert!(layer_allowed_exec(&Some(Vec::new())));
    assert!(layer_allowed_exec(&Some(b"h".to_vec())));
    assert!(!layer_allowed_exec(&Some(b"l".to_vec())));
    assert!(!layer_allowed_exec(&Some(b"hh".to_vec())));
}

#[test]
fn byte_helpers() {
    assert!(mid_eq(&b"abc".to_vec(), &b"abc".to_vec()));
    assert!(!mid_eq(&b"abc".to_vec(), &b"abd".to_vec()));
    assert!(!mid_eq(&b"abc".to_vec(), &b"ab".to_vec()));
    assert_eq!(clone_bytes(&b"xy".to_vec()), b"xy".to_vec());
    assert_eq!(to_ascii_lower(&b"DoCkEr0".to_vec()), b"docker0".to_vec());
    assert!(starts_with_exec(&b"veth12".to_vec(), &b"veth".to_vec()));
    assert!(!starts_with_exec(&b"ve".to_vec(), &b"veth".to_vec()));
    assert!(contains_sub_exec(&b"br-docker-x".to_vec(), &b"docker".to_vec()));
    assert!(!contains_sub_exec(&b"bridge".to_vec(), &b"docker".to_vec()));
    assert!(contains_sub_exec(&b"x".to_vec(), &Vec::new()));
    assert_eq!(echo_reply(&b"hi".to_vec()), b"echo: hi".to_vec());
}

fn iface(name: &[u8], loopback: bool, link_local: bool, internet: bool) -> IfaceInfo {
    IfaceInfo {
        name: name.to_vec(),
        v4: true,
        loopback,
        link_local,
        broadcast: false,
        has_internet: internet,
    }
}

#[test]
fn host_selection_skips_containers_and_dead_routes() {
    let ifaces = vec![
        iface(b"lo", true, false, false),
        iface(b"docker0", false, false, true),
        iface(b"br-baadf00d", false, false, true),
        iface(b"veth77", false, false, true),
        iface(b"virbr0", false, false, true),
        iface(b"eth0", false, false, false),
        iface(b"wlan0", false, false, true),
    ];
    assert_eq!(select_host_index(&ifaces), Some(6));
    let none = vec![iface(b"docker0", false, false, true)];
    assert_eq!(select_host_index(&none), None);
}

#[test]
fn candidate_selection_takes_all_routable_v4() {
    let ifaces = vec![
        iface(b"lo", true, false, false),
        iface(b"eth0", false, false, false),
        iface(b"eth1", false, true, false),
        iface(b"wlan0", false, false, true),
    ];
    assert_eq!(candidate_indices(&ifaces), vec![1, 3]);
}

#[test]
fn read_timeout_has_floor_of_one() {
    assert_eq!(read_timeout_ms(500, 200), 300);
    assert_eq!(read_timeout_ms(200, 200), 1);
    assert_eq!(read_timeout_ms(100, 200), 1);
    assert_eq!(earlier(3, 5), 3);
    assert_eq!(earlier(5, 3), 3);
}

#[test]
fn permanent_errors_are_recognised() {
    assert!(WebrtcError::NoCandidates.is_permanent());
    assert!(WebrtcError::SdpError.is_permanent());
    assert!(!WebrtcError::ServerError(String::from("x")).is_permanent());
    assert!(!WebrtcError::NetworkError(String::from("x")).is_permanent());
    assert!(!WebrtcError::SendError(String::from("x")).is_permanent());
    assert!(!WebrtcError::WebrtcError(String::from("x")).is_permanent());
}
