//! End-to-end flows over the session pool: joining, track fan-out,
//! negotiation, media forwarding, keyframe relay, reaping and recovery.

use rover_rtc::client::{EngineEvent, LocalStep};
use rover_rtc::tracks::TrackOutState;
use rover_rtc::health::ConnectionHealth;
use rover_rtc::pool::{BusOutcome, SessionPool};
use rover_rtc::propagated::{KeyframeKind, Propagated};
use rover_rtc::tracks::MediaKind;

fn pool_with_two() -> SessionPool {
    let mut pool = SessionPool::new();
    let a = pool.adopt(0);
    let b = pool.adopt(0);
    assert_eq!(a.value(), 0);
    assert_eq!(b.value(), 1);
    pool
}

/// Feeds session `i` one engine event and queues the propagation.
fn feed(pool: &mut SessionPool, i: usize, ev: EngineEvent, now: u64) -> LocalStep {
    let (prop, step) = pool.clients[i].handle_event(&mut pool.arena, ev, now);
    pool.push_event(prop);
    step
}

#[test]
fn join_then_track_then_negotiate_then_forward() {
    let mut pool = pool_with_two();

    // Session 0 contributes one video track under mid "0".
    let step = feed(
        &mut pool,
        0,
        EngineEvent::MediaAdded { mid: b"0".to_vec(), kind: MediaKind::Video },
        0,
    );
    assert!(matches!(step, LocalStep::Idle));

    // Draining the track-opened event mirrors it into session 1 only.
    assert!(matches!(pool.drain_one(), BusOutcome::Opened));
    assert_eq!(pool.clients[0].tracks_out.len(), 0);
    assert_eq!(pool.clients[1].tracks_out.len(), 1);
    assert!(matches!(pool.clients[1].tracks_out[0].state, TrackOutState::ToOpen));

    // Without a control channel the driver proposes nothing.
    assert_eq!(pool.clients[1].poll_negotiation(&pool.arena).len(), 0);

    // Channel opens: exactly one media line is proposed, video, labelled
    // with the contributing session.
    pool.clients[1].set_channel_open();
    let reqs = pool.clients[1].poll_negotiation(&pool.arena);
    assert_eq!(reqs.len(), 1);
    assert_eq!(reqs[0].index, 0);
    assert_eq!(reqs[0].kind, MediaKind::Video);
    assert_eq!(reqs[0].origin.value(), 0);

    // The engine assigned local mid "7"; the offer goes out; the answer
    // arrives: the mirror is open.
    pool.clients[1].record_negotiating(0, b"7".to_vec());
    pool.clients[1].offer_sent();
    assert!(matches!(pool.clients[1].tracks_out[0].state, TrackOutState::Negotiating(_)));
    pool.clients[1].handle_answer();
    match &pool.clients[1].tracks_out[0].state {
        TrackOutState::Open(m) => assert_eq!(m, &b"7".to_vec()),
        other => panic!("mirror not open: {:?}", other),
    }

    // Media from session 0 on mid "0" is forwarded to session 1 on its
    // local mid "7".
    let origin = pool.clients[0].id;
    let fwds = pool.fan_media(origin, &b"0".to_vec(), &None, 42);
    assert_eq!(fwds.len(), 1);
    assert_eq!(fwds[0].to.value(), 1);
    assert_eq!(fwds[0].local_mid, b"7".to_vec());
    assert_eq!(fwds[0].token, 42);
}

#[test]
fn simulcast_filter_drops_other_layers() {
    let mut pool = pool_with_two();
    feed(&mut pool, 0, EngineEvent::MediaAdded { mid: b"0".to_vec(), kind: MediaKind::Video }, 0);
    pool.drain_one();
    pool.clients[1].set_channel_open();
    pool.clients[1].record_negotiating(0, b"7".to_vec());
    pool.clients[1].handle_answer();

    let origin = pool.clients[0].id;
    // A layer tag that is neither empty nor the high label: dropped.
    let fwds = pool.fan_media(origin, &b"0".to_vec(), &Some(b"l".to_vec()), 1);
    assert_eq!(fwds.len(), 0);
    // The high label passes, and the destination remembers it.
    let fwds = pool.fan_media(origin, &b"0".to_vec(), &Some(b"h".to_vec()), 2);
    assert_eq!(fwds.len(), 1);
    assert_eq!(pool.clients[1].chosen_layer, Some(b"h".to_vec()));
    // An empty tag passes too.
    let fwds = pool.fan_media(origin, &b"0".to_vec(), &Some(Vec::new()), 3);
    assert_eq!(fwds.len(), 1);
    // An absent tag passes.
    let fwds = pool.fan_media(origin, &b"0".to_vec(), &None, 4);
    assert_eq!(fwds.len(), 1);
}

#[test]
fn crossed_negotiation_reverts_to_waiting() {
    let mut pool = pool_with_two();
    feed(&mut pool, 0, EngineEvent::MediaAdded { mid: b"0".to_vec(), kind: MediaKind::Video }, 0);
    pool.drain_one();
    pool.clients[1].set_channel_open();
    pool.clients[1].record_negotiating(0, b"7".to_vec());
    pool.clients[1].offer_sent();

    // The peer's own offer crosses ours: the mirror reverts to waiting and
    // nothing stays stuck in negotiation.
    let (prop, step) = pool.clients[1].handle_event(&mut pool.arena, EngineEvent::OfferReceived, 0);
    assert!(matches!(prop, Propagated::Noop));
    assert!(matches!(step, LocalStep::Idle));
    assert!(!pool.clients[1].pending_offer);
    assert!(matches!(pool.clients[1].tracks_out[0].state, TrackOutState::ToOpen));

    // The round is retried on a later tick.
    let reqs = pool.clients[1].poll_negotiation(&pool.arena);
    assert_eq!(reqs.len(), 1);
}

#[test]
fn keyframe_request_without_matching_track_is_noop() {
    let pool = pool_with_two();
    // Neither session owns any track: the relay finds nothing to honor.
    let act = pool.fan_keyframe(
        pool.clients[1].id,
        KeyframeKind::Pli,
        pool.clients[0].id,
        &b"0".to_vec(),
    );
    assert!(act.is_none());
}

#[test]
fn keyframe_request_relays_to_origin_with_chosen_layer() {
    let mut pool = pool_with_two();
    feed(&mut pool, 0, EngineEvent::MediaAdded { mid: b"0".to_vec(), kind: MediaKind::Video }, 0);
    pool.drain_one();
    pool.clients[1].set_channel_open();
    pool.clients[1].record_negotiating(0, b"7".to_vec());
    pool.clients[1].handle_answer();
    let origin = pool.clients[0].id;
    pool.fan_media(origin, &b"0".to_vec(), &Some(b"h".to_vec()), 1);

    // Session 1's peer asks for a keyframe on its local mid "7": the request
    // traces back to session 0's track "0".
    let (prop, _) = pool.clients[1].handle_event(
        &mut pool.arena,
        EngineEvent::KeyframeRequest { kind: KeyframeKind::Pli, mid: b"7".to_vec() },
        0,
    );
    let (req, kind, os, omid) = match prop {
        Propagated::KeyframeRequest(r, k, o, m) => (r, k, o, m),
        other => panic!("not a keyframe relay: {:?}", other.client_id()),
    };
    assert_eq!(req.value(), 1);
    assert_eq!(kind, KeyframeKind::Pli);
    assert_eq!(os.value(), 0);
    assert_eq!(omid, b"0".to_vec());

    // The fan-out delivers it to session 0 and aims it at the layer last
    // forwarded to the requester.
    let act = pool.fan_keyframe(req, kind, os, &omid).expect("origin owns the track");
    assert_eq!(act.on.value(), 0);
    assert_eq!(act.mid, b"0".to_vec());
    assert_eq!(act.layer, Some(b"h".to_vec()));
}

#[test]
fn dead_session_is_reaped_with_health_and_tracks() {
    let mut pool = pool_with_two();
    feed(&mut pool, 0, EngineEvent::MediaAdded { mid: b"0".to_vec(), kind: MediaKind::Video }, 0);
    pool.drain_one();
    pool.clients[1].set_channel_open();
    pool.clients[1].record_negotiating(0, b"7".to_vec());
    pool.clients[1].handle_answer();

    // Session 0 goes not-alive; one reap removes it, deletes its health
    // record, and its track no longer resolves anywhere.
    let (_, step) = pool.clients[0].handle_event(&mut pool.arena, EngineEvent::IceDisconnected, 0);
    assert!(matches!(step, LocalStep::Disconnect));
    pool.reap();
    assert_eq!(pool.clients.len(), 1);
    assert_eq!(pool.clients[0].id.value(), 1);
    assert!(pool.health.get(&0).is_none());
    assert!(pool.health.get(&1).is_some());
    let origin = rover_rtc::client::ClientId(0);
    assert!(pool.clients[0].resolve_outgoing_mid(&pool.arena, origin, &b"0".to_vec()).is_none());
}

#[test]
fn late_joiner_is_seeded_with_live_tracks() {
    let mut pool = SessionPool::new();
    pool.adopt(0);
    feed(&mut pool, 0, EngineEvent::MediaAdded { mid: b"0".to_vec(), kind: MediaKind::Audio }, 0);
    feed(&mut pool, 0, EngineEvent::MediaAdded { mid: b"1".to_vec(), kind: MediaKind::Video }, 0);
    // The late joiner starts with one waiting mirror per live track.
    pool.adopt(5);
    assert_eq!(pool.clients[1].tracks_out.len(), 2);
    assert!(matches!(pool.clients[1].tracks_out[0].state, TrackOutState::ToOpen));
    assert!(matches!(pool.clients[1].tracks_out[1].state, TrackOutState::ToOpen));
}

#[test]
fn recovery_pass_matches_degraded_record() {
    let mut pool = SessionPool::new();
    let id = pool.adopt(0);
    // lastActivity 11s old, five failures, no restart attempts yet: exactly
    // one recovery attempt, and the failure counter resets.
    pool.health.insert(
        id.value(),
        ConnectionHealth { last_activity: 0, consecutive_failures: 5, ice_restart_attempts: 0 },
    );
    let due = pool.recovery_pass(11_000);
    assert_eq!(due.len(), 1);
    assert_eq!(due[0].value(), id.value());
    let rec = pool.health.get(&id.value()).unwrap();
    assert_eq!(rec.consecutive_failures, 0);
    assert_eq!(rec.ice_restart_attempts, 1);
    // With the failures forgiven, no second attempt is due.
    let due = pool.recovery_pass(22_000);
    assert_eq!(due.len(), 0);
}

#[test]
fn unrouted_datagram_marks_failures_everywhere() {
    let mut pool = pool_with_two();
    let r = pool.route_input(&vec![false, false], 100);
    assert!(r.is_none());
    assert_eq!(pool.health.get(&0).unwrap().consecutive_failures, 1);
    assert_eq!(pool.health.get(&1).unwrap().consecutive_failures, 1);
    // A routed one goes to the first accepting session and refreshes it.
    let r = pool.route_input(&vec![false, true], 200);
    assert_eq!(r, Some(1));
    assert_eq!(pool.health.get(&1).unwrap().consecutive_failures, 0);
    assert_eq!(pool.health.get(&1).unwrap().last_activity, 200);
    assert_eq!(pool.health.get(&0).unwrap().consecutive_failures, 1);
}

#[test]
fn channel_data_is_echoed_with_prefix() {
    let mut pool = SessionPool::new();
    pool.adopt(0);
    let (prop, step) = pool.clients[0].handle_event(
        &mut pool.arena,
        EngineEvent::ChannelData { bytes: b"ping".to_vec() },
        0,
    );
    assert!(matches!(prop, Propagated::Noop));
    match step {
        LocalStep::Reply { bytes } => assert_eq!(bytes, b"echo: ping".to_vec()),
        other => panic!("no reply: {:?}", matches!(other, LocalStep::Idle)),
    }
}

#[test]
fn keyframe_requests_are_rate_limited() {
    let mut pool = pool_with_two();
    feed(&mut pool, 0, EngineEvent::MediaAdded { mid: b"0".to_vec(), kind: MediaKind::Video }, 0);
    // Non-contiguous media asks the peer for a keyframe, at most once per
    // second per track.
    let ev = |t: u64| EngineEvent::MediaData {
        mid: b"0".to_vec(),
        rid: None,
        contiguous: false,
        token: t,
    };
    let step = feed(&mut pool, 0, ev(1), 1_000);
    assert!(matches!(step, LocalStep::RequestKeyframe { .. }));
    let step = feed(&mut pool, 0, ev(2), 1_500);
    assert!(matches!(step, LocalStep::Idle));
    let step = feed(&mut pool, 0, ev(3), 2_000);
    assert!(matches!(step, LocalStep::RequestKeyframe { .. }));
    // Contiguous media never asks.
    let step = feed(
        &mut pool,
        0,
        EngineEvent::MediaData { mid: b"0".to_vec(), rid: None, contiguous: true, token: 4 },
        9_000,
    );
    assert!(matches!(step, LocalStep::Idle));
}

#[test]
fn drain_one_on_empty_queue_is_idle() {
    let mut pool = SessionPool::new();
    assert!(matches!(pool.drain_one(), BusOutcome::Idle));
    pool.push_event(Propagated::Timeout(77));
    assert!(matches!(pool.drain_one(), BusOutcome::Idle));
    assert!(matches!(pool.drain_one(), BusOutcome::Idle));
}

#[test]
fn drain_dispatches_media_and_keyframe_events() {
    let mut pool = pool_with_two();
    feed(&mut pool, 0, EngineEvent::MediaAdded { mid: b"0".to_vec(), kind: MediaKind::Video }, 0);
    pool.drain_one();
    pool.clients[1].set_channel_open();
    pool.clients[1].record_negotiating(0, b"7".to_vec());
    pool.clients[1].handle_answer();

    // A queued frame drains into exactly the forwards the rules demand.
    feed(
        &mut pool,
        0,
        EngineEvent::MediaData { mid: b"0".to_vec(), rid: None, contiguous: true, token: 9 },
        0,
    );
    match pool.drain_one() {
        BusOutcome::Media(fwds) => {
            assert_eq!(fwds.len(), 1);
            assert_eq!(fwds[0].to.value(), 1);
            assert_eq!(fwds[0].local_mid, b"7".to_vec());
            assert_eq!(fwds[0].token, 9);
        }
        _ => panic!("expected a media fan-out"),
    }

    // A queued keyframe request drains into the engine request on the owner.
    feed(
        &mut pool,
        1,
        EngineEvent::KeyframeRequest { kind: KeyframeKind::Fir, mid: b"7".to_vec() },
        0,
    );
    match pool.drain_one() {
        BusOutcome::Keyframe(Some(act)) => {
            assert_eq!(act.on.value(), 0);
            assert_eq!(act.mid, b"0".to_vec());
            assert_eq!(act.kind, KeyframeKind::Fir);
        }
        _ => panic!("expected a keyframe relay"),
    }
}
