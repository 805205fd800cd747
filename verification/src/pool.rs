//! The session-pool coordinator: owns the set of sessions, their health
//! records and the shared track arena, and drives the propagation bus.
//!
//! One tick of the host's loop is: reap dead sessions, adopt a handed-off
//! one, run the periodic health pass, poll every session's engine (feeding
//! the produced events in here), drain one queued event through the fan-out
//! rules, and route one inbound datagram. Every decision in that loop is a
//! method of [`SessionPool`]; the host only performs engine and socket work.

use vstd::prelude::*;

use std::collections::HashMap;

use crate::client::{has_in_track, spec_resolve, Client, ClientId};
use crate::health::{recovery_due, ConnectionHealth};
use crate::propagated::{layer_allowed, layer_allowed_exec, view_opt, KeyframeKind, Propagated};
use crate::tracks::{TrackArena, TrackOut, TrackOutState};

verus! {

broadcast use vstd::std_specs::hash::group_hash_axioms;

/// Milliseconds between two runs of the health pass.
pub const HEALTH_CHECK_PERIOD_MS: u64 = 5_000;

/// The mirrors a late joiner is seeded with: one `ToOpen` mirror per live
/// track among the handles below `upto`, in handle order.
pub open spec fn live_mirror_seq(arena: TrackArena, upto: int) -> Seq<TrackOut>
    decreases upto,
{
    if upto <= 0 {
        Seq::empty()
    } else {
        let prefix = live_mirror_seq(arena, upto - 1);
        if arena.is_live(upto - 1) {
            prefix.push(TrackOut { track_in: (upto - 1) as usize, state: TrackOutState::ToOpen })
        } else {
            prefix
        }
    }
}

/// The health map carries exactly the pool's session ids.
pub open spec fn ids_match_health(clients: Seq<Client>, health: Map<u64, ConnectionHealth>) -> bool {
    &&& forall|i: int| 0 <= i < clients.len() ==> health.contains_key(#[trigger] clients[i].id.0)
    &&& forall|k: u64|
        #[trigger] health.contains_key(k) ==> exists|i: int|
            0 <= i < clients.len() && (#[trigger] clients[i].id.0) == k
}

/// One engine write the host must perform after a media fan-out.
#[derive(Debug)]
pub struct Forward {
    /// The destination session.
    pub to: ClientId,
    /// The destination's local media-line id to write on.
    pub local_mid: Vec<u8>,
    /// The host's token for the frame payload.
    pub token: u64,
}

/// A keyframe request the host must ask of one session's engine.
#[derive(Debug)]
pub struct KeyframeAction {
    /// The session that owns the track.
    pub on: ClientId,
    /// The track's media-line id on that session.
    pub mid: Vec<u8>,
    /// The kind of keyframe asked for.
    pub kind: KeyframeKind,
    /// The layer to request, taken from what was last forwarded to the
    /// requester's peer.
    pub layer: Option<Vec<u8>>,
}

/// Whether a media frame from `(origin, mid)` with layer tag `rid` is
/// forwarded to session `c`: the session is not the origin, the layer passes
/// the simulcast filter, and the session's mirror of the track already has a
/// local media-line id.
pub open spec fn forwards_to(
    c: Client,
    arena: TrackArena,
    origin: ClientId,
    mid: Seq<u8>,
    rid: Option<Seq<u8>>,
) -> bool {
    &&& c.id != origin
    &&& layer_allowed(rid)
    &&& spec_resolve(arena, c.tracks_out@, origin, mid) is Some
}

/// The indices of the sessions a frame is forwarded to, in pool order.
pub open spec fn forward_index_seq(
    arena: TrackArena,
    clients: Seq<Client>,
    origin: ClientId,
    mid: Seq<u8>,
    rid: Option<Seq<u8>>,
) -> Seq<int>
    decreases clients.len(),
{
    if clients.len() == 0 {
        Seq::empty()
    } else {
        let prefix = forward_index_seq(arena, clients.drop_last(), origin, mid, rid);
        if forwards_to(clients.last(), arena, origin, mid, rid) {
            prefix.push(clients.len() - 1)
        } else {
            prefix
        }
    }
}

/// What a media fan-out does to the sessions: each destination that the
/// frame is forwarded to remembers the frame's layer tag as its chosen
/// layer; every other session is untouched.
pub open spec fn media_clients_post(
    pre: Seq<Client>,
    post: Seq<Client>,
    arena: TrackArena,
    origin: ClientId,
    mid: Seq<u8>,
    rid: Option<Seq<u8>>,
) -> bool {
    &&& post.len() == pre.len()
    &&& forall|i: int|
        0 <= i < pre.len() ==> if forwards_to(#[trigger] pre[i], arena, origin, mid, rid) {
            view_opt(post[i].chosen_layer) == rid && post[i] == (Client {
                chosen_layer: post[i].chosen_layer,
                ..pre[i]
            })
        } else {
            post[i] == pre[i]
        }
}

/// The writes a media fan-out hands the host: one per destination, in pool
/// order, each on that destination's own local media-line id, carrying the
/// frame's token.
pub open spec fn forwards_media(
    fwds: Seq<Forward>,
    pre: Seq<Client>,
    arena: TrackArena,
    origin: ClientId,
    mid: Seq<u8>,
    rid: Option<Seq<u8>>,
    token: u64,
) -> bool {
    let idxs = forward_index_seq(arena, pre, origin, mid, rid);
    &&& fwds.len() == idxs.len()
    &&& forall|k: int|
        0 <= k < fwds.len() ==> {
            let i = idxs[k];
            &&& (#[trigger] fwds[k]).to == pre[i].id
            &&& Some(fwds[k].local_mid@) == spec_resolve(arena, pre[i].tracks_out@, origin, mid)
            &&& fwds[k].token == token
        }
}

/// Every index a fan-out picks lies within the client table.
pub proof fn lemma_forward_index_range(
    arena: TrackArena,
    clients: Seq<Client>,
    origin: ClientId,
    mid: Seq<u8>,
    rid: Option<Seq<u8>>,
)
    ensures
        forall|k: int|
            0 <= k < forward_index_seq(arena, clients, origin, mid, rid).len() ==> 0 <= (
            #[trigger] forward_index_seq(arena, clients, origin, mid, rid)[k]) < clients.len(),
    decreases clients.len(),
{
    if clients.len() > 0 {
        lemma_forward_index_range(arena, clients.drop_last(), origin, mid, rid);
        assert forall|k: int|
            0 <= k < forward_index_seq(arena, clients, origin, mid, rid).len() implies 0 <= (
        #[trigger] forward_index_seq(arena, clients, origin, mid, rid)[k]) < clients.len() by {
            let prefix = forward_index_seq(arena, clients.drop_last(), origin, mid, rid);
            if k < prefix.len() {
                assert(forward_index_seq(arena, clients, origin, mid, rid)[k] == prefix[k]);
            }
        }
    }
}

/// The chosen layer recorded on the first session with id `id`, absent when
/// no such session is in the pool.
pub open spec fn chosen_layer_of(clients: Seq<Client>, id: ClientId) -> Option<Seq<u8>>
    decreases clients.len(),
{
    if clients.len() == 0 {
        None
    } else if clients[0].id == id {
        view_opt(clients[0].chosen_layer)
    } else {
        chosen_layer_of(clients.drop_first(), id)
    }
}

/// The outcome of draining one queued event through the fan-out rules.
pub enum BusOutcome {
    /// The queue was empty, or the event had nothing to fan out.
    Idle,
    /// A new track was mirrored into every other session's table.
    Opened,
    /// A media frame was fanned out: the writes the host must perform.
    Media(Vec<Forward>),
    /// A keyframe request was relayed: the engine request to perform, absent
    /// when the owning session is gone or no longer has the track.
    Keyframe(Option<KeyframeAction>),
}

/// Every session the fan-out rules select is also in the index list:
/// selection is complete, not just sound.
pub proof fn lemma_forward_index_complete(
    arena: TrackArena,
    clients: Seq<Client>,
    origin: ClientId,
    mid: Seq<u8>,
    rid: Option<Seq<u8>>,
    i: int,
)
    requires
        0 <= i < clients.len(),
        forwards_to(clients[i], arena, origin, mid, rid),
    ensures
        exists|k: int|
            0 <= k < forward_index_seq(arena, clients, origin, mid, rid).len() && (
            #[trigger] forward_index_seq(arena, clients, origin, mid, rid)[k]) == i,
    decreases clients.len(),
{
    let idxs = forward_index_seq(arena, clients, origin, mid, rid);
    let prefix = forward_index_seq(arena, clients.drop_last(), origin, mid, rid);
    if i == clients.len() - 1 {
        assert(idxs[idxs.len() - 1] == i);
    } else {
        assert(clients.drop_last()[i] == clients[i]);
        lemma_forward_index_complete(arena, clients.drop_last(), origin, mid, rid, i);
        let k = choose|k: int| 0 <= k < prefix.len() && (#[trigger] prefix[k]) == i;
        assert(idxs[k] == i);
    }
}

/// Law: once a session's mirror of a remote track carries a local media-line
/// id, a frame of that track whose layer passes the simulcast filter is
/// forwarded to that session — the fan-out emits a write for it.
pub proof fn lemma_open_mirror_is_forwarded(
    arena: TrackArena,
    clients: Seq<Client>,
    i: int,
    j: int,
    origin: ClientId,
    mid: Seq<u8>,
    rid: Option<Seq<u8>>,
)
    requires
        0 <= i < clients.len(),
        clients[i].id != origin,
        layer_allowed(rid),
        0 <= j < clients[i].tracks_out@.len(),
        crate::client::out_matches(arena, clients[i].tracks_out@[j], origin, mid),
    ensures
        forwards_to(clients[i], arena, origin, mid, rid),
        exists|k: int|
            0 <= k < forward_index_seq(arena, clients, origin, mid, rid).len() && (
            #[trigger] forward_index_seq(arena, clients, origin, mid, rid)[k]) == i,
{
    crate::client::lemma_match_resolves(arena, clients[i].tracks_out@, origin, mid, j);
    lemma_forward_index_complete(arena, clients, origin, mid, rid, i);
}

/// Law: after a track-opened fan-out, every session other than the origin
/// holds a fresh waiting mirror of the new track, and the origin is
/// untouched.
pub proof fn lemma_every_other_session_mirrors(
    pre: Seq<Client>,
    post: Seq<Client>,
    origin: ClientId,
    handle: usize,
    i: int,
)
    requires
        SessionPool::track_open_post(pre, post, origin, handle),
        0 <= i < pre.len(),
    ensures
        pre[i].id != origin ==> post[i].tracks_out@.len() == pre[i].tracks_out@.len() + 1
            && post[i].tracks_out@.last() == (TrackOut {
            track_in: handle,
            state: TrackOutState::ToOpen,
        }),
        pre[i].id == origin ==> post[i] == pre[i],
{
}

/// Law (simulcast filter): a frame whose layer tag is neither absent, empty
/// nor the designated high layer is forwarded to no session at all.
pub proof fn lemma_disallowed_layer_never_forwarded(
    arena: TrackArena,
    clients: Seq<Client>,
    origin: ClientId,
    mid: Seq<u8>,
    rid: Option<Seq<u8>>,
)
    requires
        !layer_allowed(rid),
    ensures
        forward_index_seq(arena, clients, origin, mid, rid).len() == 0,
    decreases clients.len(),
{
    if clients.len() > 0 {
        lemma_disallowed_layer_never_forwarded(arena, clients.drop_last(), origin, mid, rid);
    }
}

/// The coordinator's state: the sessions, their health records keyed by
/// session id, the shared track arena, the propagation queue, the id counter
/// and the instant of the last health pass.
pub struct SessionPool {
    /// The sessions, in admission order.
    pub clients: Vec<Client>,
    /// Health records, keyed by session id.
    pub health: HashMap<u64, ConnectionHealth>,
    /// All incoming tracks across the pool.
    pub arena: TrackArena,
    /// Events waiting to be fanned out, oldest first.
    pub queue: Vec<Propagated>,
    /// The next session id to assign; ids are never reused.
    pub next_id: u64,
    /// Instant (ms) of the last health pass.
    pub last_health_check: u64,
}

impl SessionPool {
    /// The pool's invariant: a well-formed arena, distinct session ids all
    /// below the counter, and health records exactly for the pool's ids.
    pub open spec fn wf(self) -> bool {
        &&& self.arena.wf()
        &&& forall|i: int, j: int|
            #![trigger self.clients@[i], self.clients@[j]]
            0 <= i < j < self.clients@.len() ==> self.clients@[i].id.0 != self.clients@[j].id.0
        &&& forall|i: int|
            0 <= i < self.clients@.len() ==> (#[trigger] self.clients@[i].id.0) < self.next_id
        &&& ids_match_health(self.clients@, self.health@)
    }

    /// An empty pool.
    pub fn new() -> (p: SessionPool)
        ensures
            p.wf(),
            p.clients@.len() == 0,
            p.queue@.len() == 0,
            p.next_id == 0,
            p.last_health_check == 0,
            p.arena.spec_len() == 0,
            p.health@ == Map::<u64, ConnectionHealth>::empty(),
    {
        SessionPool {
            clients: Vec::new(),
            health: HashMap::new(),
            arena: TrackArena::new(),
            queue: Vec::new(),
            next_id: 0,
            last_health_check: 0,
        }
    }

    /// Queues a session-produced event for fan-out.
    pub fn push_event(&mut self, ev: Propagated)
        ensures
            final(self).queue@ == old(self).queue@.push(ev),
            *final(self) == (SessionPool { queue: final(self).queue, ..*old(self) }),
    {
        self.queue.push(ev);
    }

    /// Adopts a session handed off by the signaling side: gives it the next
    /// id, seeds it with a mirror of every live incoming track across the
    /// pool (so a late joiner receives already-flowing streams), and creates
    /// its health record.
    pub fn adopt(&mut self, now: u64) -> (id: ClientId)
        requires
            old(self).wf(),
            old(self).next_id < u64::MAX,
        ensures
            final(self).wf(),
            id.0 == old(self).next_id,
            final(self).next_id == old(self).next_id + 1,
            final(self).clients@.len() == old(self).clients@.len() + 1,
            forall|i: int|
                0 <= i < old(self).clients@.len() ==> final(self).clients@[i] == old(
                    self,
                ).clients@[i],
            ({
                let c = final(self).clients@.last();
                &&& c.id == id
                &&& c.alive
                &&& !c.channel_open
                &&& !c.pending_offer
                &&& c.tracks_in@.len() == 0
                &&& c.chosen_layer is None
                &&& c.tracks_out@ == live_mirror_seq(old(self).arena, old(self).arena.spec_len() as int)
            }),
            final(self).health@ == old(self).health@.insert(
                id.0,
                ConnectionHealth { last_activity: now, consecutive_failures: 0, ice_restart_attempts: 0 },
            ),
            final(self).arena == old(self).arena,
            final(self).queue == old(self).queue,
            final(self).last_health_check == old(self).last_health_check,
    {
        let id = ClientId(self.next_id);
        self.next_id = self.next_id + 1;
        let mut c = Client::new(id);
        let n = self.arena.len();
        let mut h: usize = 0;
        while h < n
            invariant
                self.arena.wf(),
                n == self.arena.spec_len(),
                h <= n,
                c.id == id,
                c.alive,
                !c.channel_open,
                !c.pending_offer,
                c.tracks_in@.len() == 0,
                c.chosen_layer is None,
                c.tracks_out@ == live_mirror_seq(self.arena, h as int),
            decreases n - h,
        {
            match self.arena.upgrade(h) {
                Some(_) => {
                    c.handle_track_opened(h);
                },
                None => {},
            }
            h = h + 1;
        }
        let hrec = ConnectionHealth::new(now);
        self.health.insert(id.0, hrec);
        self.clients.push(c);
        proof {
            assert forall|k: u64| #[trigger] self.health@.contains_key(k) implies exists|i: int|
                0 <= i < self.clients@.len() && (#[trigger] self.clients@[i].id.0) == k by {
                if k == id.0 {
                    assert(self.clients@[self.clients@.len() - 1].id.0 == k);
                } else {
                    assert(old(self).health@.contains_key(k));
                    let i = choose|i: int|
                        0 <= i < old(self).clients@.len() && (#[trigger] old(
                            self,
                        ).clients@[i].id.0) == k;
                    assert(self.clients@[i].id.0 == k);
                }
            }
        }
        id
    }

    /// The surviving sessions: those still alive, in order.
    pub open spec fn live_clients(clients: Seq<Client>) -> Seq<Client> {
        clients.filter(|c: Client| c.alive)
    }

    /// Whether some session in `clients` with id `origin` is marked dead.
    pub open spec fn some_dead_has_id(clients: Seq<Client>, origin: ClientId) -> bool {
        exists|i: int|
            0 <= i < clients.len() && !(#[trigger] clients[i]).alive && clients[i].id == origin
    }

    /// Removes every session that reports itself gone: its health record is
    /// deleted with it, and all tracks it contributed are retired, so other
    /// sessions' mirrors of them stop resolving. Surviving sessions keep
    /// their order, records and tracks.
    pub fn reap(&mut self)
        requires
            old(self).wf(),
        ensures
            final(self).wf(),
            final(self).clients@ == Self::live_clients(old(self).clients@),
            forall|k: u64|
                final(self).health@.contains_key(k) <==> (old(self).health@.contains_key(k)
                    && !Self::some_dead_has_id(old(self).clients@, ClientId(k))),
            forall|k: u64|
                #[trigger] final(self).health@.contains_key(k) ==> final(self).health@[k] == old(
                    self,
                ).health@[k],
            final(self).arena.wf(),
            final(self).arena.spec_len() == old(self).arena.spec_len(),
            forall|h: int|
                0 <= h < old(self).arena.spec_len() ==> final(self).arena.track_at(h) == old(
                    self,
                ).arena.track_at(h),
            forall|h: int|
                0 <= h < old(self).arena.spec_len() ==> final(self).arena.is_live(h) == (old(
                    self,
                ).arena.is_live(h) && !Self::some_dead_has_id(
                    old(self).clients@,
                    old(self).arena.track_at(h).origin,
                )),
            final(self).queue == old(self).queue,
            final(self).next_id == old(self).next_id,
            final(self).last_health_check == old(self).last_health_check,
    {
        let ghost orig = self.clients@;
        let mut olds: Vec<Client> = Vec::new();
        core::mem::swap(&mut self.clients, &mut olds);
        proof {
            reveal_with_fuel(Seq::<Client>::filter, 2);
            assert(orig.subrange(0, 0) =~= Seq::<Client>::empty());
            assert(Self::live_clients(orig.subrange(0, 0)) =~= Seq::<Client>::empty());
        }
        let n = olds.len();
        let mut k: usize = 0;
        while k < n
            invariant
                old(self).wf(),
                orig == old(self).clients@,
                n == orig.len(),
                k <= n,
                olds@ == orig.subrange(k as int, n as int),
                self.clients@ == Self::live_clients(orig.subrange(0, k as int)),
                forall|i: int|
                    0 <= i < self.clients@.len() ==> exists|j: int|
                        0 <= j < k && orig[j] == (#[trigger] self.clients@[i]),
                forall|i: int, j: int|
                    #![trigger self.clients@[i], self.clients@[j]]
                    0 <= i < j < self.clients@.len() ==> self.clients@[i].id.0
                        != self.clients@[j].id.0,
                forall|i: int|
                    0 <= i < self.clients@.len() ==> (#[trigger] self.clients@[i].id.0)
                        < self.next_id,
                forall|key: u64|
                    self.health@.contains_key(key) <==> (old(self).health@.contains_key(key)
                        && !Self::some_dead_has_id(orig.subrange(0, k as int), ClientId(key))),
                forall|key: u64|
                    #[trigger] self.health@.contains_key(key) ==> self.health@[key] == old(
                        self,
                    ).health@[key],
                self.arena.wf(),
                self.arena.spec_len() == old(self).arena.spec_len(),
                forall|h: int|
                    0 <= h < old(self).arena.spec_len() ==> self.arena.track_at(h) == old(
                        self,
                    ).arena.track_at(h),
                forall|h: int|
                    0 <= h < old(self).arena.spec_len() ==> self.arena.is_live(h) == (old(
                        self,
                    ).arena.is_live(h) && !Self::some_dead_has_id(
                        orig.subrange(0, k as int),
                        old(self).arena.track_at(h).origin,
                    )),
                self.queue == old(self).queue,
                self.next_id == old(self).next_id,
                self.last_health_check == old(self).last_health_check,
            decreases n - k,
        {
            let ghost pre_prefix = orig.subrange(0, k as int);
            let ghost post_prefix = orig.subrange(0, k + 1 as int);
            proof {
                assert(olds@[0] == orig[k as int]);
                assert(olds@.drop_first() =~= orig.subrange(k + 1 as int, n as int));
                assert(post_prefix.drop_last() =~= pre_prefix);
                assert(post_prefix.last() == orig[k as int]);
            }
            let c = olds.remove(0);
            let cid = c.id;
            let alive = c.alive;
            if alive {
                proof {
                    assert forall|i: int| 0 <= i < self.clients@.len() implies (
                    #[trigger] self.clients@[i].id.0) != cid.0 by {
                        let j = choose|j: int| 0 <= j < k && orig[j] == self.clients@[i];
                        assert(orig[j].id.0 != orig[k as int].id.0);
                    }
                }
                self.clients.push(c);
            } else {
                self.health.remove(&cid.0);
                self.arena.retire_origin(cid);
            }
            proof {
                assert forall|key: u64| Self::some_dead_has_id(post_prefix, ClientId(key))
                    <==> (Self::some_dead_has_id(pre_prefix, ClientId(key)) || (!alive && key
                    == cid.0)) by {
                    if Self::some_dead_has_id(pre_prefix, ClientId(key)) {
                        let i = choose|i: int|
                            0 <= i < pre_prefix.len() && !(#[trigger] pre_prefix[i]).alive
                                && pre_prefix[i].id == ClientId(key);
                        assert(!post_prefix[i].alive && post_prefix[i].id == ClientId(key));
                    }
                    if !alive && key == cid.0 {
                        assert(!post_prefix[k as int].alive && post_prefix[k as int].id == ClientId(
                            key,
                        ));
                    }
                    if Self::some_dead_has_id(post_prefix, ClientId(key)) {
                        let i = choose|i: int|
                            0 <= i < post_prefix.len() && !(#[trigger] post_prefix[i]).alive
                                && post_prefix[i].id == ClientId(key);
                        if i < k {
                            assert(!pre_prefix[i].alive && pre_prefix[i].id == ClientId(key));
                        }
                    }
                }
                assert forall|origin: ClientId| Self::some_dead_has_id(post_prefix, origin)
                    <==> (Self::some_dead_has_id(pre_prefix, origin) || (!alive && origin
                    == cid)) by {
                    if Self::some_dead_has_id(pre_prefix, origin) {
                        let i = choose|i: int|
                            0 <= i < pre_prefix.len() && !(#[trigger] pre_prefix[i]).alive
                                && pre_prefix[i].id == origin;
                        assert(!post_prefix[i].alive && post_prefix[i].id == origin);
                    }
                    if !alive && origin == cid {
                        assert(!post_prefix[k as int].alive && post_prefix[k as int].id == origin);
                    }
                    if Self::some_dead_has_id(post_prefix, origin) {
                        let i = choose|i: int|
                            0 <= i < post_prefix.len() && !(#[trigger] post_prefix[i]).alive
                                && post_prefix[i].id == origin;
                        if i < k {
                            assert(!pre_prefix[i].alive && pre_prefix[i].id == origin);
                        }
                    }
                }
                reveal_with_fuel(Seq::<Client>::filter, 2);
                assert(post_prefix =~= pre_prefix.push(orig[k as int]));
                assert(post_prefix.drop_last() == pre_prefix);
                assert(Self::live_clients(post_prefix) == if alive {
                    Self::live_clients(pre_prefix).push(orig[k as int])
                } else {
                    Self::live_clients(pre_prefix)
                });
                assert(self.clients@ =~= Self::live_clients(post_prefix));
            }
            k = k + 1;
        }
        proof {
            broadcast use vstd::seq_lib::group_filter_ensures;

            assert(orig.subrange(0, n as int) =~= orig);
            assert forall|i: int| 0 <= i < self.clients@.len() implies self.health@.contains_key(
                #[trigger] self.clients@[i].id.0,
            ) by {
                let key = self.clients@[i].id.0;
                let j = choose|j: int| 0 <= j < n && orig[j] == self.clients@[i];
                assert(old(self).health@.contains_key(key));
                if Self::some_dead_has_id(orig, ClientId(key)) {
                    let m = choose|m: int|
                        0 <= m < orig.len() && !(#[trigger] orig[m]).alive && orig[m].id
                            == ClientId(key);
                    assert(orig[m].id.0 == orig[j].id.0 && !orig[m].alive && orig[j].alive);
                    assert(false);
                }
            }
            assert forall|key: u64| #[trigger] self.health@.contains_key(key) implies exists|i: int|
                0 <= i < self.clients@.len() && (#[trigger] self.clients@[i].id.0) == key by {
                assert(old(self).health@.contains_key(key));
                let m = choose|m: int|
                    0 <= m < old(self).clients@.len() && (#[trigger] old(self).clients@[m].id.0)
                        == key;
                assert(orig[m].alive) by {
                    if !orig[m].alive {
                        assert(Self::some_dead_has_id(orig, ClientId(key)));
                    }
                }
                assert(Self::live_clients(orig).contains(orig[m]));
                let i = choose|i: int|
                    0 <= i < Self::live_clients(orig).len() && Self::live_clients(orig)[i]
                        == orig[m];
                assert(self.clients@[i].id.0 == key);
            }
        }
    }

    /// A health record after one recovery attempt begins: one attempt spent,
    /// failures forgiven.
    pub open spec fn begun(h: ConnectionHealth) -> ConnectionHealth {
        ConnectionHealth {
            last_activity: h.last_activity,
            consecutive_failures: 0,
            ice_restart_attempts: (h.ice_restart_attempts + 1) as u32,
        }
    }

    /// A health record after a failure signal: the failure counter up by
    /// one, saturating.
    pub open spec fn failed(h: ConnectionHealth) -> ConnectionHealth {
        ConnectionHealth {
            last_activity: h.last_activity,
            consecutive_failures: if h.consecutive_failures < u32::MAX {
                (h.consecutive_failures + 1) as u32
            } else {
                u32::MAX
            },
            ice_restart_attempts: h.ice_restart_attempts,
        }
    }

    /// Whether some session among the first `upto` carries id `k`.
    pub open spec fn id_in_prefix(clients: Seq<Client>, upto: int, k: u64) -> bool {
        exists|j: int| 0 <= j < upto && (#[trigger] clients[j].id.0) == k
    }

    /// The ids owed a recovery attempt at `now`, in pool order.
    pub open spec fn recovery_id_seq(
        clients: Seq<Client>,
        health: Map<u64, ConnectionHealth>,
        now: u64,
    ) -> Seq<ClientId>
        decreases clients.len(),
    {
        if clients.len() == 0 {
            Seq::empty()
        } else {
            let prefix = Self::recovery_id_seq(clients.drop_last(), health, now);
            let c = clients.last();
            if health.contains_key(c.id.0) && recovery_due(health[c.id.0], now) {
                prefix.push(c.id)
            } else {
                prefix
            }
        }
    }

    /// Whether the periodic health pass is due at `now`.
    pub fn health_pass_due(&self, now: u64) -> (r: bool)
        ensures
            r == (now >= self.last_health_check && now - self.last_health_check
                > HEALTH_CHECK_PERIOD_MS),
    {
        now >= self.last_health_check && now - self.last_health_check > HEALTH_CHECK_PERIOD_MS
    }

    /// The periodic health pass: begins one recovery attempt for every
    /// session whose record says one is due — spending an attempt and
    /// forgiving its failures — and returns their ids, in pool order, so the
    /// host can offer each engine a fresh local candidate. All other records
    /// are untouched.
    pub fn recovery_pass(&mut self, now: u64) -> (r: Vec<ClientId>)
        requires
            old(self).wf(),
        ensures
            final(self).wf(),
            r@ == Self::recovery_id_seq(old(self).clients@, old(self).health@, now),
            forall|k: u64|
                final(self).health@.contains_key(k) == old(self).health@.contains_key(k),
            forall|k: u64|
                #[trigger] final(self).health@.contains_key(k) ==> final(self).health@[k] == (
                if recovery_due(old(self).health@[k], now) {
                    Self::begun(old(self).health@[k])
                } else {
                    old(self).health@[k]
                }),
            final(self).clients == old(self).clients,
            final(self).arena == old(self).arena,
            final(self).queue == old(self).queue,
            final(self).next_id == old(self).next_id,
            final(self).last_health_check == now,
    {
        self.last_health_check = now;
        let mut r: Vec<ClientId> = Vec::new();
        let n = self.clients.len();
        let mut i: usize = 0;
        while i < n
            invariant
                old(self).wf(),
                n == self.clients@.len(),
                i <= n,
                self.clients == old(self).clients,
                self.arena == old(self).arena,
                self.queue == old(self).queue,
                self.next_id == old(self).next_id,
                self.last_health_check == now,
                r@ == Self::recovery_id_seq(
                    old(self).clients@.subrange(0, i as int),
                    old(self).health@,
                    now,
                ),
                forall|k: u64|
                    self.health@.contains_key(k) == old(self).health@.contains_key(k),
                forall|k: u64|
                    #[trigger] self.health@.contains_key(k) ==> self.health@[k] == (
                    if Self::id_in_prefix(old(self).clients@, i as int, k) && recovery_due(
                        old(self).health@[k],
                        now,
                    ) {
                        Self::begun(old(self).health@[k])
                    } else {
                        old(self).health@[k]
                    }),
            decreases n - i,
        {
            let ghost pre_prefix = old(self).clients@.subrange(0, i as int);
            let ghost post_prefix = old(self).clients@.subrange(0, i + 1 as int);
            proof {
                assert(post_prefix.drop_last() =~= pre_prefix);
                assert(post_prefix.last() == old(self).clients@[i as int]);
            }
            let k = self.clients[i].id.value();
            let ghost cid = old(self).clients@[i as int].id;
            let rec_opt = match self.health.get(&k) {
                Some(rec) => Some(*rec),
                None => None,
            };
            match rec_opt {
                Some(mut rec) => {
                    proof {
                        assert(old(self).health@.contains_key(k));
                        assert(!Self::id_in_prefix(old(self).clients@, i as int, k)) by {
                            if Self::id_in_prefix(old(self).clients@, i as int, k) {
                                let j = choose|j: int|
                                    0 <= j < i && (#[trigger] old(self).clients@[j].id.0) == k;
                                assert(old(self).clients@[j].id.0 == old(
                                    self,
                                ).clients@[i as int].id.0);
                                assert(false);
                            }
                        }
                        assert(rec == old(self).health@[k]);
                    }
                    if rec.should_attempt_recovery(now) {
                        rec.begin_recovery();
                        self.health.insert(k, rec);
                        r.push(self.clients[i].id);
                    }
                },
                None => {
                    proof {
                        assert(old(self).health@.contains_key(k));
                        assert(false);
                    }
                },
            }
            proof {
                assert forall|key: u64| Self::id_in_prefix(old(self).clients@, i + 1 as int, key)
                    <==> (Self::id_in_prefix(old(self).clients@, i as int, key) || key == cid.0) by {
                    if Self::id_in_prefix(old(self).clients@, i as int, key) {
                        let j = choose|j: int|
                            0 <= j < i && (#[trigger] old(self).clients@[j].id.0) == key;
                        assert(0 <= j < i + 1 && old(self).clients@[j].id.0 == key);
                    }
                    if key == cid.0 {
                        assert(old(self).clients@[i as int].id.0 == key);
                    }
                }
            }
            i = i + 1;
        }
        proof {
            assert(old(self).clients@.subrange(0, n as int) =~= old(self).clients@);
            assert forall|k: u64| #[trigger] self.health@.contains_key(k) implies self.health@[k]
                == (if recovery_due(old(self).health@[k], now) {
                Self::begun(old(self).health@[k])
            } else {
                old(self).health@[k]
            }) by {
                assert(old(self).health@.contains_key(k));
                let j = choose|j: int|
                    0 <= j < old(self).clients@.len() && (#[trigger] old(self).clients@[j].id.0)
                        == k;
                assert(Self::id_in_prefix(old(self).clients@, n as int, k));
            }
        }
        r
    }

    /// The first session whose engine accepts the datagram, if any.
    pub open spec fn first_accepting(accepts: Seq<bool>) -> Option<int>
        decreases accepts.len(),
    {
        if accepts.len() == 0 {
            None
        } else if accepts[0] {
            Some(0)
        } else {
            match Self::first_accepting(accepts.drop_first()) {
                None => None,
                Some(i) => Some(i + 1),
            }
        }
    }

    /// Routes one inbound datagram, given each session's answer to whether
    /// its engine accepts it. The first accepting session gets the datagram
    /// (the host feeds its engine) and its record is refreshed. When none
    /// accepts — common during early connectivity checks — the datagram is
    /// dropped and every session's record takes a failure signal.
    pub fn route_input(&mut self, accepts: &Vec<bool>, now: u64) -> (r: Option<usize>)
        requires
            old(self).wf(),
            accepts@.len() == old(self).clients@.len(),
        ensures
            final(self).wf(),
            final(self).clients == old(self).clients,
            final(self).arena == old(self).arena,
            final(self).queue == old(self).queue,
            final(self).next_id == old(self).next_id,
            final(self).last_health_check == old(self).last_health_check,
            match r {
                Some(i) => {
                    &&& Self::first_accepting(accepts@) == Some(i as int)
                    &&& final(self).health@ == old(self).health@.insert(
                        old(self).clients@[i as int].id.0,
                        ConnectionHealth {
                            last_activity: now,
                            consecutive_failures: 0,
                            ice_restart_attempts: old(self).health@[old(
                                self,
                            ).clients@[i as int].id.0].ice_restart_attempts,
                        },
                    )
                },
                None => {
                    &&& Self::first_accepting(accepts@) is None
                    &&& forall|k: u64|
                        final(self).health@.contains_key(k) == old(self).health@.contains_key(k)
                    &&& forall|k: u64|
                        #[trigger] final(self).health@.contains_key(k) ==> final(self).health@[k]
                            == Self::failed(old(self).health@[k])
                },
            },
    {
        proof {
            assert(accepts@.subrange(0, accepts@.len() as int) =~= accepts@);
        }
        let mut i: usize = 0;
        while i < accepts.len()
            invariant
                old(self).wf(),
                *self == *old(self),
                accepts@.len() == old(self).clients@.len(),
                i <= accepts@.len(),
                Self::first_accepting(accepts@) == (match Self::first_accepting(
                    accepts@.subrange(i as int, accepts@.len() as int),
                ) {
                    None => None::<int>,
                    Some(k) => Some(k + i),
                }),
            decreases accepts@.len() - i,
        {
            let ghost len = accepts@.len() as int;
            proof {
                assert(accepts@.subrange(i as int, len)[0] == accepts@[i as int]);
                assert(accepts@.subrange(i as int, len).drop_first() =~= accepts@.subrange(
                    i + 1 as int,
                    len,
                ));
            }
            if accepts[i] {
                let k = self.clients[i].id.value();
                let mut rec = match self.health.get(&k) {
                    Some(rec) => *rec,
                    None => ConnectionHealth::new(now),
                };
                proof {
                    assert(old(self).health@.contains_key(k));
                }
                rec.mark_activity(now);
                self.health.insert(k, rec);
                return Some(i);
            }
            i = i + 1;
        }
        let n = self.clients.len();
        let mut j: usize = 0;
        while j < n
            invariant
                old(self).wf(),
                n == self.clients@.len(),
                j <= n,
                self.clients == old(self).clients,
                self.arena == old(self).arena,
                self.queue == old(self).queue,
                self.next_id == old(self).next_id,
                self.last_health_check == old(self).last_health_check,
                forall|k: u64|
                    self.health@.contains_key(k) == old(self).health@.contains_key(k),
                forall|k: u64|
                    #[trigger] self.health@.contains_key(k) ==> self.health@[k] == (
                    if Self::id_in_prefix(old(self).clients@, j as int, k) {
                        Self::failed(old(self).health@[k])
                    } else {
                        old(self).health@[k]
                    }),
            decreases n - j,
        {
            let k = self.clients[j].id.value();
            let ghost cid = old(self).clients@[j as int].id;
            proof {
                assert(old(self).health@.contains_key(k));
                assert(!Self::id_in_prefix(old(self).clients@, j as int, k)) by {
                    if Self::id_in_prefix(old(self).clients@, j as int, k) {
                        let m = choose|m: int|
                            0 <= m < j && (#[trigger] old(self).clients@[m].id.0) == k;
                        assert(old(self).clients@[m].id.0 == old(self).clients@[j as int].id.0);
                        assert(false);
                    }
                }
            }
            let mut rec = match self.health.get(&k) {
                Some(rec) => *rec,
                None => ConnectionHealth::new(now),
            };
            rec.mark_failure();
            self.health.insert(k, rec);
            proof {
                assert forall|key: u64| Self::id_in_prefix(old(self).clients@, j + 1 as int, key)
                    <==> (Self::id_in_prefix(old(self).clients@, j as int, key) || key == cid.0) by {
                    if Self::id_in_prefix(old(self).clients@, j as int, key) {
                        let m = choose|m: int|
                            0 <= m < j && (#[trigger] old(self).clients@[m].id.0) == key;
                        assert(0 <= m < j + 1 && old(self).clients@[m].id.0 == key);
                    }
                    if key == cid.0 {
                        assert(old(self).clients@[j as int].id.0 == key);
                    }
                }
            }
            j = j + 1;
        }
        proof {
            assert forall|k: u64| #[trigger] self.health@.contains_key(k) implies self.health@[k]
                == Self::failed(old(self).health@[k]) by {
                assert(old(self).health@.contains_key(k));
                let m = choose|m: int|
                    0 <= m < old(self).clients@.len() && (#[trigger] old(self).clients@[m].id.0)
                        == k;
                assert(Self::id_in_prefix(old(self).clients@, n as int, k));
            }
        }
        None
    }

    /// Marks the session at `index` disconnected; the next reap removes it.
    pub fn disconnect_at(&mut self, index: usize)
        requires
            index < old(self).clients@.len(),
        ensures
            final(self).clients@ == old(self).clients@.update(
                index as int,
                Client { alive: false, ..old(self).clients@[index as int] },
            ),
            *final(self) == (SessionPool { clients: final(self).clients, ..*old(self) }),
            old(self).wf() ==> final(self).wf(),
    {
        let ghost before = self.clients@;
        let mut c = self.clients.remove(index);
        c.disconnect();
        self.clients.insert(index, c);
        proof {
            assert(self.clients@ =~= before.update(
                index as int,
                Client { alive: false, ..before[index as int] },
            ));
            if old(self).wf() {
                assert forall|k: u64| #[trigger] self.health@.contains_key(k) implies exists|i: int|
                    0 <= i < self.clients@.len() && (#[trigger] self.clients@[i].id.0) == k by {
                    let i = choose|i: int|
                        0 <= i < old(self).clients@.len() && (#[trigger] old(
                            self,
                        ).clients@[i].id.0) == k;
                    assert(self.clients@[i].id.0 == k);
                }
            }
        }
    }

    /// Refreshes the health record of the session at `index` after activity
    /// attributed to it.
    pub fn mark_activity_at(&mut self, index: usize, now: u64)
        requires
            old(self).wf(),
            index < old(self).clients@.len(),
        ensures
            final(self).wf(),
            ({
                let k = old(self).clients@[index as int].id.0;
                final(self).health@ == old(self).health@.insert(
                    k,
                    ConnectionHealth {
                        last_activity: now,
                        consecutive_failures: 0,
                        ice_restart_attempts: old(self).health@[k].ice_restart_attempts,
                    },
                )
            }),
            *final(self) == (SessionPool { health: final(self).health, ..*old(self) }),
    {
        let k = self.clients[index].id.value();
        let mut rec = match self.health.get(&k) {
            Some(r) => *r,
            None => ConnectionHealth::new(now),
        };
        rec.mark_activity(now);
        self.health.insert(k, rec);
    }

    /// Fans one media frame out: for every other session whose mirror of the
    /// source track has a local media-line id, and only if the frame's layer
    /// tag passes the simulcast filter, the frame is forwarded — the
    /// destination remembers the layer tag, and the host gets one write
    /// instruction per destination. A layer that is neither absent, empty nor
    /// the designated high layer is never written to any session's engine.
    pub fn fan_media(&mut self, origin: ClientId, mid: &Vec<u8>, rid: &Option<Vec<u8>>, token: u64)
        -> (fwds: Vec<Forward>)
        requires
            old(self).wf(),
        ensures
            final(self).wf(),
            media_clients_post(
                old(self).clients@,
                final(self).clients@,
                old(self).arena,
                origin,
                mid@,
                view_opt(*rid),
            ),
            forwards_media(
                fwds@,
                old(self).clients@,
                old(self).arena,
                origin,
                mid@,
                view_opt(*rid),
                token,
            ),
            !layer_allowed(view_opt(*rid)) ==> fwds@.len() == 0,
            *final(self) == (SessionPool { clients: final(self).clients, ..*old(self) }),
    {
        let allowed = layer_allowed_exec(rid);
        let mut fwds: Vec<Forward> = Vec::new();
        let n = self.clients.len();
        let mut i: usize = 0;
        while i < n
            invariant
                old(self).wf(),
                n == self.clients@.len(),
                n == old(self).clients@.len(),
                i <= n,
                allowed == layer_allowed(view_opt(*rid)),
                self.health == old(self).health,
                self.arena == old(self).arena,
                self.queue == old(self).queue,
                self.next_id == old(self).next_id,
                self.last_health_check == old(self).last_health_check,
                media_clients_post(
                    old(self).clients@.subrange(0, i as int),
                    self.clients@.subrange(0, i as int),
                    old(self).arena,
                    origin,
                    mid@,
                    view_opt(*rid),
                ),
                forall|k: int| i <= k < n ==> self.clients@[k] == old(self).clients@[k],
                forwards_media(
                    fwds@,
                    old(self).clients@.subrange(0, i as int),
                    old(self).arena,
                    origin,
                    mid@,
                    view_opt(*rid),
                    token,
                ),
                !allowed ==> fwds@.len() == 0,
            decreases n - i,
        {
            let ghost pre_prefix = old(self).clients@.subrange(0, i as int);
            let ghost post_prefix = old(self).clients@.subrange(0, i + 1 as int);
            proof {
                assert(post_prefix.drop_last() =~= pre_prefix);
                assert(post_prefix.last() == old(self).clients@[i as int]);
                lemma_forward_index_range(
                    old(self).arena,
                    pre_prefix,
                    origin,
                    mid@,
                    view_opt(*rid),
                );
            }
            let ghost before = self.clients@;
            let mut c = self.clients.remove(i);
            if allowed && c.id.value() != origin.value() {
                match c.resolve_outgoing_mid(&self.arena, origin, mid) {
                    Some(local) => {
                        c.chosen_layer = match rid {
                            None => None,
                            Some(v) => Some(crate::client::clone_bytes(v)),
                        };
                        fwds.push(Forward { to: c.id, local_mid: local, token });
                    },
                    None => {},
                }
            }
            self.clients.insert(i, c);
            proof {
                assert(self.clients@.subrange(0, i as int) =~= before.subrange(0, i as int));
                assert(self.clients@.subrange(0, i + 1 as int).drop_last() =~= before.subrange(
                    0,
                    i as int,
                ));
                assert(forall|k: int| i + 1 <= k < n ==> self.clients@[k] == before[k]);
                assert(forall|k: int|
                    0 <= k < i ==> post_prefix[k] == pre_prefix[k] && self.clients@.subrange(
                        0,
                        i + 1 as int,
                    )[k] == self.clients@.subrange(0, i as int)[k]);
            }
            i = i + 1;
        }
        proof {
            assert(old(self).clients@.subrange(0, n as int) =~= old(self).clients@);
            assert(self.clients@.subrange(0, n as int) =~= self.clients@);
            assert forall|k: u64| #[trigger] self.health@.contains_key(k) implies exists|i: int|
                0 <= i < self.clients@.len() && (#[trigger] self.clients@[i].id.0) == k by {
                let i = choose|i: int|
                    0 <= i < old(self).clients@.len() && (#[trigger] old(self).clients@[i].id.0)
                        == k;
                assert(self.clients@[i].id.0 == k);
            }
            assert forall|i: int| 0 <= i < n implies (#[trigger] self.clients@[i]).id == old(
                self,
            ).clients@[i].id by {
            }
        }
        fwds
    }

    /// The first session with id `id`, if present.
    pub fn find_client(&self, id: ClientId) -> (r: Option<usize>)
        ensures
            match r {
                Some(i) => i < self.clients@.len() && self.clients@[i as int].id == id,
                None => forall|i: int|
                    0 <= i < self.clients@.len() ==> (#[trigger] self.clients@[i]).id != id,
            },
    {
        let mut i: usize = 0;
        while i < self.clients.len()
            invariant
                i <= self.clients@.len(),
                forall|j: int| 0 <= j < i ==> (#[trigger] self.clients@[j]).id != id,
            decreases self.clients@.len() - i,
        {
            if self.clients[i].id.value() == id.value() {
                return Some(i);
            }
            i = i + 1;
        }
        None
    }

    /// Takes the oldest queued event, if any; the coordinator drains one per
    /// tick to bound latency.
    pub fn take_event(&mut self) -> (r: Option<Propagated>)
        ensures
            old(self).queue@.len() == 0 ==> r is None && *final(self) == *old(self),
            old(self).queue@.len() > 0 ==> r == Some(old(self).queue@[0]) && final(self).queue@
                == old(self).queue@.drop_first() && *final(self) == (SessionPool {
                queue: final(self).queue,
                ..*old(self)
            }),
    {
        if self.queue.len() == 0 {
            return None;
        }
        let ev = self.queue.remove(0);
        proof {
            assert(self.queue@ =~= old(self).queue@.drop_first());
        }
        Some(ev)
    }

    /// What a track-opened fan-out does: every session but the origin gains
    /// a `ToOpen` mirror of the new track; the origin is untouched.
    pub open spec fn track_open_post(
        pre: Seq<Client>,
        post: Seq<Client>,
        origin: ClientId,
        handle: usize,
    ) -> bool {
        &&& post.len() == pre.len()
        &&& forall|i: int|
            0 <= i < pre.len() ==> if (#[trigger] pre[i]).id == origin {
                post[i] == pre[i]
            } else {
                post[i].tracks_out@ == pre[i].tracks_out@.push(
                    TrackOut { track_in: handle, state: TrackOutState::ToOpen },
                ) && post[i] == (Client { tracks_out: post[i].tracks_out, ..pre[i] })
            }
    }

    /// Fans a newly opened track out: every session except its origin gets a
    /// mirror, to be opened on that session's next negotiation round.
    pub fn fan_track_open(&mut self, origin: ClientId, handle: usize)
        requires
            old(self).wf(),
        ensures
            final(self).wf(),
            Self::track_open_post(old(self).clients@, final(self).clients@, origin, handle),
            *final(self) == (SessionPool { clients: final(self).clients, ..*old(self) }),
    {
        let n = self.clients.len();
        let mut i: usize = 0;
        while i < n
            invariant
                old(self).wf(),
                n == self.clients@.len(),
                n == old(self).clients@.len(),
                i <= n,
                self.health == old(self).health,
                self.arena == old(self).arena,
                self.queue == old(self).queue,
                self.next_id == old(self).next_id,
                self.last_health_check == old(self).last_health_check,
                Self::track_open_post(
                    old(self).clients@.subrange(0, i as int),
                    self.clients@.subrange(0, i as int),
                    origin,
                    handle,
                ),
                forall|k: int| i <= k < n ==> self.clients@[k] == old(self).clients@[k],
            decreases n - i,
        {
            let ghost before = self.clients@;
            let mut c = self.clients.remove(i);
            if c.id.value() != origin.value() {
                c.handle_track_opened(handle);
            }
            self.clients.insert(i, c);
            proof {
                assert(self.clients@.subrange(0, i + 1 as int).drop_last() =~= before.subrange(
                    0,
                    i as int,
                ));
                assert(self.clients@.subrange(0, i as int) =~= before.subrange(0, i as int));
                assert(old(self).clients@.subrange(0, i + 1 as int)[i as int] == old(
                    self,
                ).clients@[i as int]);
                assert(forall|k: int|
                    0 <= k < i ==> old(self).clients@.subrange(0, i + 1 as int)[k] == old(
                        self,
                    ).clients@.subrange(0, i as int)[k]);
                assert(forall|k: int| i + 1 <= k < n ==> self.clients@[k] == before[k]);
            }
            i = i + 1;
        }
        proof {
            assert(old(self).clients@.subrange(0, n as int) =~= old(self).clients@);
            assert(self.clients@.subrange(0, n as int) =~= self.clients@);
            assert forall|i: int| 0 <= i < n implies (#[trigger] self.clients@[i]).id == old(
                self,
            ).clients@[i].id by {
            }
            assert forall|k: u64| #[trigger] self.health@.contains_key(k) implies exists|i: int|
                0 <= i < self.clients@.len() && (#[trigger] self.clients@[i].id.0) == k by {
                let i = choose|i: int|
                    0 <= i < old(self).clients@.len() && (#[trigger] old(self).clients@[i].id.0)
                        == k;
                assert(self.clients@[i].id.0 == k);
            }
        }
    }

    /// Relays a keyframe request to the session owning the requested track.
    /// The request's target layer is overwritten with the layer last
    /// forwarded to the requester's peer. Returns the engine request the
    /// host must perform, or nothing when the owning session is gone or has
    /// no matching incoming track — then the request is a no-op, and in no
    /// case does any session's state change.
    pub fn fan_keyframe(
        &self,
        requester: ClientId,
        kind: KeyframeKind,
        origin_session: ClientId,
        origin_mid: &Vec<u8>,
    ) -> (r: Option<KeyframeAction>)
        requires
            self.wf(),
        ensures
            match r {
                None => forall|i: int|
                    0 <= i < self.clients@.len() && (#[trigger] self.clients@[i]).id
                        == origin_session ==> !has_in_track(
                        self.arena,
                        self.clients@[i],
                        origin_mid@,
                    ),
                Some(a) => {
                    &&& exists|i: int|
                        0 <= i < self.clients@.len() && (#[trigger] self.clients@[i]).id
                            == origin_session && has_in_track(
                            self.arena,
                            self.clients@[i],
                            origin_mid@,
                        )
                    &&& a.on == origin_session
                    &&& a.mid@ == origin_mid@
                    &&& a.kind == kind
                    &&& view_opt(a.layer) == chosen_layer_of(self.clients@, requester)
                },
            },
    {
        proof {
            assert(self.clients@.subrange(0, self.clients@.len() as int) =~= self.clients@);
        }
        let mut layer: Option<Vec<u8>> = None;
        let mut i: usize = 0;
        let mut found = false;
        while i < self.clients.len() && !found
            invariant
                i <= self.clients@.len(),
                found ==> view_opt(layer) == chosen_layer_of(self.clients@, requester),
                !found ==> layer is None && chosen_layer_of(self.clients@, requester)
                    == chosen_layer_of(
                    self.clients@.subrange(i as int, self.clients@.len() as int),
                    requester,
                ),
            decreases self.clients@.len() - i + (if found { 0int } else { 1int }),
        {
            let ghost len = self.clients@.len() as int;
            proof {
                assert(self.clients@.subrange(i as int, len)[0] == self.clients@[i as int]);
                assert(self.clients@.subrange(i as int, len).drop_first() =~= self.clients@
                    .subrange(i + 1 as int, len));
            }
            if self.clients[i].id.value() == requester.value() {
                layer = match &self.clients[i].chosen_layer {
                    None => None,
                    Some(v) => Some(crate::client::clone_bytes(v)),
                };
                found = true;
            }
            i = i + 1;
        }
        proof {
            if !found {
                assert(self.clients@.subrange(
                    self.clients@.len() as int,
                    self.clients@.len() as int,
                ) =~= Seq::<Client>::empty());
            }
        }
        let mut j: usize = 0;
        while j < self.clients.len()
            invariant
                self.wf(),
                j <= self.clients@.len(),
                view_opt(layer) == chosen_layer_of(self.clients@, requester),
                forall|k: int|
                    0 <= k < j && (#[trigger] self.clients@[k]).id == origin_session
                        ==> !has_in_track(self.arena, self.clients@[k], origin_mid@),
            decreases self.clients@.len() - j,
        {
            if self.clients[j].id.value() == origin_session.value() {
                if self.clients[j].handle_keyframe_requested(&self.arena, origin_mid) {
                    return Some(
                        KeyframeAction {
                            on: origin_session,
                            mid: crate::client::clone_bytes(origin_mid),
                            kind,
                            layer,
                        },
                    );
                }
            }
            j = j + 1;
        }
        None
    }

    /// Drains one queued event through the fan-out rules — the coordinator
    /// calls this once per tick to bound per-tick latency. A track-opened
    /// event is mirrored to every other session; a media frame is forwarded
    /// to every eligible destination under the simulcast filter; a keyframe
    /// request is relayed to the session owning the track.
    pub fn drain_one(&mut self) -> (r: BusOutcome)
        requires
            old(self).wf(),
        ensures
            final(self).wf(),
            old(self).queue@.len() == 0 ==> *final(self) == *old(self) && r is Idle,
            old(self).queue@.len() > 0 ==> final(self).queue@ == old(self).queue@.drop_first()
                && (match old(self).queue@[0] {
                Propagated::Noop => r is Idle && *final(self) == (SessionPool {
                    queue: final(self).queue,
                    ..*old(self)
                }),
                Propagated::Timeout(_) => r is Idle && *final(self) == (SessionPool {
                    queue: final(self).queue,
                    ..*old(self)
                }),
                Propagated::TrackOpen(o, h) => {
                    &&& r is Opened
                    &&& Self::track_open_post(old(self).clients@, final(self).clients@, o, h)
                    &&& *final(self) == (SessionPool {
                        queue: final(self).queue,
                        clients: final(self).clients,
                        ..*old(self)
                    })
                },
                Propagated::MediaData(o, meta) => {
                    &&& (r matches BusOutcome::Media(fwds) && forwards_media(
                        fwds@,
                        old(self).clients@,
                        old(self).arena,
                        o,
                        meta.mid@,
                        view_opt(meta.rid),
                        meta.token,
                    ) && (!layer_allowed(view_opt(meta.rid)) ==> fwds@.len() == 0))
                    &&& media_clients_post(
                        old(self).clients@,
                        final(self).clients@,
                        old(self).arena,
                        o,
                        meta.mid@,
                        view_opt(meta.rid),
                    )
                    &&& *final(self) == (SessionPool {
                        queue: final(self).queue,
                        clients: final(self).clients,
                        ..*old(self)
                    })
                },
                Propagated::KeyframeRequest(req, kind, os, omid) => {
                    &&& *final(self) == (SessionPool { queue: final(self).queue, ..*old(self) })
                    &&& (r matches BusOutcome::Keyframe(act) && (match act {
                        None => forall|i: int|
                            0 <= i < old(self).clients@.len() && (
                            #[trigger] old(self).clients@[i]).id == os ==> !has_in_track(
                                old(self).arena,
                                old(self).clients@[i],
                                omid@,
                            ),
                        Some(a) => {
                            &&& exists|i: int|
                                0 <= i < old(self).clients@.len() && (
                                #[trigger] old(self).clients@[i]).id == os && has_in_track(
                                    old(self).arena,
                                    old(self).clients@[i],
                                    omid@,
                                )
                            &&& a.on == os
                            &&& a.mid@ == omid@
                            &&& a.kind == kind
                            &&& view_opt(a.layer) == chosen_layer_of(old(self).clients@, req)
                        },
                    }))
                },
            }),
    {
        let ev = match self.take_event() {
            None => {
                return BusOutcome::Idle;
            },
            Some(ev) => ev,
        };
        match ev {
            Propagated::Noop => BusOutcome::Idle,
            Propagated::Timeout(_) => BusOutcome::Idle,
            Propagated::TrackOpen(o, h) => {
                self.fan_track_open(o, h);
                BusOutcome::Opened
            },
            Propagated::MediaData(o, meta) => {
                let fwds = self.fan_media(o, &meta.mid, &meta.rid, meta.token);
                BusOutcome::Media(fwds)
            },
            Propagated::KeyframeRequest(req, kind, os, omid) => {
                let act = self.fan_keyframe(req, kind, os, &omid);
                BusOutcome::Keyframe(act)
            },
        }
    }
}

} // verus!
