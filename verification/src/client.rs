//! Per-session state: identity, the track registry and the negotiation
//! driver.
//!
//! A [`Client`] is the pool's model of one connected peer. It owns the
//! entries of the tracks that peer contributes, mirrors every other peer's
//! tracks as [`TrackOut`] values, and runs the offer/answer state machine
//! that opens those mirrors on its own connection. The transport engine
//! itself lives with the host process; the methods here decide, the host
//! executes.

use vstd::prelude::*;

use crate::propagated::{KeyframeKind, MediaMeta, Propagated};
use crate::tracks::{
    keyframe_request_allowed, state_mid, MediaKind, TrackArena, TrackIn, TrackInEntry, TrackOut,
    TrackOutState, mid_eq,
};
use crate::util::echo_reply;

verus! {

/// Process-unique identifier for one session, assigned monotonically by the
/// pool and never reused.
#[derive(Debug, Clone, Copy, PartialEq, Eq, Structural)]
pub struct ClientId(pub u64);

impl ClientId {
    /// The raw numeric id.
    pub fn value(&self) -> (r: u64)
        ensures
            r == self.0,
    {
        self.0
    }
}

/// Byte-for-byte copy of a media-line id.
pub fn clone_bytes(v: &Vec<u8>) -> (r: Vec<u8>)
    ensures
        r@ == v@,
{
    let mut r: Vec<u8> = Vec::new();
    let mut i: usize = 0;
    while i < v.len()
        invariant
            i <= v.len(),
            r@ == v@.subrange(0, i as int),
        decreases v.len() - i,
    {
        r.push(v[i]);
        proof {
            assert(r@ =~= v@.subrange(0, i + 1 as int));
        }
        i = i + 1;
    }
    proof {
        assert(r@ =~= v@);
    }
    r
}

/// One media line the negotiation driver wants added to the session's next
/// local offer: which mirror it opens, the media kind, and the session whose
/// id labels the stream.
#[derive(Debug, Clone, Copy, PartialEq, Eq, Structural)]
pub struct OpenRequest {
    /// Index of the mirror in the session's outgoing-track table.
    pub index: usize,
    /// Audio or video, from the source track.
    pub kind: MediaKind,
    /// The session contributing the source track.
    pub origin: ClientId,
}

/// A mirror is ripe for opening when it still waits in `ToOpen` and its
/// source track still resolves.
pub open spec fn eligible_to_open(arena: TrackArena, t: TrackOut) -> bool {
    &&& t.state is ToOpen
    &&& arena.is_live(t.track_in as int)
}

/// The media lines a negotiation round adds, in table order: one per mirror
/// eligible to open.
pub open spec fn open_request_seq(arena: TrackArena, outs: Seq<TrackOut>) -> Seq<OpenRequest>
    decreases outs.len(),
{
    if outs.len() == 0 {
        Seq::empty()
    } else {
        let prefix = open_request_seq(arena, outs.drop_last());
        let t = outs.last();
        if eligible_to_open(arena, t) {
            prefix.push(
                OpenRequest {
                    index: (outs.len() - 1) as usize,
                    kind: arena.track_at(t.track_in as int).kind,
                    origin: arena.track_at(t.track_in as int).origin,
                },
            )
        } else {
            prefix
        }
    }
}

/// A mirror matches a remote track when its source handle still resolves to
/// that origin and media-line id and the mirror already carries a local id
/// (mirrors still in `ToOpen` are not candidates for forwarding).
pub open spec fn out_matches(arena: TrackArena, t: TrackOut, origin: ClientId, mid: Seq<u8>) -> bool {
    &&& arena.is_live(t.track_in as int)
    &&& arena.track_at(t.track_in as int).origin == origin
    &&& arena.track_at(t.track_in as int).mid@ == mid
    &&& state_mid(t.state) is Some
}

/// The local media-line id under which a session with mirror table `outs`
/// forwards the remote track `(origin, mid)`: the id of the first matching
/// mirror, if any.
pub open spec fn spec_resolve(
    arena: TrackArena,
    outs: Seq<TrackOut>,
    origin: ClientId,
    mid: Seq<u8>,
) -> Option<Seq<u8>>
    decreases outs.len(),
{
    if outs.len() == 0 {
        None
    } else if out_matches(arena, outs[0], origin, mid) {
        state_mid(outs[0].state)
    } else {
        spec_resolve(arena, outs.drop_first(), origin, mid)
    }
}

/// A mirror answers for a local media-line id when it carries that id and
/// its source track still resolves.
pub open spec fn out_carries(arena: TrackArena, t: TrackOut, local: Seq<u8>) -> bool {
    &&& arena.is_live(t.track_in as int)
    &&& state_mid(t.state) == Some(local)
}

/// The remote track behind the mirror carrying local media-line id `local`:
/// the originating session and the track's id there, from the first such
/// mirror.
pub open spec fn spec_reverse(
    arena: TrackArena,
    outs: Seq<TrackOut>,
    local: Seq<u8>,
) -> Option<(ClientId, Seq<u8>)>
    decreases outs.len(),
{
    if outs.len() == 0 {
        None
    } else if out_carries(arena, outs[0], local) {
        Some(
            (
                arena.track_at(outs[0].track_in as int).origin,
                arena.track_at(outs[0].track_in as int).mid@,
            ),
        )
    } else {
        spec_reverse(arena, outs.drop_first(), local)
    }
}

/// An incoming-track entry answers for a media-line id when its handle still
/// resolves to a track of this session with that id.
pub open spec fn in_matches(arena: TrackArena, owner: ClientId, e: TrackInEntry, mid: Seq<u8>) -> bool {
    &&& arena.is_live(e.handle as int)
    &&& arena.track_at(e.handle as int).origin == owner
    &&& arena.track_at(e.handle as int).mid@ == mid
}

/// The first incoming-track entry of `owner` answering for `mid`, if any.
pub open spec fn first_in_match(
    arena: TrackArena,
    owner: ClientId,
    entries: Seq<TrackInEntry>,
    mid: Seq<u8>,
) -> Option<int>
    decreases entries.len(),
{
    if entries.len() == 0 {
        None
    } else if in_matches(arena, owner, entries[0], mid) {
        Some(0)
    } else {
        match first_in_match(arena, owner, entries.drop_first(), mid) {
            None => None,
            Some(j) => Some(j + 1),
        }
    }
}

/// Whether session `c` owns a live incoming track with media-line id `mid`.
pub open spec fn has_in_track(arena: TrackArena, c: Client, mid: Seq<u8>) -> bool {
    exists|j: int|
        0 <= j < c.tracks_in@.len() && in_matches(arena, c.id, #[trigger] c.tracks_in@[j], mid)
}

/// Number of mirrors still waiting to be opened.
pub open spec fn to_open_count(outs: Seq<TrackOut>) -> int {
    outs.filter(|t: TrackOut| t.state is ToOpen).len() as int
}

/// Number of mirrors with an offer out and the answer pending.
pub open spec fn negotiating_count(outs: Seq<TrackOut>) -> int {
    outs.filter(|t: TrackOut| t.state is Negotiating).len() as int
}

/// Law: a remote track whose mirror already carries a local media-line id is
/// found by resolution — media for it is never dropped for want of a mirror.
pub proof fn lemma_match_resolves(
    arena: TrackArena,
    outs: Seq<TrackOut>,
    origin: ClientId,
    mid: Seq<u8>,
    j: int,
)
    requires
        0 <= j < outs.len(),
        out_matches(arena, outs[j], origin, mid),
    ensures
        spec_resolve(arena, outs, origin, mid) is Some,
    decreases outs.len(),
{
    if out_matches(arena, outs[0], origin, mid) {
    } else {
        assert(j >= 1);
        assert(outs.drop_first()[j - 1] == outs[j]);
        lemma_match_resolves(arena, outs.drop_first(), origin, mid, j - 1);
    }
}

/// Law: an answer to the pending offer promotes without opening or closing
/// anything else — the number of mirrors still waiting to be opened is
/// exactly what it was before the answer.
pub proof fn lemma_answer_preserves_waiting(pre: Seq<TrackOut>, post: Seq<TrackOut>)
    requires
        post.len() == pre.len(),
        forall|k: int|
            0 <= k < pre.len() ==> post[k] == (match (#[trigger] pre[k]).state {
                TrackOutState::Negotiating(m) => TrackOut {
                    track_in: pre[k].track_in,
                    state: TrackOutState::Open(m),
                },
                _ => pre[k],
            }),
    ensures
        to_open_count(post) == to_open_count(pre),
    decreases pre.len(),
{
    reveal_with_fuel(Seq::<TrackOut>::filter, 2);
    if pre.len() == 0 {
        assert(pre =~= post);
    } else {
        assert forall|k: int| 0 <= k < pre.drop_last().len() implies post.drop_last()[k] == (
        match (#[trigger] pre.drop_last()[k]).state {
            TrackOutState::Negotiating(m) => TrackOut {
                track_in: pre.drop_last()[k].track_in,
                state: TrackOutState::Open(m),
            },
            _ => pre.drop_last()[k],
        }) by {
            assert(pre.drop_last()[k] == pre[k]);
            assert(post.drop_last()[k] == post[k]);
        }
        lemma_answer_preserves_waiting(pre.drop_last(), post.drop_last());
        assert((post.last().state is ToOpen) == (pre.last().state is ToOpen));
    }
}

/// Law (crossed negotiation): reverting a round puts every negotiating
/// mirror back among the waiting ones — afterwards the waiting mirrors are
/// exactly the old waiting ones plus the old negotiating ones, so no mirror
/// is lost to a crossed offer.
pub proof fn lemma_crossed_revert_restores_waiting(pre: Seq<TrackOut>, post: Seq<TrackOut>)
    requires
        post.len() == pre.len(),
        forall|k: int|
            0 <= k < pre.len() ==> post[k] == (match (#[trigger] pre[k]).state {
                TrackOutState::Negotiating(m) => TrackOut {
                    track_in: pre[k].track_in,
                    state: TrackOutState::ToOpen,
                },
                _ => pre[k],
            }),
    ensures
        to_open_count(post) == to_open_count(pre) + negotiating_count(pre),
        negotiating_count(post) == 0,
    decreases pre.len(),
{
    reveal_with_fuel(Seq::<TrackOut>::filter, 2);
    if pre.len() == 0 {
        assert(pre =~= post);
    } else {
        assert forall|k: int| 0 <= k < pre.drop_last().len() implies post.drop_last()[k] == (
        match (#[trigger] pre.drop_last()[k]).state {
            TrackOutState::Negotiating(m) => TrackOut {
                track_in: pre.drop_last()[k].track_in,
                state: TrackOutState::ToOpen,
            },
            _ => pre.drop_last()[k],
        }) by {
            assert(pre.drop_last()[k] == pre[k]);
            assert(post.drop_last()[k] == post[k]);
        }
        lemma_crossed_revert_restores_waiting(pre.drop_last(), post.drop_last());
        assert((post.last().state is ToOpen) == (pre.last().state is ToOpen || pre.last().state
            is Negotiating));
        assert(!(post.last().state is Negotiating));
    }
}

/// One unit of engine output for a session, reduced to plain values. The
/// host converts what its engine reports into these; control-channel bytes
/// that parse as a session description are classified as offer or answer
/// before they get here.
pub enum EngineEvent {
    /// The engine reported its connection gone.
    IceDisconnected,
    /// The session's control channel opened.
    ChannelOpen,
    /// The peer contributed a new media track.
    MediaAdded {
        /// The track's media-line id.
        mid: Vec<u8>,
        /// Audio or video.
        kind: MediaKind,
    },
    /// Media arrived on one of the session's own tracks.
    MediaData {
        /// The track's media-line id.
        mid: Vec<u8>,
        /// The frame's simulcast layer tag, if any.
        rid: Option<Vec<u8>>,
        /// Whether the data continues the previous data without a gap.
        contiguous: bool,
        /// The host's token for the frame payload.
        token: u64,
    },
    /// The peer asked for a keyframe on a track we forward to it.
    KeyframeRequest {
        /// The kind of keyframe asked for.
        kind: KeyframeKind,
        /// Our local media-line id the request names.
        mid: Vec<u8>,
    },
    /// The peer sent a session-description offer over the control channel.
    OfferReceived,
    /// The peer answered our pending offer.
    AnswerReceived,
    /// Any other application message on the control channel.
    ChannelData {
        /// The message bytes.
        bytes: Vec<u8>,
    },
}

/// What the host must do on this session's own engine after an event, beside
/// fanning out the returned propagation.
pub enum LocalStep {
    /// Nothing.
    Idle,
    /// Tell the engine to disconnect; the pool reaps the session next tick.
    Disconnect,
    /// Ask the session's own peer for a keyframe on this incoming track.
    RequestKeyframe {
        /// The track's media-line id.
        mid: Vec<u8>,
    },
    /// Write these bytes back over the control channel.
    Reply {
        /// The reply bytes.
        bytes: Vec<u8>,
    },
}

/// The pool's model of one connected peer.
#[derive(Debug)]
pub struct Client {
    /// This session's unique id.
    pub id: ClientId,
    /// False once the engine reported the connection gone; the pool reaps
    /// such sessions on its next tick.
    pub alive: bool,
    /// Whether the session's own control channel is open yet.
    pub channel_open: bool,
    /// Whether a local offer is out with its answer still pending. At most
    /// one negotiation round is in flight per session.
    pub pending_offer: bool,
    /// Entries for the tracks this session contributes.
    pub tracks_in: Vec<TrackInEntry>,
    /// Mirrors of other sessions' tracks this session must receive.
    pub tracks_out: Vec<TrackOut>,
    /// The layer tag of the last frame forwarded to this session's peer,
    /// used to aim relayed keyframe requests.
    pub chosen_layer: Option<Vec<u8>>,
}

impl Client {
    /// A fresh session: alive, nothing negotiated, no tracks either way.
    pub fn new(id: ClientId) -> (c: Client)
        ensures
            c.id == id,
            c.alive,
            !c.channel_open,
            !c.pending_offer,
            c.tracks_in@.len() == 0,
            c.tracks_out@.len() == 0,
            c.chosen_layer is None,
    {
        Client {
            id,
            alive: true,
            channel_open: false,
            pending_offer: false,
            tracks_in: Vec::new(),
            tracks_out: Vec::new(),
            chosen_layer: None,
        }
    }

    /// The engine reported this session's connection gone (or its media path
    /// corrupted): mark it for reaping.
    pub fn disconnect(&mut self)
        ensures
            *final(self) == (Client { alive: false, ..*old(self) }),
    {
        self.alive = false;
    }

    /// The session's control channel opened.
    pub fn set_channel_open(&mut self)
        ensures
            *final(self) == (Client { channel_open: true, ..*old(self) }),
    {
        self.channel_open = true;
    }

    /// Another session contributed a track: mirror it, to be opened by a
    /// later negotiation round.
    pub fn handle_track_opened(&mut self, handle: usize)
        ensures
            final(self).tracks_out@ == old(self).tracks_out@.push(
                TrackOut { track_in: handle, state: TrackOutState::ToOpen },
            ),
            *final(self) == (Client { tracks_out: final(self).tracks_out, ..*old(self) }),
    {
        self.tracks_out.push(TrackOut { track_in: handle, state: TrackOutState::ToOpen });
    }

    /// This session's peer contributed a new track: own it in the arena and
    /// register its entry. Returns the new track's handle.
    pub fn on_media_added(&mut self, arena: &mut TrackArena, mid: Vec<u8>, kind: MediaKind) -> (h:
        usize)
        requires
            old(arena).wf(),
        ensures
            final(arena).wf(),
            h == old(arena).spec_len(),
            final(arena).spec_len() == old(arena).spec_len() + 1,
            final(arena).is_live(h as int),
            final(arena).track_at(h as int) == (TrackIn { origin: old(self).id, mid, kind }),
            forall|j: int|
                0 <= j < old(arena).spec_len() ==> final(arena).is_live(j) == old(arena).is_live(j)
                    && final(arena).track_at(j) == old(arena).track_at(j),
            final(self).tracks_in@ == old(self).tracks_in@.push(
                TrackInEntry { handle: h, last_keyframe_request: None },
            ),
            *final(self) == (Client { tracks_in: final(self).tracks_in, ..*old(self) }),
    {
        let h = arena.register(TrackIn { origin: self.id, mid, kind });
        self.tracks_in.push(TrackInEntry { handle: h, last_keyframe_request: None });
        h
    }

    /// Finds the local media-line id under which this session forwards the
    /// remote track `(origin, mid)`, if its mirror has one already.
    pub fn resolve_outgoing_mid(&self, arena: &TrackArena, origin: ClientId, mid: &Vec<u8>) -> (r:
        Option<Vec<u8>>)
        requires
            arena.wf(),
        ensures
            match r {
                None => spec_resolve(*arena, self.tracks_out@, origin, mid@) is None,
                Some(m) => spec_resolve(*arena, self.tracks_out@, origin, mid@) == Some(m@),
            },
    {
        proof {
            assert(self.tracks_out@.subrange(0, self.tracks_out@.len() as int)
                =~= self.tracks_out@);
        }
        let mut j: usize = 0;
        while j < self.tracks_out.len()
            invariant
                arena.wf(),
                j <= self.tracks_out@.len(),
                spec_resolve(*arena, self.tracks_out@, origin, mid@) == spec_resolve(
                    *arena,
                    self.tracks_out@.subrange(j as int, self.tracks_out@.len() as int),
                    origin,
                    mid@,
                ),
            decreases self.tracks_out@.len() - j,
        {
            let ghost len = self.tracks_out@.len() as int;
            let ghost rest = self.tracks_out@.subrange(j as int, len);
            proof {
                assert(rest[0] == self.tracks_out@[j as int]);
                assert(rest.drop_first() =~= self.tracks_out@.subrange(j + 1 as int, len));
            }
            let t = &self.tracks_out[j];
            let mut matched = false;
            match arena.upgrade(t.track_in) {
                Some(track) => {
                    if track.origin == origin && mid_eq(&track.mid, mid) {
                        matched = true;
                    }
                },
                None => {},
            }
            if matched {
                match t.mid() {
                    Some(m) => {
                        return Some(clone_bytes(m));
                    },
                    None => {
                        proof {
                            assert(!out_matches(*arena, self.tracks_out@[j as int], origin, mid@));
                        }
                    },
                }
            }
            j = j + 1;
        }
        None
    }

    /// The media lines a negotiation round would add now. Empty unless the
    /// control channel is open and no earlier round is still pending; then
    /// one request per mirror that waits in `ToOpen` and still resolves.
    pub fn poll_negotiation(&self, arena: &TrackArena) -> (r: Vec<OpenRequest>)
        requires
            arena.wf(),
        ensures
            (!self.channel_open || self.pending_offer) ==> r@.len() == 0,
            (self.channel_open && !self.pending_offer) ==> r@ == open_request_seq(
                *arena,
                self.tracks_out@,
            ),
    {
        let mut r: Vec<OpenRequest> = Vec::new();
        if !self.channel_open || self.pending_offer {
            return r;
        }
        let mut j: usize = 0;
        while j < self.tracks_out.len()
            invariant
                arena.wf(),
                j <= self.tracks_out@.len(),
                r@ == open_request_seq(*arena, self.tracks_out@.subrange(0, j as int)),
            decreases self.tracks_out@.len() - j,
        {
            let t = &self.tracks_out[j];
            let ghost prefix = self.tracks_out@.subrange(0, j as int);
            proof {
                assert(self.tracks_out@.subrange(0, j + 1 as int).drop_last() =~= prefix);
                assert(self.tracks_out@.subrange(0, j + 1 as int).last() == self.tracks_out@[
                    j as int
                ]);
            }
            match &t.state {
                TrackOutState::ToOpen => {
                    match arena.upgrade(t.track_in) {
                        Some(track) => {
                            r.push(OpenRequest { index: j, kind: track.kind, origin: track.origin });
                        },
                        None => {},
                    }
                },
                _ => {},
            }
            j = j + 1;
        }
        proof {
            assert(self.tracks_out@.subrange(0, self.tracks_out@.len() as int) =~= self.tracks_out@);
        }
        r
    }

    /// The engine added a media line for the mirror at `index` and assigned
    /// it a local media-line id: the mirror is now negotiating under that id.
    pub fn record_negotiating(&mut self, index: usize, mid: Vec<u8>)
        requires
            old(self).channel_open,
            !old(self).pending_offer,
            index < old(self).tracks_out@.len(),
            old(self).tracks_out@[index as int].state is ToOpen,
        ensures
            final(self).tracks_out@ == old(self).tracks_out@.update(
                index as int,
                TrackOut {
                    track_in: old(self).tracks_out@[index as int].track_in,
                    state: TrackOutState::Negotiating(mid),
                },
            ),
            *final(self) == (Client { tracks_out: final(self).tracks_out, ..*old(self) }),
    {
        let handle = self.tracks_out[index].track_in;
        self.tracks_out.set(index, TrackOut { track_in: handle, state: TrackOutState::Negotiating(mid) });
    }

    /// The offer for the current round went out over the control channel:
    /// exactly one round is now pending.
    pub fn offer_sent(&mut self)
        requires
            old(self).channel_open,
            !old(self).pending_offer,
        ensures
            *final(self) == (Client { pending_offer: true, ..*old(self) }),
    {
        self.pending_offer = true;
    }

    /// A valid answer for the pending offer arrived: the round is consumed
    /// and every negotiating mirror opens under its id.
    pub fn handle_answer(&mut self)
        ensures
            !final(self).pending_offer,
            final(self).tracks_out@.len() == old(self).tracks_out@.len(),
            forall|j: int|
                0 <= j < old(self).tracks_out@.len() ==> final(self).tracks_out@[j]
                    == (match old(self).tracks_out@[j].state {
                    TrackOutState::Negotiating(m) => TrackOut {
                        track_in: old(self).tracks_out@[j].track_in,
                        state: TrackOutState::Open(m),
                    },
                    _ => old(self).tracks_out@[j],
                }),
            *final(self) == (Client {
                pending_offer: false,
                tracks_out: final(self).tracks_out,
                ..*old(self)
            }),
    {
        self.pending_offer = false;
        let mut j: usize = 0;
        while j < self.tracks_out.len()
            invariant
                j <= self.tracks_out@.len(),
                self.tracks_out@.len() == old(self).tracks_out@.len(),
                forall|k: int|
                    0 <= k < j ==> self.tracks_out@[k] == (match old(self).tracks_out@[k].state {
                        TrackOutState::Negotiating(m) => TrackOut {
                            track_in: old(self).tracks_out@[k].track_in,
                            state: TrackOutState::Open(m),
                        },
                        _ => old(self).tracks_out@[k],
                    }),
                forall|k: int|
                    j <= k < self.tracks_out@.len() ==> self.tracks_out@[k] == old(
                        self,
                    ).tracks_out@[k],
                self.id == old(self).id,
                self.alive == old(self).alive,
                self.channel_open == old(self).channel_open,
                self.pending_offer == false,
                self.tracks_in == old(self).tracks_in,
                self.chosen_layer == old(self).chosen_layer,
            decreases self.tracks_out@.len() - j,
        {
            let ghost before = self.tracks_out@;
            let t = self.tracks_out.remove(j);
            let t2 = match t.state {
                TrackOutState::Negotiating(m) => TrackOut {
                    track_in: t.track_in,
                    state: TrackOutState::Open(m),
                },
                other => TrackOut { track_in: t.track_in, state: other },
            };
            self.tracks_out.insert(j, t2);
            proof {
                assert(self.tracks_out@ =~= before.update(j as int, t2));
            }
            j = j + 1;
        }
    }

    /// The peer itself sent an offer while ours was still pending (crossed
    /// negotiation): our offer is invalidated, every negotiating mirror
    /// reverts to `ToOpen` (dropping its id) and the round is retried on a
    /// later tick. No mirror is ever left in `Negotiating`.
    pub fn handle_offer(&mut self)
        ensures
            !final(self).pending_offer,
            final(self).tracks_out@.len() == old(self).tracks_out@.len(),
            forall|j: int|
                0 <= j < old(self).tracks_out@.len() ==> final(self).tracks_out@[j]
                    == (match old(self).tracks_out@[j].state {
                    TrackOutState::Negotiating(m) => TrackOut {
                        track_in: old(self).tracks_out@[j].track_in,
                        state: TrackOutState::ToOpen,
                    },
                    _ => old(self).tracks_out@[j],
                }),
            forall|j: int|
                0 <= j < final(self).tracks_out@.len() ==> !(final(self).tracks_out@[j].state
                    is Negotiating),
            *final(self) == (Client {
                pending_offer: false,
                tracks_out: final(self).tracks_out,
                ..*old(self)
            }),
    {
        self.pending_offer = false;
        let mut j: usize = 0;
        while j < self.tracks_out.len()
            invariant
                j <= self.tracks_out@.len(),
                self.tracks_out@.len() == old(self).tracks_out@.len(),
                forall|k: int|
                    0 <= k < j ==> self.tracks_out@[k] == (match old(self).tracks_out@[k].state {
                        TrackOutState::Negotiating(m) => TrackOut {
                            track_in: old(self).tracks_out@[k].track_in,
                            state: TrackOutState::ToOpen,
                        },
                        _ => old(self).tracks_out@[k],
                    }),
                forall|k: int|
                    j <= k < self.tracks_out@.len() ==> self.tracks_out@[k] == old(
                        self,
                    ).tracks_out@[k],
                self.id == old(self).id,
                self.alive == old(self).alive,
                self.channel_open == old(self).channel_open,
                self.pending_offer == false,
                self.tracks_in == old(self).tracks_in,
                self.chosen_layer == old(self).chosen_layer,
            decreases self.tracks_out@.len() - j,
        {
            let handle = self.tracks_out[j].track_in;
            let negotiating = match &self.tracks_out[j].state {
                TrackOutState::Negotiating(_) => true,
                _ => false,
            };
            if negotiating {
                self.tracks_out.set(j, TrackOut { track_in: handle, state: TrackOutState::ToOpen });
            }
            j = j + 1;
        }
        proof {
            assert forall|j: int| 0 <= j < self.tracks_out@.len() implies !(self.tracks_out@[j].state
                is Negotiating) by {
            }
        }
    }

    /// Media arrived from this session's peer on one of its own tracks. If
    /// the data is non-contiguous (decode state lost), a keyframe request to
    /// the peer is due — but at most one per interval per track. Returns
    /// whether the host should issue one now.
    pub fn on_media_data(&mut self, arena: &TrackArena, mid: &Vec<u8>, contiguous: bool, now: u64)
        -> (request: bool)
        requires
            arena.wf(),
        ensures
            request == (!contiguous && (match first_in_match(
                *arena,
                old(self).id,
                old(self).tracks_in@,
                mid@,
            ) {
                Some(j) => keyframe_request_allowed(old(self).tracks_in@[j], now),
                None => false,
            })),
            !request ==> *final(self) == *old(self),
            request ==> ({
                let j = first_in_match(*arena, old(self).id, old(self).tracks_in@, mid@)->Some_0;
                final(self).tracks_in@ == old(self).tracks_in@.update(
                    j,
                    TrackInEntry {
                        handle: old(self).tracks_in@[j].handle,
                        last_keyframe_request: Some(now),
                    },
                )
            }),
            *final(self) == (Client { tracks_in: final(self).tracks_in, ..*old(self) }),
    {
        if contiguous {
            return false;
        }
        proof {
            assert(self.tracks_in@.subrange(0, self.tracks_in@.len() as int) =~= self.tracks_in@);
        }
        let mut j: usize = 0;
        while j < self.tracks_in.len()
            invariant
                !contiguous,
                arena.wf(),
                j <= self.tracks_in@.len(),
                *self == *old(self),
                first_in_match(*arena, old(self).id, old(self).tracks_in@, mid@) == (
                match first_in_match(
                    *arena,
                    old(self).id,
                    old(self).tracks_in@.subrange(j as int, old(self).tracks_in@.len() as int),
                    mid@,
                ) {
                    None => None::<int>,
                    Some(k) => Some(k + j),
                }),
            decreases self.tracks_in@.len() - j,
        {
            let ghost len = old(self).tracks_in@.len() as int;
            let ghost rest = old(self).tracks_in@.subrange(j as int, len);
            proof {
                assert(rest[0] == old(self).tracks_in@[j as int]);
                assert(rest.drop_first() =~= old(self).tracks_in@.subrange(j + 1 as int, len));
            }
            let e = &self.tracks_in[j];
            let matched = match arena.upgrade(e.handle) {
                Some(track) => track.origin == self.id && mid_eq(&track.mid, mid),
                None => false,
            };
            if matched {
                let handle = e.handle;
                let allowed = match e.last_keyframe_request {
                    None => true,
                    Some(t) => now >= t && now - t >= crate::tracks::KEYFRAME_MIN_INTERVAL_MS,
                };
                if allowed {
                    self.tracks_in.set(
                        j,
                        TrackInEntry { handle, last_keyframe_request: Some(now) },
                    );
                    return true;
                }
                return false;
            }
            j = j + 1;
        }
        proof {
            let ghost n = old(self).tracks_in@.len() as int;
            assert(old(self).tracks_in@.subrange(n, n) =~= Seq::<TrackInEntry>::empty());
        }
        false
    }

    /// Finds the remote track behind one of this session's own outgoing
    /// media lines: the originating session and the track's media-line id
    /// there. This is how a keyframe request from this session's peer is
    /// traced back to its source.
    pub fn reverse_resolve(&self, arena: &TrackArena, local: &Vec<u8>) -> (r: Option<
        (ClientId, Vec<u8>),
    >)
        requires
            arena.wf(),
        ensures
            match r {
                None => spec_reverse(*arena, self.tracks_out@, local@) is None,
                Some(p) => spec_reverse(*arena, self.tracks_out@, local@) == Some((p.0, p.1@)),
            },
    {
        proof {
            assert(self.tracks_out@.subrange(0, self.tracks_out@.len() as int)
                =~= self.tracks_out@);
        }
        let mut j: usize = 0;
        while j < self.tracks_out.len()
            invariant
                arena.wf(),
                j <= self.tracks_out@.len(),
                spec_reverse(*arena, self.tracks_out@, local@) == spec_reverse(
                    *arena,
                    self.tracks_out@.subrange(j as int, self.tracks_out@.len() as int),
                    local@,
                ),
            decreases self.tracks_out@.len() - j,
        {
            let ghost len = self.tracks_out@.len() as int;
            let ghost rest = self.tracks_out@.subrange(j as int, len);
            proof {
                assert(rest[0] == self.tracks_out@[j as int]);
                assert(rest.drop_first() =~= self.tracks_out@.subrange(j + 1 as int, len));
            }
            let t = &self.tracks_out[j];
            let carries = match t.mid() {
                Some(m) => mid_eq(m, local),
                None => false,
            };
            if carries {
                match arena.upgrade(t.track_in) {
                    Some(track) => {
                        return Some((track.origin, clone_bytes(&track.mid)));
                    },
                    None => {
                        proof {
                            assert(!out_carries(*arena, self.tracks_out@[j as int], local@));
                        }
                    },
                }
            }
            j = j + 1;
        }
        None
    }

    /// A relayed keyframe request reached this session, asking for a
    /// keyframe on one of its own tracks. Returns whether the session has a
    /// matching incoming track to honor it on; with no match the request is
    /// a no-op, and the session's state never changes either way.
    pub fn handle_keyframe_requested(&self, arena: &TrackArena, origin_mid: &Vec<u8>) -> (r: bool)
        requires
            arena.wf(),
        ensures
            r == has_in_track(*arena, *self, origin_mid@),
    {
        let mut j: usize = 0;
        while j < self.tracks_in.len()
            invariant
                arena.wf(),
                j <= self.tracks_in@.len(),
                forall|k: int|
                    0 <= k < j ==> !in_matches(*arena, self.id, #[trigger] self.tracks_in@[k], origin_mid@),
            decreases self.tracks_in@.len() - j,
        {
            let e = &self.tracks_in[j];
            match arena.upgrade(e.handle) {
                Some(track) => {
                    if track.origin == self.id && mid_eq(&track.mid, origin_mid) {
                        return true;
                    }
                },
                None => {},
            }
            j = j + 1;
        }
        false
    }

    /// Interprets one unit of engine output for this session: mutates the
    /// registry and negotiation state as the event demands, and returns the
    /// event to propagate to the other sessions together with what the host
    /// must do on this session's own engine.
    pub fn handle_event(&mut self, arena: &mut TrackArena, ev: EngineEvent, now: u64) -> (r: (
        Propagated,
        LocalStep,
    ))
        requires
            old(arena).wf(),
        ensures
            final(arena).wf(),
            match ev {
                EngineEvent::IceDisconnected => {
                    &&& *final(self) == (Client { alive: false, ..*old(self) })
                    &&& *final(arena) == *old(arena)
                    &&& r.0 is Noop
                    &&& r.1 is Disconnect
                },
                EngineEvent::ChannelOpen => {
                    &&& *final(self) == (Client { channel_open: true, ..*old(self) })
                    &&& *final(arena) == *old(arena)
                    &&& r.0 is Noop
                    &&& r.1 is Idle
                },
                EngineEvent::MediaAdded { mid, kind } => {
                    &&& final(arena).spec_len() == old(arena).spec_len() + 1
                    &&& final(arena).is_live(old(arena).spec_len() as int)
                    &&& final(arena).track_at(old(arena).spec_len() as int) == (TrackIn {
                        origin: old(self).id,
                        mid,
                        kind,
                    })
                    &&& forall|j: int|
                        0 <= j < old(arena).spec_len() ==> final(arena).is_live(j) == old(
                            arena,
                        ).is_live(j) && final(arena).track_at(j) == old(arena).track_at(j)
                    &&& final(self).tracks_in@ == old(self).tracks_in@.push(
                        TrackInEntry {
                            handle: old(arena).spec_len() as usize,
                            last_keyframe_request: None,
                        },
                    )
                    &&& *final(self) == (Client { tracks_in: final(self).tracks_in, ..*old(self) })
                    &&& r.0 == Propagated::TrackOpen(old(self).id, old(arena).spec_len() as usize)
                    &&& r.1 is Idle
                },
                EngineEvent::MediaData { mid, rid, contiguous, token } => {
                    &&& *final(arena) == *old(arena)
                    &&& *final(self) == (Client { tracks_in: final(self).tracks_in, ..*old(self) })
                    &&& (r.0 matches Propagated::MediaData(c, meta) && c == old(self).id
                        && meta.mid@ == mid@ && crate::propagated::view_opt(meta.rid)
                        == crate::propagated::view_opt(rid) && meta.token == token)
                    &&& (match r.1 {
                        LocalStep::RequestKeyframe { mid: m } => m@ == mid@ && !contiguous && (
                        match first_in_match(*old(arena), old(self).id, old(self).tracks_in@, mid@) {
                            Some(j) => keyframe_request_allowed(old(self).tracks_in@[j], now)
                                && final(self).tracks_in@ == old(self).tracks_in@.update(
                                j,
                                TrackInEntry {
                                    handle: old(self).tracks_in@[j].handle,
                                    last_keyframe_request: Some(now),
                                },
                            ),
                            None => false,
                        }),
                        LocalStep::Idle => final(self).tracks_in@ == old(self).tracks_in@,
                        _ => false,
                    })
                },
                EngineEvent::KeyframeRequest { kind, mid } => {
                    &&& *final(arena) == *old(arena)
                    &&& *final(self) == *old(self)
                    &&& (match spec_reverse(*old(arena), old(self).tracks_out@, mid@) {
                        None => r.0 is Noop,
                        Some(src) => r.0 matches Propagated::KeyframeRequest(c, k, o, m) && c
                            == old(self).id && k == kind && o == src.0 && m@ == src.1,
                    })
                    &&& r.1 is Idle
                },
                EngineEvent::OfferReceived => {
                    &&& *final(arena) == *old(arena)
                    &&& !final(self).pending_offer
                    &&& final(self).tracks_out@.len() == old(self).tracks_out@.len()
                    &&& forall|j: int|
                        0 <= j < old(self).tracks_out@.len() ==> final(self).tracks_out@[j] == (
                        match old(self).tracks_out@[j].state {
                            TrackOutState::Negotiating(m) => TrackOut {
                                track_in: old(self).tracks_out@[j].track_in,
                                state: TrackOutState::ToOpen,
                            },
                            _ => old(self).tracks_out@[j],
                        })
                    &&& forall|j: int|
                        0 <= j < final(self).tracks_out@.len()
                            ==> !(final(self).tracks_out@[j].state is Negotiating)
                    &&& *final(self) == (Client {
                        pending_offer: false,
                        tracks_out: final(self).tracks_out,
                        ..*old(self)
                    })
                    &&& r.0 is Noop
                    &&& r.1 is Idle
                },
                EngineEvent::AnswerReceived => {
                    &&& *final(arena) == *old(arena)
                    &&& !final(self).pending_offer
                    &&& final(self).tracks_out@.len() == old(self).tracks_out@.len()
                    &&& forall|j: int|
                        0 <= j < old(self).tracks_out@.len() ==> final(self).tracks_out@[j] == (
                        match old(self).tracks_out@[j].state {
                            TrackOutState::Negotiating(m) => TrackOut {
                                track_in: old(self).tracks_out@[j].track_in,
                                state: TrackOutState::Open(m),
                            },
                            _ => old(self).tracks_out@[j],
                        })
                    &&& *final(self) == (Client {
                        pending_offer: false,
                        tracks_out: final(self).tracks_out,
                        ..*old(self)
                    })
                    &&& r.0 is Noop
                    &&& r.1 is Idle
                },
                EngineEvent::ChannelData { bytes } => {
                    &&& *final(arena) == *old(arena)
                    &&& *final(self) == *old(self)
                    &&& r.0 is Noop
                    &&& (r.1 matches LocalStep::Reply { bytes: reply } && reply@
                        == crate::util::echo_prefix() + bytes@)
                },
            },
    {
        match ev {
            EngineEvent::IceDisconnected => {
                self.disconnect();
                (Propagated::Noop, LocalStep::Disconnect)
            },
            EngineEvent::ChannelOpen => {
                self.set_channel_open();
                (Propagated::Noop, LocalStep::Idle)
            },
            EngineEvent::MediaAdded { mid, kind } => {
                let h = self.on_media_added(arena, mid, kind);
                (Propagated::TrackOpen(self.id, h), LocalStep::Idle)
            },
            EngineEvent::MediaData { mid, rid, contiguous, token } => {
                let request = self.on_media_data(arena, &mid, contiguous, now);
                let step = if request {
                    LocalStep::RequestKeyframe { mid: clone_bytes(&mid) }
                } else {
                    LocalStep::Idle
                };
                (Propagated::MediaData(self.id, MediaMeta { mid, rid, token }), step)
            },
            EngineEvent::KeyframeRequest { kind, mid } => {
                match self.reverse_resolve(arena, &mid) {
                    Some(src) => (
                        Propagated::KeyframeRequest(self.id, kind, src.0, src.1),
                        LocalStep::Idle,
                    ),
                    None => (Propagated::Noop, LocalStep::Idle),
                }
            },
            EngineEvent::OfferReceived => {
                self.handle_offer();
                (Propagated::Noop, LocalStep::Idle)
            },
            EngineEvent::AnswerReceived => {
                self.handle_answer();
                (Propagated::Noop, LocalStep::Idle)
            },
            EngineEvent::ChannelData { bytes } => {
                let reply = echo_reply(&bytes);
                (Propagated::Noop, LocalStep::Reply { bytes: reply })
            },
        }
    }
}

} // verus!
