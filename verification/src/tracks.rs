//! Media-track bookkeeping: the shared track arena, incoming-track entries
//! and outgoing-track mirrors with their negotiation state.
//!
//! A track received from a peer is owned by exactly one session. Every other
//! session references it only through its arena handle; once the owning
//! session is removed the handle no longer resolves, which is how downstream
//! forwarding stops without an explicit teardown message.

use vstd::prelude::*;

use crate::client::ClientId;

verus! {

/// Minimum spacing between two keyframe requests for the same track.
pub const KEYFRAME_MIN_INTERVAL_MS: u64 = 1_000;

/// The kind of a media track.
#[derive(Debug, Clone, Copy, PartialEq, Eq, Structural)]
pub enum MediaKind {
    Audio,
    Video,
}

/// Immutable descriptor of one track received from a peer. The media-line id
/// is kept as its raw bytes.
#[derive(Debug)]
pub struct TrackIn {
    /// The session that contributes this track.
    pub origin: ClientId,
    /// The media-line id the track has on the originating session.
    pub mid: Vec<u8>,
    /// Audio or video.
    pub kind: MediaKind,
}

/// Compares two media-line ids byte for byte.
pub fn mid_eq(a: &Vec<u8>, b: &Vec<u8>) -> (r: bool)
    ensures
        r == (a@ == b@),
{
    if a.len() != b.len() {
        return false;
    }
    let mut i: usize = 0;
    while i < a.len()
        invariant
            i <= a.len(),
            a@.len() == b@.len(),
            forall|j: int| 0 <= j < i ==> a@[j] == b@[j],
        decreases a.len() - i,
    {
        if a[i] != b[i] {
            return false;
        }
        i = i + 1;
    }
    proof {
        assert(a@ =~= b@);
    }
    true
}

/// Arena of all incoming tracks across the pool. A track's handle is its
/// index; a slot is retired (never reused) when its owning session leaves,
/// after which the handle no longer upgrades.
#[derive(Debug)]
pub struct TrackArena {
    tracks: Vec<TrackIn>,
    live: Vec<bool>,
}

impl TrackArena {
    /// Both columns of the arena always have one row per allocated handle.
    pub closed spec fn wf(self) -> bool {
        self.tracks@.len() == self.live@.len()
    }

    /// Number of handles ever allocated.
    pub closed spec fn spec_len(self) -> nat {
        self.tracks@.len()
    }

    /// Whether handle `h` is allocated and its owning session still present.
    pub closed spec fn is_live(self, h: int) -> bool {
        0 <= h < self.tracks@.len() && self.live@[h]
    }

    /// The descriptor behind handle `h`.
    pub closed spec fn track_at(self, h: int) -> TrackIn {
        self.tracks@[h]
    }

    /// An empty arena.
    pub fn new() -> (a: TrackArena)
        ensures
            a.wf(),
            a.spec_len() == 0,
    {
        TrackArena { tracks: Vec::new(), live: Vec::new() }
    }

    /// How many handles have been allocated.
    pub fn len(&self) -> (n: usize)
        requires
            self.wf(),
        ensures
            n == self.spec_len(),
    {
        self.tracks.len()
    }

    /// Allocates a handle for a new incoming track.
    pub fn register(&mut self, track: TrackIn) -> (h: usize)
        requires
            old(self).wf(),
        ensures
            final(self).wf(),
            h == old(self).spec_len(),
            final(self).spec_len() == old(self).spec_len() + 1,
            final(self).is_live(h as int),
            final(self).track_at(h as int) == track,
            forall|j: int|
                0 <= j < old(self).spec_len() ==> final(self).is_live(j) == old(self).is_live(j)
                    && final(self).track_at(j) == old(self).track_at(j),
    {
        let h = self.tracks.len();
        self.tracks.push(track);
        self.live.push(true);
        h
    }

    /// Resolves a handle to its track, failing once the owner is gone.
    pub fn upgrade(&self, h: usize) -> (r: Option<&TrackIn>)
        requires
            self.wf(),
        ensures
            match r {
                Some(t) => self.is_live(h as int) && *t == self.track_at(h as int),
                None => !self.is_live(h as int),
            },
    {
        if h < self.tracks.len() && self.live[h] {
            Some(&self.tracks[h])
        } else {
            None
        }
    }

    /// Retires every track contributed by `origin`; their handles stop
    /// resolving, all other slots are untouched.
    pub fn retire_origin(&mut self, origin: ClientId)
        requires
            old(self).wf(),
        ensures
            final(self).wf(),
            final(self).spec_len() == old(self).spec_len(),
            forall|j: int|
                0 <= j < old(self).spec_len() ==> final(self).track_at(j) == old(self).track_at(j),
            forall|j: int|
                0 <= j < old(self).spec_len() ==> final(self).is_live(j) == (old(self).is_live(j)
                    && old(self).track_at(j).origin != origin),
    {
        let mut i: usize = 0;
        while i < self.tracks.len()
            invariant
                self.wf(),
                i <= self.tracks@.len(),
                self.tracks@.len() == old(self).tracks@.len(),
                forall|j: int| 0 <= j < self.tracks@.len() ==> self.track_at(j) == old(self).track_at(j),
                forall|j: int|
                    0 <= j < i ==> self.is_live(j) == (old(self).is_live(j) && old(
                        self,
                    ).track_at(j).origin != origin),
                forall|j: int| i <= j < self.tracks@.len() ==> self.is_live(j) == old(self).is_live(j),
            decreases self.tracks@.len() - i,
        {
            if self.tracks[i].origin == origin {
                self.live.set(i, false);
            }
            i = i + 1;
        }
    }
}

/// An incoming track owned by a session, together with the rate-limiting
/// timestamp of the last keyframe request issued for it.
#[derive(Debug)]
pub struct TrackInEntry {
    /// Arena handle of the owned track.
    pub handle: usize,
    /// Instant (ms) of the last keyframe request, if any was issued.
    pub last_keyframe_request: Option<u64>,
}

/// Whether a keyframe request for this entry is allowed at `now`: never
/// requested yet, or at least the minimum interval ago.
pub open spec fn keyframe_request_allowed(e: TrackInEntry, now: u64) -> bool {
    match e.last_keyframe_request {
        None => true,
        Some(t) => now >= t && now - t >= KEYFRAME_MIN_INTERVAL_MS,
    }
}

impl TrackInEntry {
    /// A fresh entry with no keyframe request issued yet.
    pub fn new(handle: usize) -> (e: TrackInEntry)
        ensures
            e.handle == handle,
            e.last_keyframe_request is None,
    {
        TrackInEntry { handle, last_keyframe_request: None }
    }

    /// Asks to issue a keyframe request at `now`. Grants it — recording the
    /// instant — only if the per-track rate limit allows, so at most one
    /// request per interval goes out.
    pub fn try_mark_keyframe_request(&mut self, now: u64) -> (granted: bool)
        ensures
            granted == keyframe_request_allowed(*old(self), now),
            final(self).handle == old(self).handle,
            granted ==> final(self).last_keyframe_request == Some(now),
            !granted ==> *final(self) == *old(self),
    {
        let allowed = match self.last_keyframe_request {
            None => true,
            Some(t) => now >= t && now - t >= KEYFRAME_MIN_INTERVAL_MS,
        };
        if allowed {
            self.last_keyframe_request = Some(now);
        }
        allowed
    }
}

/// Negotiation state of one outgoing track mirror. The mirror only carries a
/// local media-line id once it has left `ToOpen`.
#[derive(Debug, PartialEq, Eq)]
pub enum TrackOutState {
    /// Must be added to the next local offer.
    ToOpen,
    /// Offer with this local media-line id sent, answer pending.
    Negotiating(Vec<u8>),
    /// Fully negotiated under this local media-line id.
    Open(Vec<u8>),
}

/// The local media-line id the state carries, if it has one.
pub open spec fn state_mid(s: TrackOutState) -> Option<Seq<u8>> {
    match s {
        TrackOutState::ToOpen => None,
        TrackOutState::Negotiating(m) => Some(m@),
        TrackOutState::Open(m) => Some(m@),
    }
}

/// Per-destination mirror of a remote incoming track: the handle of the
/// source track plus the mirror's negotiation state.
#[derive(Debug)]
pub struct TrackOut {
    /// Arena handle of the source track.
    pub track_in: usize,
    /// Where this mirror stands in negotiation.
    pub state: TrackOutState,
}

impl TrackOut {
    /// The local media-line id of this mirror, if negotiation has assigned
    /// one already.
    pub fn mid(&self) -> (r: Option<&Vec<u8>>)
        ensures
            match r {
                Some(m) => state_mid(self.state) == Some(m@),
                None => state_mid(self.state) is None,
            },
    {
        match &self.state {
            TrackOutState::ToOpen => None,
            TrackOutState::Negotiating(m) => Some(m),
            TrackOutState::Open(m) => Some(m),
        }
    }
}

} // verus!
