//! Events propagated between sessions, and the simulcast layer filter.
//!
//! One session produces an event while it is polled; the pool's bus then
//! fans it out to the other sessions. Media payloads themselves stay with the
//! host process, which files each frame under a token; events and actions
//! carry the token.

use vstd::prelude::*;

use crate::client::ClientId;

verus! {

/// The kind of keyframe a request asks for.
#[derive(Debug, Clone, Copy, PartialEq, Eq, Structural)]
pub enum KeyframeKind {
    /// A picture-loss indication.
    Pli,
    /// A full intra request.
    Fir,
}

/// What the bus needs to know about one media frame: where it came from,
/// which simulcast layer it carries, and the host's token for the payload.
#[derive(Debug)]
pub struct MediaMeta {
    /// The media-line id the frame arrived on, at the originating session.
    pub mid: Vec<u8>,
    /// The frame's simulcast layer tag, if it carries one.
    pub rid: Option<Vec<u8>>,
    /// The host's token for the frame payload.
    pub token: u64,
}

/// Events propagated between sessions.
pub enum Propagated {
    /// Nothing to propagate.
    Noop,
    /// A poll reached its timeout (ms instant).
    Timeout(u64),
    /// A new incoming track opened: origin session and arena handle.
    TrackOpen(ClientId, usize),
    /// Media to relay from one session to all others.
    MediaData(ClientId, MediaMeta),
    /// A keyframe request to relay: requester, kind, the session owning the
    /// track and the track's media-line id there.
    KeyframeRequest(ClientId, KeyframeKind, ClientId, Vec<u8>),
}

impl Propagated {
    /// The origin session of the event, absent for the two origin-less
    /// variants.
    pub fn client_id(&self) -> (r: Option<ClientId>)
        ensures
            r == (match *self {
                Propagated::TrackOpen(c, _) => Some(c),
                Propagated::MediaData(c, _) => Some(c),
                Propagated::KeyframeRequest(c, _, _, _) => Some(c),
                _ => None::<ClientId>,
            }),
    {
        match self {
            Propagated::TrackOpen(c, _) => Some(*c),
            Propagated::MediaData(c, _) => Some(*c),
            Propagated::KeyframeRequest(c, _, _, _) => Some(*c),
            _ => None,
        }
    }
}

/// The byte of the single simulcast layer label the relay forwards (ASCII
/// lower-case h).
pub const HIGH_LAYER_BYTE: u8 = 104;

/// The single simulcast layer label the relay forwards.
pub open spec fn high_layer() -> Seq<u8> {
    seq![HIGH_LAYER_BYTE]
}

/// A frame may be forwarded when its layer tag is absent, empty, or equal to
/// the designated high layer; every other layer is dropped.
pub open spec fn layer_allowed(rid: Option<Seq<u8>>) -> bool {
    match rid {
        None => true,
        Some(r) => r.len() == 0 || r == high_layer(),
    }
}

/// The view of an optional byte string.
pub open spec fn view_opt(o: Option<Vec<u8>>) -> Option<Seq<u8>> {
    match o {
        None => None,
        Some(v) => Some(v@),
    }
}

/// Decides the simulcast filter for a frame's layer tag.
pub fn layer_allowed_exec(rid: &Option<Vec<u8>>) -> (r: bool)
    ensures
        r == layer_allowed(view_opt(*rid)),
{
    match rid {
        None => true,
        Some(v) => {
            if v.len() == 0 {
                true
            } else if v.len() == 1 && v[0] == HIGH_LAYER_BYTE {
                proof {
                    assert(v@ =~= high_layer());
                }
                true
            } else {
                proof {
                    assert(v@.len() != high_layer().len() || v@[0] != high_layer()[0]);
                }
                false
            }
        },
    }
}

} // verus!
