use vstd::prelude::*;

use crate::common::{AnnounceEvent, ConnectionMeta, InfoHash, PeerId};

verus! {

/// 20-byte identifier a peer attaches to each WebRTC offer so the answer
/// can be matched back to it. Relayed opaquely.
#[derive(Debug, Clone, Copy, Hash, PartialEq, Eq)]
pub struct OfferId(pub [u8; 20]);

impl View for OfferId {
    type V = Seq<u8>;

    open spec fn view(&self) -> Seq<u8> {
        self.0@
    }
}

/// One WebRTC offer carried by an announce request: the session payload
/// and the id under which the sender tracks it.
#[derive(Debug, Clone, PartialEq, Eq)]
pub struct AnnounceRequestOffer {
    pub offer: String,
    pub offer_id: OfferId,
}

/// A peer reporting its state for one torrent, optionally asking for
/// offers to be relayed or carrying an answer to relay back.
#[derive(Debug, Clone, PartialEq, Eq)]
pub struct AnnounceRequest {
    pub info_hash: InfoHash,
    pub peer_id: PeerId,
    pub event: AnnounceEvent,
    pub bytes_left: usize,
    pub offers: Option<Vec<AnnounceRequestOffer>>,
    pub answer: Option<String>,
    pub to_peer_id: Option<PeerId>,
    pub offer_id: Option<OfferId>,
}

/// A request for aggregate statistics on the listed torrents.
#[derive(Debug, Clone, PartialEq, Eq)]
pub struct ScrapeRequest {
    pub info_hashes: Vec<InfoHash>,
}

/// Everything a transport front-end can hand the core.
#[derive(Debug, Clone, PartialEq, Eq)]
pub enum InMessage {
    AnnounceRequest(AnnounceRequest),
    ScrapeRequest(ScrapeRequest),
}

/// The reply every announce earns: current swarm counters and the interval
/// after which the peer should announce again.
#[derive(Debug, Clone, PartialEq, Eq)]
pub struct AnnounceResponse {
    pub info_hash: InfoHash,
    pub complete: usize,
    pub incomplete: usize,
    pub announce_interval: usize,
}

/// Counters reported for one torrent on scrape. Downloads are not
/// tracked, so `downloaded` is always zero.
#[derive(Debug, Clone, Copy, PartialEq, Eq, Structural)]
pub struct ScrapeStatistics {
    pub complete: usize,
    pub downloaded: usize,
    pub incomplete: usize,
}

/// The statistics found for the scraped torrents, keyed by info hash;
/// hashes unknown to the tracker are omitted.
#[derive(Debug, Clone, PartialEq, Eq)]
pub struct ScrapeResponse {
    pub files: Vec<(InfoHash, ScrapeStatistics)>,
}

/// An offer forwarded to a randomly chosen peer of the same swarm.
#[derive(Debug, Clone, PartialEq, Eq)]
pub struct MiddlemanOfferToPeer {
    pub info_hash: InfoHash,
    pub peer_id: PeerId,
    pub offer: String,
    pub offer_id: OfferId,
}

/// An answer forwarded to the peer that originally sent the offer.
#[derive(Debug, Clone, PartialEq, Eq)]
pub struct MiddlemanAnswerToPeer {
    pub peer_id: PeerId,
    pub info_hash: InfoHash,
    pub answer: String,
    pub offer_id: OfferId,
}

/// Everything the core can hand back for a transport front-end to send.
#[derive(Debug, Clone, PartialEq, Eq)]
pub enum OutMessage {
    AnnounceResponse(AnnounceResponse),
    ScrapeResponse(ScrapeResponse),
    Offer(MiddlemanOfferToPeer),
    Answer(MiddlemanAnswerToPeer),
}

/// One routed reply: which connection it is for, and what to send.
pub type OutPair = (ConnectionMeta, OutMessage);

} // verus!
