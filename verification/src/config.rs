use vstd::prelude::*;

verus! {

/// The values the request-processing core consumes; how they are loaded
/// is the embedding program's business.
#[derive(Debug, Clone, Copy, PartialEq, Eq, Structural)]
pub struct Config {
    /// Most requests drained from the inbound queue in one worker iteration.
    pub max_requests_per_iter: usize,
    /// How long each follow-up pull within a batch may block, in microseconds.
    pub channel_recv_timeout_microseconds: u64,
    /// How long a peer record stays valid after an announce, in seconds.
    pub max_peer_age: u64,
    /// Most offers relayed for a single announce.
    pub max_offers: usize,
    /// Most info hashes honored in a single scrape request.
    pub max_scrape_torrents: usize,
    /// Interval, in seconds, advertised to peers in announce responses.
    pub peer_announce_interval: usize,
}

impl Default for Config {
    fn default() -> (r: Self)
        ensures
            r.max_requests_per_iter == 10000,
            r.channel_recv_timeout_microseconds == 200,
            r.max_peer_age == 1800,
            r.max_offers == 10,
            r.max_scrape_torrents == 255,
            r.peer_announce_interval == 120,
    {
        Config {
            max_requests_per_iter: 10000,
            channel_recv_timeout_microseconds: 200,
            max_peer_age: 1800,
            max_offers: 10,
            max_scrape_torrents: 255,
            peer_announce_interval: 120,
        }
    }
}

} // verus!
