use vstd::prelude::*;

use crate::common::{InfoHash, Peer, PeerId};

verus! {

/// The peers of one swarm, keyed by peer id. Backed by a
/// `hashbrown::HashMap`, which Verus does not read; everything the core
/// knows about it comes from the contracts of the methods below, stated
/// over `peer_map_view`.
#[verifier::external_body]
pub struct PeerMap {
    inner: hashbrown::HashMap<PeerId, Peer>,
}

/// What a `PeerMap` holds: the peer record stored under each 20-byte
/// peer id.
pub uninterp spec fn peer_map_view(m: PeerMap) -> Map<Seq<u8>, Peer>;

/// The contents of a swarm no peer has announced to.
pub open spec fn no_peers() -> Map<Seq<u8>, Peer> {
    Map::empty()
}

impl View for PeerMap {
    type V = Map<Seq<u8>, Peer>;

    open spec fn view(&self) -> Map<Seq<u8>, Peer> {
        peer_map_view(*self)
    }
}

impl PeerMap {
    /// Relies on `hashbrown::HashMap::new`: the new map is empty.
    #[verifier::external_body]
    pub(crate) fn new() -> (r: PeerMap)
        ensures
            peer_map_view(r) == no_peers(),
    {
        PeerMap { inner: hashbrown::HashMap::new() }
    }

    /// Relies on `hashbrown::HashMap::len`: the number of stored entries.
    #[verifier::external_body]
    pub(crate) fn len(&self) -> (r: usize)
        requires
            peer_map_view(*self).dom().finite(),
        ensures
            r == peer_map_view(*self).dom().len(),
    {
        self.inner.len()
    }

    /// Relies on `hashbrown::HashMap::get`: the entry stored under the
    /// key, if there is one.
    #[verifier::external_body]
    pub(crate) fn get(&self, k: &PeerId) -> (r: Option<&Peer>)
        ensures
            match r {
                Some(p) => peer_map_view(*self).contains_key(k@) && *p == peer_map_view(*self)[k@],
                None => !peer_map_view(*self).contains_key(k@),
            },
    {
        self.inner.get(k)
    }

    /// Relies on `hashbrown::HashMap::insert`: stores the value under the
    /// key and returns the value that was there before, if any. The entry
    /// count of a live map is always below `usize::MAX`, since every
    /// stored entry occupies at least one byte of memory.
    #[verifier::external_body]
    pub(crate) fn insert(&mut self, k: PeerId, v: Peer) -> (r: Option<Peer>)
        ensures
            peer_map_view(*final(self)) == peer_map_view(*old(self)).insert(k@, v),
            peer_map_view(*old(self)).dom().len() < usize::MAX,
            match r {
                Some(p) => peer_map_view(*old(self)).contains_key(k@) && p == peer_map_view(
                    *old(self),
                )[k@],
                None => !peer_map_view(*old(self)).contains_key(k@),
            },
    {
        self.inner.insert(k, v)
    }

    /// Relies on `hashbrown::HashMap::remove`: takes the entry stored
    /// under the key out of the map and returns it, if there is one.
    #[verifier::external_body]
    pub(crate) fn remove(&mut self, k: &PeerId) -> (r: Option<Peer>)
        ensures
            peer_map_view(*final(self)) == peer_map_view(*old(self)).remove(k@),
            match r {
                Some(p) => peer_map_view(*old(self)).contains_key(k@) && p == peer_map_view(
                    *old(self),
                )[k@],
                None => !peer_map_view(*old(self)).contains_key(k@),
            },
    {
        self.inner.remove(k)
    }

    /// Relies on `hashbrown::HashMap::iter`: yields every entry exactly
    /// once, in no promised order.
    #[verifier::external_body]
    pub(crate) fn items(&self) -> (r: Vec<(PeerId, Peer)>)
        requires
            peer_map_view(*self).dom().finite(),
        ensures
            r@.len() == peer_map_view(*self).dom().len(),
            forall|i: int|
                0 <= i < r@.len() ==> peer_map_view(*self).contains_key(#[trigger] r@[i].0@)
                    && r@[i].1 == peer_map_view(*self)[r@[i].0@],
            forall|i: int, j: int| 0 <= i < j < r@.len() ==> r@[i].0@ != r@[j].0@,
    {
        self.inner.iter().map(|(k, v)| (*k, *v)).collect()
    }
}

/// One swarm: its peers plus incrementally maintained counters.
pub struct TorrentData {
    pub peers: PeerMap,
    pub num_seeders: usize,
    pub num_leechers: usize,
}

impl Default for TorrentData {
    fn default() -> (r: Self)
        ensures
            r.peers@ == Map::<Seq<u8>, Peer>::empty(),
            r.num_seeders == 0,
            r.num_leechers == 0,
    {
        TorrentData { peers: PeerMap::new(), num_seeders: 0, num_leechers: 0 }
    }
}

/// The whole shared state: one `TorrentData` per known torrent, keyed by
/// info hash. Backed by a `hashbrown::HashMap`, opaque to Verus in the
/// same way as `PeerMap`.
#[verifier::external_body]
pub struct TorrentMap {
    inner: hashbrown::HashMap<InfoHash, TorrentData>,
}

/// What a `TorrentMap` holds: the swarm data stored under each 20-byte
/// info hash.
pub uninterp spec fn torrent_map_view(m: TorrentMap) -> Map<Seq<u8>, TorrentData>;

/// The contents of a tracker that knows no torrent yet.
pub open spec fn no_torrents() -> Map<Seq<u8>, TorrentData> {
    Map::empty()
}

impl View for TorrentMap {
    type V = Map<Seq<u8>, TorrentData>;

    open spec fn view(&self) -> Map<Seq<u8>, TorrentData> {
        torrent_map_view(*self)
    }
}

impl TorrentMap {
    /// Relies on `hashbrown::HashMap::new`: the new map is empty.
    #[verifier::external_body]
    pub(crate) fn new() -> (r: TorrentMap)
        ensures
            torrent_map_view(r) == no_torrents(),
    {
        TorrentMap { inner: hashbrown::HashMap::new() }
    }

    /// Relies on `hashbrown::HashMap::get`: the entry stored under the
    /// key, if there is one.
    #[verifier::external_body]
    pub(crate) fn get(&self, k: &InfoHash) -> (r: Option<&TorrentData>)
        ensures
            match r {
                Some(td) => torrent_map_view(*self).contains_key(k@) && *td == torrent_map_view(
                    *self,
                )[k@],
                None => !torrent_map_view(*self).contains_key(k@),
            },
    {
        self.inner.get(k)
    }

    /// Relies on `hashbrown::HashMap::insert`: stores the value under the
    /// key and returns the value that was there before, if any.
    #[verifier::external_body]
    pub(crate) fn insert(&mut self, k: InfoHash, v: TorrentData) -> (r: Option<TorrentData>)
        ensures
            torrent_map_view(*final(self)) == torrent_map_view(*old(self)).insert(k@, v),
            match r {
                Some(td) => torrent_map_view(*old(self)).contains_key(k@) && td
                    == torrent_map_view(*old(self))[k@],
                None => !torrent_map_view(*old(self)).contains_key(k@),
            },
    {
        self.inner.insert(k, v)
    }

    /// Relies on `hashbrown::HashMap::remove`: takes the entry stored
    /// under the key out of the map and returns it, if there is one.
    #[verifier::external_body]
    pub(crate) fn remove(&mut self, k: &InfoHash) -> (r: Option<TorrentData>)
        ensures
            torrent_map_view(*final(self)) == torrent_map_view(*old(self)).remove(k@),
            match r {
                Some(td) => torrent_map_view(*old(self)).contains_key(k@) && td
                    == torrent_map_view(*old(self))[k@],
                None => !torrent_map_view(*old(self)).contains_key(k@),
            },
    {
        self.inner.remove(k)
    }
}

impl Default for TorrentMap {
    /// A tracker that knows no torrent yet.
    fn default() -> (r: Self)
        ensures
            torrent_map_view(r) == no_torrents(),
    {
        TorrentMap::new()
    }
}

impl TorrentMap {
    /// The aggregate counters of one swarm: `(num_seeders, num_leechers)`,
    /// or nothing when the tracker does not know the hash.
    pub fn torrent_stats(&self, info_hash: &InfoHash) -> (r: Option<(usize, usize)>)
        ensures
            match r {
                Some(stats) => torrent_map_view(*self).contains_key(info_hash@) && stats.0
                    == torrent_map_view(*self)[info_hash@].num_seeders && stats.1
                    == torrent_map_view(*self)[info_hash@].num_leechers,
                None => !torrent_map_view(*self).contains_key(info_hash@),
            },
    {
        match self.get(info_hash) {
            Some(torrent_data) => Some((torrent_data.num_seeders, torrent_data.num_leechers)),
            None => None,
        }
    }

    /// How many peers one swarm currently stores; zero for an unknown hash.
    pub fn peer_count(&self, info_hash: &InfoHash) -> (r: usize)
        requires
            torrent_map_view(*self).contains_key(info_hash@) ==> peer_map_view(
                torrent_map_view(*self)[info_hash@].peers,
            ).dom().finite(),
        ensures
            torrent_map_view(*self).contains_key(info_hash@) ==> r == peer_map_view(
                torrent_map_view(*self)[info_hash@].peers,
            ).dom().len(),
            !torrent_map_view(*self).contains_key(info_hash@) ==> r == 0,
    {
        match self.get(info_hash) {
            Some(torrent_data) => torrent_data.peers.len(),
            None => 0,
        }
    }

    /// The stored record of one peer of one swarm, if both exist.
    pub fn peer_record(&self, info_hash: &InfoHash, peer_id: &PeerId) -> (r: Option<Peer>)
        ensures
            match r {
                Some(p) => torrent_map_view(*self).contains_key(info_hash@) && peer_map_view(
                    torrent_map_view(*self)[info_hash@].peers,
                ).contains_key(peer_id@) && p == peer_map_view(
                    torrent_map_view(*self)[info_hash@].peers,
                )[peer_id@],
                None => !torrent_map_view(*self).contains_key(info_hash@) || !peer_map_view(
                    torrent_map_view(*self)[info_hash@].peers,
                ).contains_key(peer_id@),
            },
    {
        match self.get(info_hash) {
            Some(torrent_data) => match torrent_data.peers.get(peer_id) {
                Some(p) => Some(*p),
                None => None,
            },
            None => None,
        }
    }
}

} // verus!
