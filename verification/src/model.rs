//! Ghost model of the swarm state and the announce/scrape transitions,
//! together with the laws the handlers are proved against: counter
//! consistency, the effect of a `Stopped` announce, the anti-spoofing
//! no-op, and what a scrape reports.

use vstd::prelude::*;
use vstd::assert_sets_equal;

use crate::common::{AnnounceEvent, ConnectionMeta, InfoHash, Peer, PeerStatus, ValidUntil};
use crate::config::Config;
use crate::protocol::{
    AnnounceRequest, AnnounceRequestOffer, AnnounceResponse, InMessage, MiddlemanAnswerToPeer,
    MiddlemanOfferToPeer, OutMessage, OutPair, ScrapeRequest, ScrapeStatistics,
};
use crate::swarm::{TorrentData, TorrentMap};

verus! {

/// Ghost mirror of one swarm: the peer records and the two counters.
#[verifier::ext_equal]
pub ghost struct TorrentView {
    pub peers: Map<Seq<u8>, Peer>,
    pub num_seeders: int,
    pub num_leechers: int,
}

/// What one stored `TorrentData` means.
pub open spec fn td_view(td: TorrentData) -> TorrentView {
    TorrentView {
        peers: td.peers@,
        num_seeders: td.num_seeders as int,
        num_leechers: td.num_leechers as int,
    }
}

/// The whole state, abstracted to ghost values.
pub open spec fn state_abs(m: Map<Seq<u8>, TorrentData>) -> Map<Seq<u8>, TorrentView> {
    m.map_values(|td: TorrentData| td_view(td))
}

/// The abstract state a `TorrentMap` holds.
pub open spec fn state_view(tm: TorrentMap) -> Map<Seq<u8>, TorrentView> {
    state_abs(tm@)
}

pub open spec fn min_int(a: int, b: int) -> int {
    if a <= b {
        a
    } else {
        b
    }
}

/// The ids of the peers of `peers` that currently have status `status`.
pub open spec fn peers_with_status(peers: Map<Seq<u8>, Peer>, status: PeerStatus) -> Set<Seq<u8>> {
    peers.dom().filter(|k: Seq<u8>| peers[k].status == status)
}

/// Counter consistency of one swarm: `num_seeders` is the number of
/// seeding peers, `num_leechers` the number of leeching peers, and no
/// stored record is `Stopped`.
pub open spec fn torrent_wf(t: TorrentView) -> bool {
    &&& t.peers.dom().finite()
    &&& forall|k: Seq<u8>|
        #[trigger] t.peers.dom().contains(k) ==> t.peers[k].status != PeerStatus::Stopped
    &&& t.num_seeders == peers_with_status(t.peers, PeerStatus::Seeding).len()
    &&& t.num_leechers == peers_with_status(t.peers, PeerStatus::Leeching).len()
}

/// Counter consistency of every known swarm.
pub open spec fn state_wf(s: Map<Seq<u8>, TorrentView>) -> bool {
    forall|h: Seq<u8>| #[trigger] s.dom().contains(h) ==> torrent_wf(s[h])
}

pub open spec fn empty_torrent() -> TorrentView {
    TorrentView { peers: Map::empty(), num_seeders: 0, num_leechers: 0 }
}

/// The swarm a request works on: the stored one, or a fresh empty one
/// created lazily on first announce.
pub open spec fn torrent_or_empty(s: Map<Seq<u8>, TorrentView>, h: Seq<u8>) -> TorrentView {
    if s.contains_key(h) {
        s[h]
    } else {
        empty_torrent()
    }
}

/// The status the announcing peer had before, if it had a record.
pub open spec fn prior_status(t: TorrentView, pid: Seq<u8>) -> Option<PeerStatus> {
    if t.peers.contains_key(pid) {
        Some(t.peers[pid].status)
    } else {
        None
    }
}

/// Anti-spoofing: a request is dropped entirely when a record already
/// exists under its peer id but was created from another address.
pub open spec fn announce_dropped(
    s: Map<Seq<u8>, TorrentView>,
    meta: ConnectionMeta,
    request: AnnounceRequest,
) -> bool {
    let t = torrent_or_empty(s, request.info_hash@);
    &&& t.peers.contains_key(request.peer_id@)
    &&& t.peers[request.peer_id@].connection_meta.peer_addr != meta.peer_addr
}

/// One swarm after an accepted announce: `Stopped` removes the record,
/// anything else stores a fresh one, and each counter moves by the one
/// decrement for a replaced record and the one increment for the new
/// status.
pub open spec fn torrent_updated(
    t: TorrentView,
    meta: ConnectionMeta,
    pid: Seq<u8>,
    status: PeerStatus,
    valid_until: ValidUntil,
) -> TorrentView {
    let new_peer = Peer { connection_meta: meta, status: status, valid_until: valid_until };
    let peers = if status == PeerStatus::Stopped {
        t.peers.remove(pid)
    } else {
        t.peers.insert(pid, new_peer)
    };
    let dec_s: int = if prior_status(t, pid) == Some(PeerStatus::Seeding) {
        1
    } else {
        0
    };
    let dec_l: int = if prior_status(t, pid) == Some(PeerStatus::Leeching) {
        1
    } else {
        0
    };
    let inc_s: int = if status == PeerStatus::Seeding {
        1
    } else {
        0
    };
    let inc_l: int = if status == PeerStatus::Leeching {
        1
    } else {
        0
    };
    TorrentView {
        peers: peers,
        num_seeders: t.num_seeders + inc_s - dec_s,
        num_leechers: t.num_leechers + inc_l - dec_l,
    }
}

/// `torrent_updated`, with the stored status derived from the request.
pub open spec fn torrent_after_announce(
    t: TorrentView,
    meta: ConnectionMeta,
    request: AnnounceRequest,
    valid_until: ValidUntil,
) -> TorrentView {
    torrent_updated(
        t,
        meta,
        request.peer_id@,
        PeerStatus::spec_from_event_and_bytes_left(request.event, request.bytes_left),
        valid_until,
    )
}

/// The whole state after one announce request.
pub open spec fn apply_announce(
    s: Map<Seq<u8>, TorrentView>,
    meta: ConnectionMeta,
    request: AnnounceRequest,
    valid_until: ValidUntil,
) -> Map<Seq<u8>, TorrentView> {
    if announce_dropped(s, meta, request) {
        s
    } else {
        s.insert(
            request.info_hash@,
            torrent_after_announce(
                torrent_or_empty(s, request.info_hash@),
                meta,
                request,
                valid_until,
            ),
        )
    }
}

/// The whole state after a batch of announce requests, applied in
/// arrival order.
pub open spec fn apply_announces(
    s: Map<Seq<u8>, TorrentView>,
    reqs: Seq<(ConnectionMeta, AnnounceRequest)>,
    valid_until: ValidUntil,
) -> Map<Seq<u8>, TorrentView>
    decreases reqs.len(),
{
    if reqs.len() == 0 {
        s
    } else {
        apply_announce(
            apply_announces(s, reqs.drop_last(), valid_until),
            reqs.last().0,
            reqs.last().1,
            valid_until,
        )
    }
}

/// The offers a request carries, if any.
pub open spec fn request_offers(request: AnnounceRequest) -> Seq<AnnounceRequestOffer> {
    match request.offers {
        Some(v) => v@,
        None => Seq::empty(),
    }
}

/// How many offers are relayed: bounded by the request, by the
/// configured maximum, and by how many peers the swarm has.
pub open spec fn num_offers_to_relay(t: TorrentView, request: AnnounceRequest, config: Config) -> int {
    min_int(
        min_int(request_offers(request).len() as int, config.max_offers as int),
        t.peers.dom().len() as int,
    )
}

/// The offer relay messages for the sampled target ids `ks`: the i-th
/// offer goes to the i-th sampled peer's connection, carrying the info
/// hash, the sender's peer id, the payload and the offer id.
pub open spec fn offer_relay_messages(
    t: TorrentView,
    request: AnnounceRequest,
    ks: Seq<Seq<u8>>,
) -> Seq<OutPair> {
    Seq::new(
        ks.len(),
        |i: int|
            (
                t.peers[ks[i]].connection_meta,
                OutMessage::Offer(
                    MiddlemanOfferToPeer {
                        info_hash: request.info_hash,
                        peer_id: request.peer_id,
                        offer: request_offers(request)[i].offer,
                        offer_id: request_offers(request)[i].offer_id,
                    },
                ),
            ),
    )
}

/// What a valid choice of relay targets is: distinct peers of the swarm,
/// as many as `num_offers_to_relay` allows.
pub open spec fn offer_targets_ok(
    t: TorrentView,
    ks: Seq<Seq<u8>>,
    request: AnnounceRequest,
    config: Config,
) -> bool {
    &&& ks.no_duplicates()
    &&& ks.len() == num_offers_to_relay(t, request, config)
    &&& forall|i: int| 0 <= i < ks.len() ==> t.peers.contains_key(#[trigger] ks[i])
}

/// The answer relay, produced only when the request carries all three of
/// answer, target peer id and offer id, and the target is in the swarm.
pub open spec fn answer_relay_messages(t: TorrentView, request: AnnounceRequest) -> Seq<OutPair> {
    match (request.answer, request.to_peer_id, request.offer_id) {
        (Some(answer), Some(to_peer_id), Some(offer_id)) => {
            if t.peers.contains_key(to_peer_id@) {
                seq![
                    (
                        t.peers[to_peer_id@].connection_meta,
                        OutMessage::Answer(
                            MiddlemanAnswerToPeer {
                                peer_id: request.peer_id,
                                info_hash: request.info_hash,
                                answer: answer,
                                offer_id: offer_id,
                            },
                        ),
                    ),
                ]
            } else {
                Seq::empty()
            }
        },
        _ => Seq::empty(),
    }
}

/// The response every accepted announce earns, carrying the swarm's
/// post-announce counters.
pub open spec fn announce_response_for(
    t: TorrentView,
    request: AnnounceRequest,
    config: Config,
) -> OutMessage {
    OutMessage::AnnounceResponse(
        AnnounceResponse {
            info_hash: request.info_hash,
            complete: t.num_seeders as usize,
            incomplete: t.num_leechers as usize,
            announce_interval: config.peer_announce_interval,
        },
    )
}

/// The messages one accepted announce appends, in order: offer relays to
/// some valid choice of targets, then the answer relay, then the
/// announce response to the sender. `s2` is the state after the request.
pub open spec fn announce_messages_ok(
    s2: Map<Seq<u8>, TorrentView>,
    meta: ConnectionMeta,
    request: AnnounceRequest,
    config: Config,
    msgs: Seq<OutPair>,
) -> bool {
    let t2 = s2[request.info_hash@];
    exists|ks: Seq<Seq<u8>>|
        offer_targets_ok(t2, ks, request, config) && msgs == offer_relay_messages(t2, request, ks)
            + answer_relay_messages(t2, request) + seq![(meta, announce_response_for(t2, request, config))]
}

/// The messages a whole announce batch appends: per request, in arrival
/// order, nothing for a dropped request and `announce_messages_ok` for
/// an accepted one, each judged against the state it ran on.
pub open spec fn announce_batch_messages_ok(
    s0: Map<Seq<u8>, TorrentView>,
    reqs: Seq<(ConnectionMeta, AnnounceRequest)>,
    valid_until: ValidUntil,
    config: Config,
    msgs: Seq<OutPair>,
) -> bool
    decreases reqs.len(),
{
    if reqs.len() == 0 {
        msgs.len() == 0
    } else {
        let prefix = reqs.drop_last();
        let meta = reqs.last().0;
        let request = reqs.last().1;
        let s1 = apply_announces(s0, prefix, valid_until);
        exists|k: int|
            0 <= k <= msgs.len() && announce_batch_messages_ok(
                s0,
                prefix,
                valid_until,
                config,
                msgs.take(k),
            ) && (if announce_dropped(s1, meta, request) {
                msgs.skip(k).len() == 0
            } else {
                announce_messages_ok(
                    apply_announce(s1, meta, request, valid_until),
                    meta,
                    request,
                    config,
                    msgs.skip(k),
                )
            })
    }
}

/// The announce requests of a mixed inbound batch, in arrival order.
pub open spec fn announce_part(
    msgs: Seq<(ConnectionMeta, InMessage)>,
) -> Seq<(ConnectionMeta, AnnounceRequest)>
    decreases msgs.len(),
{
    if msgs.len() == 0 {
        Seq::empty()
    } else {
        let rest = announce_part(msgs.drop_last());
        match msgs.last().1 {
            InMessage::AnnounceRequest(r) => rest.push((msgs.last().0, r)),
            InMessage::ScrapeRequest(_) => rest,
        }
    }
}

/// The scrape requests of a mixed inbound batch, in arrival order.
pub open spec fn scrape_part(
    msgs: Seq<(ConnectionMeta, InMessage)>,
) -> Seq<(ConnectionMeta, ScrapeRequest)>
    decreases msgs.len(),
{
    if msgs.len() == 0 {
        Seq::empty()
    } else {
        let rest = scrape_part(msgs.drop_last());
        match msgs.last().1 {
            InMessage::ScrapeRequest(r) => rest.push((msgs.last().0, r)),
            InMessage::AnnounceRequest(_) => rest,
        }
    }
}

/// The info hashes of a scrape request, as byte sequences.
pub open spec fn hashes_view(hashes: Seq<InfoHash>) -> Seq<Seq<u8>> {
    hashes.map_values(|h: InfoHash| h@)
}

/// What a scrape over the given hashes reports: for each listed hash
/// that the state knows, its (complete, incomplete) counters; unknown
/// hashes are omitted.
pub open spec fn scrape_files(
    s: Map<Seq<u8>, TorrentView>,
    hashes: Seq<Seq<u8>>,
) -> Map<Seq<u8>, (int, int)>
    decreases hashes.len(),
{
    if hashes.len() == 0 {
        Map::empty()
    } else {
        let rest = scrape_files(s, hashes.drop_last());
        let h = hashes.last();
        if s.contains_key(h) {
            rest.insert(h, (s[h].num_seeders, s[h].num_leechers))
        } else {
            rest
        }
    }
}

/// A scrape honors at most `max` hashes: the rest of the request is
/// silently ignored.
pub open spec fn scrape_files_clamped(
    s: Map<Seq<u8>, TorrentView>,
    hashes: Seq<Seq<u8>>,
    max: int,
) -> Map<Seq<u8>, (int, int)> {
    scrape_files(s, hashes.take(min_int(hashes.len() as int, max)))
}

/// The mapping a built scrape response carries.
pub open spec fn files_view(files: Seq<(InfoHash, ScrapeStatistics)>) -> Map<Seq<u8>, (int, int)>
    decreases files.len(),
{
    if files.len() == 0 {
        Map::empty()
    } else {
        files_view(files.drop_last()).insert(
            files.last().0@,
            (files.last().1.complete as int, files.last().1.incomplete as int),
        )
    }
}

/// What the reply to one scrape request must be: a scrape response whose
/// file mapping is exactly the clamped scrape of the state, and whose
/// `downloaded` counters are zero.
pub open spec fn scrape_message_ok(
    s: Map<Seq<u8>, TorrentView>,
    request: ScrapeRequest,
    config: Config,
    msg: OutPair,
) -> bool {
    msg.1 matches OutMessage::ScrapeResponse(resp) && files_view(resp.files@)
        == scrape_files_clamped(
        s,
        hashes_view(request.info_hashes@),
        config.max_scrape_torrents as int,
    ) && (forall|i: int|
        0 <= i < resp.files@.len() ==> (#[trigger] resp.files@[i]).1.downloaded == 0)
}

/// A status set is a finite part of the peer set, never larger.
pub proof fn lemma_status_set_bounded(peers: Map<Seq<u8>, Peer>, st: PeerStatus)
    requires
        peers.dom().finite(),
    ensures
        peers_with_status(peers, st).finite(),
        peers_with_status(peers, st).len() <= peers.dom().len(),
{
    assert(peers_with_status(peers, st).subset_of(peers.dom()));
    vstd::set_lib::lemma_len_subset(peers_with_status(peers, st), peers.dom());
}

/// How a status set changes when one peer record is stored.
pub proof fn lemma_peers_with_status_insert(
    peers: Map<Seq<u8>, Peer>,
    k: Seq<u8>,
    p: Peer,
    st: PeerStatus,
)
    ensures
        peers_with_status(peers.insert(k, p), st) == if p.status == st {
            peers_with_status(peers, st).insert(k)
        } else {
            peers_with_status(peers, st).remove(k)
        },
{
    if p.status == st {
        assert_sets_equal!(
            peers_with_status(peers.insert(k, p), st)
                == peers_with_status(peers, st).insert(k)
        );
    } else {
        assert_sets_equal!(
            peers_with_status(peers.insert(k, p), st)
                == peers_with_status(peers, st).remove(k)
        );
    }
}

/// How a status set changes when one peer record is removed.
pub proof fn lemma_peers_with_status_remove(peers: Map<Seq<u8>, Peer>, k: Seq<u8>, st: PeerStatus)
    ensures
        peers_with_status(peers.remove(k), st) == peers_with_status(peers, st).remove(k),
{
    assert_sets_equal!(
        peers_with_status(peers.remove(k), st) == peers_with_status(peers, st).remove(k)
    );
}

/// A swarm no one has announced to yet is consistent.
pub proof fn lemma_empty_torrent_wf()
    ensures
        torrent_wf(empty_torrent()),
{
    assert(peers_with_status(Map::<Seq<u8>, Peer>::empty(), PeerStatus::Seeding)
        =~= Set::<Seq<u8>>::empty());
    assert(peers_with_status(Map::<Seq<u8>, Peer>::empty(), PeerStatus::Leeching)
        =~= Set::<Seq<u8>>::empty());
}

/// Counter consistency survives storing or removing one peer record:
/// each counter still counts exactly the peers of its status.
pub proof fn lemma_torrent_updated_wf(
    t: TorrentView,
    meta: ConnectionMeta,
    pid: Seq<u8>,
    st: PeerStatus,
    valid_until: ValidUntil,
)
    requires
        torrent_wf(t),
    ensures
        torrent_wf(torrent_updated(t, meta, pid, st, valid_until)),
{
    let new_peer = Peer { connection_meta: meta, status: st, valid_until: valid_until };
    let seeders = peers_with_status(t.peers, PeerStatus::Seeding);
    let leechers = peers_with_status(t.peers, PeerStatus::Leeching);
    lemma_status_set_bounded(t.peers, PeerStatus::Seeding);
    lemma_status_set_bounded(t.peers, PeerStatus::Leeching);
    assert(seeders.contains(pid) <==> (t.peers.contains_key(pid) && t.peers[pid].status
        == PeerStatus::Seeding));
    assert(leechers.contains(pid) <==> (t.peers.contains_key(pid) && t.peers[pid].status
        == PeerStatus::Leeching));
    if st == PeerStatus::Stopped {
        lemma_peers_with_status_remove(t.peers, pid, PeerStatus::Seeding);
        lemma_peers_with_status_remove(t.peers, pid, PeerStatus::Leeching);
    } else {
        lemma_peers_with_status_insert(t.peers, pid, new_peer, PeerStatus::Seeding);
        lemma_peers_with_status_insert(t.peers, pid, new_peer, PeerStatus::Leeching);
    }
}

/// Counter consistency survives any single announce on one swarm.
pub proof fn lemma_torrent_after_announce_wf(
    t: TorrentView,
    meta: ConnectionMeta,
    request: AnnounceRequest,
    valid_until: ValidUntil,
)
    requires
        torrent_wf(t),
    ensures
        torrent_wf(torrent_after_announce(t, meta, request, valid_until)),
{
    lemma_torrent_updated_wf(
        t,
        meta,
        request.peer_id@,
        PeerStatus::spec_from_event_and_bytes_left(request.event, request.bytes_left),
        valid_until,
    );
}

/// Counter consistency survives any single announce on the whole state.
pub proof fn lemma_announce_preserves_wf(
    s: Map<Seq<u8>, TorrentView>,
    meta: ConnectionMeta,
    request: AnnounceRequest,
    valid_until: ValidUntil,
)
    requires
        state_wf(s),
    ensures
        state_wf(apply_announce(s, meta, request, valid_until)),
{
    if !announce_dropped(s, meta, request) {
        let h = request.info_hash@;
        let t0 = torrent_or_empty(s, h);
        if s.contains_key(h) {
            assert(s.dom().contains(h));
        } else {
            lemma_empty_torrent_wf();
        }
        lemma_torrent_after_announce_wf(t0, meta, request, valid_until);
        let s2 = apply_announce(s, meta, request, valid_until);
        assert forall|h2: Seq<u8>| #[trigger] s2.dom().contains(h2) implies torrent_wf(s2[h2]) by {
            if h2 != h {
                assert(s.dom().contains(h2));
            }
        }
    }
}

/// Counter consistency survives a whole batch of announces.
pub proof fn lemma_announces_preserve_wf(
    s: Map<Seq<u8>, TorrentView>,
    reqs: Seq<(ConnectionMeta, AnnounceRequest)>,
    valid_until: ValidUntil,
)
    requires
        state_wf(s),
    ensures
        state_wf(apply_announces(s, reqs, valid_until)),
    decreases reqs.len(),
{
    if reqs.len() > 0 {
        lemma_announces_preserve_wf(s, reqs.drop_last(), valid_until);
        lemma_announce_preserves_wf(
            apply_announces(s, reqs.drop_last(), valid_until),
            reqs.last().0,
            reqs.last().1,
            valid_until,
        );
    }
}

/// After an accepted `Stopped` announce the peer is absent from its
/// swarm, and the counter matching its prior status has gone down by
/// exactly one — by nothing if it had no record.
pub proof fn lemma_stopped_peer_absent(
    s: Map<Seq<u8>, TorrentView>,
    meta: ConnectionMeta,
    request: AnnounceRequest,
    valid_until: ValidUntil,
)
    requires
        state_wf(s),
        request.event == AnnounceEvent::Stopped,
        !announce_dropped(s, meta, request),
    ensures
        ({
            let t = torrent_or_empty(s, request.info_hash@);
            let s2 = apply_announce(s, meta, request, valid_until);
            let t2 = s2[request.info_hash@];
            &&& s2.contains_key(request.info_hash@)
            &&& !t2.peers.contains_key(request.peer_id@)
            &&& t2.num_seeders == t.num_seeders - (if prior_status(t, request.peer_id@)
                == Some(PeerStatus::Seeding) {
                1int
            } else {
                0int
            })
            &&& t2.num_leechers == t.num_leechers - (if prior_status(t, request.peer_id@)
                == Some(PeerStatus::Leeching) {
                1int
            } else {
                0int
            })
        }),
{
    assert(PeerStatus::spec_from_event_and_bytes_left(request.event, request.bytes_left)
        == PeerStatus::Stopped);
}

/// An announce whose sender address does not match the stored record
/// leaves the whole state exactly as it was.
pub proof fn lemma_mismatched_announce_is_noop(
    s: Map<Seq<u8>, TorrentView>,
    meta: ConnectionMeta,
    request: AnnounceRequest,
    valid_until: ValidUntil,
)
    requires
        announce_dropped(s, meta, request),
    ensures
        apply_announce(s, meta, request, valid_until) == s,
{
}

/// What `scrape_files` contains: exactly the listed hashes the state
/// knows, each mapped to its swarm's counters.
pub proof fn lemma_scrape_files_characterized(s: Map<Seq<u8>, TorrentView>, hashes: Seq<Seq<u8>>)
    ensures
        forall|h: Seq<u8>| #[trigger]
            scrape_files(s, hashes).contains_key(h) <==> (s.contains_key(h) && hashes.contains(h)),
        forall|h: Seq<u8>| #[trigger]
            scrape_files(s, hashes).contains_key(h) ==> scrape_files(s, hashes)[h] == (
            s[h].num_seeders,
            s[h].num_leechers,
        ),
    decreases hashes.len(),
{
    if hashes.len() == 0 {
        assert(forall|h: Seq<u8>| !hashes.contains(h));
    } else {
        lemma_scrape_files_characterized(s, hashes.drop_last());
        let rest = scrape_files(s, hashes.drop_last());
        let full = scrape_files(s, hashes);
        let last = hashes.last();
        assert(hashes[hashes.len() - 1] == last);
        assert(hashes.contains(last));
        assert forall|h: Seq<u8>| #[trigger] full.contains_key(h) implies (s.contains_key(h)
            && hashes.contains(h)) by {
            if h == last {
            } else {
                assert(rest.contains_key(h));
                let i = choose|i: int|
                    0 <= i < hashes.drop_last().len() && hashes.drop_last()[i] == h;
                assert(hashes[i] == h);
            }
        }
        assert forall|h: Seq<u8>| s.contains_key(h) && hashes.contains(h) implies #[trigger]
            full.contains_key(h) by {
            let i = choose|i: int| 0 <= i < hashes.len() && hashes[i] == h;
            if i < hashes.len() - 1 {
                assert(hashes.drop_last()[i] == h);
                assert(hashes.drop_last().contains(h));
                assert(rest.contains_key(h));
            }
        }
        assert forall|h: Seq<u8>| #[trigger] full.contains_key(h) implies full[h] == (
        s[h].num_seeders,
        s[h].num_leechers,
        ) by {
            if h != last {
                assert(rest.contains_key(h));
            }
        }
    }
}

/// An empty scrape reports an empty mapping, never all swarms.
pub proof fn lemma_scrape_empty_is_empty(s: Map<Seq<u8>, TorrentView>, max: int)
    requires
        0 <= max,
    ensures
        scrape_files_clamped(s, Seq::empty(), max) == Map::<Seq<u8>, (int, int)>::empty(),
{
    assert(Seq::<Seq<u8>>::empty().take(0) =~= Seq::<Seq<u8>>::empty());
}

/// A scrape reports statistics only for hashes among the first `max`
/// listed, and for every one of those the state knows.
pub proof fn lemma_scrape_honors_only_first_max(
    s: Map<Seq<u8>, TorrentView>,
    hashes: Seq<Seq<u8>>,
    max: int,
)
    requires
        0 <= max,
    ensures
        ({
            let files = scrape_files_clamped(s, hashes, max);
            let n = min_int(hashes.len() as int, max);
            &&& forall|h: Seq<u8>| #[trigger]
                files.contains_key(h) ==> s.contains_key(h) && exists|i: int|
                    0 <= i < n && hashes[i] == h
            &&& forall|i: int|
                0 <= i < n && s.contains_key(#[trigger] hashes[i]) ==> files.contains_key(
                    hashes[i],
                ) && files[hashes[i]] == (s[hashes[i]].num_seeders, s[hashes[i]].num_leechers)
        }),
{
    let n = min_int(hashes.len() as int, max);
    let taken = hashes.take(n);
    lemma_scrape_files_characterized(s, taken);
    let files = scrape_files_clamped(s, hashes, max);
    assert forall|h: Seq<u8>| #[trigger] files.contains_key(h) implies s.contains_key(h)
        && exists|i: int| 0 <= i < n && hashes[i] == h by {
        let i = choose|i: int| 0 <= i < taken.len() && taken[i] == h;
        assert(hashes[i] == h);
    }
    assert forall|i: int| 0 <= i < n && s.contains_key(#[trigger] hashes[i]) implies
        files.contains_key(hashes[i]) && files[hashes[i]] == (
        s[hashes[i]].num_seeders,
        s[hashes[i]].num_leechers,
    ) by {
        assert(taken[i] == hashes[i]);
        assert(taken.contains(hashes[i]));
    }
}

/// Abstracting the state commutes with storing one swarm.
pub proof fn lemma_state_abs_insert(m: Map<Seq<u8>, TorrentData>, k: Seq<u8>, td: TorrentData)
    ensures
        state_abs(m.insert(k, td)) == state_abs(m).insert(k, td_view(td)),
{
    assert(state_abs(m.insert(k, td)) =~= state_abs(m).insert(k, td_view(td)));
}

/// Abstracting the state commutes with taking one swarm out.
pub proof fn lemma_state_abs_remove(m: Map<Seq<u8>, TorrentData>, k: Seq<u8>)
    ensures
        state_abs(m.remove(k)) == state_abs(m).remove(k),
{
    assert(state_abs(m.remove(k)) =~= state_abs(m).remove(k));
}

} // verus!
