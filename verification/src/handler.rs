//! The verified request handlers: announce processing (status
//! transition, counter bookkeeping, offer/answer relay), scrape
//! processing, bounded random peer sampling, and the batch
//! classification the request worker runs on.

use vstd::prelude::*;

use crate::common::{ConnectionMeta, InfoHash, Peer, PeerId, PeerStatus, ValidUntil};
use crate::config::Config;
use crate::model::{
    announce_part, scrape_part,
    announce_batch_messages_ok, announce_dropped, announce_messages_ok, announce_response_for,
    apply_announce, apply_announces, files_view, hashes_view, scrape_files, scrape_files_clamped,
    scrape_message_ok, empty_torrent, lemma_announce_preserves_wf, lemma_empty_torrent_wf,
    lemma_peers_with_status_insert, lemma_peers_with_status_remove, lemma_state_abs_insert,
    lemma_state_abs_remove, lemma_status_set_bounded, lemma_torrent_updated_wf, min_int,
    num_offers_to_relay, offer_relay_messages, offer_targets_ok, answer_relay_messages,
    request_offers, state_view, state_wf, td_view, torrent_after_announce, torrent_or_empty, torrent_updated,
    torrent_wf,
};
use crate::protocol::{
    AnnounceRequest, AnnounceResponse, InMessage, MiddlemanAnswerToPeer, MiddlemanOfferToPeer,
    OutMessage, OutPair, ScrapeRequest, ScrapeResponse, ScrapeStatistics,
};
use crate::swarm::{peer_map_view, PeerMap, TorrentData, TorrentMap};

verus! {

/// The external rng the worker samples with; its state is opaque here.
#[verifier::external_type_specification]
#[verifier::external_body]
pub struct ExSmallRng(rand::rngs::SmallRng);

/// Relies on `rand::Rng::gen_range` over `0..n`: a value below `n`.
/// The call panics on an empty range, which the precondition rules out;
/// nothing is promised about which value comes back.
#[verifier::external_body]
fn rand_below(rng: &mut rand::rngs::SmallRng, n: usize) -> (r: usize)
    requires
        1 <= n,
    ensures
        r < n,
{
    rand::Rng::gen_range(rng, 0..n)
}

/// Where the `j`-th sample lands in a listing of `n` entries when the
/// walk starts at `start` and wraps around.
pub open spec fn wrap_pos(start: int, n: int, j: int) -> int {
    if start + j < n {
        start + j
    } else {
        start + j - n
    }
}

/// Random subset of a swarm's peers: exactly
/// `min(max_num_peers_to_take, peer count)` entries, each a stored
/// (peer id, peer) pair, no peer twice. Which peers are picked is up to
/// the rng; the requesting peer is not excluded.
#[verifier::loop_isolation(false)]
pub fn extract_response_peers(
    rng: &mut rand::rngs::SmallRng,
    peers: &PeerMap,
    max_num_peers_to_take: usize,
) -> (r: Vec<(PeerId, Peer)>)
    requires
        peer_map_view(*peers).dom().finite(),
    ensures
        r@.len() == min_int(
            max_num_peers_to_take as int,
            peer_map_view(*peers).dom().len() as int,
        ),
        forall|i: int|
            0 <= i < r@.len() ==> peer_map_view(*peers).contains_key(#[trigger] r@[i].0@)
                && r@[i].1 == peer_map_view(*peers)[r@[i].0@],
        forall|i: int, j: int| 0 <= i < j < r@.len() ==> r@[i].0@ != r@[j].0@,
{
    let items = peers.items();
    let n = items.len();
    let k = if max_num_peers_to_take < n {
        max_num_peers_to_take
    } else {
        n
    };
    let mut result: Vec<(PeerId, Peer)> = Vec::new();
    if k == 0 {
        return result;
    }
    let start = rand_below(rng, n);
    let mut j: usize = 0;
    while j < k
        invariant
            j <= k,
            result@.len() == j,
            forall|a: int|
                0 <= a < j ==> #[trigger] result@[a] == items@[wrap_pos(
                    start as int,
                    n as int,
                    a,
                )],
        decreases k - j,
    {
        let idx = if j < n - start {
            start + j
        } else {
            j - (n - start)
        };
        assert(idx as int == wrap_pos(start as int, n as int, j as int));
        result.push(items[idx]);
        j += 1;
    }
    proof {
        assert forall|a: int, b: int| 0 <= a < b < k implies items@[wrap_pos(
            start as int,
            n as int,
            a,
        )].0@ != items@[wrap_pos(start as int, n as int, b)].0@ by {
            let pa = wrap_pos(start as int, n as int, a);
            let pb = wrap_pos(start as int, n as int, b);
            assert(pa != pb);
            if pa < pb {
                assert(items@[pa].0@ != items@[pb].0@);
            } else {
                assert(items@[pb].0@ != items@[pa].0@);
            }
        }
    }
    result
}


/// Store or remove one peer record and move the two counters exactly as
/// `torrent_updated` says: one decrement for a replaced record, one
/// increment when the new status is an active one.
fn update_torrent_data(
    torrent_data: &mut TorrentData,
    sender_meta: ConnectionMeta,
    peer_id: PeerId,
    peer_status: PeerStatus,
    valid_until: ValidUntil,
)
    requires
        torrent_wf(td_view(*old(torrent_data))),
    ensures
        td_view(*final(torrent_data)) == torrent_updated(
            td_view(*old(torrent_data)),
            sender_meta,
            peer_id@,
            peer_status,
            valid_until,
        ),
        torrent_wf(td_view(*final(torrent_data))),
{
    let ghost t0 = td_view(*torrent_data);
    let peer = Peer { connection_meta: sender_meta, status: peer_status, valid_until };

    proof {
        lemma_status_set_bounded(t0.peers, PeerStatus::Seeding);
        lemma_status_set_bounded(t0.peers, PeerStatus::Leeching);
        if peer_status == PeerStatus::Stopped {
            lemma_peers_with_status_remove(t0.peers, peer_id@, PeerStatus::Seeding);
            lemma_peers_with_status_remove(t0.peers, peer_id@, PeerStatus::Leeching);
        } else {
            lemma_peers_with_status_insert(t0.peers, peer_id@, peer, PeerStatus::Seeding);
            lemma_peers_with_status_insert(t0.peers, peer_id@, peer, PeerStatus::Leeching);
        }
        lemma_torrent_updated_wf(t0, sender_meta, peer_id@, peer_status, valid_until);
    }

    let opt_removed_peer = match peer_status {
        PeerStatus::Stopped => torrent_data.peers.remove(&peer_id),
        _ => torrent_data.peers.insert(peer_id, peer),
    };

    match peer_status {
        PeerStatus::Seeding => {
            torrent_data.num_seeders += 1;
        },
        PeerStatus::Leeching => {
            torrent_data.num_leechers += 1;
        },
        PeerStatus::Stopped => {},
    }
    match opt_removed_peer {
        Some(removed_peer) => {
            match removed_peer.status {
                PeerStatus::Seeding => {
                    torrent_data.num_seeders -= 1;
                },
                PeerStatus::Leeching => {
                    torrent_data.num_leechers -= 1;
                },
                PeerStatus::Stopped => {},
            }
        },
        None => {},
    }
}

/// One announce request, applied to the shared state exactly as
/// `apply_announce` says, and answered exactly as `announce_messages_ok`
/// says: relays for some valid random choice of targets, then the
/// answer relay, then the announce response — or nothing at all when
/// the sender's address does not match the stored record.
#[verifier::loop_isolation(false)]
#[verifier::rlimit(100)]
pub fn handle_announce_request(
    config: &Config,
    rng: &mut rand::rngs::SmallRng,
    torrents: &mut TorrentMap,
    messages_out: &mut Vec<OutPair>,
    sender_meta: ConnectionMeta,
    request: AnnounceRequest,
    valid_until: ValidUntil,
)
    requires
        state_wf(state_view(*old(torrents))),
    ensures
        state_view(*final(torrents)) == apply_announce(
            state_view(*old(torrents)),
            sender_meta,
            request,
            valid_until,
        ),
        state_wf(state_view(*final(torrents))),
        old(messages_out)@.is_prefix_of(final(messages_out)@),
        announce_dropped(state_view(*old(torrents)), sender_meta, request) ==> final(messages_out)@
            == old(messages_out)@,
        !announce_dropped(state_view(*old(torrents)), sender_meta, request)
            ==> announce_messages_ok(
            apply_announce(state_view(*old(torrents)), sender_meta, request, valid_until),
            sender_meta,
            request,
            *config,
            final(messages_out)@.skip(old(messages_out)@.len() as int),
        ),
{
    let ghost m0 = (*torrents)@;
    let ghost s0 = state_view(*torrents);
    let ghost out0 = messages_out@;
    let AnnounceRequest { info_hash, peer_id, event, bytes_left, offers, answer, to_peer_id, offer_id } =
        request;

    let mut torrent_data = match torrents.remove(&info_hash) {
        Some(td) => td,
        None => TorrentData::default(),
    };
    let ghost t0 = td_view(torrent_data);
    proof {
        if m0.contains_key(info_hash@) {
            assert(s0.contains_key(info_hash@));
            assert(s0[info_hash@] == t0);
            assert(s0.dom().contains(info_hash@));
        } else {
            assert(t0 == empty_torrent());
            lemma_empty_torrent_wf();
        }
        assert(t0 == torrent_or_empty(s0, info_hash@));
        assert(torrent_wf(t0));
    }

    // Anti-spoofing: a stored record under this peer id from another
    // address voids the whole request.
    let mut dropped = false;
    match torrent_data.peers.get(&peer_id) {
        Some(previous_peer) => {
            if !(previous_peer.connection_meta.peer_addr == sender_meta.peer_addr) {
                dropped = true;
            }
        },
        None => {},
    }
    if dropped {
        let ghost td0 = torrent_data;
        torrents.insert(info_hash, torrent_data);
        proof {
            assert(announce_dropped(s0, sender_meta, request));
            assert(m0.contains_key(info_hash@) && m0[info_hash@] == td0);
            assert((*torrents)@ =~= m0);
        }
        return;
    }
    proof {
        assert(!announce_dropped(s0, sender_meta, request));
    }

    let peer_status = PeerStatus::from_event_and_bytes_left(event, bytes_left);
    update_torrent_data(&mut torrent_data, sender_meta, peer_id, peer_status, valid_until);

    let ghost t2 = torrent_after_announce(t0, sender_meta, request, valid_until);
    proof {
        assert(td_view(torrent_data) == t2);
    }

    // Relay the carried offers to randomly sampled peers of the
    // post-announce swarm.
    let ghost mut ks: Seq<Seq<u8>> = Seq::empty();
    match offers {
        Some(offer_vec) => {
            let ghost ov0 = offer_vec@;
            assert(request_offers(request) == ov0);
            let max_num_peers_to_take = if offer_vec.len() < config.max_offers {
                offer_vec.len()
            } else {
                config.max_offers
            };
            let sampled = extract_response_peers(rng, &torrent_data.peers, max_num_peers_to_take);
            proof {
                ks = sampled@.map_values(|pr: (PeerId, Peer)| pr.0@);
                assert(ks.len() == num_offers_to_relay(t2, request, *config));
                assert(offer_targets_ok(t2, ks, request, *config)) by {
                    assert forall|a: int, b: int| 0 <= a < b < ks.len() implies ks[a] != ks[b] by {
                        assert(sampled@[a].0@ != sampled@[b].0@);
                    }
                    assert(ks.no_duplicates());
                }
            }
            let mut offers_rest = offer_vec;
            let mut j: usize = 0;
            let ghost relays = offer_relay_messages(t2, request, ks);
            proof {
                assert(offers_rest@ =~= ov0.skip(0));
                assert(messages_out@ =~= out0 + relays.take(0));
            }
            while j < sampled.len()
                invariant
                    j <= sampled@.len(),
                    sampled@.len() <= ov0.len(),
                    offers_rest@ == ov0.skip(j as int),
                    messages_out@ == out0 + relays.take(j as int),
                decreases sampled@.len() - j,
            {
                let offer = offers_rest.remove(0);
                let target = sampled[j];
                proof {
                    assert(offer == ov0[j as int]);
                    assert(offers_rest@ =~= ov0.skip(j as int + 1));
                    assert(ks[j as int] == sampled@[j as int].0@);
                    assert(target.1 == t2.peers[ks[j as int]]);
                }
                messages_out.push(
                    (
                        target.1.connection_meta,
                        OutMessage::Offer(
                            MiddlemanOfferToPeer {
                                info_hash,
                                peer_id,
                                offer: offer.offer,
                                offer_id: offer.offer_id,
                            },
                        ),
                    ),
                );
                proof {
                    assert(relays[j as int] == (
                        target.1.connection_meta,
                        OutMessage::Offer(
                            MiddlemanOfferToPeer {
                                info_hash: request.info_hash,
                                peer_id: request.peer_id,
                                offer: ov0[j as int].offer,
                                offer_id: ov0[j as int].offer_id,
                            },
                        ),
                    ));
                    assert(relays.take(j as int + 1) =~= relays.take(j as int).push(
                        relays[j as int],
                    ));
                    assert(messages_out@ =~= out0 + relays.take(j as int + 1));
                }
                j += 1;
            }
            proof {
                assert(relays.take(sampled@.len() as int) =~= relays);
                assert(messages_out@ == out0 + relays);
            }
        },
        None => {
            proof {
                assert(ks.len() == num_offers_to_relay(t2, request, *config));
                assert(offer_targets_ok(t2, ks, request, *config));
                assert(offer_relay_messages(t2, request, ks) =~= Seq::<OutPair>::empty());
                assert(messages_out@ =~= out0 + offer_relay_messages(t2, request, ks));
            }
        },
    }
    let ghost after_relays = messages_out@;

    // Relay a carried answer to its target peer, when the target is
    // still in the swarm.
    match (answer, to_peer_id, offer_id) {
        (Some(answer_payload), Some(to_id), Some(oid)) => {
            match torrent_data.peers.get(&to_id) {
                Some(to_peer) => {
                    messages_out.push(
                        (
                            to_peer.connection_meta,
                            OutMessage::Answer(
                                MiddlemanAnswerToPeer {
                                    peer_id,
                                    info_hash,
                                    answer: answer_payload,
                                    offer_id: oid,
                                },
                            ),
                        ),
                    );
                },
                None => {},
            }
        },
        _ => {},
    }
    proof {
        assert(messages_out@ =~= after_relays + answer_relay_messages(t2, request));
    }

    // The announce response, owed to every accepted announce.
    let response = AnnounceResponse {
        info_hash,
        complete: torrent_data.num_seeders,
        incomplete: torrent_data.num_leechers,
        announce_interval: config.peer_announce_interval,
    };
    messages_out.push((sender_meta, OutMessage::AnnounceResponse(response)));

    let ghost td2 = torrent_data;
    torrents.insert(info_hash, torrent_data);

    proof {
        lemma_state_abs_remove(m0, info_hash@);
        lemma_state_abs_insert(m0.remove(info_hash@), info_hash@, td2);
        let s2 = apply_announce(s0, sender_meta, request, valid_until);
        assert(state_view(*torrents) =~= s2);
        lemma_announce_preserves_wf(s0, sender_meta, request, valid_until);
        assert(s2[request.info_hash@] == t2);
        let msgs = messages_out@.skip(out0.len() as int);
        assert(msgs =~= offer_relay_messages(t2, request, ks) + answer_relay_messages(t2, request)
            + seq![(sender_meta, announce_response_for(t2, request, *config))]);
        assert(announce_messages_ok(s2, sender_meta, request, *config, msgs));
    }
}

/// A whole batch of announce requests, applied in arrival order: the
/// state ends exactly at `apply_announces`, and the appended messages
/// are per request what `announce_batch_messages_ok` demands.
#[verifier::loop_isolation(false)]
pub fn handle_announce_requests(
    config: &Config,
    rng: &mut rand::rngs::SmallRng,
    torrents: &mut TorrentMap,
    messages_out: &mut Vec<OutPair>,
    requests: Vec<(ConnectionMeta, AnnounceRequest)>,
    valid_until: ValidUntil,
)
    requires
        state_wf(state_view(*old(torrents))),
    ensures
        state_view(*final(torrents)) == apply_announces(
            state_view(*old(torrents)),
            requests@,
            valid_until,
        ),
        state_wf(state_view(*final(torrents))),
        old(messages_out)@.is_prefix_of(final(messages_out)@),
        announce_batch_messages_ok(
            state_view(*old(torrents)),
            requests@,
            valid_until,
            *config,
            final(messages_out)@.skip(old(messages_out)@.len() as int),
        ),
{
    let ghost s0 = state_view(*torrents);
    let ghost out0 = messages_out@;
    let ghost reqs0 = requests@;
    let mut remaining = requests;
    let n_total = remaining.len();
    let mut i: usize = 0;
    proof {
        assert(remaining@ =~= reqs0.skip(0));
        assert(reqs0.take(0) =~= Seq::<(ConnectionMeta, AnnounceRequest)>::empty());
        assert(messages_out@.skip(out0.len() as int) =~= Seq::<OutPair>::empty());
    }
    while remaining.len() > 0
        invariant
            reqs0.len() == n_total as int,
            i as int == reqs0.len() - remaining@.len(),
            remaining@ == reqs0.skip(i as int),
            state_view(*torrents) == apply_announces(s0, reqs0.take(i as int), valid_until),
            state_wf(state_view(*torrents)),
            out0.is_prefix_of(messages_out@),
            announce_batch_messages_ok(
                s0,
                reqs0.take(i as int),
                valid_until,
                *config,
                messages_out@.skip(out0.len() as int),
            ),
        decreases remaining@.len(),
    {
        let (meta, request) = remaining.remove(0);
        proof {
            assert(reqs0.skip(i as int)[0] == reqs0[i as int]);
            assert(remaining@ =~= reqs0.skip(i as int + 1));
        }
        let ghost s_before = state_view(*torrents);
        let ghost mid = messages_out@;
        handle_announce_request(config, rng, torrents, messages_out, meta, request, valid_until);
        proof {
            let ghost prefix = reqs0.take(i as int);
            let ghost whole = reqs0.take(i as int + 1);
            assert(whole.drop_last() =~= prefix);
            assert(whole.last() == reqs0[i as int]);
            assert(state_view(*torrents) == apply_announces(s0, whole, valid_until));
            let msgs_new = messages_out@.skip(out0.len() as int);
            let k = mid.len() - out0.len();
            assert(msgs_new.take(k) =~= mid.skip(out0.len() as int));
            assert(msgs_new.skip(k) =~= messages_out@.skip(mid.len() as int));
            assert(announce_batch_messages_ok(s0, prefix, valid_until, *config, msgs_new.take(k)));
            if announce_dropped(s_before, meta, request) {
                assert(messages_out@ == mid);
                assert(msgs_new.skip(k).len() == 0);
            } else {
                assert(announce_messages_ok(
                    apply_announce(s_before, meta, request, valid_until),
                    meta,
                    request,
                    *config,
                    msgs_new.skip(k),
                ));
            }
            assert(announce_batch_messages_ok(s0, whole, valid_until, *config, msgs_new));
            assert(out0.is_prefix_of(messages_out@));
        }
        i += 1;
    }
    proof {
        assert(reqs0.take(reqs0.len() as int) =~= reqs0);
    }
}

/// A whole batch of scrape requests: the state is untouched, and every
/// request gets, in order, exactly the response `scrape_message_ok`
/// demands — the clamped per-hash statistics of the current state.
#[verifier::loop_isolation(false)]
pub fn handle_scrape_requests(
    config: &Config,
    torrents: &mut TorrentMap,
    messages_out: &mut Vec<OutPair>,
    requests: Vec<(ConnectionMeta, ScrapeRequest)>,
)
    ensures
        *final(torrents) == *old(torrents),
        final(messages_out)@.len() == old(messages_out)@.len() + requests@.len(),
        old(messages_out)@.is_prefix_of(final(messages_out)@),
        forall|j: int|
            0 <= j < requests@.len() ==> (#[trigger] final(messages_out)@[old(
                messages_out,
            )@.len() + j]).0 == requests@[j].0 && scrape_message_ok(
                state_view(*old(torrents)),
                requests@[j].1,
                *config,
                final(messages_out)@[old(messages_out)@.len() + j],
            ),
{
    let ghost sv = state_view(*torrents);
    let ghost out0 = messages_out@;
    let ghost reqs0 = requests@;
    let mut remaining = requests;
    let n_total = remaining.len();
    let mut i: usize = 0;
    proof {
        assert(remaining@ =~= reqs0.skip(0));
    }
    while remaining.len() > 0
        invariant
            reqs0.len() == n_total as int,
            i as int == reqs0.len() - remaining@.len(),
            remaining@ == reqs0.skip(i as int),
            *torrents == *old(torrents),
            messages_out@.len() == out0.len() + i,
            out0.is_prefix_of(messages_out@),
            forall|j: int|
                0 <= j < i ==> (#[trigger] messages_out@[out0.len() + j]).0 == reqs0[j].0
                    && scrape_message_ok(sv, reqs0[j].1, *config, messages_out@[out0.len() + j]),
        decreases remaining@.len(),
    {
        let (meta, request) = remaining.remove(0);
        proof {
            assert(reqs0.skip(i as int)[0] == reqs0[i as int]);
            assert(remaining@ =~= reqs0.skip(i as int + 1));
        }
        let num_to_take = if request.info_hashes.len() < config.max_scrape_torrents {
            request.info_hashes.len()
        } else {
            config.max_scrape_torrents
        };
        let ghost hv = hashes_view(request.info_hashes@);
        let mut files: Vec<(InfoHash, ScrapeStatistics)> = Vec::new();
        let mut idx: usize = 0;
        proof {
            assert(hv.take(0) =~= Seq::<Seq<u8>>::empty());
        }
        while idx < num_to_take
            invariant
                idx <= num_to_take,
                files_view(files@) == scrape_files(sv, hv.take(idx as int)),
                forall|a: int| 0 <= a < files@.len() ==> (#[trigger] files@[a]).1.downloaded == 0,
            decreases num_to_take - idx,
        {
            let h = request.info_hashes[idx];
            proof {
                assert(hv.take(idx as int + 1).drop_last() =~= hv.take(idx as int));
                assert(hv.take(idx as int + 1).last() == hv[idx as int]);
                assert(hv[idx as int] == h@);
            }
            let ghost files_before = files@;
            match torrents.get(&h) {
                Some(torrent_data) => {
                    let stats = ScrapeStatistics {
                        complete: torrent_data.num_seeders,
                        downloaded: 0,
                        incomplete: torrent_data.num_leechers,
                    };
                    files.push((h, stats));
                    proof {
                        assert(sv.contains_key(h@));
                        assert(sv[h@] == td_view((*torrents)@[h@]));
                        assert(files@.drop_last() =~= files_before);
                        assert(files_view(files@) == scrape_files(sv, hv.take(idx as int + 1)));
                    }
                },
                None => {
                    proof {
                        assert(!sv.contains_key(h@));
                        assert(files_view(files@) == scrape_files(sv, hv.take(idx as int + 1)));
                    }
                },
            }
            idx += 1;
        }
        let response = ScrapeResponse { files };
        proof {
            assert(num_to_take as int == min_int(
                hv.len() as int,
                (*config).max_scrape_torrents as int,
            ));
            assert(files_view(response.files@) == scrape_files_clamped(
                sv,
                hv,
                (*config).max_scrape_torrents as int,
            ));
        }
        messages_out.push((meta, OutMessage::ScrapeResponse(response)));
        proof {
            assert(scrape_message_ok(
                sv,
                reqs0[i as int].1,
                *config,
                messages_out@[out0.len() + i as int],
            ));
        }
        i += 1;
    }
}

/// Classification of one mixed inbound batch into the two buffers the
/// worker processes, keeping arrival order within each kind.
#[verifier::loop_isolation(false)]
pub fn split_requests(in_messages: Vec<(ConnectionMeta, InMessage)>) -> (r: (
    Vec<(ConnectionMeta, AnnounceRequest)>,
    Vec<(ConnectionMeta, ScrapeRequest)>,
))
    ensures
        r.0@ == announce_part(in_messages@),
        r.1@ == scrape_part(in_messages@),
{
    let ghost msgs0 = in_messages@;
    let mut announce_requests: Vec<(ConnectionMeta, AnnounceRequest)> = Vec::new();
    let mut scrape_requests: Vec<(ConnectionMeta, ScrapeRequest)> = Vec::new();
    let mut remaining = in_messages;
    let n_total = remaining.len();
    let mut i: usize = 0;
    proof {
        assert(remaining@ =~= msgs0.skip(0));
        assert(msgs0.take(0) =~= Seq::<(ConnectionMeta, InMessage)>::empty());
    }
    while remaining.len() > 0
        invariant
            msgs0.len() == n_total as int,
            i as int == msgs0.len() - remaining@.len(),
            remaining@ == msgs0.skip(i as int),
            announce_requests@ == announce_part(msgs0.take(i as int)),
            scrape_requests@ == scrape_part(msgs0.take(i as int)),
        decreases remaining@.len(),
    {
        let (meta, message) = remaining.remove(0);
        proof {
            assert(msgs0.skip(i as int)[0] == msgs0[i as int]);
            assert(remaining@ =~= msgs0.skip(i as int + 1));
            assert(msgs0.take(i as int + 1).drop_last() =~= msgs0.take(i as int));
            assert(msgs0.take(i as int + 1).last() == msgs0[i as int]);
        }
        match message {
            InMessage::AnnounceRequest(r) => {
                announce_requests.push((meta, r));
            },
            InMessage::ScrapeRequest(r) => {
                scrape_requests.push((meta, r));
            },
        }
        i += 1;
    }
    proof {
        assert(msgs0.take(msgs0.len() as int) =~= msgs0);
    }
    (announce_requests, scrape_requests)
}

/// One locked worker iteration over an already drained batch: all its
/// announces first, in arrival order, then all its scrapes, so a scrape
/// in the same batch sees the post-announce counters. Appends every
/// reply to `messages_out`.
pub fn process_batch(
    config: &Config,
    rng: &mut rand::rngs::SmallRng,
    torrents: &mut TorrentMap,
    messages_out: &mut Vec<OutPair>,
    in_messages: Vec<(ConnectionMeta, InMessage)>,
    valid_until: ValidUntil,
)
    requires
        state_wf(state_view(*old(torrents))),
    ensures
        state_view(*final(torrents)) == apply_announces(
            state_view(*old(torrents)),
            announce_part(in_messages@),
            valid_until,
        ),
        state_wf(state_view(*final(torrents))),
        old(messages_out)@.is_prefix_of(final(messages_out)@),
        ({
            let appended = final(messages_out)@.skip(old(messages_out)@.len() as int);
            let scrapes = scrape_part(in_messages@);
            let s2 = apply_announces(
                state_view(*old(torrents)),
                announce_part(in_messages@),
                valid_until,
            );
            &&& appended.len() >= scrapes.len()
            &&& announce_batch_messages_ok(
                state_view(*old(torrents)),
                announce_part(in_messages@),
                valid_until,
                *config,
                appended.take(appended.len() - scrapes.len()),
            )
            &&& forall|j: int|
                0 <= j < scrapes.len() ==> (#[trigger] appended[appended.len() - scrapes.len()
                    + j]).0 == scrapes[j].0 && scrape_message_ok(
                    s2,
                    scrapes[j].1,
                    *config,
                    appended[appended.len() - scrapes.len() + j],
                )
        }),
{
    let ghost s0 = state_view(*torrents);
    let ghost out0 = messages_out@;
    let (announce_requests, scrape_requests) = split_requests(in_messages);
    let ghost scrapes = scrape_requests@;
    handle_announce_requests(config, rng, torrents, messages_out, announce_requests, valid_until);
    let ghost mid = messages_out@;
    handle_scrape_requests(config, torrents, messages_out, scrape_requests);
    proof {
        let appended = messages_out@.skip(out0.len() as int);
        assert(appended.len() >= scrapes.len());
        assert(appended.take(appended.len() - scrapes.len()) =~= mid.skip(out0.len() as int));
        assert forall|j: int| 0 <= j < scrapes.len() implies (#[trigger] appended[appended.len()
            - scrapes.len() + j]).0 == scrapes[j].0 && scrape_message_ok(
            apply_announces(s0, announce_part(in_messages@), valid_until),
            scrapes[j].1,
            *config,
            appended[appended.len() - scrapes.len() + j],
        ) by {
            assert(appended[appended.len() - scrapes.len() + j] == messages_out@[mid.len() + j]);
        }
    }
}

} // verus!
