use aquatic_ws::common::{AnnounceEvent, ConnectionMeta, PeerAddr, PeerStatus, ValidUntil};
use aquatic_ws::config::Config;
use aquatic_ws::handler::{handle_announce_request, handle_announce_requests};
use aquatic_ws::protocol::{
    AnnounceRequest, AnnounceRequestOffer, OfferId, OutMessage, OutPair,
};
use aquatic_ws::common::{InfoHash, PeerId};
use aquatic_ws::swarm::TorrentMap;

use rand::SeedableRng;

fn test_rng() -> rand::rngs::SmallRng {
    rand::rngs::SmallRng::seed_from_u64(7)
}

fn meta(worker: usize, ip: u128, port: u16) -> ConnectionMeta {
    ConnectionMeta {
        out_message_worker_index: worker,
        peer_addr: PeerAddr { ip, port },
    }
}

fn announce(hash: u8, peer: u8, event: AnnounceEvent, bytes_left: usize) -> AnnounceRequest {
    AnnounceRequest {
        info_hash: InfoHash([hash; 20]),
        peer_id: PeerId([peer; 20]),
        event,
        bytes_left,
        offers: None,
        answer: None,
        to_peer_id: None,
        offer_id: None,
    }
}

#[test]
fn sequence_leech_seed_stop() {
    let config = Config::default();
    let mut rng = test_rng();
    let mut torrents = TorrentMap::default();
    let mut out: Vec<OutPair> = Vec::new();
    let vu = ValidUntil::new(1000, config.max_peer_age);
    let hash = InfoHash([1u8; 20]);
    let m = meta(0, 10, 6881);

    handle_announce_request(
        &config,
        &mut rng,
        &mut torrents,
        &mut out,
        m,
        announce(1, 2, AnnounceEvent::Started, 100),
        vu,
    );
    assert_eq!(torrents.torrent_stats(&hash), Some((0, 1)));

    handle_announce_request(
        &config,
        &mut rng,
        &mut torrents,
        &mut out,
        m,
        announce(1, 2, AnnounceEvent::Empty, 0),
        vu,
    );
    assert_eq!(torrents.torrent_stats(&hash), Some((1, 0)));

    handle_announce_request(
        &config,
        &mut rng,
        &mut torrents,
        &mut out,
        m,
        announce(1, 2, AnnounceEvent::Stopped, 0),
        vu,
    );
    assert_eq!(torrents.torrent_stats(&hash), Some((0, 0)));
    assert_eq!(torrents.peer_count(&hash), 0);
    assert_eq!(out.len(), 3);
    match &out[2].1 {
        OutMessage::AnnounceResponse(r) => {
            assert_eq!(r.complete, 0);
            assert_eq!(r.incomplete, 0);
            assert_eq!(r.announce_interval, config.peer_announce_interval);
            assert_eq!(r.info_hash, hash);
        },
        other => panic!("expected an announce response, got {:?}", other),
    }
}

#[test]
fn stopped_peer_is_absent_and_counter_drops_once() {
    let config = Config::default();
    let mut rng = test_rng();
    let mut torrents = TorrentMap::default();
    let mut out: Vec<OutPair> = Vec::new();
    let vu = ValidUntil::new(1000, config.max_peer_age);
    let hash = InfoHash([1u8; 20]);

    // two seeders, one leecher
    handle_announce_request(&config, &mut rng, &mut torrents, &mut out,
        meta(0, 10, 1), announce(1, 1, AnnounceEvent::Started, 0), vu);
    handle_announce_request(&config, &mut rng, &mut torrents, &mut out,
        meta(0, 11, 1), announce(1, 2, AnnounceEvent::Started, 0), vu);
    handle_announce_request(&config, &mut rng, &mut torrents, &mut out,
        meta(0, 12, 1), announce(1, 3, AnnounceEvent::Started, 5), vu);
    assert_eq!(torrents.torrent_stats(&hash), Some((2, 1)));

    // peer 2 stops: one seeder fewer, leechers untouched, record gone
    handle_announce_request(&config, &mut rng, &mut torrents, &mut out,
        meta(0, 11, 1), announce(1, 2, AnnounceEvent::Stopped, 0), vu);
    assert_eq!(torrents.torrent_stats(&hash), Some((1, 1)));
    assert!(torrents.peer_record(&hash, &PeerId([2u8; 20])).is_none());
    assert_eq!(torrents.peer_count(&hash), 2);

    // a peer that never announced sends Stopped: counters untouched
    handle_announce_request(&config, &mut rng, &mut torrents, &mut out,
        meta(0, 50, 1), announce(1, 9, AnnounceEvent::Stopped, 0), vu);
    assert_eq!(torrents.torrent_stats(&hash), Some((1, 1)));
}

#[test]
fn mismatched_sender_address_changes_nothing() {
    let config = Config::default();
    let mut rng = test_rng();
    let mut torrents = TorrentMap::default();
    let mut out: Vec<OutPair> = Vec::new();
    let vu = ValidUntil::new(1000, config.max_peer_age);
    let hash = InfoHash([1u8; 20]);
    let honest = meta(0, 10, 6881);

    handle_announce_request(&config, &mut rng, &mut torrents, &mut out,
        honest, announce(1, 2, AnnounceEvent::Started, 100), vu);
    assert_eq!(out.len(), 1);

    // same peer id, different address: dropped without response
    let spoofer = meta(0, 99, 6881);
    handle_announce_request(&config, &mut rng, &mut torrents, &mut out,
        spoofer, announce(1, 2, AnnounceEvent::Empty, 0), vu);
    assert_eq!(torrents.torrent_stats(&hash), Some((0, 1)));
    assert_eq!(torrents.peer_count(&hash), 1);
    let record = torrents.peer_record(&hash, &PeerId([2u8; 20])).unwrap();
    assert_eq!(record.connection_meta, honest);
    assert_eq!(record.status, PeerStatus::Leeching);
    assert_eq!(out.len(), 1);
}

#[test]
fn offers_are_relayed_to_distinct_peers() {
    let config = Config::default();
    let mut rng = test_rng();
    let mut torrents = TorrentMap::default();
    let mut out: Vec<OutPair> = Vec::new();
    let vu = ValidUntil::new(1000, config.max_peer_age);

    handle_announce_request(&config, &mut rng, &mut torrents, &mut out,
        meta(0, 10, 1), announce(1, 1, AnnounceEvent::Started, 0), vu);
    handle_announce_request(&config, &mut rng, &mut torrents, &mut out,
        meta(0, 11, 1), announce(1, 2, AnnounceEvent::Started, 7), vu);
    out.clear();

    let mut request = announce(1, 3, AnnounceEvent::Started, 9);
    request.offers = Some(vec![
        AnnounceRequestOffer { offer: "sdp-a".to_string(), offer_id: OfferId([1u8; 20]) },
        AnnounceRequestOffer { offer: "sdp-b".to_string(), offer_id: OfferId([2u8; 20]) },
        AnnounceRequestOffer { offer: "sdp-c".to_string(), offer_id: OfferId([3u8; 20]) },
        AnnounceRequestOffer { offer: "sdp-d".to_string(), offer_id: OfferId([4u8; 20]) },
        AnnounceRequestOffer { offer: "sdp-e".to_string(), offer_id: OfferId([5u8; 20]) },
    ]);
    handle_announce_request(&config, &mut rng, &mut torrents, &mut out,
        meta(0, 12, 1), request, vu);

    // post-announce swarm holds 3 peers: at most min(5, 10, 3) = 3 relays
    let offers: Vec<&OutPair> = out
        .iter()
        .filter(|p| matches!(p.1, OutMessage::Offer(_)))
        .collect();
    assert_eq!(offers.len(), 3);
    // distinct targets
    for a in 0..offers.len() {
        for b in (a + 1)..offers.len() {
            assert_ne!(offers[a].0, offers[b].0);
        }
    }
    // payload carried through, in request order
    match &offers[0].1 {
        OutMessage::Offer(o) => {
            assert_eq!(o.offer, "sdp-a");
            assert_eq!(o.offer_id, OfferId([1u8; 20]));
            assert_eq!(o.peer_id, PeerId([3u8; 20]));
            assert_eq!(o.info_hash, InfoHash([1u8; 20]));
        },
        other => panic!("expected an offer, got {:?}", other),
    }
    // the announce response still comes last
    assert!(matches!(out.last().unwrap().1, OutMessage::AnnounceResponse(_)));
}

#[test]
fn offer_count_clamped_by_config() {
    let mut config = Config::default();
    config.max_offers = 1;
    let mut rng = test_rng();
    let mut torrents = TorrentMap::default();
    let mut out: Vec<OutPair> = Vec::new();
    let vu = ValidUntil::new(1000, config.max_peer_age);

    handle_announce_request(&config, &mut rng, &mut torrents, &mut out,
        meta(0, 10, 1), announce(1, 1, AnnounceEvent::Started, 0), vu);
    out.clear();

    let mut request = announce(1, 2, AnnounceEvent::Started, 9);
    request.offers = Some(vec![
        AnnounceRequestOffer { offer: "x".to_string(), offer_id: OfferId([1u8; 20]) },
        AnnounceRequestOffer { offer: "y".to_string(), offer_id: OfferId([2u8; 20]) },
    ]);
    handle_announce_request(&config, &mut rng, &mut torrents, &mut out,
        meta(0, 11, 1), request, vu);
    let relayed = out.iter().filter(|p| matches!(p.1, OutMessage::Offer(_))).count();
    assert_eq!(relayed, 1);
}

#[test]
fn answer_is_relayed_to_target_peer() {
    let config = Config::default();
    let mut rng = test_rng();
    let mut torrents = TorrentMap::default();
    let mut out: Vec<OutPair> = Vec::new();
    let vu = ValidUntil::new(1000, config.max_peer_age);
    let target_meta = meta(3, 10, 1);

    handle_announce_request(&config, &mut rng, &mut torrents, &mut out,
        target_meta, announce(1, 1, AnnounceEvent::Started, 0), vu);
    out.clear();

    let mut request = announce(1, 2, AnnounceEvent::Started, 9);
    request.answer = Some("sdp-answer".to_string());
    request.to_peer_id = Some(PeerId([1u8; 20]));
    request.offer_id = Some(OfferId([9u8; 20]));
    handle_announce_request(&config, &mut rng, &mut torrents, &mut out,
        meta(0, 11, 1), request, vu);

    assert_eq!(out.len(), 2);
    assert_eq!(out[0].0, target_meta);
    match &out[0].1 {
        OutMessage::Answer(a) => {
            assert_eq!(a.answer, "sdp-answer");
            assert_eq!(a.offer_id, OfferId([9u8; 20]));
            assert_eq!(a.peer_id, PeerId([2u8; 20]));
            assert_eq!(a.info_hash, InfoHash([1u8; 20]));
        },
        other => panic!("expected an answer relay, got {:?}", other),
    }
}

#[test]
fn answer_without_known_target_is_skipped() {
    let config = Config::default();
    let mut rng = test_rng();
    let mut torrents = TorrentMap::default();
    let mut out: Vec<OutPair> = Vec::new();
    let vu = ValidUntil::new(1000, config.max_peer_age);

    let mut request = announce(1, 2, AnnounceEvent::Started, 9);
    request.answer = Some("sdp-answer".to_string());
    request.to_peer_id = Some(PeerId([1u8; 20]));
    request.offer_id = Some(OfferId([9u8; 20]));
    handle_announce_request(&config, &mut rng, &mut torrents, &mut out,
        meta(0, 11, 1), request, vu);

    // no relay, but the response is still owed
    assert_eq!(out.len(), 1);
    assert!(matches!(out[0].1, OutMessage::AnnounceResponse(_)));
}

#[test]
fn batch_applies_in_arrival_order() {
    let config = Config::default();
    let mut rng = test_rng();
    let mut torrents = TorrentMap::default();
    let mut out: Vec<OutPair> = Vec::new();
    let vu = ValidUntil::new(1000, config.max_peer_age);
    let hash = InfoHash([1u8; 20]);

    let requests = vec![
        (meta(0, 10, 1), announce(1, 2, AnnounceEvent::Started, 100)),
        (meta(0, 10, 1), announce(1, 2, AnnounceEvent::Empty, 0)),
    ];
    handle_announce_requests(&config, &mut rng, &mut torrents, &mut out, requests, vu);
    // the later request wins: the peer ends up seeding
    assert_eq!(torrents.torrent_stats(&hash), Some((1, 0)));
    assert_eq!(out.len(), 2);
}
