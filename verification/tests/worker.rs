use aquatic_ws::common::{AnnounceEvent, ConnectionMeta, InfoHash, PeerAddr, PeerId, ValidUntil};
use aquatic_ws::config::Config;
use aquatic_ws::handler::{process_batch, split_requests};
use aquatic_ws::protocol::{
    AnnounceRequest, InMessage, OutMessage, OutPair, ScrapeRequest,
};
use aquatic_ws::swarm::TorrentMap;

use rand::SeedableRng;

fn meta(worker: usize, ip: u128, port: u16) -> ConnectionMeta {
    ConnectionMeta {
        out_message_worker_index: worker,
        peer_addr: PeerAddr { ip, port },
    }
}

fn announce(hash: u8, peer: u8, bytes_left: usize) -> AnnounceRequest {
    AnnounceRequest {
        info_hash: InfoHash([hash; 20]),
        peer_id: PeerId([peer; 20]),
        event: AnnounceEvent::Started,
        bytes_left,
        offers: None,
        answer: None,
        to_peer_id: None,
        offer_id: None,
    }
}

#[test]
fn split_keeps_kind_and_order() {
    let batch = vec![
        (meta(0, 1, 1), InMessage::AnnounceRequest(announce(1, 1, 0))),
        (meta(0, 2, 1), InMessage::ScrapeRequest(ScrapeRequest { info_hashes: vec![] })),
        (meta(0, 3, 1), InMessage::AnnounceRequest(announce(2, 2, 5))),
    ];
    let (announces, scrapes) = split_requests(batch);
    assert_eq!(announces.len(), 2);
    assert_eq!(scrapes.len(), 1);
    assert_eq!(announces[0].1.peer_id, PeerId([1u8; 20]));
    assert_eq!(announces[1].1.peer_id, PeerId([2u8; 20]));
    assert_eq!(scrapes[0].0, meta(0, 2, 1));
}

#[test]
fn scrape_in_same_batch_sees_post_announce_counters() {
    let config = Config::default();
    let mut rng = rand::rngs::SmallRng::seed_from_u64(11);
    let mut torrents = TorrentMap::default();
    let mut out: Vec<OutPair> = Vec::new();
    let vu = ValidUntil::new(1000, config.max_peer_age);
    let hash = InfoHash([1u8; 20]);

    // the scrape arrives first, but announces are applied first
    let batch = vec![
        (meta(1, 9, 1), InMessage::ScrapeRequest(ScrapeRequest { info_hashes: vec![hash] })),
        (meta(0, 1, 1), InMessage::AnnounceRequest(announce(1, 1, 0))),
        (meta(0, 2, 1), InMessage::AnnounceRequest(announce(1, 2, 77))),
    ];
    process_batch(&config, &mut rng, &mut torrents, &mut out, batch, vu);

    assert_eq!(out.len(), 3);
    // the two announce responses come first, the scrape response last
    assert!(matches!(out[0].1, OutMessage::AnnounceResponse(_)));
    assert!(matches!(out[1].1, OutMessage::AnnounceResponse(_)));
    match &out[2].1 {
        OutMessage::ScrapeResponse(r) => {
            assert_eq!(r.files.len(), 1);
            assert_eq!(r.files[0].0, hash);
            assert_eq!(r.files[0].1.complete, 1);
            assert_eq!(r.files[0].1.incomplete, 1);
        },
        other => panic!("expected a scrape response, got {:?}", other),
    }
    assert_eq!(out[2].0, meta(1, 9, 1));
}

#[test]
fn responses_keep_connection_metadata_for_dispatch() {
    let config = Config::default();
    let mut rng = rand::rngs::SmallRng::seed_from_u64(11);
    let mut torrents = TorrentMap::default();
    let mut out: Vec<OutPair> = Vec::new();
    let vu = ValidUntil::new(1000, config.max_peer_age);

    let sender = meta(4, 77, 6881);
    let batch = vec![(sender, InMessage::AnnounceRequest(announce(1, 1, 0)))];
    process_batch(&config, &mut rng, &mut torrents, &mut out, batch, vu);
    assert_eq!(out.len(), 1);
    assert_eq!(out[0].0, sender);
}
