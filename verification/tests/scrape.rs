use aquatic_ws::common::{AnnounceEvent, ConnectionMeta, InfoHash, PeerAddr, PeerId, ValidUntil};
use aquatic_ws::config::Config;
use aquatic_ws::handler::{handle_announce_request, handle_scrape_requests};
use aquatic_ws::protocol::{AnnounceRequest, OutMessage, OutPair, ScrapeRequest};
use aquatic_ws::swarm::TorrentMap;

use rand::SeedableRng;

fn meta(worker: usize, ip: u128, port: u16) -> ConnectionMeta {
    ConnectionMeta {
        out_message_worker_index: worker,
        peer_addr: PeerAddr { ip, port },
    }
}

fn seed_torrent(torrents: &mut TorrentMap, hash: u8, num_seeders: u8, num_leechers: u8) {
    let config = Config::default();
    let mut rng = rand::rngs::SmallRng::seed_from_u64(3);
    let mut out: Vec<OutPair> = Vec::new();
    let vu = ValidUntil::new(1000, config.max_peer_age);
    let mut next_peer: u8 = 1;
    for _ in 0..num_seeders {
        let request = AnnounceRequest {
            info_hash: InfoHash([hash; 20]),
            peer_id: PeerId([next_peer; 20]),
            event: AnnounceEvent::Started,
            bytes_left: 0,
            offers: None,
            answer: None,
            to_peer_id: None,
            offer_id: None,
        };
        handle_announce_request(&config, &mut rng, torrents, &mut out,
            meta(0, next_peer as u128, 1), request, vu);
        next_peer += 1;
    }
    for _ in 0..num_leechers {
        let request = AnnounceRequest {
            info_hash: InfoHash([hash; 20]),
            peer_id: PeerId([next_peer; 20]),
            event: AnnounceEvent::Started,
            bytes_left: 42,
            offers: None,
            answer: None,
            to_peer_id: None,
            offer_id: None,
        };
        handle_announce_request(&config, &mut rng, torrents, &mut out,
            meta(0, next_peer as u128, 1), request, vu);
        next_peer += 1;
    }
}

fn scrape(
    torrents: &mut TorrentMap,
    config: &Config,
    hashes: Vec<InfoHash>,
) -> Vec<(InfoHash, aquatic_ws::protocol::ScrapeStatistics)> {
    let mut out: Vec<OutPair> = Vec::new();
    let requests = vec![(meta(1, 99, 2), ScrapeRequest { info_hashes: hashes })];
    handle_scrape_requests(config, torrents, &mut out, requests);
    assert_eq!(out.len(), 1);
    assert_eq!(out[0].0, meta(1, 99, 2));
    match &out[0].1 {
        OutMessage::ScrapeResponse(r) => r.files.clone(),
        other => panic!("expected a scrape response, got {:?}", other),
    }
}

#[test]
fn empty_scrape_returns_empty_mapping() {
    let config = Config::default();
    let mut torrents = TorrentMap::default();
    seed_torrent(&mut torrents, 1, 2, 1);
    let files = scrape(&mut torrents, &config, vec![]);
    assert!(files.is_empty());
}

#[test]
fn scrape_reports_only_known_hashes() {
    let config = Config::default();
    let mut torrents = TorrentMap::default();
    seed_torrent(&mut torrents, 1, 2, 1);
    seed_torrent(&mut torrents, 2, 0, 3);

    let a = InfoHash([1u8; 20]);
    let b = InfoHash([2u8; 20]);
    let c = InfoHash([3u8; 20]);
    let files = scrape(&mut torrents, &config, vec![a, b, c]);

    assert_eq!(files.len(), 2);
    let stats_a = files.iter().find(|(h, _)| *h == a).unwrap();
    assert_eq!(stats_a.1.complete, 2);
    assert_eq!(stats_a.1.incomplete, 1);
    assert_eq!(stats_a.1.downloaded, 0);
    let stats_b = files.iter().find(|(h, _)| *h == b).unwrap();
    assert_eq!(stats_b.1.complete, 0);
    assert_eq!(stats_b.1.incomplete, 3);
    assert_eq!(stats_b.1.downloaded, 0);
    assert!(files.iter().all(|(h, _)| *h != c));
}

#[test]
fn scrape_honors_only_first_max_hashes() {
    let mut config = Config::default();
    config.max_scrape_torrents = 2;
    let mut torrents = TorrentMap::default();
    seed_torrent(&mut torrents, 1, 1, 0);
    seed_torrent(&mut torrents, 2, 2, 0);
    seed_torrent(&mut torrents, 3, 3, 0);

    let files = scrape(
        &mut torrents,
        &config,
        vec![InfoHash([1u8; 20]), InfoHash([2u8; 20]), InfoHash([3u8; 20])],
    );
    // only the first two, in request order
    assert_eq!(files.len(), 2);
    assert_eq!(files[0].0, InfoHash([1u8; 20]));
    assert_eq!(files[0].1.complete, 1);
    assert_eq!(files[1].0, InfoHash([2u8; 20]));
    assert_eq!(files[1].1.complete, 2);
}
