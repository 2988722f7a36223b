use vstd::prelude::*;
use vstd::string::StringExecFns;
use vstd::string::StringSliceAdditionalSpecFns;

verus! {

/// 20-byte identifier a peer chooses for itself when joining a swarm.
#[derive(Debug, Clone, Copy, Hash, PartialEq, Eq)]
pub struct PeerId(pub [u8; 20]);

impl View for PeerId {
    type V = Seq<u8>;

    open spec fn view(&self) -> Seq<u8> {
        self.0@
    }
}

/// 20-byte identifier of a torrent; every swarm is keyed by one.
#[derive(Debug, Clone, Copy, Hash, PartialEq, Eq, PartialOrd, Ord)]
pub struct InfoHash(pub [u8; 20]);

impl View for InfoHash {
    type V = Seq<u8>;

    open spec fn view(&self) -> Seq<u8> {
        self.0@
    }
}

/// The lifecycle transition a peer declares when announcing.
#[derive(Debug, Clone, Copy, PartialEq, Eq, Structural)]
pub enum AnnounceEvent {
    Started,
    Stopped,
    Completed,
    Empty,
}

impl Default for AnnounceEvent {
    fn default() -> (r: Self)
        ensures
            r == AnnounceEvent::Empty,
    {
        Self::Empty
    }
}

/// What a peer currently is to a swarm, derived from its latest announce.
#[derive(Debug, Clone, Copy, PartialEq, Eq, Structural)]
pub enum PeerStatus {
    Seeding,
    Leeching,
    Stopped,
}

impl PeerStatus {
    /// A `Stopped` event always wins; otherwise a peer with nothing left to
    /// download seeds, and any other peer leeches.
    pub open spec fn spec_from_event_and_bytes_left(
        event: AnnounceEvent,
        bytes_left: usize,
    ) -> PeerStatus {
        if event == AnnounceEvent::Stopped {
            PeerStatus::Stopped
        } else if bytes_left == 0 {
            PeerStatus::Seeding
        } else {
            PeerStatus::Leeching
        }
    }

    pub fn from_event_and_bytes_left(event: AnnounceEvent, bytes_left: usize) -> (r: PeerStatus)
        ensures
            r == PeerStatus::spec_from_event_and_bytes_left(event, bytes_left),
    {
        match event {
            AnnounceEvent::Stopped => PeerStatus::Stopped,
            _ => {
                if bytes_left == 0 {
                    PeerStatus::Seeding
                } else {
                    PeerStatus::Leeching
                }
            },
        }
    }
}

/// The sender's network address, reduced to the values the core compares:
/// the IP (IPv4 mapped into the IPv6 space) and the port.
#[derive(Debug, Clone, Copy, Hash, PartialEq, Eq, Structural)]
pub struct PeerAddr {
    pub ip: u128,
    pub port: u16,
}

/// Where a request came from: which transport worker owns the connection,
/// and the address of the remote peer.
#[derive(Debug, Clone, Copy, PartialEq, Eq, Structural)]
pub struct ConnectionMeta {
    pub out_message_worker_index: usize,
    pub peer_addr: PeerAddr,
}

/// Absolute expiry time of a peer record, in seconds since the Unix epoch.
/// An external sweep may remove records whose expiry has passed.
#[derive(Debug, Clone, Copy, PartialEq, Eq, PartialOrd, Ord, Structural)]
pub struct ValidUntil(pub u64);

impl ValidUntil {
    /// Expiry computed from the current time handed in by the caller,
    /// saturating instead of wrapping.
    pub fn new(now_unix_secs: u64, max_peer_age: u64) -> (r: Self)
        ensures
            r.0 == if now_unix_secs + max_peer_age <= u64::MAX {
                now_unix_secs + max_peer_age
            } else {
                u64::MAX as int
            },
    {
        if now_unix_secs <= u64::MAX - max_peer_age {
            ValidUntil(now_unix_secs + max_peer_age)
        } else {
            ValidUntil(u64::MAX)
        }
    }
}

/// One peer as a swarm stores it.
#[derive(Debug, Clone, Copy)]
pub struct Peer {
    pub connection_meta: ConnectionMeta,
    pub status: PeerStatus,
    pub valid_until: ValidUntil,
}

/// Byte-wise equality of two byte slices.
fn bytes_eq(a: &[u8], b: &[u8]) -> (r: bool)
    ensures
        r == (a@ == b@),
{
    if a.len() != b.len() {
        return false;
    }
    let mut i: usize = 0;
    while i < a.len()
        invariant
            i <= a@.len(),
            a@.len() == b@.len(),
            forall|j: int| 0 <= j < i ==> a@[j] == b@[j],
        decreases a@.len() - i,
    {
        if a[i] != b[i] {
            return false;
        }
        i += 1;
    }
    proof {
        assert(a@ =~= b@);
    }
    true
}

impl AnnounceEvent {
    /// The event a textual announce names, if it names one.
    pub fn from_name(value: &str) -> (r: Option<AnnounceEvent>)
        ensures
            r == if value.spec_bytes() == "started".spec_bytes() {
                Some(AnnounceEvent::Started)
            } else if value.spec_bytes() == "stopped".spec_bytes() {
                Some(AnnounceEvent::Stopped)
            } else if value.spec_bytes() == "completed".spec_bytes() {
                Some(AnnounceEvent::Completed)
            } else if value.spec_bytes() == "empty".spec_bytes() {
                Some(AnnounceEvent::Empty)
            } else {
                None::<AnnounceEvent>
            },
    {
        let bytes = value.as_bytes();
        if bytes_eq(bytes, "started".as_bytes()) {
            Some(AnnounceEvent::Started)
        } else if bytes_eq(bytes, "stopped".as_bytes()) {
            Some(AnnounceEvent::Stopped)
        } else if bytes_eq(bytes, "completed".as_bytes()) {
            Some(AnnounceEvent::Completed)
        } else if bytes_eq(bytes, "empty".as_bytes()) {
            Some(AnnounceEvent::Empty)
        } else {
            None
        }
    }
}

impl core::str::FromStr for AnnounceEvent {
    type Err = String;

    fn from_str(value: &str) -> (r: Result<Self, String>) {
        match AnnounceEvent::from_name(value) {
            Some(event) => Ok(event),
            None => {
                let mut message = "Unknown value: ".to_owned();
                message.append(value);
                Err(message)
            },
        }
    }
}

} // verus!
