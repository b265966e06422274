//! The hub: which devices are paired and connected, and what passes between them.
//!
//! Sockets and files are handled outside. The hub is told what happened and says what is to be
//! done.

use vstd::prelude::*;

use crate::clipboard::types;
use crate::clipboard::types::{ClipboardContent, DeviceId, FileMeta, SyncMark};
use crate::config::settings::ManualAddress;
use crate::device::identity::DeviceIdentity;
use crate::device::registry::{DeviceRegistry, PairedDevice, TrustLevel};
use crate::discovery::DiscoveredPeer;
use crate::encoding;
use crate::encoding::{base64_decode, base64_encode, decode_error_text};
use crate::ids::new_uuid;
use crate::strmap::{StrMap, StrSet};
use crate::sync::engine::SyncEvent;
use crate::text;
use crate::text::{concat3, contains_str, parse_dec, rsplit_once, same, to_dec, trim};
use crate::transfer::handshake;
use crate::transfer::handshake::{
    derive_link_secret, key_fingerprint, Connection, HandshakeError, HelloPayload, Phase, Role,
};
use crate::transfer::offers;
use crate::transfer::offers::{
    offer_fingerprint, requested_files, summarize, FileAction, OfferState, OfferSummary,
    PendingOffer, PieceWrite, PullState,
};
use crate::transfer::paths;
use crate::transfer::paths::{safe_segment, target_path};
use crate::transfer::relay;
use crate::transfer::relay::{next_hop, others_of, RelaySeen, SyncEnvelope, RELAY_MAX_TTL};
use crate::transfer::websocket::{FileChunkResponsePayload, FileFrame};

verus! {

/// How often a pairing is tried.
pub const MAX_PAIRING_ATTEMPTS: u32 = 24;

/// The pause between two tries of a pairing, and between two rounds of reconnecting, in seconds.
pub const RECONNECT_INTERVAL_SECS: u64 = 5;

/// The size of a piece of a file.
pub const CHUNK_SIZE: usize = 262144;

/// A transfer of less than this many bytes is fetched without asking, unless configured otherwise.
pub const DEFAULT_AUTO_PULL_BYTES: u64 = 1048576;

// ---------------------------------------------------------------------------
// Addresses
// ---------------------------------------------------------------------------

/// `host:port`.
pub open spec fn addr_key_spec(host: Seq<char>, port: u16) -> Seq<char> {
    host + ":"@ + text::dec(port as nat)
}

/// `host:port`.
pub fn addr_key(host: &str, port: u16) -> (r: String)
    ensures
        r@ == addr_key_spec(host@, port),
{
    concat3(host, ":", to_dec(port as u64).as_str())
}

/// What `host:port` names; `None` where the host is empty or the port is no number that fits.
pub open spec fn host_port_spec(s: Seq<char>) -> Option<(Seq<char>, nat)> {
    match text::rsplit_once_spec(text::trimmed(s), ':') {
        Some(p) => {
            let port = text::parse_dec_spec(p.1, 65535);
            if port is Some && p.0.len() > 0 {
                Some((p.0, port->0))
            } else {
                None
            }
        },
        None => None,
    }
}

/// Splits `host:port` at its last colon.
pub fn parse_host_port(s: &str) -> (r: Option<(String, u16)>)
    ensures
        match r {
            Some(p) => host_port_spec(s@) == Some((p.0@, p.1 as nat)),
            None => host_port_spec(s@) is None,
        },
{
    let t = trim(s);
    match rsplit_once(t.as_str(), ':') {
        Some((h, p)) => match parse_dec(p.as_str(), 65535) {
            Some(port) => {
                if h.as_str().is_empty() {
                    None
                } else {
                    Some((h, port as u16))
                }
            },
            None => None,
        },
        None => None,
    }
}

/// What was put together from a host and a port is read back.
pub proof fn law_addresses_read_back(host: Seq<char>, port: u16)
    requires
        host.len() > 0,
        !text::is_white(host[0]),
    ensures
        host_port_spec(addr_key_spec(host, port)) == Some((host, port as nat)),
{
    reveal_strlit(":");
    let d = text::dec(port as nat);
    text::lemma_dec_round_trip(port as nat);
    let s = addr_key_spec(host, port);
    assert(s.last() == d.last());
    assert(text::is_digit(d[d.len() - 1]));
    assert(s[0] == host[0]);
    text::lemma_trimmed_fixed(s);
    assert(s[host.len() as int] == ':');
    assert forall|i: int| host.len() < i < s.len() implies s[i] != ':' by {
        assert(s[i] == d[i - host.len() - 1]);
        assert(text::is_digit(d[i - host.len() - 1]));
    }
    text::lemma_rfind_is(s, ':', host.len() as int);
    text::lemma_rfind(s, ':');
    assert(s.take(host.len() as int) =~= host);
    assert(s.skip(host.len() as int + 1) =~= d);
}

/// The host of `addr`: what stands before its last colon; empty where there is none.
pub open spec fn host_of(addr: Seq<char>) -> Seq<char> {
    match text::rsplit_once_spec(addr, ':') {
        Some(p) => p.0,
        None => seq![],
    }
}

fn host_part(addr: &str) -> (r: String)
    ensures
        r@ == host_of(addr@),
{
    match rsplit_once(addr, ':') {
        Some((h, _)) => h,
        None => String::new(),
    }
}

/// `h` is this machine's own address.
pub open spec fn is_loopback_host(h: Seq<char>) -> bool {
    h == "127.0.0.1"@ || h == "::1"@
}

/// The address under which a device is remembered after it connected from `peer_addr` and said that
/// it listens on `listen_port`.
///
/// Without a port the known address stays. The host is the one that it connected from; where that
/// is this machine's own address and a real one is known, or where it cannot be told, the known one
/// stays.
pub open spec fn last_addr_spec(
    peer_addr: Seq<char>,
    listen_port: u16,
    known: Option<Seq<char>>,
) -> Option<Seq<char>> {
    if listen_port == 0 {
        known
    } else {
        let new_host = host_of(peer_addr);
        let known_host = if known is Some {
            host_of(known->0)
        } else {
            seq![]
        };
        let host = if (is_loopback_host(new_host) && !is_loopback_host(known_host)
            && known_host.len() > 0) || new_host.len() == 0 {
            known_host
        } else {
            new_host
        };
        Some(addr_key_spec(host, listen_port))
    }
}

/// The address under which a device is remembered after it connected.
pub fn refreshed_addr(peer_addr: &str, listen_port: u16, known: &Option<String>) -> (r: Option<
    String,
>)
    ensures
        text::opt_view(r) == last_addr_spec(peer_addr@, listen_port, text::opt_view(*known)),
{
    if listen_port == 0 {
        return known.clone();
    }
    let new_host = host_part(peer_addr);
    let known_host = match known {
        Some(a) => host_part(a.as_str()),
        None => String::new(),
    };
    let new_loopback = same(new_host.as_str(), "127.0.0.1") || same(new_host.as_str(), "::1");
    let known_loopback = same(known_host.as_str(), "127.0.0.1") || same(known_host.as_str(), "::1");
    let host = if (new_loopback && !known_loopback && !known_host.as_str().is_empty())
        || new_host.as_str().is_empty() {
        known_host
    } else {
        new_host
    };
    Some(addr_key(host.as_str(), listen_port))
}

/// An address that other machines can reach is not replaced by this machine's own.
pub proof fn law_loopback_does_not_replace_a_real_address(
    peer_addr: Seq<char>,
    listen_port: u16,
    known: Seq<char>,
)
    requires
        listen_port != 0,
        is_loopback_host(host_of(peer_addr)),
        host_of(known).len() > 0,
        !is_loopback_host(host_of(known)),
    ensures
        last_addr_spec(peer_addr, listen_port, Some(known)) == Some(
            addr_key_spec(host_of(known), listen_port),
        ),
{
}

// ---------------------------------------------------------------------------
// The first line of a request
// ---------------------------------------------------------------------------

/// The position of the first line break in `b`; the length of `b` where there is none.
pub open spec fn line_end(b: Seq<u8>) -> int
    decreases b.len(),
{
    if b.len() < 2 {
        b.len() as int
    } else if b[0] == 13 && b[1] == 10 {
        0
    } else {
        1 + line_end(b.drop_first())
    }
}

/// The bytes that a request for a file begins with: `GET /file/`.
pub open spec fn file_request_prefix() -> Seq<u8> {
    seq![71u8, 69u8, 84u8, 32u8, 47u8, 102u8, 105u8, 108u8, 101u8, 47u8]
}

/// What was seen of a connection is a request for a file: a whole first line that begins with
/// `GET /file/`.
pub open spec fn is_file_request_spec(b: Seq<u8>) -> bool {
    line_end(b) < b.len() && line_end(b) >= 10 && b.take(10) == file_request_prefix()
}

proof fn lemma_line_end(b: Seq<u8>, k: int)
    requires
        0 <= k <= b.len(),
        k < b.len() ==> k + 1 < b.len() && b[k] == 13 && b[k + 1] == 10,
        forall|i: int| 0 <= i < k && i + 1 < b.len() ==> !(#[trigger] b[i] == 13 && b[i + 1] == 10),
    ensures
        line_end(b) == k,
    decreases b.len(),
{
    if b.len() >= 2 && k > 0 {
        let t = b.drop_first();
        assert(!(b[0] == 13 && b[1] == 10));
        assert forall|i: int| 0 <= i < k - 1 && i + 1 < t.len() implies !(#[trigger] t[i] == 13 && t[i
            + 1] == 10) by {
            assert(t[i] == b[i + 1]);
            assert(t[i + 1] == b[i + 2]);
        }
        lemma_line_end(t, k - 1);
    } else if b.len() == 1 && k == 0 {
        assert(false);
    }
}

/// Whether what was seen of a connection is a request for a file. Everything else is taken for a
/// WebSocket.
pub fn is_file_request(b: &[u8]) -> (r: bool)
    ensures
        r == is_file_request_spec(b@),
{
    let n: usize = b.len();
    let mut i: usize = 0;
    while i < n
        invariant
            i <= n,
            n == b@.len(),
            forall|k: int|
                0 <= k < i && k + 1 < b@.len() ==> !(#[trigger] b@[k] == 13 && b@[k + 1] == 10),
        decreases n - i,
    {
        if i + 1 < n && b[i] == 13 && b[i + 1] == 10 {
            proof {
                lemma_line_end(b@, i as int);
            }
            if i < 10 {
                return false;
            }
            let r = b[0] == 71 && b[1] == 69 && b[2] == 84 && b[3] == 32 && b[4] == 47 && b[5]
                == 102 && b[6] == 105 && b[7] == 108 && b[8] == 101 && b[9] == 47;
            proof {
                let p = file_request_prefix();
                if r {
                    assert(b@.take(10) =~= p);
                }
                if b@.take(10) == p {
                    assert forall|j: int| 0 <= j < 10 implies b@[j] == p[j] by {
                        assert(b@.take(10)[j] == p[j]);
                    }
                    assert(b@[0] == p[0] && b@[1] == p[1] && b@[2] == p[2] && b@[3] == p[3] && b@[4]
                        == p[4] && b@[5] == p[5] && b@[6] == p[6] && b@[7] == p[7] && b@[8] == p[8]
                        && b@[9] == p[9]);
                }
            }
            return r;
        }
        i += 1;
    }
    proof {
        lemma_line_end(b@, n as int);
    }
    false
}

// ---------------------------------------------------------------------------
// Pairing
// ---------------------------------------------------------------------------

/// How a try of a pairing ended.
pub enum PairOutcome {
    /// The devices were connected until one of them left.
    Connected,
    /// The codes did not match.
    CodeMismatch,
    /// Something else failed, with this message.
    Failed(String),
}

/// What is to be done after a try of a pairing.
pub enum PairStep {
    /// Nothing more.
    Done,
    /// Tell the user that the pairing failed, and why.
    Tell(String),
    /// Try again after a pause.
    Retry,
}

/// A message that says that the other end cannot be reached.
pub open spec fn is_unreachable(m: Seq<char>) -> bool {
    text::has_substring(m, "connect failed"@) || text::has_substring(m, "Handshake"@)
        || text::has_substring(m, "handshake"@)
}

/// What the user is told where the codes did not match.
pub open spec fn mismatch_reason(paired: bool) -> Seq<char> {
    if paired {
        "重连失败：与对方配对状态不一致（本机已保存其配对信息但密钥不匹配），请双方先「取消配对」再重新配对"@
    } else {
        "配对码不一致，请核对对方界面显示的配对码"@
    }
}

/// What the user is told where the other end cannot be reached.
pub open spec fn unreachable_reason() -> Seq<char> {
    "对端不可达：请确认对方在线、IP/端口正确（双方监听端口需一致，当前 20071），且未被防火墙拦截"@
}

/// What the user is told where no try succeeded.
pub open spec fn timeout_reason() -> Seq<char> {
    "配对超时，请确认对方已上线、端口可达且你输入的是对方界面显示的配对码"@
}

/// What is to be done after the try `attempt` (from 0) of a pairing.
pub open spec fn pair_step_spec(attempt: u32, o: PairOutcome, paired: bool, s: PairStep) -> bool {
    match o {
        PairOutcome::CodeMismatch => s matches PairStep::Tell(m) && m@ == mismatch_reason(paired),
        PairOutcome::Failed(e) if is_unreachable(e@) => s matches PairStep::Tell(m) && m@
            == unreachable_reason(),
        PairOutcome::Failed(_) if attempt + 1 < MAX_PAIRING_ATTEMPTS => s is Retry,
        _ => if paired {
            s is Done
        } else {
            s matches PairStep::Tell(m) && m@ == timeout_reason()
        },
    }
}

/// What is to be done after the try `attempt` (from 0) of a pairing. `paired` says whether the
/// device is paired by now.
///
/// A wrong code and an end that cannot be reached are told at once: trying again would not help.
/// Other failures are tried again, 24 times in all.
pub fn pair_step(attempt: u32, outcome: PairOutcome, paired: bool) -> (r: PairStep)
    requires
        attempt < MAX_PAIRING_ATTEMPTS,
    ensures
        pair_step_spec(attempt, outcome, paired, r),
{
    match outcome {
        PairOutcome::CodeMismatch => PairStep::Tell(
            if paired {
                "重连失败：与对方配对状态不一致（本机已保存其配对信息但密钥不匹配），请双方先「取消配对」再重新配对".to_owned()
            } else {
                "配对码不一致，请核对对方界面显示的配对码".to_owned()
            },
        ),
        PairOutcome::Failed(e) => {
            if contains_str(e.as_str(), "connect failed") || contains_str(e.as_str(), "Handshake")
                || contains_str(e.as_str(), "handshake") {
                PairStep::Tell(
                    "对端不可达：请确认对方在线、IP/端口正确（双方监听端口需一致，当前 20071），且未被防火墙拦截".to_owned(),
                )
            } else if attempt + 1 < MAX_PAIRING_ATTEMPTS {
                PairStep::Retry
            } else if paired {
                PairStep::Done
            } else {
                PairStep::Tell(
                    "配对超时，请确认对方已上线、端口可达且你输入的是对方界面显示的配对码".to_owned(),
                )
            }
        },
        PairOutcome::Connected => {
            if paired {
                PairStep::Done
            } else {
                PairStep::Tell(
                    "配对超时，请确认对方已上线、端口可达且你输入的是对方界面显示的配对码".to_owned(),
                )
            }
        },
    }
}

/// A pairing ends: the last try is never followed by another.
pub proof fn law_pairing_ends(o: PairOutcome, paired: bool, s: PairStep)
    requires
        pair_step_spec((MAX_PAIRING_ATTEMPTS - 1) as u32, o, paired, s),
    ensures
        s !is Retry,
{
}

// ---------------------------------------------------------------------------
// The hub
// ---------------------------------------------------------------------------

/// What came of a confirmed connection.
pub struct Registration {
    /// The number of the connection.
    pub conn_id: u64,
    /// What is shown of the other end's key.
    pub fingerprint: String,
    /// The secret to be stored, where the devices paired for the first time.
    pub link_secret: Option<String>,
    /// The address under which the other end is remembered.
    pub last_addr: Option<String>,
}

/// A fetch that was started: what is asked of whom, and where it is written.
pub struct PullPlan {
    pub transfer_id: String,
    pub device_id: String,
    pub device_name: String,
    pub target_dir: String,
    pub targets: Vec<String>,
    pub total: u64,
    pub file_indices: Vec<usize>,
}

impl PullPlan {
    /// How a piece is written: at its offset in the target of its file, which the first piece begins
    /// anew. `None` where the offer has no such file, and the piece is passed over.
    pub fn write_of(&self, piece: &FileChunkResponsePayload) -> (r: Option<PieceWrite>)
        ensures
            match r {
                Some(w) => {
                    &&& piece.file_index < self.targets@.len()
                    &&& w.path@ == self.targets@[piece.file_index as int]@
                    &&& w.offset == piece.offset
                    &&& w.anew == (piece.offset == 0)
                    &&& forall|file: Seq<u8>|
                        #![trigger w.effect(file, piece.data@)]
                        w.effect(file, piece.data@) == offers::replaced_at(
                            file,
                            piece.offset as nat,
                            piece.data@,
                        )
                },
                None => piece.file_index >= self.targets@.len(),
            },
    {
        if piece.file_index < self.targets.len() {
            Some(
                PieceWrite {
                    path: self.targets[piece.file_index].clone(),
                    offset: piece.offset,
                    anew: piece.offset == 0,
                },
            )
        } else {
            None
        }
    }
}

/// What is to be done with something that happened on this device.
pub enum LocalStep {
    /// Send this update to these devices.
    Send { envelope: SyncEnvelope, to: Vec<String> },
    /// Offer these files.
    Offer(Vec<String>),
    /// Nothing: what came from another device is not sent back.
    Nothing,
}

/// A device that is to be dialled: its identifier, its name, its host and its port.
pub open spec fn dial_view(p: DiscoveredPeer) -> (Seq<char>, Seq<char>, Seq<char>, nat) {
    (p.device_id@, p.device_name@, p.addr@, p.port as nat)
}

/// The devices that are to be dialled.
pub open spec fn dial_views(v: Seq<DiscoveredPeer>) -> Seq<(Seq<char>, Seq<char>, Seq<char>, nat)> {
    Seq::new(v.len(), |i: int| dial_view(v[i]))
}

/// An address of which it is not known who answers there.
pub open spec fn bare_dial(addr: Seq<char>, port: nat) -> (Seq<char>, Seq<char>, Seq<char>, nat) {
    (""@, "手动/已知地址"@, addr, port)
}

fn bare_peer(addr: String, port: u16) -> (r: DiscoveredPeer)
    ensures
        dial_view(r) == bare_dial(addr@, port as nat),
{
    DiscoveredPeer {
        device_id: "".to_owned(),
        device_name: "手动/已知地址".to_owned(),
        addr,
        port,
    }
}

/// What is to be done with an update that came in.
pub struct RelayPlan {
    /// The update to apply here.
    pub apply: SyncEnvelope,
    /// The update to pass on, where it may still travel.
    pub forward: Option<SyncEnvelope>,
    /// The devices to pass it on to.
    pub to: Vec<String>,
}

/// The state of this device towards all others.
pub struct ConnectionHub {
    pub identity: DeviceIdentity,
    /// The link secrets of the paired devices.
    pub paired_codes: StrMap<String>,
    /// The pairing code that this device shows.
    pub pairing_code: String,
    /// The greatest number of files in a copied folder; 0 for no bound.
    pub max_folder_files: usize,
    /// The connected devices, each with the number of its connection.
    pub peers: StrMap<u64>,
    /// The addresses that this device dialled and is connected to.
    pub connected_addrs: StrSet,
    /// The addresses that are being dialled.
    pub connecting: StrSet,
    pub active_offers: StrMap<OfferState>,
    pub pending_offers: StrMap<PendingOffer>,
    pub active_pulls: StrMap<PullState>,
    pub listen_port: u16,
    /// Whether small transfers are fetched without asking.
    pub auto_pull_enabled: bool,
    /// Transfers of less than this many bytes are fetched without asking.
    pub auto_pull_threshold: u64,
    pub seen: RelaySeen,
    pub next_conn_id: u64,
}

impl ConnectionHub {
    /// The table of handled updates is sound, and the size of every waiting offer can be told.
    pub open spec fn wf(&self) -> bool {
        &&& self.seen.wf()
        &&& forall|k: Seq<char>| #[trigger]
            self.pending_offers@.dom().contains(k) ==> types::total_size(
                self.pending_offers@[k].files@,
            ) <= u64::MAX
    }

    /// A transfer of `total` bytes is fetched without asking.
    pub open spec fn auto_pulls(&self, total: nat) -> bool {
        self.auto_pull_enabled && total < self.auto_pull_threshold
    }

    /// The transfers are the same.
    pub open spec fn same_transfers(&self, o: &Self) -> bool {
        &&& self.active_offers == o.active_offers
        &&& self.pending_offers == o.pending_offers
        &&& self.active_pulls == o.active_pulls
    }

    /// A hub without pairings, connections and transfers.
    pub fn new(identity: DeviceIdentity) -> (r: Self)
        ensures
            r.wf(),
            r.identity == identity,
            r.paired_codes@ == Map::<Seq<char>, String>::empty(),
            r.pairing_code@ == ""@,
            r.max_folder_files == 100,
            r.peers@ == Map::<Seq<char>, u64>::empty(),
            r.connected_addrs@ == Set::<Seq<char>>::empty(),
            r.connecting@ == Set::<Seq<char>>::empty(),
            r.active_offers@ == Map::<Seq<char>, OfferState>::empty(),
            r.pending_offers@ == Map::<Seq<char>, PendingOffer>::empty(),
            r.active_pulls@ == Map::<Seq<char>, PullState>::empty(),
            r.listen_port == 0,
            !r.auto_pull_enabled,
            r.auto_pull_threshold == DEFAULT_AUTO_PULL_BYTES,
            r.seen@ == Seq::<Seq<char>>::empty(),
            r.next_conn_id == 1,
    {
        ConnectionHub {
            identity,
            paired_codes: StrMap::new(),
            pairing_code: "".to_owned(),
            max_folder_files: 100,
            peers: StrMap::new(),
            connected_addrs: StrSet::new(),
            connecting: StrSet::new(),
            active_offers: StrMap::new(),
            pending_offers: StrMap::new(),
            active_pulls: StrMap::new(),
            listen_port: 0,
            auto_pull_enabled: false,
            auto_pull_threshold: DEFAULT_AUTO_PULL_BYTES,
            seen: RelaySeen::new(),
            next_conn_id: 1,
        }
    }

    /// Sets the pairing code that this device shows.
    pub fn set_pairing_code(&mut self, code: String)
        ensures
            *final(self) == (ConnectionHub {
                pairing_code: code,
                ..*old(self)
            }),
    {
        self.pairing_code = code;
    }

    /// Sets whether, and below how many bytes, transfers are fetched without asking.
    pub fn set_auto_pull(&mut self, enabled: bool, threshold: u64)
        ensures
            *final(self) == (ConnectionHub {
                auto_pull_enabled: enabled,
                auto_pull_threshold: threshold,
                ..*old(self)
            }),
    {
        self.auto_pull_enabled = enabled;
        self.auto_pull_threshold = threshold;
    }

    /// Sets the greatest number of files in a copied folder.
    pub fn set_max_folder_files(&mut self, n: usize)
        ensures
            *final(self) == (ConnectionHub {
                max_folder_files: n,
                ..*old(self)
            }),
    {
        self.max_folder_files = n;
    }

    /// The pairing code that this device shows.
    pub fn pairing_code(&self) -> (r: String)
        ensures
            r == self.pairing_code,
    {
        self.pairing_code.clone()
    }

    /// Whether a device is paired.
    pub fn is_paired(&self, device_id: &str) -> (r: bool)
        ensures
            r == self.paired_codes@.dom().contains(device_id@),
    {
        self.paired_codes.contains_key(device_id)
    }

    /// A paired device came back under another identifier: its link secret moves there. Returns the
    /// secret, which is to be stored under the new identifier and deleted under the old one, or
    /// `None` where nothing moved.
    pub fn migrate_pairing(&mut self, old_id: &str, new_id: &str) -> (r: Option<String>)
        ensures
            match r {
                Some(s) => {
                    &&& old_id@ != new_id@
                    &&& old(self).paired_codes@.dom().contains(old_id@)
                    &&& s == old(self).paired_codes@[old_id@]
                    &&& final(self).paired_codes@ == old(self).paired_codes@.remove(
                        old_id@,
                    ).insert(new_id@, s)
                },
                None => {
                    &&& old_id@ == new_id@ || !old(self).paired_codes@.dom().contains(old_id@)
                    &&& final(self).paired_codes@ == old(self).paired_codes@
                },
            },
            *final(self) == (ConnectionHub {
                paired_codes: final(self).paired_codes,
                ..*old(self)
            }),
    {
        if same(old_id, new_id) {
            return None;
        }
        match self.paired_codes.remove(old_id) {
            Some(s) => {
                let _ = self.paired_codes.insert(new_id.to_owned(), s.clone());
                Some(s)
            },
            None => {
                assert(self.paired_codes@ =~= old(self).paired_codes@);
                None
            },
        }
    }

    /// Takes the link secrets that were stored back in.
    pub fn restore_paired(&mut self, secrets: &StrMap<String>)
        ensures
            final(self).paired_codes@ == old(self).paired_codes@.union_prefer_right(secrets@),
            *final(self) == (ConnectionHub {
                paired_codes: final(self).paired_codes,
                ..*old(self)
            }),
    {
        let n: usize = secrets.len();
        let ghost order = secrets.order();
        let ghost start = self.paired_codes@;
        let mut i: usize = 0;
        while i < n
            invariant
                i <= n,
                n == order.len(),
                order == secrets.order(),
                start == old(self).paired_codes@,
                forall|k: Seq<char>| #[trigger]
                    self.paired_codes@.dom().contains(k) <==> start.dom().contains(k)
                        || order.take(i as int).contains(k),
                forall|k: Seq<char>| #[trigger]
                    order.take(i as int).contains(k) ==> secrets@.dom().contains(k)
                        && self.paired_codes@[k] == secrets@[k],
                forall|k: Seq<char>| #[trigger]
                    start.dom().contains(k) && !order.take(i as int).contains(k)
                        ==> self.paired_codes@[k] == start[k],
                *self == (ConnectionHub { paired_codes: self.paired_codes, ..*old(self) }),
            decreases n - i,
        {
            let (k, v) = secrets.at(i);
            let ghost before = self.paired_codes@;
            let _ = self.paired_codes.insert(k.clone(), v.clone());
            proof {
                let t = order.take(i as int);
                let u = order.take(i + 1);
                assert(u =~= t.push(k@));
                assert forall|x: Seq<char>| u.contains(x) == (t.contains(x) || x == k@) by {
                    if t.contains(x) {
                        let j = choose|j: int| 0 <= j < t.len() && t[j] == x;
                        assert(u[j] == x);
                    }
                    if x == k@ {
                        assert(u[i as int] == x);
                    }
                    if u.contains(x) {
                        let j = choose|j: int| 0 <= j < u.len() && u[j] == x;
                        if j < i {
                            assert(t[j] == x);
                        }
                    }
                }
            }
            i += 1;
        }
        proof {
            assert(order.take(i as int) =~= order);
            assert forall|k: Seq<char>| order.contains(k) == secrets@.dom().contains(k) by {
                assert(order.to_set().contains(k) == secrets@.dom().contains(k));
            }
            assert(self.paired_codes@ =~= start.union_prefer_right(secrets@));
        }
    }

    /// Ends the pairing with a device: its secret, its connection and its entry go. Returns whether
    /// it was in the registry.
    pub fn unpair(&mut self, registry: &mut DeviceRegistry, device_id: &str) -> (r: bool)
        ensures
            final(self).paired_codes@ == old(self).paired_codes@.remove(device_id@),
            final(self).peers@ == old(self).peers@.remove(device_id@),
            final(registry)@ == old(registry)@.remove(device_id@),
            r == old(registry)@.dom().contains(device_id@),
            *final(self) == (ConnectionHub {
                paired_codes: final(self).paired_codes,
                peers: final(self).peers,
                ..*old(self)
            }),
    {
        let _ = self.paired_codes.remove(device_id);
        let _ = self.peers.remove(device_id);
        registry.remove(&DeviceId(device_id.to_owned()))
    }

    /// The connected devices, each once.
    pub fn connected_peer_ids(&self) -> (r: Vec<String>)
        ensures
            text::views(r@).no_duplicates(),
            text::views(r@).to_set() == self.peers@.dom(),
    {
        self.peers.keys()
    }

    /// `s` shows the waiting offer at position `i`.
    pub open spec fn shows_pending(&self, i: int, s: OfferSummary) -> bool {
        let k = self.pending_offers.order()[i];
        self.pending_offers@.dom().contains(k) && offers::summarizes(
            s,
            self.pending_offers@[k],
            self.auto_pulls(types::total_size(self.pending_offers@[k].files@)),
        )
    }

    /// What is shown of the offers that wait to be fetched, each once.
    pub fn pending_offers_snapshot(&self) -> (r: Vec<OfferSummary>)
        requires
            self.wf(),
        ensures
            r@.len() == self.pending_offers@.dom().len(),
            self.pending_offers.order().no_duplicates(),
            self.pending_offers.order().to_set() == self.pending_offers@.dom(),
            forall|i: int| 0 <= i < r@.len() ==> self.shows_pending(i, #[trigger] r@[i]),
    {
        let mut out: Vec<OfferSummary> = Vec::new();
        let n: usize = self.pending_offers.len();
        let mut i: usize = 0;
        while i < n
            invariant
                i <= n,
                n == self.pending_offers.order().len(),
                self.wf(),
                out@.len() == i,
                forall|j: int| 0 <= j < i ==> self.shows_pending(j, #[trigger] out@[j]),
            decreases n - i,
        {
            let (_k, o) = self.pending_offers.at(i);
            let total: u64 = types::sum_sizes(&o.files);
            let auto_pull = self.auto_pull_enabled && total < self.auto_pull_threshold;
            let summary = summarize(o, auto_pull);
            assert(self.shows_pending(i as int, summary));
            out.push(summary);
            i += 1;
        }
        out
    }

    /// Drops offers that wait to be fetched. Returns how many there were.
    pub fn drop_pending_offers(&mut self, ids: &[String]) -> (r: usize)
        requires
            old(self).wf(),
        ensures
            final(self).wf(),
            final(self).pending_offers@ == old(self).pending_offers@.remove_keys(
                text::views(ids@).to_set(),
            ),
            r == old(self).pending_offers@.dom().intersect(text::views(ids@).to_set()).len(),
            *final(self) == (ConnectionHub {
                pending_offers: final(self).pending_offers,
                ..*old(self)
            }),
    {
        let ghost before = self.pending_offers@;
        let ghost all = text::views(ids@);
        let mut gone: usize = 0;
        let mut i: usize = 0;
        let n: usize = ids.len();
        assert(before.remove_keys(all.take(0).to_set()) =~= before);
        assert(before.dom().intersect(all.take(0).to_set()) =~= Set::<Seq<char>>::empty());
        while i < n
            invariant
                n == ids@.len(),
                all == text::views(ids@),
                i <= n,
                gone <= i,
                before == old(self).pending_offers@,
                self.wf(),
                self.pending_offers@ == before.remove_keys(all.take(i as int).to_set()),
                before.dom().intersect(all.take(i as int).to_set()).finite(),
                gone == before.dom().intersect(all.take(i as int).to_set()).len(),
                *self == (ConnectionHub { pending_offers: self.pending_offers, ..*old(self) }),
            decreases n - i,
        {
            let ghost s = all.take(i as int).to_set();
            let ghost t = all.take(i + 1).to_set();
            let ghost k = ids@[i as int]@;
            proof {
                assert(all.take(i + 1) =~= all.take(i as int).push(k));
                assert(t =~= s.insert(k)) by {
                    assert forall|x: Seq<char>| #[trigger] t.contains(x) <==> s.insert(k).contains(x) by {
                        let p = all.take(i as int);
                        let q = all.take(i + 1);
                        if q.contains(x) {
                            let j = choose|j: int| 0 <= j < q.len() && q[j] == x;
                            if j < i {
                                assert(p[j] == x);
                            }
                        }
                        if p.contains(x) {
                            let j = choose|j: int| 0 <= j < p.len() && p[j] == x;
                            assert(q[j] == x);
                        }
                        assert(q[i as int] == k);
                    }
                }
            }
            let there = self.pending_offers.remove(ids[i].as_str()).is_some();
            if there {
                gone += 1;
                assert(before.dom().intersect(t) =~= before.dom().intersect(s).insert(k));
            } else {
                assert(before.dom().intersect(t) =~= before.dom().intersect(s));
            }
            assert(self.pending_offers@ =~= before.remove_keys(t));
            i += 1;
        }
        assert(all.take(n as int) =~= all);
        gone
    }

    // -- connections --------------------------------------------------------

    /// What this device says first on a connection.
    pub fn hello(&self) -> (r: HelloPayload)
        ensures
            r.device_id == self.identity.id.0,
            r.device_name == self.identity.name,
            r.public_key@ == encoding::base64_text(self.identity.public_key@),
            r.listen_port == self.listen_port,
    {
        HelloPayload {
            device_id: self.identity.id.0.clone(),
            device_name: self.identity.name.clone(),
            public_key: base64_encode(&self.identity.public_key),
            listen_port: self.listen_port,
        }
    }

    /// An address is neither connected nor being dialled.
    pub open spec fn is_free(&self, key: Seq<char>) -> bool {
        !self.connected_addrs@.contains(key) && !self.connecting@.contains(key)
    }

    /// Whether a device that was found is to be dialled: it is paired, not connected, and its
    /// address is free.
    pub fn should_reconnect(&self, peer: &DiscoveredPeer) -> (r: bool)
        ensures
            r == self.dials_found(*peer),
    {
        if !self.is_paired(peer.device_id.as_str()) {
            return false;
        }
        if self.peers.contains_key(peer.device_id.as_str()) {
            return false;
        }
        self.should_connect_addr(peer.addr.as_str(), peer.port)
    }

    /// Whether an address is to be dialled: it is free. A stranger there is turned away in the
    /// handshake.
    pub fn should_connect_addr(&self, addr: &str, port: u16) -> (r: bool)
        ensures
            r == self.is_free(addr_key_spec(addr@, port)),
    {
        let key = addr_key(addr, port);
        !self.connected_addrs.contains(key.as_str()) && !self.connecting.contains(key.as_str())
    }

    /// The address under which a paired device is to be dialled: its last one, unless the device is
    /// connected or the address cannot be read or is not free.
    pub open spec fn dial_target(&self, d: PairedDevice) -> Option<(Seq<char>, nat)> {
        if d.last_addr is None || self.peers@.dom().contains(d.device_id.0@) {
            None
        } else {
            match host_port_spec(d.last_addr->0@) {
                Some(t) => if self.is_free(t.0 + ":"@ + text::dec(t.1)) {
                    Some(t)
                } else {
                    None
                },
                None => None,
            }
        }
    }

    /// The address under which a paired device is to be dialled.
    pub fn last_known_target(&self, d: &PairedDevice) -> (r: Option<(String, u16)>)
        ensures
            match r {
                Some(t) => self.dial_target(*d) == Some((t.0@, t.1 as nat)),
                None => self.dial_target(*d) is None,
            },
    {
        let addr = match &d.last_addr {
            Some(a) => a,
            None => {
                return None;
            },
        };
        if self.peers.contains_key(d.device_id.0.as_str()) {
            return None;
        }
        match parse_host_port(addr.as_str()) {
            Some((h, p)) => {
                if self.should_connect_addr(h.as_str(), p) {
                    Some((h, p))
                } else {
                    None
                }
            },
            None => None,
        }
    }

    /// A device that was found is to be dialled.
    pub open spec fn dials_found(&self, p: DiscoveredPeer) -> bool {
        self.paired_codes@.dom().contains(p.device_id@) && !self.peers@.dom().contains(p.device_id@)
            && self.is_free(addr_key_spec(p.addr@, p.port))
    }

    /// The found devices that are to be dialled.
    pub open spec fn found_dials(&self, found: Seq<DiscoveredPeer>) -> Seq<
        (Seq<char>, Seq<char>, Seq<char>, nat),
    >
        decreases found.len(),
    {
        if found.len() == 0 {
            seq![]
        } else {
            let before = self.found_dials(found.drop_last());
            if self.dials_found(found.last()) {
                before.push(dial_view(found.last()))
            } else {
                before
            }
        }
    }

    /// The addresses of the address book that are to be dialled.
    pub open spec fn book_dials(&self, book: Seq<ManualAddress>) -> Seq<
        (Seq<char>, Seq<char>, Seq<char>, nat),
    >
        decreases book.len(),
    {
        if book.len() == 0 {
            seq![]
        } else {
            let before = self.book_dials(book.drop_last());
            let a = book.last();
            if self.is_free(addr_key_spec(a.addr@, a.port)) {
                before.push(bare_dial(a.addr@, a.port as nat))
            } else {
                before
            }
        }
    }

    /// The last addresses of paired devices that are to be dialled.
    pub open spec fn known_dials(&self, paired: Seq<PairedDevice>) -> Seq<
        (Seq<char>, Seq<char>, Seq<char>, nat),
    >
        decreases paired.len(),
    {
        if paired.len() == 0 {
            seq![]
        } else {
            let before = self.known_dials(paired.drop_last());
            match self.dial_target(paired.last()) {
                Some(t) => before.push(bare_dial(t.0, t.1)),
                None => before,
            }
        }
    }

    /// Whom to dial in a round of reconnecting: paired devices that were found, then the addresses
    /// of the address book, then the last addresses of paired devices. Who is connected or being
    /// dialled is left out.
    ///
    /// The later ones help where the network does not carry announcements. A stranger who answers
    /// is turned away in the handshake.
    pub fn reconnect_round(
        &self,
        found: &[DiscoveredPeer],
        book: &[ManualAddress],
        paired: &[PairedDevice],
    ) -> (r: Vec<DiscoveredPeer>)
        ensures
            dial_views(r@) == self.found_dials(found@) + self.book_dials(book@) + self.known_dials(
                paired@,
            ),
    {
        let mut out: Vec<DiscoveredPeer> = Vec::new();
        let mut i: usize = 0;
        assert(dial_views(out@) =~= self.found_dials(found@.take(0)));
        while i < found.len()
            invariant
                i <= found@.len(),
                dial_views(out@) == self.found_dials(found@.take(i as int)),
            decreases found@.len() - i,
        {
            assert(found@.take(i + 1).drop_last() =~= found@.take(i as int));
            let ghost before = out@;
            if self.should_reconnect(&found[i]) {
                let p = found[i].clone();
                out.push(p);
                assert(dial_views(out@) =~= dial_views(before).push(dial_view(p)));
            }
            i += 1;
        }
        assert(found@.take(i as int) =~= found@);
        let ghost first = self.found_dials(found@);
        let mut j: usize = 0;
        assert(dial_views(out@) =~= first + self.book_dials(book@.take(0)));
        while j < book.len()
            invariant
                j <= book@.len(),
                dial_views(out@) == first + self.book_dials(book@.take(j as int)),
            decreases book@.len() - j,
        {
            assert(book@.take(j + 1).drop_last() =~= book@.take(j as int));
            let ghost before = out@;
            if self.should_connect_addr(book[j].addr.as_str(), book[j].port) {
                let p = bare_peer(book[j].addr.clone(), book[j].port);
                out.push(p);
                assert(dial_views(out@) =~= dial_views(before).push(dial_view(p)));
                assert(dial_views(out@) =~= first + self.book_dials(book@.take(j + 1)));
            }
            j += 1;
        }
        assert(book@.take(j as int) =~= book@);
        let ghost second = first + self.book_dials(book@);
        let mut k: usize = 0;
        assert(dial_views(out@) =~= second + self.known_dials(paired@.take(0)));
        while k < paired.len()
            invariant
                k <= paired@.len(),
                dial_views(out@) == second + self.known_dials(paired@.take(k as int)),
            decreases paired@.len() - k,
        {
            assert(paired@.take(k + 1).drop_last() =~= paired@.take(k as int));
            let ghost before = out@;
            match self.last_known_target(&paired[k]) {
                Some((h, port)) => {
                    let p = bare_peer(h, port);
                    out.push(p);
                    assert(dial_views(out@) =~= dial_views(before).push(dial_view(p)));
                    assert(dial_views(out@) =~= second + self.known_dials(paired@.take(k + 1)));
                },
                None => {},
            }
            k += 1;
        }
        assert(paired@.take(k as int) =~= paired@);
        out
    }

    /// The device that is paired with at an address that the user typed. Who it is comes out when it
    /// says hello.
    pub fn pair_with_manual_address(addr: String, port: u16) -> (r: DiscoveredPeer)
        ensures
            r.device_id@ == ""@,
            r.device_name == addr,
            r.addr == addr,
            r.port == port,
    {
        DiscoveredPeer { device_id: "".to_owned(), device_name: addr.clone(), addr, port }
    }

    /// Notes that an address is being dialled. Returns whether it was not already.
    pub fn begin_connecting(&mut self, addr: &str, port: u16) -> (r: bool)
        ensures
            r == !old(self).connecting@.contains(addr_key_spec(addr@, port)),
            final(self).connecting@ == old(self).connecting@.insert(addr_key_spec(addr@, port)),
            *final(self) == (ConnectionHub {
                connecting: final(self).connecting,
                ..*old(self)
            }),
    {
        self.connecting.insert(addr_key(addr, port))
    }

    /// Notes that an address is no longer being dialled.
    pub fn end_connecting(&mut self, addr: &str, port: u16)
        ensures
            final(self).connecting@ == old(self).connecting@.remove(addr_key_spec(addr@, port)),
            *final(self) == (ConnectionHub {
                connecting: final(self).connecting,
                ..*old(self)
            }),
    {
        let _ = self.connecting.remove(addr_key(addr, port).as_str());
    }

    /// Takes a connection in whose handshake was confirmed: the device is registered as verified,
    /// the first time with a new link secret, and is the one that messages go to from now on.
    ///
    /// A reconnection derives no new secret: an end that failed to store it would be locked out.
    pub fn register(&mut self, registry: &mut DeviceRegistry, conn: &Connection, now: u64) -> (r:
        Result<Registration, HandshakeError>)
        requires
            conn.phase is Confirmed,
            conn.peer is Some,
            old(self).next_conn_id < u64::MAX,
        ensures
            ({
                let peer = conn.peer->0;
                let id = peer.device_id@;
                let key = conn.phase->Confirmed_key@;
                match encoding::base64_decoded(peer.public_key@) {
                    Err(e) => {
                        &&& r matches Err(HandshakeError::BadPublicKey(m))
                        &&& m@ == encoding::decode_error_words(e)
                        &&& *final(self) == *old(self)
                        &&& *final(registry) == *old(registry)
                    },
                    Ok(pk) => {
                        &&& r matches Ok(g)
                        &&& g.conn_id == old(self).next_conn_id
                        &&& g.fingerprint@ == handshake::key_fingerprint_spec(pk)
                        &&& text::opt_view(g.last_addr) == last_addr_spec(
                            conn.peer_addr@,
                            peer.listen_port,
                            if old(registry)@.dom().contains(id) {
                                text::opt_view(old(registry)@[id].last_addr)
                            } else {
                                None
                            },
                        )
                        &&& if conn.fresh {
                            &&& g.link_secret matches Some(s)
                            &&& s@ == handshake::link_secret(key)
                            &&& final(self).paired_codes@ == old(self).paired_codes@.insert(id, s)
                        } else {
                            g.link_secret is None && final(self).paired_codes@ == old(
                                self).paired_codes@
                        }
                        &&& exists|d: PairedDevice|
                            {
                                &&& #[trigger] old(registry)@.insert(id, d) == final(registry)@
                                &&& d.device_id.0@ == id
                                &&& d.device_name == peer.device_name
                                &&& d.fingerprint == g.fingerprint
                                &&& d.trust == TrustLevel::Verified
                                &&& d.last_seen == now
                                &&& d.last_addr == g.last_addr
                            }
                        &&& final(self).connected_addrs@ == if conn.role == Role::Initiator {
                            old(self).connected_addrs@.insert(conn.peer_addr@)
                        } else {
                            old(self).connected_addrs@
                        }
                        &&& final(self).peers@ == old(self).peers@.insert(id, g.conn_id)
                        &&& final(self).next_conn_id == old(self).next_conn_id + 1
                    },
                }
            }),
            *final(self) == (ConnectionHub {
                paired_codes: final(self).paired_codes,
                peers: final(self).peers,
                connected_addrs: final(self).connected_addrs,
                next_conn_id: final(self).next_conn_id,
                ..*old(self)
            }),
    {
        let peer = match &conn.peer {
            Some(p) => p,
            None => {
                return Err(HandshakeError::OutOfTurn);
            },
        };
        let key = match &conn.phase {
            Phase::Confirmed { key } => key,
            _ => {
                return Err(HandshakeError::OutOfTurn);
            },
        };
        let pk = match base64_decode(peer.public_key.as_str()) {
            Ok(b) => b,
            Err(e) => {
                return Err(HandshakeError::BadPublicKey(decode_error_text(&e)));
            },
        };
        let fingerprint = key_fingerprint(&pk);
        let link_secret = if conn.fresh {
            let s = derive_link_secret(key);
            let _ = self.paired_codes.insert(peer.device_id.clone(), s.clone());
            Some(s)
        } else {
            None
        };
        let id = DeviceId(peer.device_id.clone());
        let known = match registry.get(&id) {
            Some(d) => d.last_addr.clone(),
            None => None,
        };
        let last_addr = refreshed_addr(conn.peer_addr.as_str(), peer.listen_port, &known);
        let device = PairedDevice {
            device_id: id,
            device_name: peer.device_name.clone(),
            fingerprint: fingerprint.clone(),
            trust: TrustLevel::Verified,
            last_seen: now,
            last_addr: last_addr.clone(),
        };
        let ghost d = device;
        registry.add(device);
        assert(old(registry)@.insert(peer.device_id@, d) == registry@);
        if conn.role == Role::Initiator {
            let _ = self.connected_addrs.insert(conn.peer_addr.clone());
        }
        let conn_id: u64 = self.next_conn_id;
        self.next_conn_id = conn_id + 1;
        let _ = self.peers.insert(peer.device_id.clone(), conn_id);
        Ok(Registration { conn_id, fingerprint, link_secret, last_addr })
    }

    /// Takes a connection out that ended. The device is gone only where no newer connection took its
    /// place; returns whether it is.
    pub fn close(&mut self, peer_id: &str, conn_id: u64, peer_addr: &str) -> (r: bool)
        ensures
            r == (old(self).peers@.dom().contains(peer_id@) && old(self).peers@[peer_id@] == conn_id),
            final(self).peers@ == if r {
                old(self).peers@.remove(peer_id@)
            } else {
                old(self).peers@
            },
            final(self).connected_addrs@ == old(self).connected_addrs@.remove(peer_addr@),
            *final(self) == (ConnectionHub {
                peers: final(self).peers,
                connected_addrs: final(self).connected_addrs,
                ..*old(self)
            }),
    {
        let current = match self.peers.get(peer_id) {
            Some(c) => *c == conn_id,
            None => false,
        };
        if current {
            let _ = self.peers.remove(peer_id);
        }
        let _ = self.connected_addrs.remove(peer_addr);
        current
    }

    // -- clipboard updates --------------------------------------------------

    /// Whether an update was handled before. Where it was not, it counts as handled from now on.
    pub fn note_seen(&mut self, id: &str) -> (r: bool)
        requires
            old(self).wf(),
        ensures
            final(self).wf(),
            r == old(self).seen@.contains(id@),
            final(self).seen@ == relay::noted(old(self).seen@, id@),
            *final(self) == (ConnectionHub {
                seen: final(self).seen,
                ..*old(self)
            }),
    {
        self.seen.note(id)
    }

    /// The envelope of a change of this device's clipboard: a new identifier, which counts as
    /// handled, and all hops.
    pub fn wrap_local(&mut self, mark: SyncMark, content: ClipboardContent) -> (r: SyncEnvelope)
        requires
            old(self).wf(),
        ensures
            final(self).wf(),
            r.mark == mark,
            r.content == content,
            r.ttl == RELAY_MAX_TTL,
            crate::ids::is_uuid_text(r.msg_id@),
            final(self).seen@ == relay::noted(old(self).seen@, r.msg_id@),
            final(self).seen@.contains(r.msg_id@),
            *final(self) == (ConnectionHub {
                seen: final(self).seen,
                ..*old(self)
            }),
    {
        let msg_id = new_uuid();
        proof {
            relay::law_noting_keeps_the_table_sound(self.seen@, msg_id@);
        }
        let _ = self.note_seen(msg_id.as_str());
        SyncEnvelope { mark, content, msg_id, ttl: RELAY_MAX_TTL }
    }

    /// What is to be done with something that the engine told. A change of the clipboard goes to all
    /// connected devices.
    pub fn on_event(&mut self, event: SyncEvent) -> (r: LocalStep)
        requires
            old(self).wf(),
        ensures
            final(self).wf(),
            match event {
                SyncEvent::LocalClipboardChanged { mark, content } => {
                    &&& r matches LocalStep::Send { envelope, to }
                    &&& envelope.mark == mark
                    &&& envelope.content == content
                    &&& envelope.ttl == RELAY_MAX_TTL
                    &&& crate::ids::is_uuid_text(envelope.msg_id@)
                    &&& final(self).seen@ == relay::noted(old(self).seen@, envelope.msg_id@)
                    &&& text::views(to@).no_duplicates()
                    &&& text::views(to@).to_set() == old(self).peers@.dom()
                },
                SyncEvent::LocalFilesCopied { paths } => r == LocalStep::Offer(paths)
                    && *final(self) == *old(self),
                SyncEvent::RemoteClipboardApplied { .. } => r is Nothing && *final(self) == *old(self),
            },
            *final(self) == (ConnectionHub {
                seen: final(self).seen,
                ..*old(self)
            }),
    {
        match event {
            SyncEvent::LocalClipboardChanged { mark, content } => {
                let envelope = self.wrap_local(mark, content);
                let to = self.connected_peer_ids();
                LocalStep::Send { envelope, to }
            },
            SyncEvent::LocalFilesCopied { paths } => LocalStep::Offer(paths),
            SyncEvent::RemoteClipboardApplied { .. } => LocalStep::Nothing,
        }
    }

    /// What is to be done with an update that came from the device `from`: nothing where it was
    /// handled before; else it is applied here and, while it has hops left, passed on to all other
    /// devices.
    pub fn on_envelope(&mut self, from: &str, env: SyncEnvelope) -> (r: Option<RelayPlan>)
        requires
            old(self).wf(),
        ensures
            final(self).wf(),
            final(self).seen@ == relay::noted(old(self).seen@, env.msg_id@),
            match r {
                None => old(self).seen@.contains(env.msg_id@),
                Some(p) => {
                    &&& !old(self).seen@.contains(env.msg_id@)
                    &&& p.apply == env
                    &&& match p.forward {
                        Some(f) => env.ttl > 1 && relay::relayed(env, f),
                        None => env.ttl <= 1,
                    }
                    &&& if env.ttl > 1 {
                        &&& text::views(p.to@).no_duplicates()
                        &&& forall|id: Seq<char>| #[trigger]
                            text::views(p.to@).contains(id) <==> old(self).peers@.dom().contains(id)
                                && id != from@
                    } else {
                        p.to@.len() == 0
                    }
                },
            },
            *final(self) == (ConnectionHub {
                seen: final(self).seen,
                ..*old(self)
            }),
    {
        if self.note_seen(env.msg_id.as_str()) {
            return None;
        }
        let forward = next_hop(&env);
        let to = if forward.is_some() {
            let peers = self.connected_peer_ids();
            let to = others_of(&peers, from);
            proof {
                let all = text::views(peers@);
                relay::law_relay_reaches_each_once(all, from@);
                assert forall|id: Seq<char>| #[trigger]
                    text::views(to@).contains(id) <==> self.peers@.dom().contains(id) && id != from@ by {
                    relay::law_relay_reaches_the_others(all, from@, id);
                    assert(all.to_set().contains(id) == self.peers@.dom().contains(id));
                }
            }
            to
        } else {
            Vec::new()
        };
        Some(RelayPlan { apply: env, forward, to })
    }

    // -- files --------------------------------------------------------------

    /// Copied folders are refused: there is a bound, there is a folder, and it holds too many files.
    pub fn refuses_folder(&self, has_folder: bool, exceeds: bool) -> (r: bool)
        ensures
            r == (self.max_folder_files > 0 && has_folder && exceeds),
    {
        self.max_folder_files > 0 && has_folder && exceeds
    }

    /// Offers files that were copied here. They are kept under `transfer_id`, with their paths; what
    /// is told to the others holds no path. Nothing is told where there are no files or no one is
    /// connected.
    pub fn offer_local_files(
        &mut self,
        transfer_id: String,
        files: Vec<FileMeta>,
        local_paths: Vec<String>,
        top_names: Vec<String>,
        has_folder: bool,
    ) -> (r: Option<FileFrame>)
        ensures
            files@.len() == 0 ==> r is None && *final(self) == *old(self),
            files@.len() > 0 ==> {
                &&& exists|o: OfferState|
                    {
                        &&& #[trigger] old(self).active_offers@.insert(transfer_id@, o) == final(
                            self).active_offers@
                        &&& o.device_name == old(self).identity.name
                        &&& o.files@ == files@
                        &&& o.local_paths == local_paths
                    }
                &&& match r {
                    Some(FileFrame::Offer {
                        transfer_id: t,
                        device_id,
                        device_name,
                        files: f,
                        top_names: n,
                        has_folder: h,
                    }) => {
                        &&& old(self).peers@ != Map::<Seq<char>, u64>::empty()
                        &&& t@ == transfer_id@
                        &&& device_id == old(self).identity.id.0
                        &&& device_name == old(self).identity.name
                        &&& f == files
                        &&& n == top_names
                        &&& h == has_folder
                    },
                    Some(_) => false,
                    None => old(self).peers@ == Map::<Seq<char>, u64>::empty(),
                }
            },
            *final(self) == (ConnectionHub {
                active_offers: final(self).active_offers,
                ..*old(self)
            }),
    {
        if files.len() == 0 {
            return None;
        }
        let kept = OfferState {
            device_name: self.identity.name.clone(),
            files: types::clone_files(&files),
            local_paths,
        };
        let ghost o = kept;
        let _ = self.active_offers.insert(transfer_id.clone(), kept);
        assert(old(self).active_offers@.insert(transfer_id@, o) == self.active_offers@);
        if self.peers.is_empty() {
            return None;
        }
        Some(
            FileFrame::Offer {
                transfer_id,
                device_id: self.identity.id.0.clone(),
                device_name: self.identity.name.clone(),
                files,
                top_names,
                has_folder,
            },
        )
    }

    /// Some offer of this device has the fingerprint `print`.
    pub open spec fn offers_print(&self, print: Seq<char>) -> bool {
        exists|k: Seq<char>|
            #[trigger] self.active_offers@.dom().contains(k) && offers::offer_print(
                self.active_offers@[k].files@,
            ) == print
    }

    fn is_local_echo(&self, files: &Vec<FileMeta>) -> (r: bool)
        ensures
            r == self.offers_print(offers::offer_print(files@)),
    {
        let print = offer_fingerprint(files);
        let n: usize = self.active_offers.len();
        let mut i: usize = 0;
        while i < n
            invariant
                i <= n,
                n == self.active_offers.order().len(),
                self.active_offers.order().to_set() == self.active_offers@.dom(),
                print@ == offers::offer_print(files@),
                forall|k: int|
                    0 <= k < i ==> offers::offer_print(
                        self.active_offers@[#[trigger] self.active_offers.order()[k]].files@,
                    ) != print@,
            decreases n - i,
        {
            let (key, o) = self.active_offers.at(i);
            let p = offer_fingerprint(&o.files);
            if same(p.as_str(), print.as_str()) {
                assert(self.active_offers@.dom().contains(key@));
                return true;
            }
            i += 1;
        }
        proof {
            assert forall|k: Seq<char>| #[trigger]
                self.active_offers@.dom().contains(k) implies offers::offer_print(
                self.active_offers@[k].files@,
            ) != print@ by {
                assert(self.active_offers.order().to_set().contains(k));
                let j = choose|j: int|
                    0 <= j < self.active_offers.order().len() && self.active_offers.order()[j] == k;
                assert(self.active_offers.order()[j] == k);
            }
        }
        false
    }

    /// What is to be done with a file frame that came in.
    ///
    /// An offer of this device itself, or of files that this device offers, is an echo and is passed
    /// over; any other is kept, and fetched at once where it is small. A request is answered with
    /// the files that it names. Pieces and the end of a transfer go to the fetch they belong to.
    pub fn handle_file_frame(&mut self, frame: FileFrame) -> (r: FileAction)
        requires
            old(self).wf(),
            frame matches FileFrame::Offer { files, .. } ==> types::total_size(files@) <= u64::MAX,
        ensures
            final(self).wf(),
            *final(self) == (ConnectionHub {
                active_offers: final(self).active_offers,
                pending_offers: final(self).pending_offers,
                active_pulls: final(self).active_pulls,
                ..*old(self)
            }),
            match frame {
                FileFrame::Offer {
                    transfer_id,
                    device_id,
                    device_name,
                    files,
                    top_names,
                    has_folder,
                } => {
                    &&& final(self).active_offers == old(self).active_offers
                    &&& final(self).active_pulls == old(self).active_pulls
                    &&& if device_id@ == old(self).identity.id.0@ || old(self).offers_print(
                        offers::offer_print(files@),
                    ) {
                        r is Ignore && final(self).pending_offers == old(self).pending_offers
                    } else {
                        &&& r matches FileAction::Offered { transfer_id: t, total, auto_pull }
                        &&& t == transfer_id
                        &&& total == types::total_size(files@)
                        &&& auto_pull == old(self).auto_pulls(types::total_size(files@))
                        &&& final(self).pending_offers@ == old(self).pending_offers@.insert(
                            transfer_id@,
                            PendingOffer {
                                transfer_id,
                                device_id,
                                device_name,
                                files,
                                top_names,
                                has_folder,
                            },
                        )
                    }
                },
                FileFrame::PullRequest { transfer_id, file_indices } => {
                    &&& final(self).same_transfers(old(self))
                    &&& if old(self).active_offers@.dom().contains(transfer_id@) {
                        &&& r matches FileAction::Send { transfer_id: t, files }
                        &&& t == transfer_id
                        &&& offers::send_views(files@) == offers::requested(
                            file_indices@,
                            text::views(old(self).active_offers@[transfer_id@].local_paths@),
                        )
                    } else {
                        r == (FileAction::Unknown { transfer_id })
                    }
                },
                FileFrame::PullCancel { transfer_id } => {
                    &&& r == (FileAction::Cancelled { transfer_id })
                    &&& final(self).active_offers@ == old(self).active_offers@.remove(transfer_id@)
                    &&& final(self).active_pulls@ == old(self).active_pulls@.remove(transfer_id@)
                    &&& final(self).pending_offers == old(self).pending_offers
                },
                FileFrame::Complete { transfer_id } => {
                    &&& final(self).same_transfers(old(self))
                    &&& if old(self).active_pulls@.dom().contains(transfer_id@) {
                        r == (FileAction::Finish { transfer_id })
                    } else {
                        r is Ignore
                    }
                },
                FileFrame::Chunk(payload) => {
                    &&& final(self).same_transfers(old(self))
                    &&& if old(self).active_pulls@.dom().contains(payload.transfer_id@) {
                        r == FileAction::Write(payload)
                    } else {
                        r matches FileAction::Unknown { transfer_id: t } && t
                            == payload.transfer_id
                    }
                },
            },
    {
        match frame {
            FileFrame::Offer { transfer_id, device_id, device_name, files, top_names, has_folder } => {
                if same(device_id.as_str(), self.identity.id.0.as_str()) {
                    return FileAction::Ignore;
                }
                if self.is_local_echo(&files) {
                    return FileAction::Ignore;
                }
                let total: u64 = types::sum_sizes(&files);
                let auto_pull = self.auto_pull_enabled && total < self.auto_pull_threshold;
                let t = transfer_id.clone();
                let k = transfer_id.clone();
                let _ = self.pending_offers.insert(
                    k,
                    PendingOffer { transfer_id, device_id, device_name, files, top_names, has_folder },
                );
                FileAction::Offered { transfer_id: t, total, auto_pull }
            },
            FileFrame::PullRequest { transfer_id, file_indices } => {
                match self.active_offers.get(transfer_id.as_str()) {
                    Some(o) => {
                        let files = requested_files(&file_indices, &o.local_paths);
                        FileAction::Send { transfer_id, files }
                    },
                    None => FileAction::Unknown { transfer_id },
                }
            },
            FileFrame::PullCancel { transfer_id } => {
                let _ = self.active_offers.remove(transfer_id.as_str());
                let _ = self.active_pulls.remove(transfer_id.as_str());
                FileAction::Cancelled { transfer_id }
            },
            FileFrame::Complete { transfer_id } => {
                if self.active_pulls.contains_key(transfer_id.as_str()) {
                    FileAction::Finish { transfer_id }
                } else {
                    FileAction::Ignore
                }
            },
            FileFrame::Chunk(payload) => {
                if self.active_pulls.contains_key(payload.transfer_id.as_str()) {
                    FileAction::Write(payload)
                } else {
                    FileAction::Unknown { transfer_id: payload.transfer_id.clone() }
                }
            },
        }
    }

    /// Starts to fetch an offer that waits. Nothing happens where it does not wait, or where the
    /// device that made it is not connected: then it goes on waiting.
    pub fn pull_files(&mut self, transfer_id: &str, sync_dir: &str) -> (r: Option<PullPlan>)
        requires
            old(self).wf(),
        ensures
            final(self).wf(),
            *final(self) == (ConnectionHub {
                pending_offers: final(self).pending_offers,
                active_pulls: final(self).active_pulls,
                ..*old(self)
            }),
            match r {
                None => {
                    &&& !old(self).pending_offers@.dom().contains(transfer_id@) || !old(
                        self).peers@.dom().contains(
                        old(self).pending_offers@[transfer_id@].device_id@,
                    )
                    &&& final(self).pending_offers@ == old(self).pending_offers@
                    &&& final(self).active_pulls == old(self).active_pulls
                },
                Some(p) => {
                    let o = old(self).pending_offers@[transfer_id@];
                    &&& old(self).pending_offers@.dom().contains(transfer_id@)
                    &&& old(self).peers@.dom().contains(o.device_id@)
                    &&& final(self).pending_offers@ == old(self).pending_offers@.remove(
                        transfer_id@,
                    )
                    &&& p.transfer_id@ == transfer_id@
                    &&& p.device_id == o.device_id
                    &&& p.device_name == o.device_name
                    &&& p.target_dir@ == sync_dir@ + "/"@ + paths::safe_name(o.device_name@)
                    &&& p.targets@.len() == o.files@.len()
                    &&& forall|i: int|
                        0 <= i < p.targets@.len() ==> (#[trigger] p.targets@[i])@ == paths::target_spec(
                            sync_dir@,
                            o.device_name@,
                            o.files@[i].file_name@,
                        )
                    &&& p.total == types::total_size(o.files@)
                    &&& p.file_indices@ == Seq::new(o.files@.len(), |i: int| i as usize)
                    &&& exists|s: PullState|
                        {
                            &&& #[trigger] old(self).active_pulls@.insert(transfer_id@, s) == final(
                                self).active_pulls@
                            &&& s.target_dir@ == p.target_dir@
                            &&& s.files@ == o.files@
                            &&& s.device_id == o.device_id
                            &&& s.total_bytes == p.total
                        }
                },
            },
    {
        let connected = match self.pending_offers.get(transfer_id) {
            Some(o) => self.peers.contains_key(o.device_id.as_str()),
            None => {
                return None;
            },
        };
        if !connected {
            return None;
        }
        let o = match self.pending_offers.remove(transfer_id) {
            Some(o) => o,
            None => {
                return None;
            },
        };
        let total: u64 = types::sum_sizes(&o.files);
        let target_dir = concat3(sync_dir, "/", safe_segment(o.device_name.as_str()).as_str());
        let mut targets: Vec<String> = Vec::new();
        let mut file_indices: Vec<usize> = Vec::new();
        let mut i: usize = 0;
        while i < o.files.len()
            invariant
                i <= o.files@.len(),
                targets@.len() == i,
                file_indices@.len() == i,
                forall|k: int|
                    0 <= k < i ==> (#[trigger] targets@[k])@ == paths::target_spec(
                        sync_dir@,
                        o.device_name@,
                        o.files@[k].file_name@,
                    ),
                forall|k: int| 0 <= k < i ==> #[trigger] file_indices@[k] == k,
            decreases o.files@.len() - i,
        {
            targets.push(
                target_path(sync_dir, o.device_name.as_str(), o.files[i].file_name.as_str()),
            );
            file_indices.push(i);
            i += 1;
        }
        assert(file_indices@ =~= Seq::new(o.files@.len(), |i: int| i as usize));
        let state = PullState {
            target_dir: target_dir.clone(),
            files: types::clone_files(&o.files),
            device_id: o.device_id.clone(),
            total_bytes: total,
        };
        let ghost s = state;
        let _ = self.active_pulls.insert(transfer_id.to_owned(), state);
        assert(old(self).active_pulls@.insert(transfer_id@, s) == self.active_pulls@);
        Some(
            PullPlan {
                transfer_id: transfer_id.to_owned(),
                device_id: o.device_id,
                device_name: o.device_name,
                target_dir,
                targets,
                total,
                file_indices,
            },
        )
    }
}

/// Where the window for an offer that waits is put: the lower right corner of the screen, above the
/// task bar.
pub fn toast_position(width: u32, height: u32) -> (r: (i32, i32))
    requires
        width <= i32::MAX,
        height <= i32::MAX,
    ensures
        r.0 == width - 356,
        r.1 == height - 264,
{
    (width as i32 - 340 - 16, height as i32 - 200 - 16 - 48)
}

/// An address is the host, a colon and the port; its host is what stands before the last colon.
pub proof fn law_addresses_are_host_and_port(host: Seq<char>, port: u16, rest: Seq<char>)
    requires
        !rest.contains(':'),
    ensures
        addr_key_spec(host, port) == host.push(':') + text::dec(port as nat),
        host_of(host.push(':') + rest) == host,
        host_of(rest).len() == 0,
{
    reveal_strlit(":");
    assert(":"@ =~= seq![':']);
    assert(host + ":"@ + text::dec(port as nat) =~= host.push(':') + text::dec(port as nat));
    let s = host.push(':') + rest;
    let n = host.len() as int;
    assert(s[n] == ':');
    assert(s.contains(':'));
    assert forall|i: int| n < i < s.len() implies s[i] != ':' by {
        assert(s[i] == rest[i - n - 1]);
        assert(rest.contains(rest[i - n - 1]));
    }
    text::lemma_rfind_is(s, ':', n);
    assert(s.take(n) =~= host);
}

/// A device is remembered under the host that it connected from and the port that it says it listens
/// on, wherever that host is not this machine's own address. Without a port the known address stays.
pub proof fn law_devices_are_remembered_where_they_came_from(
    host: Seq<char>,
    from_port: Seq<char>,
    port: u16,
    known: Option<Seq<char>>,
)
    requires
        host.len() > 0,
        !from_port.contains(':'),
        host != "127.0.0.1"@,
        host != "::1"@,
    ensures
        port != 0 ==> last_addr_spec(host.push(':') + from_port, port, known) == Some(
            host.push(':') + text::dec(port as nat),
        ),
        last_addr_spec(host.push(':') + from_port, 0, known) == known,
{
    law_addresses_are_host_and_port(host, port, from_port);
}

/// A connection asks for a file exactly where its first line is whole and begins with `GET /file/`.
pub proof fn law_requests_for_files_are_told_by_their_first_line(line: Seq<u8>, rest: Seq<u8>)
    requires
        !line.contains(13u8),
    ensures
        is_file_request_spec(line + seq![13u8, 10u8] + rest) <==> line.len() >= 10 && line.take(10)
            == seq![71u8, 69u8, 84u8, 32u8, 47u8, 102u8, 105u8, 108u8, 101u8, 47u8],
        !is_file_request_spec(line),
{
    let b = line + seq![13u8, 10u8] + rest;
    let k = line.len() as int;
    assert(b[k] == 13 && b[k + 1] == 10);
    assert forall|i: int| 0 <= i < k && i + 1 < b.len() implies !(#[trigger] b[i] == 13 && b[i + 1]
        == 10) by {
        assert(b[i] == line[i]);
        assert(line.contains(line[i]));
    }
    lemma_line_end(b, k);
    assert forall|i: int| 0 <= i < k && i + 1 < line.len() implies !(#[trigger] line[i] == 13
        && line[i + 1] == 10) by {
        assert(line.contains(line[i]));
    }
    lemma_line_end(line, k);
    if k >= 10 {
        assert(b.take(10) =~= line.take(10));
    }
}

/// A wrong code and an end that cannot be reached are told at once; another failure is tried again until
/// the 24th try, after which it is told, unless the devices are paired by then.
pub proof fn law_pairing_goes_on_until_the_last_try(
    attempt: u32,
    o: PairOutcome,
    paired: bool,
    s: PairStep,
)
    requires
        pair_step_spec(attempt, o, paired, s),
        attempt < 24,
    ensures
        o is CodeMismatch ==> s is Tell,
        o matches PairOutcome::Failed(e) ==> {
            let gone = text::has_substring(e@, "connect failed"@) || text::has_substring(
                e@,
                "Handshake"@,
            ) || text::has_substring(e@, "handshake"@);
            &&& gone ==> s is Tell
            &&& !gone && attempt < 23 ==> s is Retry
            &&& !gone && attempt == 23 && paired ==> s is Done
            &&& !gone && attempt == 23 && !paired ==> s is Tell
        },
{
}

/// Whom a round of reconnecting dials: every paired device that was found and is neither connected nor
/// being dialled, under the address where it was found.
pub proof fn law_found_devices_are_dialled(
    hub: ConnectionHub,
    found: Seq<DiscoveredPeer>,
    p: DiscoveredPeer,
)
    ensures
        hub.found_dials(seq![]).len() == 0,
        ({
            let key = p.addr@.push(':') + text::dec(p.port as nat);
            let free = !hub.connected_addrs@.contains(key) && !hub.connecting@.contains(key);
            if hub.paired_codes@.dom().contains(p.device_id@) && !hub.peers@.dom().contains(p.device_id@)
                && free {
                hub.found_dials(found.push(p)) == hub.found_dials(found).push(
                    (p.device_id@, p.device_name@, p.addr@, p.port as nat),
                )
            } else {
                hub.found_dials(found.push(p)) == hub.found_dials(found)
            }
        }),
{
    assert(found.push(p).drop_last() =~= found);
    let none: Seq<char> = seq![];
    law_addresses_are_host_and_port(p.addr@, p.port, none);
}

/// Every address of the address book that is neither connected nor being dialled is dialled.
pub proof fn law_the_address_book_is_dialled(
    hub: ConnectionHub,
    book: Seq<ManualAddress>,
    a: ManualAddress,
)
    ensures
        hub.book_dials(seq![]).len() == 0,
        ({
            let key = a.addr@.push(':') + text::dec(a.port as nat);
            let free = !hub.connected_addrs@.contains(key) && !hub.connecting@.contains(key);
            let r = hub.book_dials(book.push(a));
            let before = hub.book_dials(book);
            if free {
                &&& r.len() == before.len() + 1
                &&& r.drop_last() == before
                &&& r.last().2 == a.addr@
                &&& r.last().3 == a.port
                &&& r.last().0.len() == 0
            } else {
                r == before
            }
        }),
{
    reveal_strlit("");
    assert(book.push(a).drop_last() =~= book);
    let none: Seq<char> = seq![];
    law_addresses_are_host_and_port(a.addr@, a.port, none);
    assert(hub.book_dials(book).push(bare_dial(a.addr@, a.port as nat)).drop_last() =~= hub.book_dials(
        book,
    ));
}

/// Every paired device that is not connected is dialled under its last address, where that is neither
/// connected nor being dialled.
pub proof fn law_last_addresses_are_dialled(
    hub: ConnectionHub,
    paired: Seq<PairedDevice>,
    d: PairedDevice,
    host: Seq<char>,
    port: u16,
)
    requires
        host.len() > 0,
        !text::is_white(host[0]),
        d.last_addr is Some,
        d.last_addr->0@ == addr_key_spec(host, port),
    ensures
        hub.known_dials(seq![]).len() == 0,
        ({
            let key = host.push(':') + text::dec(port as nat);
            let free = !hub.connected_addrs@.contains(key) && !hub.connecting@.contains(key);
            let r = hub.known_dials(paired.push(d));
            let before = hub.known_dials(paired);
            if free && !hub.peers@.dom().contains(d.device_id.0@) {
                &&& r.len() == before.len() + 1
                &&& r.drop_last() == before
                &&& r.last().2 == host
                &&& r.last().3 == port
            } else {
                r == before
            }
        }),
{
    assert(paired.push(d).drop_last() =~= paired);
    let none: Seq<char> = seq![];
    law_addresses_are_host_and_port(host, port, none);
    law_addresses_read_back(host, port);
    assert(hub.known_dials(paired).push(bare_dial(host, port as nat)).drop_last()
        =~= hub.known_dials(paired));
}

/// Files are fetched without asking exactly where that is switched on and they are smaller than the
/// bound.
pub proof fn law_small_transfers_are_fetched_where_asked_for(hub: ConnectionHub, total: nat)
    ensures
        hub.auto_pulls(total) <==> hub.auto_pull_enabled && total < hub.auto_pull_threshold,
{
}

/// An offer counts as this device's own exactly where one of its offers has the same fingerprint.
pub proof fn law_own_offers_are_known(hub: ConnectionHub, k: Seq<char>, print: Seq<char>)
    ensures
        hub.active_offers@.dom().contains(k) && offers::offer_print(hub.active_offers@[k].files@)
            == print ==> hub.offers_print(print),
        hub.active_offers@ == Map::<Seq<char>, OfferState>::empty() ==> !hub.offers_print(print),
{
}

/// Devices to be dialled are seen with identifier, name, address and port; waiting offers are shown as
/// they were made.
pub proof fn law_dials_are_seen_whole(v: Seq<DiscoveredPeer>, i: int)
    requires
        0 <= i < v.len(),
    ensures
        dial_views(v).len() == v.len(),
        dial_views(v)[i] == (v[i].device_id@, v[i].device_name@, v[i].addr@, v[i].port as nat),
{
}

/// A waiting offer is shown as it was made, as one that is fetched without asking exactly where its files
/// are small enough and that is switched on.
pub proof fn law_waiting_offers_are_shown(hub: ConnectionHub, i: int, s: OfferSummary)
    requires
        hub.shows_pending(i, s),
    ensures
        ({
            let k = hub.pending_offers.order()[i];
            let o = hub.pending_offers@[k];
            &&& hub.pending_offers@.dom().contains(k)
            &&& s.transfer_id@ == o.transfer_id@
            &&& s.device_id@ == o.device_id@
            &&& s.files@ == o.files@
            &&& s.total_size == types::total_size(o.files@)
            &&& s.auto_pull <==> hub.auto_pull_enabled && s.total_size < hub.auto_pull_threshold
        }),
{
}

/// Where the transfers are the same, no offer, no waiting offer and no fetch has changed.
pub proof fn law_same_transfers_are_unchanged(a: ConnectionHub, b: ConnectionHub)
    requires
        a.same_transfers(&b),
    ensures
        a.active_offers@ == b.active_offers@,
        a.pending_offers@ == b.pending_offers@,
        a.active_pulls@ == b.active_pulls@,
{
}

/// Where nothing better is known, this machine's own address is remembered too; and where it cannot be told
/// where a device came from, the known host stays, with the port that the device says.
pub proof fn law_known_hosts_stay_where_nothing_better_comes(
    host: Seq<char>,
    from_port: Seq<char>,
    known_host: Seq<char>,
    known_port: Seq<char>,
    port: u16,
)
    requires
        port != 0,
        !from_port.contains(':'),
        !known_port.contains(':'),
        host == "127.0.0.1"@ || host == "::1"@,
    ensures
        last_addr_spec(host.push(':') + from_port, port, None) == Some(
            host.push(':') + text::dec(port as nat),
        ),
        last_addr_spec(from_port, port, Some(known_host.push(':') + known_port)) == Some(
            known_host.push(':') + text::dec(port as nat),
        ),
        known_host.len() > 0 && known_host != "127.0.0.1"@ && known_host != "::1"@ ==> last_addr_spec(
            host.push(':') + from_port,
            port,
            Some(known_host.push(':') + known_port),
        ) == Some(known_host.push(':') + text::dec(port as nat)),
{
    reveal_strlit("127.0.0.1");
    reveal_strlit("::1");
    law_addresses_are_host_and_port(host, port, from_port);
    law_addresses_are_host_and_port(known_host, port, known_port);
    law_addresses_are_host_and_port(known_host, port, from_port);
}

} // verus!
