//! The state of the connection to the server, and what each of its messages does.
//!
//! The server knows which devices of a network are online, passes encrypted text between them, and
//! tells them of files that another device offers. It never sees the text or the files.

use vstd::prelude::*;

use crate::bytes;
use crate::crypto::aead;
use crate::crypto::aead::{decrypt, encrypt};
use crate::crypto::kdf;
use crate::crypto::kdf::derive_network_key;
use crate::crypto::random::random_nonce;
use crate::encoding;
use crate::encoding::{base64_decode, base64_encode};
use crate::server_conn::lan;
use crate::server_conn::lan::lan_differ;
use crate::strmap::{StrMap, StrSet};
use crate::text;
use crate::text::{join, same, to_dec, trim};

verus! {

/// How many messages may wait to be sent to the server. One that comes when so many wait is thrown
/// away.
pub const RELAY_QUEUE_CAPACITY: usize = 64;

/// The connection is given up when nothing has come in for this long.
pub const READ_DEADLINE_MS: u64 = 90_000;

/// A heartbeat is sent this often.
pub const HEARTBEAT_SECS: u64 = 25;

/// How long to wait after the server has removed this device.
pub const REMOVED_WAIT_SECS: u64 = 30;

/// How long to wait while no server is configured.
pub const UNCONFIGURED_WAIT_SECS: u64 = 10;

/// The shortest wait between two connections.
pub const MIN_BACKOFF_SECS: u64 = 2;

/// The longest wait between two connections.
pub const MAX_BACKOFF_SECS: u64 = 60;

/// Whether this device takes part in its network.
#[derive(Debug, Clone, Copy, PartialEq, Eq, Structural)]
pub enum ServerStatus {
    /// There is no connection.
    Disconnected,
    /// The device is connected and waits to be let in.
    Pending,
    /// The device takes part.
    Active,
}

impl ServerStatus {
    /// The status that the server calls `s`.
    pub open spec fn from_str_spec(s: Seq<char>) -> ServerStatus {
        if s == "active"@ {
            ServerStatus::Active
        } else if s == "pending"@ {
            ServerStatus::Pending
        } else {
            ServerStatus::Disconnected
        }
    }

    /// The number under which the status is shown.
    pub open spec fn code_spec(self) -> u8 {
        match self {
            ServerStatus::Disconnected => 0,
            ServerStatus::Pending => 1,
            ServerStatus::Active => 2,
        }
    }

    /// The status that the server calls `s`. A word that is not known is no connection.
    pub fn from_str(s: &str) -> (r: Self)
        ensures
            r == ServerStatus::from_str_spec(s@),
    {
        if same(s, "active") {
            ServerStatus::Active
        } else if same(s, "pending") {
            ServerStatus::Pending
        } else {
            ServerStatus::Disconnected
        }
    }

    /// The number under which the status is shown.
    pub fn code(self) -> (r: u8)
        ensures
            r == self.code_spec(),
    {
        match self {
            ServerStatus::Disconnected => 0,
            ServerStatus::Pending => 1,
            ServerStatus::Active => 2,
        }
    }
}

/// A device of the network, as the server describes it.
#[derive(Debug)]
pub struct RemoteNode {
    pub device_id: String,
    pub name: String,
    pub lan_group: String,
    pub ext_file_ep: String,
    pub platform: String,
}

impl Clone for RemoteNode {
    fn clone(&self) -> (r: Self)
        ensures
            r == *self,
    {
        RemoteNode {
            device_id: self.device_id.clone(),
            name: self.name.clone(),
            lan_group: self.lan_group.clone(),
            ext_file_ep: self.ext_file_ep.clone(),
            platform: self.platform.clone(),
        }
    }
}

/// Files that a device in another network offers.
#[derive(Debug)]
pub struct CrossLanOffer {
    pub from: String,
    pub from_name: String,
    /// The list of files, as JSON.
    pub manifest: String,
    pub ext_file_ep: String,
    /// When the offer came, in milliseconds since the Unix epoch.
    pub received_at: u64,
}

impl Clone for CrossLanOffer {
    fn clone(&self) -> (r: Self)
        ensures
            r == *self,
    {
        CrossLanOffer {
            from: self.from.clone(),
            from_name: self.from_name.clone(),
            manifest: self.manifest.clone(),
            ext_file_ep: self.ext_file_ep.clone(),
            received_at: self.received_at,
        }
    }
}

/// What a device tells the server of itself.
#[derive(Debug)]
pub struct DeviceFields {
    pub id: String,
    pub name: String,
    pub lan_group: String,
    pub ext_file_ep: String,
    pub platform: String,
    pub hardware_id: String,
    pub os_version: String,
}

/// What is sent to the server.
#[derive(Debug)]
pub enum ClientToServer {
    Auth { token: String, device: DeviceFields },
    Heartbeat,
    RelayText { to: String, ct: String },
    FileNotify { manifest: String, ext_file_ep: String },
}

/// What comes from the server.
#[derive(Debug)]
pub enum ServerToClient {
    Welcome { status: String, network_id: String, nodes: Vec<RemoteNode> },
    Activated,
    Deactivated,
    Removed,
    NodesUpdate { nodes: Vec<RemoteNode> },
    RelayText { from: String, ct: String },
    FileNotify { from: String, manifest: String, ext_file_ep: String },
    Error { code: String, msg: String },
    HeartbeatAck,
}

/// A frame from the server.
#[derive(Debug)]
pub enum ServerFrame {
    /// A message.
    Message(ServerToClient),
    /// Text that is no message.
    Unreadable,
    Ping,
    Close,
    Other,
}

/// How a connection ended.
#[derive(Debug, Clone, Copy, PartialEq, Eq, Structural)]
pub enum ConnectOutcome {
    /// The device had been let in.
    Authed,
    /// The server did not know the token.
    AuthRejected,
    /// The connection broke before the device was let in.
    Disconnected,
}

/// What is to be done after a frame from the server.
#[derive(Debug)]
pub struct Reaction {
    /// The connection goes on.
    pub keep: bool,
    /// The way the connection counts as ended from now on, where that changes.
    pub outcome: Option<ConnectOutcome>,
    /// Answer a ping.
    pub pong: bool,
    /// Show this status.
    pub status: Option<u8>,
    /// Show the devices of the network anew.
    pub show_nodes: bool,
    /// Tell that the server has removed this device.
    pub tell_removed: bool,
    /// Apply this update, which another device sent.
    pub relay: Option<Vec<u8>>,
    /// Show this offer.
    pub offer: Option<CrossLanOffer>,
}

impl Reaction {
    /// Nothing but whether the connection goes on.
    pub open spec fn is_quiet(&self) -> bool {
        &&& self.outcome is None
        &&& !self.pong
        &&& self.status is None
        &&& !self.show_nodes
        &&& !self.tell_removed
        &&& self.relay is None
        &&& self.offer is None
    }

    fn quiet(keep: bool) -> (r: Self)
        ensures
            r.keep == keep,
            r.is_quiet(),
    {
        Reaction {
            keep,
            outcome: None,
            pong: false,
            status: None,
            show_nodes: false,
            tell_removed: false,
            relay: None,
            offer: None,
        }
    }
}

/// The state of the connection to the server.
pub struct ServerConn {
    pub status: ServerStatus,
    pub network_id: String,
    pub network_key: Option<[u8; 32]>,
    pub nodes: Vec<RemoteNode>,
    pub our_lan_group: String,
    /// The server has removed this device from the network.
    pub removed: bool,
    /// It has been told that the server does not know the token.
    pub auth_fail_notified: bool,
    /// The fetches that are to be given up.
    pub cross_pull_cancel: StrSet,
    /// The offer behind each fetch.
    pub cross_pull_origin: StrMap<CrossLanOffer>,
    pub cached_hw_id: String,
    pub cached_os_ver: String,
}

// ---------------------------------------------------------------------------
// Encrypted text
// ---------------------------------------------------------------------------

/// The text that carries an update: the nonce and the ciphertext behind it, in Base64.
pub open spec fn relay_sealed(key: Seq<u8>, nonce: Seq<u8>, plaintext: Seq<u8>) -> Seq<char> {
    encoding::base64_text(nonce + aead::aes_gcm_sealed(key, nonce, plaintext))
}

/// The update in a text; `None` where the text is no Base64, is shorter than a nonce, or was not
/// made with the key.
pub open spec fn relay_opened(key: Seq<u8>, ct: Seq<char>) -> Option<Seq<u8>> {
    match encoding::base64_bytes(ct) {
        None => None,
        Some(raw) => if raw.len() < aead::NONCE_SIZE {
            None
        } else {
            aead::aes_gcm_opened(
                key,
                raw.take(aead::NONCE_SIZE as int),
                raw.skip(aead::NONCE_SIZE as int),
            )
        },
    }
}

/// The text that carries an update under the given nonce. `None` where the update is too long to be
/// encrypted.
pub fn seal_relay_with(key: &[u8; 32], nonce: &[u8; 12], plaintext: &[u8]) -> (r: Option<String>)
    ensures
        r is Some <==> plaintext@.len() <= aead::MAX_PLAINTEXT,
        r matches Some(ct) ==> ct@ == relay_sealed(key@, nonce@, plaintext@) && relay_opened(
            key@,
            ct@,
        ) == Some(plaintext@),
{
    match encrypt(key, nonce, plaintext) {
        Ok(c) => {
            let blob = bytes::concat(nonce, &c);
            assert(blob@.take(12) =~= nonce@);
            assert(blob@.skip(12) =~= c@);
            Some(base64_encode(&blob))
        },
        Err(_) => None,
    }
}

/// The text that carries an update, under a random nonce.
pub fn seal_relay(key: &[u8; 32], plaintext: &[u8]) -> (r: Option<String>)
    ensures
        r is Some <==> plaintext@.len() <= aead::MAX_PLAINTEXT,
        r matches Some(ct) ==> relay_opened(key@, ct@) == Some(plaintext@),
{
    let nonce = random_nonce();
    seal_relay_with(key, &nonce, plaintext)
}

/// The update in a text.
pub fn open_relay(key: &[u8; 32], ct: &str) -> (r: Option<Vec<u8>>)
    ensures
        match r {
            Some(p) => relay_opened(key@, ct@) == Some(p@),
            None => relay_opened(key@, ct@) is None,
        },
{
    match base64_decode(ct) {
        Ok(raw) => {
            let n: usize = raw.len();
            if n < 12 {
                return None;
            }
            let mut nonce = [0u8; 12];
            let mut i: usize = 0;
            while i < 12
                invariant
                    i <= 12,
                    n == raw@.len(),
                    n >= 12,
                    forall|k: int| 0 <= k < i ==> nonce@[k] == raw@[k],
                decreases 12 - i,
            {
                nonce[i] = raw[i];
                i += 1;
            }
            let cipher = bytes::range(&raw, 12, n);
            assert(nonce@ =~= raw@.take(12));
            assert(cipher@ =~= raw@.skip(12));
            match decrypt(key, &nonce, &cipher) {
                Ok(p) => Some(p),
                Err(_) => None,
            }
        },
        Err(_) => None,
    }
}

// ---------------------------------------------------------------------------
// Lists of files, for the log
// ---------------------------------------------------------------------------

/// What is read of an entry of a list of files.
pub struct ManifestItem {
    pub file_name: Option<String>,
    pub file_size: Option<u64>,
}

/// How many names are listed at most.
pub const MAX_LISTED_NAMES: usize = 8;

/// The first eight names.
pub open spec fn listed_names(items: Seq<ManifestItem>) -> Seq<Seq<char>>
    decreases items.len(),
{
    if items.len() == 0 {
        seq![]
    } else {
        let init = listed_names(items.drop_last());
        if init.len() < MAX_LISTED_NAMES && items.last().file_name is Some {
            init.push(items.last().file_name->0@)
        } else {
            init
        }
    }
}

/// The sum of the sizes that are given.
pub open spec fn listed_size(items: Seq<ManifestItem>) -> nat
    decreases items.len(),
{
    if items.len() == 0 {
        0
    } else {
        listed_size(items.drop_last()) + match items.last().file_size {
            Some(n) => n as nat,
            None => 0,
        }
    }
}

/// What is said of a list of files: the first names, and how many entries there are where not all
/// are named.
pub open spec fn manifest_text(items: Seq<ManifestItem>) -> Seq<char> {
    let names = listed_names(items);
    text::joined(names, "、"@) + if items.len() > names.len() {
        "…共 "@ + text::dec(items.len()) + " 个"@
    } else {
        seq![]
    }
}

/// The number of entries of a list of files, their size, and their names. `None` stands for what is
/// no list.
pub fn summarize_manifest(manifest: Option<&[ManifestItem]>) -> (r: (usize, u64, String))
    ensures
        match manifest {
            None => r.0 == 0 && r.1 == 0 && r.2@ == "<manifest 不是数组>"@,
            Some(items) => {
                &&& r.0 == items@.len()
                &&& r.1 == if listed_size(items@) <= u64::MAX {
                    listed_size(items@)
                } else {
                    u64::MAX as nat
                }
                &&& r.2@ == manifest_text(items@)
            },
        },
{
    let items = match manifest {
        Some(items) => items,
        None => {
            return (0, 0, "<manifest 不是数组>".to_owned());
        },
    };
    let n: usize = items.len();
    let mut total: u64 = 0;
    let mut names: Vec<String> = Vec::new();
    let mut i: usize = 0;
    assert(text::views(names@) =~= listed_names(items@.take(0)));
    while i < n
        invariant
            n == items@.len(),
            i <= n,
            total == if listed_size(items@.take(i as int)) <= u64::MAX {
                listed_size(items@.take(i as int))
            } else {
                u64::MAX as nat
            },
            text::views(names@) == listed_names(items@.take(i as int)),
        decreases n - i,
    {
        assert(items@.take(i + 1).drop_last() =~= items@.take(i as int));
        let size: u64 = match items[i].file_size {
            Some(s) => s,
            None => 0,
        };
        total = total.saturating_add(size);
        if names.len() < MAX_LISTED_NAMES {
            match &items[i].file_name {
                Some(name) => {
                    let s = name.clone();
                    proof {
                        text::lemma_views_push(names@, s);
                    }
                    names.push(s);
                },
                None => {},
            }
        }
        i += 1;
    }
    assert(items@.take(n as int) =~= items@);
    let mut said = join(&names, "、");
    if n > names.len() {
        said.append("…共 ");
        said.append(to_dec(n as u64).as_str());
        said.append(" 个");
    }
    assert(said@ =~= manifest_text(items@));
    (n, total, said)
}

// ---------------------------------------------------------------------------
// The connection
// ---------------------------------------------------------------------------

/// The name of the device `id`: the one that the server gives, else the identifier.
pub open spec fn node_name_spec(nodes: Seq<RemoteNode>, id: Seq<char>) -> Seq<char>
    decreases nodes.len(),
{
    if nodes.len() == 0 {
        id
    } else if nodes[0].device_id@ == id {
        nodes[0].name@
    } else {
        node_name_spec(nodes.drop_first(), id)
    }
}

/// The devices that may be in another local network than this one.
pub open spec fn far_nodes(nodes: Seq<RemoteNode>, group: Seq<char>) -> Seq<Seq<char>>
    decreases nodes.len(),
{
    if nodes.len() == 0 {
        seq![]
    } else {
        let init = far_nodes(nodes.drop_last(), group);
        if lan::differ(group, nodes.last().lan_group@) {
            init.push(nodes.last().device_id@)
        } else {
            init
        }
    }
}

/// An offer with the given parts.
pub open spec fn is_offer(
    o: CrossLanOffer,
    nodes: Seq<RemoteNode>,
    from: Seq<char>,
    manifest: Seq<char>,
    ext_file_ep: Seq<char>,
    now: u64,
) -> bool {
    &&& o.from@ == from
    &&& o.from_name@ == node_name_spec(nodes, from)
    &&& o.manifest@ == manifest
    &&& o.ext_file_ep@ == ext_file_ep
    &&& o.received_at == now
}

/// The messages that carry `plaintext` to the devices `ids`.
pub open spec fn carries(
    msgs: Seq<ClientToServer>,
    ids: Seq<Seq<char>>,
    key: Seq<u8>,
    plaintext: Seq<u8>,
) -> bool {
    &&& msgs.len() == ids.len()
    &&& forall|i: int|
        0 <= i < msgs.len() ==> {
            &&& #[trigger] msgs[i] is RelayText
            &&& msgs[i]->RelayText_to@ == ids[i]
            &&& relay_opened(key, msgs[i]->RelayText_ct@) == Some(plaintext)
        }
}

impl ServerConn {
    /// No connection, and nothing known of the network.
    pub fn new() -> (r: Self)
        ensures
            r.status is Disconnected,
            r.network_id@ == ""@,
            r.network_key is None,
            r.nodes@ == Seq::<RemoteNode>::empty(),
            r.our_lan_group@ == ""@,
            !r.removed,
            !r.auth_fail_notified,
            r.cross_pull_cancel@ == Set::<Seq<char>>::empty(),
            r.cross_pull_origin@ == Map::<Seq<char>, CrossLanOffer>::empty(),
            r.cached_hw_id@ == ""@,
            r.cached_os_ver@ == ""@,
    {
        ServerConn {
            status: ServerStatus::Disconnected,
            network_id: "".to_owned(),
            network_key: None,
            nodes: Vec::new(),
            our_lan_group: "".to_owned(),
            removed: false,
            auth_fail_notified: false,
            cross_pull_cancel: StrSet::new(),
            cross_pull_origin: StrMap::new(),
            cached_hw_id: "".to_owned(),
            cached_os_ver: "".to_owned(),
        }
    }

    /// Whether this device takes part in its network.
    pub fn status(&self) -> (r: ServerStatus)
        ensures
            r == self.status,
    {
        self.status
    }

    /// The devices of the network.
    pub fn nodes(&self) -> (r: Vec<RemoteNode>)
        ensures
            r@ == self.nodes@,
    {
        let r = self.nodes.clone();
        assert(r@ =~= self.nodes@);
        r
    }

    /// Keeps what was found out of the machine. The hardware identifier is kept once.
    pub fn remember_device_info(&mut self, hardware_id: String, os_version: String)
        ensures
            *final(self) == (ServerConn {
                cached_hw_id: if old(self).cached_hw_id@.len() == 0 {
                    hardware_id
                } else {
                    old(self).cached_hw_id
                },
                cached_os_ver: os_version,
                ..*old(self)
            }),
    {
        if self.cached_hw_id.as_str().is_empty() {
            self.cached_hw_id = hardware_id;
        }
        self.cached_os_ver = os_version;
    }

    /// The first message on a connection. A blank token is an error. While the hardware identifier is
    /// not known, the device's own identifier stands for it.
    pub fn auth_message(
        &self,
        token: &str,
        device_id: &str,
        device_name: &str,
        ext_file_ep: &str,
        platform: &str,
    ) -> (r: Result<ClientToServer, String>)
        ensures
            r is Err <==> text::trimmed(token@).len() == 0,
            match r {
                Ok(m) => {
                    &&& m is Auth
                    &&& m->Auth_token@ == token@
                    &&& m->Auth_device.id@ == device_id@
                    &&& m->Auth_device.name@ == device_name@
                    &&& m->Auth_device.lan_group@ == self.our_lan_group@
                    &&& m->Auth_device.ext_file_ep@ == ext_file_ep@
                    &&& m->Auth_device.platform@ == platform@
                    &&& m->Auth_device.hardware_id@ == if self.cached_hw_id@.len() == 0 {
                        device_id@
                    } else {
                        self.cached_hw_id@
                    }
                    &&& m->Auth_device.os_version@ == self.cached_os_ver@
                },
                Err(e) => e@ == "network_token 为空，无法连接服务端"@,
            },
    {
        if trim(token).as_str().is_empty() {
            return Err("network_token 为空，无法连接服务端".to_owned());
        }
        let hardware_id = if self.cached_hw_id.as_str().is_empty() {
            device_id.to_owned()
        } else {
            self.cached_hw_id.clone()
        };
        Ok(
            ClientToServer::Auth {
                token: token.to_owned(),
                device: DeviceFields {
                    id: device_id.to_owned(),
                    name: device_name.to_owned(),
                    lan_group: self.our_lan_group.clone(),
                    ext_file_ep: ext_file_ep.to_owned(),
                    platform: platform.to_owned(),
                    hardware_id,
                    os_version: self.cached_os_ver.clone(),
                },
            },
        )
    }

    fn node_name(&self, id: &str) -> (r: String)
        ensures
            r@ == node_name_spec(self.nodes@, id@),
    {
        let n: usize = self.nodes.len();
        let mut i: usize = 0;
        assert(self.nodes@.skip(0) =~= self.nodes@);
        while i < n
            invariant
                n == self.nodes@.len(),
                i <= n,
                node_name_spec(self.nodes@.skip(i as int), id@) == node_name_spec(self.nodes@, id@),
            decreases n - i,
        {
            let ghost rest = self.nodes@.skip(i as int);
            assert(rest[0] == self.nodes@[i as int]);
            assert(rest.drop_first() =~= self.nodes@.skip(i + 1));
            if same(self.nodes[i].device_id.as_str(), id) {
                return self.nodes[i].name.clone();
            }
            i += 1;
        }
        id.to_owned()
    }

    /// The devices of the network are these.
    pub fn update_nodes(&mut self, nodes: Vec<RemoteNode>)
        ensures
            *final(self) == (ServerConn { nodes, ..*old(self) }),
    {
        self.nodes = nodes;
    }

    /// The update in a text that another device sent. `None` where there is no key yet or the text
    /// cannot be read.
    pub fn handle_relay_text(&self, ct: &str) -> (r: Option<Vec<u8>>)
        ensures
            match r {
                Some(p) => self.network_key is Some && relay_opened(self.network_key->0@, ct@) == Some(
                    p@,
                ),
                None => self.network_key is None || relay_opened(self.network_key->0@, ct@) is None,
            },
    {
        match &self.network_key {
            Some(key) => open_relay(key, ct),
            None => None,
        }
    }

    /// What is shown of files that another device offers.
    pub fn handle_file_notify(&self, from: &str, manifest: &str, ext_file_ep: &str, now: u64) -> (r:
        CrossLanOffer)
        ensures
            is_offer(r, self.nodes@, from@, manifest@, ext_file_ep@, now),
    {
        CrossLanOffer {
            from: from.to_owned(),
            from_name: self.node_name(from),
            manifest: manifest.to_owned(),
            ext_file_ep: ext_file_ep.to_owned(),
            received_at: now,
        }
    }

    /// A frame came from the server. `token` is the network's token, `now` the time in milliseconds
    /// since the Unix epoch.
    pub fn handle_server_message(&mut self, frame: ServerFrame, token: &str, now: u64) -> (r: Reaction)
        ensures
            match frame {
                ServerFrame::Close => r.is_quiet() && !r.keep && *final(self) == *old(self),
                ServerFrame::Ping => {
                    &&& r.keep && r.pong
                    &&& (Reaction { pong: false, ..r }).is_quiet()
                    &&& *final(self) == *old(self)
                },
                ServerFrame::Unreadable | ServerFrame::Other => r.is_quiet() && r.keep && *final(self)
                    == *old(self),
                ServerFrame::Message(m) => match m {
                    ServerToClient::Welcome { status, network_id, nodes } => {
                        let s = ServerStatus::from_str_spec(status@);
                        &&& r.keep
                        &&& r.outcome == Some(ConnectOutcome::Authed)
                        &&& r.status == Some(s.code_spec())
                        &&& r.show_nodes
                        &&& (Reaction { outcome: None, status: None, show_nodes: false, ..r }).is_quiet()
                        &&& final(self).network_key is Some
                        &&& final(self).network_key->0@ == kdf::hkdf_sha256(
                            text::utf8(token@),
                            text::utf8(network_id@),
                            32,
                        )
                        &&& *final(self) == (ServerConn {
                            status: s,
                            network_id,
                            network_key: final(self).network_key,
                            nodes,
                            removed: false,
                            ..*old(self)
                        })
                    },
                    ServerToClient::Activated => {
                        &&& r.keep && r.status == Some(2u8)
                        &&& (Reaction { status: None, ..r }).is_quiet()
                        &&& *final(self) == (ServerConn { status: ServerStatus::Active, ..*old(self) })
                    },
                    ServerToClient::Deactivated => {
                        &&& r.keep && r.status == Some(1u8)
                        &&& (Reaction { status: None, ..r }).is_quiet()
                        &&& *final(self) == (ServerConn { status: ServerStatus::Pending, ..*old(self) })
                    },
                    ServerToClient::Removed => {
                        &&& !r.keep && r.status == Some(0u8) && r.tell_removed
                        &&& (Reaction { status: None, tell_removed: false, ..r }).is_quiet()
                        &&& *final(self) == (ServerConn {
                            status: ServerStatus::Disconnected,
                            removed: true,
                            ..*old(self)
                        })
                    },
                    ServerToClient::NodesUpdate { nodes } => {
                        &&& r.keep && r.show_nodes
                        &&& (Reaction { show_nodes: false, ..r }).is_quiet()
                        &&& *final(self) == (ServerConn { nodes, ..*old(self) })
                    },
                    ServerToClient::RelayText { from, ct } => {
                        &&& r.keep
                        &&& (Reaction { relay: None, ..r }).is_quiet()
                        &&& match r.relay {
                            Some(p) => old(self).network_key is Some && relay_opened(
                                old(self).network_key->0@,
                                ct@,
                            ) == Some(p@),
                            None => old(self).network_key is None || relay_opened(
                                old(self).network_key->0@,
                                ct@,
                            ) is None,
                        }
                        &&& *final(self) == *old(self)
                    },
                    ServerToClient::FileNotify { from, manifest, ext_file_ep } => {
                        &&& r.keep && r.offer is Some
                        &&& (Reaction { offer: None, ..r }).is_quiet()
                        &&& is_offer(r.offer->0, old(self).nodes@, from@, manifest@, ext_file_ep@, now)
                        &&& *final(self) == *old(self)
                    },
                    ServerToClient::HeartbeatAck => r.is_quiet() && r.keep && *final(self) == *old(self),
                    ServerToClient::Error { code, msg } => {
                        &&& r.keep == (code@ != "bad_token"@)
                        &&& r.outcome == if code@ == "bad_token"@ {
                            Some(ConnectOutcome::AuthRejected)
                        } else {
                            None
                        }
                        &&& (Reaction { outcome: None, ..r }).is_quiet()
                        &&& *final(self) == *old(self)
                    },
                },
            },
    {
        let message = match frame {
            ServerFrame::Message(m) => m,
            ServerFrame::Close => {
                return Reaction::quiet(false);
            },
            ServerFrame::Ping => {
                let mut r = Reaction::quiet(true);
                r.pong = true;
                return r;
            },
            ServerFrame::Unreadable | ServerFrame::Other => {
                return Reaction::quiet(true);
            },
        };
        let mut r = Reaction::quiet(true);
        match message {
            ServerToClient::Welcome { status, network_id, nodes } => {
                let s = ServerStatus::from_str(status.as_str());
                self.network_key = Some(derive_network_key(token, network_id.as_str()));
                self.network_id = network_id;
                self.removed = false;
                self.status = s;
                self.update_nodes(nodes);
                r.outcome = Some(ConnectOutcome::Authed);
                r.status = Some(s.code());
                r.show_nodes = true;
            },
            ServerToClient::Activated => {
                self.status = ServerStatus::Active;
                r.status = Some(ServerStatus::Active.code());
            },
            ServerToClient::Deactivated => {
                self.status = ServerStatus::Pending;
                r.status = Some(ServerStatus::Pending.code());
            },
            ServerToClient::Removed => {
                self.removed = true;
                self.status = ServerStatus::Disconnected;
                r.keep = false;
                r.status = Some(ServerStatus::Disconnected.code());
                r.tell_removed = true;
            },
            ServerToClient::NodesUpdate { nodes } => {
                self.update_nodes(nodes);
                r.show_nodes = true;
            },
            ServerToClient::RelayText { from: _, ct } => {
                r.relay = self.handle_relay_text(ct.as_str());
            },
            ServerToClient::FileNotify { from, manifest, ext_file_ep } => {
                r.offer = Some(
                    self.handle_file_notify(
                        from.as_str(),
                        manifest.as_str(),
                        ext_file_ep.as_str(),
                        now,
                    ),
                );
            },
            ServerToClient::HeartbeatAck => {},
            ServerToClient::Error { code, msg: _ } => {
                if same(code.as_str(), "bad_token") {
                    r.outcome = Some(ConnectOutcome::AuthRejected);
                    r.keep = false;
                }
            },
        }
        r
    }

    /// The messages that carry an update of this device's clipboard to the devices that may be in
    /// another local network. There are none unless the device takes part in the network and has its
    /// key. Each message has a nonce of its own.
    pub fn route_text(&self, plaintext: &[u8]) -> (r: Vec<ClientToServer>)
        ensures
            if self.status is Active && self.network_key is Some && plaintext@.len()
                <= aead::MAX_PLAINTEXT {
                carries(
                    r@,
                    far_nodes(self.nodes@, self.our_lan_group@),
                    self.network_key->0@,
                    plaintext@,
                )
            } else {
                r@.len() == 0
            },
    {
        let mut out: Vec<ClientToServer> = Vec::new();
        match self.status {
            ServerStatus::Active => {},
            _ => {
                return out;
            },
        }
        let key = match &self.network_key {
            Some(k) => k,
            None => {
                return out;
            },
        };
        let n: usize = self.nodes.len();
        let ghost fits = plaintext@.len() <= aead::MAX_PLAINTEXT;
        let ghost group = self.our_lan_group@;
        let mut i: usize = 0;
        while i < n
            invariant
                n == self.nodes@.len(),
                i <= n,
                group == self.our_lan_group@,
                fits == (plaintext@.len() <= aead::MAX_PLAINTEXT),
                fits ==> carries(
                    out@,
                    far_nodes(self.nodes@.take(i as int), group),
                    key@,
                    plaintext@,
                ),
                !fits ==> out@.len() == 0,
            decreases n - i,
        {
            assert(self.nodes@.take(i + 1).drop_last() =~= self.nodes@.take(i as int));
            if lan_differ(self.our_lan_group.as_str(), self.nodes[i].lan_group.as_str()) {
                match seal_relay(key, plaintext) {
                    Some(ct) => {
                        out.push(
                            ClientToServer::RelayText { to: self.nodes[i].device_id.clone(), ct },
                        );
                    },
                    None => {},
                }
            }
            i += 1;
        }
        assert(self.nodes@.take(n as int) =~= self.nodes@);
        out
    }

    /// Whether files that were copied here are to be offered through the server: the device takes
    /// part, has an address under which others reach it, and some device may be in another local
    /// network.
    pub fn offers_files(&self, ext_file_ep: &str) -> (r: bool)
        ensures
            r == (self.status is Active && text::trimmed(ext_file_ep@).len() > 0 && exists|i: int|
                0 <= i < self.nodes@.len() && lan::differ(
                    self.our_lan_group@,
                    (#[trigger] self.nodes@[i]).lan_group@,
                )),
    {
        match self.status {
            ServerStatus::Active => {},
            _ => {
                return false;
            },
        }
        if trim(ext_file_ep).as_str().is_empty() {
            return false;
        }
        let n: usize = self.nodes.len();
        let mut i: usize = 0;
        while i < n
            invariant
                n == self.nodes@.len(),
                i <= n,
                self.status is Active,
                text::trimmed(ext_file_ep@).len() > 0,
                forall|k: int|
                    0 <= k < i ==> !lan::differ(
                        self.our_lan_group@,
                        (#[trigger] self.nodes@[k]).lan_group@,
                    ),
            decreases n - i,
        {
            if lan_differ(self.our_lan_group.as_str(), self.nodes[i].lan_group.as_str()) {
                return true;
            }
            i += 1;
        }
        false
    }

    /// The configuration has changed: connect again at once, as if nothing had been refused before.
    pub fn reconnect(&mut self)
        ensures
            *final(self) == (ServerConn { removed: false, auth_fail_notified: false, ..*old(self) }),
    {
        self.removed = false;
        self.auth_fail_notified = false;
    }

    /// Takes out the offer behind a fetch.
    pub fn take_cross_pull_origin(&mut self, pull_id: &str) -> (r: Option<CrossLanOffer>)
        ensures
            final(self).cross_pull_origin@ == old(self).cross_pull_origin@.remove(pull_id@),
            *final(self) == (ServerConn {
                cross_pull_origin: final(self).cross_pull_origin,
                ..*old(self)
            }),
            match r {
                Some(o) => old(self).cross_pull_origin@.dom().contains(pull_id@) && o
                    == old(self).cross_pull_origin@[pull_id@],
                None => !old(self).cross_pull_origin@.dom().contains(pull_id@),
            },
    {
        self.cross_pull_origin.remove(pull_id)
    }

    /// Forgets the offer behind a fetch.
    pub fn drop_cross_pull_origin(&mut self, pull_id: &str)
        ensures
            final(self).cross_pull_origin@ == old(self).cross_pull_origin@.remove(pull_id@),
            *final(self) == (ServerConn {
                cross_pull_origin: final(self).cross_pull_origin,
                ..*old(self)
            }),
    {
        let _ = self.cross_pull_origin.remove(pull_id);
    }

    /// Asks for a fetch to be given up. The fetch sees it before its next file and between two pieces
    /// of one. Returns whether it was not asked for before.
    pub fn cancel_cross_pull(&mut self, pull_id: &str) -> (r: bool)
        ensures
            final(self).cross_pull_cancel@ == old(self).cross_pull_cancel@.insert(pull_id@),
            *final(self) == (ServerConn {
                cross_pull_cancel: final(self).cross_pull_cancel,
                ..*old(self)
            }),
            r == !old(self).cross_pull_cancel@.contains(pull_id@),
    {
        self.cross_pull_cancel.insert(pull_id.to_owned())
    }

    /// Whether a fetch is to be given up. It is asked for once: the next call says no.
    pub fn take_cancel(&mut self, pull_id: &str) -> (r: bool)
        ensures
            final(self).cross_pull_cancel@ == old(self).cross_pull_cancel@.remove(pull_id@),
            *final(self) == (ServerConn {
                cross_pull_cancel: final(self).cross_pull_cancel,
                ..*old(self)
            }),
            r == old(self).cross_pull_cancel@.contains(pull_id@),
    {
        self.cross_pull_cancel.remove(pull_id)
    }

    /// Keeps the offer behind a fetch, and forgets that an earlier fetch of it was given up.
    pub fn begin_cross_pull(
        &mut self,
        pull_id: &str,
        from: &str,
        manifest: &str,
        ext_file_ep: &str,
        now: u64,
    )
        ensures
            final(self).cross_pull_origin@.dom() == old(self).cross_pull_origin@.dom().insert(pull_id@),
            is_offer(
                final(self).cross_pull_origin@[pull_id@],
                old(self).nodes@,
                from@,
                manifest@,
                ext_file_ep@,
                now,
            ),
            forall|k: Seq<char>|
                k != pull_id@ ==> #[trigger] final(self).cross_pull_origin@[k]
                    == old(self).cross_pull_origin@[k],
            final(self).cross_pull_cancel@ == old(self).cross_pull_cancel@.remove(pull_id@),
            *final(self) == (ServerConn {
                cross_pull_origin: final(self).cross_pull_origin,
                cross_pull_cancel: final(self).cross_pull_cancel,
                ..*old(self)
            }),
    {
        let offer = self.handle_file_notify(from, manifest, ext_file_ep, now);
        let _ = self.cross_pull_origin.insert(pull_id.to_owned(), offer);
        let _ = self.cross_pull_cancel.remove(pull_id);
    }
}

/// Whether a connection is dead: nothing has come in for ninety seconds, though the server answers
/// every heartbeat. Both times are in milliseconds.
pub fn link_is_dead(last_received: u64, now: u64) -> (r: bool)
    ensures
        r == (now - last_received >= READ_DEADLINE_MS),
{
    now >= last_received && now - last_received >= READ_DEADLINE_MS
}

// ---------------------------------------------------------------------------
// Connecting again and again
// ---------------------------------------------------------------------------

/// The waits between connections.
pub struct Reconnector {
    /// How long to wait after the next connection, in seconds.
    pub backoff: u64,
}

impl Reconnector {
    /// The waits stay between two seconds and a minute.
    pub open spec fn wf(&self) -> bool {
        MIN_BACKOFF_SECS <= self.backoff <= MAX_BACKOFF_SECS
    }

    /// Before the first connection.
    pub fn new() -> (r: Self)
        ensures
            r.wf(),
            r.backoff == MIN_BACKOFF_SECS,
    {
        Reconnector { backoff: MIN_BACKOFF_SECS }
    }

    /// Before a connection: how long to wait first, which is only where the server has removed this
    /// device. It tries again all the same: it may have been let in again.
    pub fn before(&self, conn: &mut ServerConn) -> (r: Option<u64>)
        ensures
            if old(conn).removed {
                r == Some(REMOVED_WAIT_SECS) && *final(conn) == (ServerConn {
                    status: ServerStatus::Disconnected,
                    ..*old(conn)
                })
            } else {
                r is None && *final(conn) == *old(conn)
            },
    {
        if conn.removed {
            conn.status = ServerStatus::Disconnected;
            Some(REMOVED_WAIT_SECS)
        } else {
            None
        }
    }

    /// After that wait. `woken` says that it ended because the configuration had changed.
    pub fn after_removed_wait(&mut self, woken: bool)
        requires
            old(self).wf(),
        ensures
            final(self).wf(),
            final(self).backoff == if woken {
                MIN_BACKOFF_SECS
            } else {
                old(self).backoff
            },
    {
        if woken {
            self.backoff = MIN_BACKOFF_SECS;
        }
    }

    /// The server's address was read. Without one nothing is connected, and the wait is returned;
    /// else the connection is made, in the given local network.
    pub fn target(&self, conn: &mut ServerConn, url: &str, lan_group: String) -> (r: Option<u64>)
        ensures
            if url@.len() == 0 {
                r == Some(UNCONFIGURED_WAIT_SECS) && *final(conn) == (ServerConn {
                    status: ServerStatus::Disconnected,
                    ..*old(conn)
                })
            } else {
                r is None && *final(conn) == (ServerConn { our_lan_group: lan_group, ..*old(conn) })
            },
    {
        if url.is_empty() {
            conn.status = ServerStatus::Disconnected;
            Some(UNCONFIGURED_WAIT_SECS)
        } else {
            conn.our_lan_group = lan_group;
            None
        }
    }

    /// A connection has ended, or could not be made (`None`). Returns whether it is to be told that
    /// the server does not know the token, which is told once, and how long to wait.
    ///
    /// After a connection on which the device was let in, the wait is short again; where the token
    /// was refused it is long, for that is no trouble with the network.
    pub fn ended(&mut self, conn: &mut ServerConn, outcome: Option<ConnectOutcome>) -> (r: (bool, u64))
        requires
            old(self).wf(),
        ensures
            final(self).wf(),
            final(self).backoff == match outcome {
                Some(ConnectOutcome::Authed) => MIN_BACKOFF_SECS,
                Some(ConnectOutcome::AuthRejected) => MAX_BACKOFF_SECS,
                _ => old(self).backoff,
            },
            r.1 == final(self).backoff,
            r.0 == (outcome == Some(ConnectOutcome::AuthRejected) && !old(conn).auth_fail_notified),
            *final(conn) == (ServerConn {
                status: ServerStatus::Disconnected,
                auth_fail_notified: match outcome {
                    Some(ConnectOutcome::Authed) => false,
                    Some(ConnectOutcome::AuthRejected) => true,
                    _ => old(conn).auth_fail_notified,
                },
                ..*old(conn)
            }),
    {
        let mut tell = false;
        match outcome {
            Some(ConnectOutcome::Authed) => {
                self.backoff = MIN_BACKOFF_SECS;
                conn.auth_fail_notified = false;
            },
            Some(ConnectOutcome::AuthRejected) => {
                tell = !conn.auth_fail_notified;
                conn.auth_fail_notified = true;
                if self.backoff < MAX_BACKOFF_SECS {
                    self.backoff = MAX_BACKOFF_SECS;
                }
            },
            _ => {},
        }
        conn.status = ServerStatus::Disconnected;
        (tell, self.backoff)
    }

    /// After the wait: the next one is twice as long, up to a minute.
    pub fn waited(&mut self)
        requires
            old(self).wf(),
        ensures
            final(self).wf(),
            final(self).backoff == if old(self).backoff * 2 <= MAX_BACKOFF_SECS {
                (old(self).backoff * 2) as u64
            } else {
                MAX_BACKOFF_SECS
            },
    {
        let twice: u64 = self.backoff * 2;
        self.backoff = if twice <= MAX_BACKOFF_SECS {
            twice
        } else {
            MAX_BACKOFF_SECS
        };
    }
}

/// Every device that may be in another local network is addressed, and no other one; each as often as
/// the server lists it, in the order of the list.
pub proof fn law_every_far_device_is_addressed(nodes: Seq<RemoteNode>, group: Seq<char>, id: Seq<char>)
    ensures
        far_nodes(nodes, group).contains(id) <==> exists|i: int|
            0 <= i < nodes.len() && lan::differ(group, (#[trigger] nodes[i]).lan_group@)
                && nodes[i].device_id@ == id,
        (forall|i: int| 0 <= i < nodes.len() ==> lan::differ(group, (#[trigger] nodes[i]).lan_group@))
            ==> far_nodes(nodes, group).len() == nodes.len(),
    decreases nodes.len(),
{
    let f = far_nodes(nodes, group);
    if nodes.len() > 0 {
        let n = nodes.len() - 1;
        let init = nodes.drop_last();
        let g = far_nodes(init, group);
        law_every_far_device_is_addressed(init, group, id);
        assert(forall|i: int| 0 <= i < n ==> #[trigger] init[i] == nodes[i]);
        assert(nodes[n] == nodes.last());
        if f.contains(id) {
            let k = choose|k: int| 0 <= k < f.len() && f[k] == id;
            if k < g.len() {
                assert(g[k] == id);
                let i = choose|i: int|
                    0 <= i < init.len() && lan::differ(group, (#[trigger] init[i]).lan_group@)
                        && init[i].device_id@ == id;
                assert(nodes[i] == init[i]);
            } else {
                assert(nodes[n].device_id@ == id);
            }
        }
        if exists|i: int|
            0 <= i < nodes.len() && lan::differ(group, (#[trigger] nodes[i]).lan_group@)
                && nodes[i].device_id@ == id {
            let i = choose|i: int|
                0 <= i < nodes.len() && lan::differ(group, (#[trigger] nodes[i]).lan_group@)
                    && nodes[i].device_id@ == id;
            if i < n {
                assert(init[i].device_id@ == id);
                let k = choose|k: int| 0 <= k < g.len() && g[k] == id;
                assert(f[k] == id);
            } else {
                assert(f[f.len() - 1] == id);
            }
        }
    }
}

/// A text that is relayed goes to every device that may be in another local network: for each of them
/// there is a message, addressed to it, that opens to the text under the network's key.
pub proof fn law_relayed_text_reaches_every_far_device(
    msgs: Seq<ClientToServer>,
    nodes: Seq<RemoteNode>,
    group: Seq<char>,
    key: Seq<u8>,
    plaintext: Seq<u8>,
    i: int,
)
    requires
        carries(msgs, far_nodes(nodes, group), key, plaintext),
        0 <= i < nodes.len(),
        lan::differ(group, nodes[i].lan_group@),
    ensures
        exists|k: int|
            0 <= k < msgs.len() && (#[trigger] msgs[k] matches ClientToServer::RelayText { to, ct } && to@
                == nodes[i].device_id@ && relay_opened(key, ct@) == Some(plaintext)),
{
    law_every_far_device_is_addressed(nodes, group, nodes[i].device_id@);
    let f = far_nodes(nodes, group);
    let k = choose|k: int| 0 <= k < f.len() && f[k] == nodes[i].device_id@;
    assert(msgs[k] is RelayText);
}

/// A text is relayed to nobody in the device's own local network.
pub proof fn law_relayed_text_goes_to_far_devices_only(
    msgs: Seq<ClientToServer>,
    nodes: Seq<RemoteNode>,
    group: Seq<char>,
    key: Seq<u8>,
    plaintext: Seq<u8>,
    k: int,
)
    requires
        carries(msgs, far_nodes(nodes, group), key, plaintext),
        0 <= k < msgs.len(),
    ensures
        msgs[k] is RelayText,
        exists|i: int|
            0 <= i < nodes.len() && lan::differ(group, (#[trigger] nodes[i]).lan_group@)
                && nodes[i].device_id@ == msgs[k]->RelayText_to@,
{
    let f = far_nodes(nodes, group);
    assert(f[k] == msgs[k]->RelayText_to@);
    law_every_far_device_is_addressed(nodes, group, f[k]);
}

/// A relayed text is the Base64 of twelve bytes of nonce and the ciphertext behind them.
pub proof fn law_relayed_text_is_nonce_and_ciphertext(
    key: Seq<u8>,
    ct: Seq<char>,
    nonce: Seq<u8>,
    cipher: Seq<u8>,
)
    requires
        nonce.len() == 12,
        encoding::base64_decoded(ct) is Ok,
    ensures
        encoding::base64_decoded(ct)->Ok_0 == nonce + cipher ==> relay_opened(key, ct)
            == aead::aes_gcm_opened(key, nonce, cipher),
        encoding::base64_decoded(ct)->Ok_0.len() < 12 ==> relay_opened(key, ct) is None,
        relay_sealed(key, nonce, cipher) == encoding::base64_text(
            nonce + aead::aes_gcm_sealed(key, nonce, cipher),
        ),
{
    let raw = nonce + cipher;
    assert(raw.take(12) =~= nonce);
    assert(raw.skip(12) =~= cipher);
}

/// The name of a device is the one that the server gives first; a device that the server does not list
/// goes by its identifier.
pub proof fn law_listed_devices_have_their_name(nodes: Seq<RemoteNode>, id: Seq<char>, i: int)
    ensures
        0 <= i < nodes.len() && nodes[i].device_id@ == id && (forall|k: int|
            0 <= k < i ==> (#[trigger] nodes[k]).device_id@ != id) ==> node_name_spec(nodes, id)
            == nodes[i].name@,
        (forall|k: int| 0 <= k < nodes.len() ==> (#[trigger] nodes[k]).device_id@ != id)
            ==> node_name_spec(nodes, id) == id,
    decreases nodes.len(),
{
    if nodes.len() > 0 {
        let t = nodes.drop_first();
        law_listed_devices_have_their_name(t, id, i - 1);
        assert(forall|k: int| 0 <= k < t.len() ==> #[trigger] t[k] == nodes[k + 1]);
        if nodes[0].device_id@ != id {
            if 0 <= i < nodes.len() && nodes[i].device_id@ == id {
                assert(t[i - 1] == nodes[i]);
            }
        }
    }
}

/// Of a list of files the names of the first eight that have one are given, in their order, and the
/// sizes of all.
pub proof fn law_summaries_name_eight_files(items: Seq<ManifestItem>, last: ManifestItem)
    ensures
        listed_names(seq![]) == Seq::<Seq<char>>::empty(),
        listed_size(seq![]) == 0,
        listed_names(items).len() <= 8,
        last.file_name is Some && listed_names(items).len() < 8 ==> listed_names(items.push(last))
            == listed_names(items).push(last.file_name->0@),
        last.file_name is None || listed_names(items).len() == 8 ==> listed_names(items.push(last))
            == listed_names(items),
        last.file_size is Some ==> listed_size(items.push(last)) == listed_size(items)
            + last.file_size->0,
        last.file_size is None ==> listed_size(items.push(last)) == listed_size(items),
    decreases items.len(),
{
    assert(items.push(last).drop_last() =~= items);
    if items.len() > 0 {
        law_summaries_name_eight_files(items.drop_last(), items.last());
        assert(items.drop_last().push(items.last()) =~= items);
    }
}

/// What the server's words for a status mean, and the numbers under which they are shown.
pub proof fn law_status_words(s: Seq<char>)
    ensures
        s == "active"@ ==> ServerStatus::from_str_spec(s) == ServerStatus::Active,
        s == "pending"@ ==> ServerStatus::from_str_spec(s) == ServerStatus::Pending,
        s != "active"@ && s != "pending"@ ==> ServerStatus::from_str_spec(s)
            == ServerStatus::Disconnected,
        ServerStatus::Disconnected.code_spec() == 0 && ServerStatus::Pending.code_spec() == 1
            && ServerStatus::Active.code_spec() == 2,
{
    reveal_strlit("active");
    reveal_strlit("pending");
    assert("active"@.len() == 6 && "pending"@.len() == 7);
}

/// An offer that came through the server is kept as it came, with the name of the device that made it.
pub proof fn law_offers_are_kept_as_they_came(
    o: CrossLanOffer,
    nodes: Seq<RemoteNode>,
    from: Seq<char>,
    manifest: Seq<char>,
    ep: Seq<char>,
    now: u64,
)
    requires
        is_offer(o, nodes, from, manifest, ep, now),
    ensures
        o.from@ == from,
        o.from_name@ == node_name_spec(nodes, from),
        o.manifest@ == manifest,
        o.ext_file_ep@ == ep,
        o.received_at == now,
{
}

/// A reaction is quiet where nothing is to be done.
pub proof fn law_quiet_reactions_do_nothing(r: Reaction)
    requires
        r.is_quiet(),
    ensures
        r.outcome is None && !r.pong && r.status is None && !r.show_nodes && !r.tell_removed,
        r.relay is None && r.offer is None,
{
}

/// What is said of a list of files begins with the names that are given; where there are more files than
/// names, their number follows.
pub proof fn law_summaries_begin_with_the_names(items: Seq<ManifestItem>)
    ensures
        text::joined(listed_names(items), "、"@).is_prefix_of(manifest_text(items)),
        items.len() <= listed_names(items).len() ==> manifest_text(items) == text::joined(
            listed_names(items),
            "、"@,
        ),
        items.len() > listed_names(items).len() ==> text::has_substring(
            manifest_text(items),
            text::dec(items.len()),
        ),
{
    let j = text::joined(listed_names(items), "、"@);
    let m = manifest_text(items);
    assert(m.subrange(0, j.len() as int) =~= j);
    if items.len() > listed_names(items).len() {
        let d = text::dec(items.len());
        let at = (j.len() + "…共 "@.len()) as int;
        assert(m.subrange(at, at + d.len()) =~= d);
        assert(text::occurs_at(m, d, at));
    } else {
        assert(m =~= j);
    }
}

} // verus!
