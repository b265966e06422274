//! Fetching files from a device in another network.
//!
//! The files come straight from the device that offers them; the server only tells of them. The device
//! is asked in the local network first, where it was found there, and then under the address that it
//! gives. Each file comes encrypted under the network's key.

use vstd::prelude::*;

use crate::bytes;
use crate::clipboard::types;
use crate::clipboard::types::{DeviceId, FileMeta};
use crate::crypto::aead;
use crate::crypto::aead::{decrypt_in_place, in_place_overhead};
use crate::crypto::file_auth;
use crate::crypto::file_auth::auth_token;
use crate::device::registry::{DeviceRegistry, PairedDevice};
use crate::discovery::DiscoveredPeer;
use crate::error;
use crate::error::CryptoError;
use crate::server_conn::conn::ServerConn;
use crate::server_conn::endpoint;
use crate::server_conn::endpoint::{ext_file_ep_is_valid, normalize_ext_file_ep};
use crate::strmap::StrMap;
use crate::text;
use crate::text::{
    chars_of, clone_strings, concat, concat3, same, string_of_range, strip_prefix, to_dec, trim,
};
use crate::transfer::offers;
use crate::transfer::offers::{percent, PROGRESS_STEP_MS, PROGRESS_STEP_PERCENT};
use crate::transfer::paths;
use crate::transfer::paths::safe_segment;

verus! {

/// A larger file is not fetched this way: it would be held in memory as a whole.
pub const MAX_CROSS_LAN_FILE_BYTES: u64 = 536_870_912;

// ---------------------------------------------------------------------------
// What is said of a failure
// ---------------------------------------------------------------------------

/// Why a request could not be sent.
#[derive(Debug, Clone, Copy, PartialEq, Eq, Structural)]
pub enum SendFault {
    Timeout,
    Connect,
    Other,
}

/// `s` without `http://` in front of it, however often it stands there.
pub open spec fn without_scheme(s: Seq<char>) -> Seq<char>
    decreases s.len(),
{
    match text::strip_prefix_spec(s, "http://"@) {
        Some(rest) => if rest.len() < s.len() {
            without_scheme(rest)
        } else {
            s
        },
        None => s,
    }
}

/// `s` without slashes at its end.
pub open spec fn without_slashes(s: Seq<char>) -> Seq<char>
    decreases s.len(),
{
    if s.len() > 0 && s.last() == '/' {
        without_slashes(s.drop_last())
    } else {
        s
    }
}

/// What is said of a request that could not be sent.
pub open spec fn send_fault_text(f: SendFault) -> Seq<char> {
    match f {
        SendFault::Timeout => "连接超时（对方未响应：可能防火墙拦截、设备已不在该地址，或该地址只是运营商出口 IP）"@,
        SendFault::Connect => "连接被拒绝或不可达"@,
        SendFault::Other => "请求发送失败"@,
    }
}

/// What is said of a request that could not be sent to `base`.
pub open spec fn send_err_spec(base: Seq<char>, f: SendFault) -> Seq<char> {
    "对端文件地址 "@ + without_slashes(without_scheme(base)) + " "@ + send_fault_text(f)
        + "。跨 LAN 拉取必须直连对端 20071（中继只转发通知、不转发文件本体）；请确认对方设备已放行该端口、地址填写正确，两台机器同网段时应优先走局域网直连"@
}

/// The address in `base`: without `http://` in front and slashes at the end.
fn bare_address(base: &str) -> (r: String)
    ensures
        r@ == without_slashes(without_scheme(base@)),
{
    proof {
        reveal_strlit("http://");
    }
    let mut s = base.to_owned();
    let mut going = true;
    while going
        invariant
            "http://"@.len() == 7,
            without_scheme(s@) == without_scheme(base@),
            !going ==> without_scheme(s@) == s@,
        decreases s@.len() + if going { 1nat } else { 0 },
    {
        match strip_prefix(s.as_str(), "http://") {
            Some(rest) => {
                s = rest;
            },
            None => {
                going = false;
            },
        }
    }
    let v = chars_of(s.as_str());
    let mut end: usize = v.len();
    assert(v@.take(end as int) =~= s@);
    while end > 0 && v[end - 1] == '/'
        invariant
            end <= v@.len(),
            without_slashes(v@.take(end as int)) == without_slashes(s@),
        decreases end,
    {
        assert(v@.take(end as int).drop_last() =~= v@.take(end - 1));
        end -= 1;
    }
    let r = string_of_range(&v, 0, end);
    assert(r@ =~= v@.take(end as int));
    r
}

/// What is said of a request that could not be sent: the address, the reason, and what to do.
pub fn explain_send_err(base: &str, fault: SendFault) -> (r: String)
    ensures
        r@ == send_err_spec(base@, fault),
{
    let kind = match fault {
        SendFault::Timeout => "连接超时（对方未响应：可能防火墙拦截、设备已不在该地址，或该地址只是运营商出口 IP）",
        SendFault::Connect => "连接被拒绝或不可达",
        SendFault::Other => "请求发送失败",
    };
    let mut r = concat("对端文件地址 ", bare_address(base).as_str());
    r.append(" ");
    r.append(kind);
    r.append(
        "。跨 LAN 拉取必须直连对端 20071（中继只转发通知、不转发文件本体）；请确认对方设备已放行该端口、地址填写正确，两台机器同网段时应优先走局域网直连",
    );
    r
}

/// What is said of a refusal.
pub open spec fn http_status_spec(code: u16) -> Seq<char> {
    if code == 401 || code == 403 {
        "对端拒绝了请求：网络密钥不一致，或该文件已不在对端的共享清单里"@
    } else if code == 404 {
        "对端已不再共享该文件（设备重启或剪贴板已被覆盖，可让对方重新复制一次）"@
    } else {
        "对端返回了非 2xx 状态"@
    }
}

/// What is said of a refusal.
pub fn explain_http_status(code: u16) -> (r: &'static str)
    ensures
        r@ == http_status_spec(code),
{
    if code == 401 || code == 403 {
        "对端拒绝了请求：网络密钥不一致，或该文件已不在对端的共享清单里"
    } else if code == 404 {
        "对端已不再共享该文件（设备重启或剪贴板已被覆盖，可让对方重新复制一次）"
    } else {
        "对端返回了非 2xx 状态"
    }
}

// ---------------------------------------------------------------------------
// Where to ask
// ---------------------------------------------------------------------------

/// Where a device may be asked for its files.
#[derive(Debug)]
pub struct Route {
    /// The address, with its scheme.
    pub base: String,
    /// The address is in the local network.
    pub lan: bool,
}

/// The address of a device that was found in the local network.
pub open spec fn lan_base(discovered: Map<Seq<char>, DiscoveredPeer>, from: Seq<char>) -> Option<
    Seq<char>,
> {
    if discovered.dom().contains(from) && discovered[from].addr@.len() > 0 {
        Some(
            "http://"@ + discovered[from].addr@ + ":"@ + text::dec(discovered[from].port as nat),
        )
    } else {
        None
    }
}

/// The address that a device gives. One that is none is not used: it comes from the other end.
pub open spec fn wan_base(ext_file_ep: Seq<char>, listen_port: u16) -> Option<Seq<char>> {
    if endpoint::is_valid_ep(ext_file_ep) {
        Some("http://"@ + endpoint::normalized_ep(ext_file_ep, listen_port))
    } else {
        None
    }
}

/// The routes to a device, the local network first, no address twice.
pub open spec fn routes_spec(
    discovered: Map<Seq<char>, DiscoveredPeer>,
    from: Seq<char>,
    ext_file_ep: Seq<char>,
    listen_port: u16,
) -> Seq<(Seq<char>, bool)> {
    let lan = lan_base(discovered, from);
    let wan = wan_base(ext_file_ep, listen_port);
    (if lan is Some {
        seq![(lan->0, true)]
    } else {
        seq![]
    }) + (if wan is Some && wan != lan {
        seq![(wan->0, false)]
    } else {
        seq![]
    })
}

/// The views of a list of routes.
pub open spec fn route_views(v: Seq<Route>) -> Seq<(Seq<char>, bool)> {
    Seq::new(v.len(), |i: int| (v[i].base@, v[i].lan))
}

/// The routes to a device, the local network first, no address twice.
pub fn cross_routes(
    discovered: &StrMap<DiscoveredPeer>,
    from: &str,
    ext_file_ep: &str,
    listen_port: u16,
) -> (r: Vec<Route>)
    ensures
        route_views(r@) == routes_spec(discovered@, from@, ext_file_ep@, listen_port),
{
    let mut out: Vec<Route> = Vec::new();
    match discovered.get(from) {
        Some(p) => {
            if !p.addr.as_str().is_empty() {
                let mut base = concat3("http://", p.addr.as_str(), ":");
                base.append(to_dec(p.port as u64).as_str());
                out.push(Route { base, lan: true });
            }
        },
        None => {},
    }
    if ext_file_ep_is_valid(ext_file_ep) {
        let ep = normalize_ext_file_ep(ext_file_ep, listen_port);
        let base = concat("http://", ep.as_str());
        if out.len() == 0 || !same(out[0].base.as_str(), base.as_str()) {
            out.push(Route { base, lan: false });
        }
    }
    assert(route_views(out@) =~= routes_spec(discovered@, from@, ext_file_ep@, listen_port));
    out
}

/// The name of the folder for a device's files: the name under which it is paired, where that is not
/// blank, else its identifier.
pub open spec fn device_label(registry: Map<Seq<char>, PairedDevice>, from: Seq<char>) -> Seq<char> {
    if registry.dom().contains(from) && text::trimmed(registry[from].device_name@).len() > 0 {
        registry[from].device_name@
    } else {
        from
    }
}

/// The name of the folder for a device's files, before it is made safe.
pub fn device_dir(registry: &DeviceRegistry, from: &str) -> (r: String)
    ensures
        r@ == device_label(registry@, from@),
{
    match registry.get(&DeviceId(from.to_owned())) {
        Some(d) => {
            if trim(d.device_name.as_str()).as_str().is_empty() {
                from.to_owned()
            } else {
                d.device_name.clone()
            }
        },
        None => from.to_owned(),
    }
}

// ---------------------------------------------------------------------------
// A body that came in
// ---------------------------------------------------------------------------

/// Why a body is of no use.
#[derive(Debug)]
pub enum DownloadFault {
    /// This device does not have the network's key yet.
    NoKey,
    /// The body is shorter than a nonce and a tag.
    TooShort,
    /// The body was not made with the key.
    Undecryptable(CryptoError),
}

/// The file in a body: a nonce and the ciphertext behind it.
pub open spec fn body_opened(key: Seq<u8>, raw: Seq<u8>) -> Option<Seq<u8>> {
    if raw.len() < aead::NONCE_SIZE + aead::TAG_SIZE {
        None
    } else {
        aead::aes_gcm_opened(
            key,
            raw.take(aead::NONCE_SIZE as int),
            raw.skip(aead::NONCE_SIZE as int),
        )
    }
}

impl DownloadFault {
    /// What is said of the failure.
    pub open spec fn message_spec(&self) -> Seq<char> {
        match self {
            DownloadFault::NoKey => "网络密钥未就绪，无法解密跨 LAN 文件（请确认已连接服务端）"@,
            DownloadFault::TooShort => "跨 LAN 文件格式异常（长度不足）"@,
            DownloadFault::Undecryptable(_) => "跨 LAN 文件解密失败（密钥不匹配或数据损坏）"@,
        }
    }

    /// What is said of the failure.
    pub fn message(&self) -> (r: &'static str)
        ensures
            r@ == self.message_spec(),
    {
        match self {
            DownloadFault::NoKey => "网络密钥未就绪，无法解密跨 LAN 文件（请确认已连接服务端）",
            DownloadFault::TooShort => "跨 LAN 文件格式异常（长度不足）",
            DownloadFault::Undecryptable(_) => "跨 LAN 文件解密失败（密钥不匹配或数据损坏）",
        }
    }

    /// What a failed fetch is reported as.
    pub open spec fn report_spec(&self) -> Seq<char> {
        match self {
            DownloadFault::Undecryptable(e) => self.message_spec() + ": "@ + error::crypto_text(*e),
            _ => self.message_spec(),
        }
    }

    /// What a failed fetch is reported as: what is said of the failure, and the words of the cipher's
    /// error where there is one.
    pub fn report(&self) -> (r: String)
        ensures
            r@ == self.report_spec(),
    {
        match self {
            DownloadFault::Undecryptable(e) => concat3(self.message(), ": ", e.text()),
            _ => self.message().to_owned(),
        }
    }
}

/// What is reported of a body that brings no file.
pub open spec fn body_error(key: Option<[u8; 32]>, raw: Seq<u8>) -> Seq<char> {
    if key is None {
        "网络密钥未就绪，无法解密跨 LAN 文件（请确认已连接服务端）"@
    } else if raw.len() < aead::NONCE_SIZE + aead::TAG_SIZE {
        "跨 LAN 文件格式异常（长度不足）"@
    } else {
        "跨 LAN 文件解密失败（密钥不匹配或数据损坏）"@ + ": "@ + aead::aead_error_text()
    }
}

/// The file in a body. What cannot be decrypted is never written: a file that cannot be opened is
/// worse than none.
pub fn decrypt_download(key: Option<[u8; 32]>, raw: &[u8]) -> (r: Result<Vec<u8>, DownloadFault>)
    ensures
        match r {
            Ok(p) => key is Some && body_opened(key->0@, raw@) == Some(p@),
            Err(DownloadFault::NoKey) => key is None,
            Err(DownloadFault::TooShort) => key is Some && raw@.len() < aead::NONCE_SIZE
                + aead::TAG_SIZE,
            Err(DownloadFault::Undecryptable(e)) => {
                &&& key is Some
                &&& raw@.len() >= aead::NONCE_SIZE + aead::TAG_SIZE
                &&& body_opened(key->0@, raw@) is None
                &&& e matches CryptoError::Decryption(m) && m@ == aead::aead_error_text()
            },
        },
{
    let key = match key {
        Some(k) => k,
        None => {
            return Err(DownloadFault::NoKey);
        },
    };
    let n: usize = raw.len();
    if n < 12 + in_place_overhead() {
        return Err(DownloadFault::TooShort);
    }
    let mut nonce = [0u8; 12];
    let mut i: usize = 0;
    while i < 12
        invariant
            i <= 12,
            n == raw@.len(),
            n >= 28,
            forall|k: int| 0 <= k < i ==> nonce@[k] == raw@[k],
        decreases 12 - i,
    {
        nonce[i] = raw[i];
        i += 1;
    }
    assert(nonce@ =~= raw@.take(12));
    let mut buf = bytes::range(raw, 12, n);
    assert(buf@ =~= raw@.skip(12));
    match decrypt_in_place(&key, &nonce, &mut buf) {
        Ok(()) => Ok(buf),
        Err(e) => Err(DownloadFault::Undecryptable(e)),
    }
}

// ---------------------------------------------------------------------------
// A fetch
// ---------------------------------------------------------------------------

/// What a request brought.
#[derive(Debug)]
pub enum Reply {
    /// An answer with this status, which `text` gives in words.
    Status { code: u16, text: String },
    /// No answer.
    Fault(SendFault),
}

/// What a fetch leaves behind that ends before it is done and brings nothing.
#[derive(Debug)]
pub struct Discard {
    /// The files that are taken away.
    pub remove: Vec<String>,
    /// What the fetch is reported as.
    pub report: String,
}

/// What is to be done next.
#[derive(Debug)]
pub enum PullStep {
    /// Every file is written: these are put on the clipboard, where there are any. No other step leads
    /// there.
    Finished { paths: Vec<String> },
    /// The fetch was given up.
    Cancelled(Discard),
    /// The fetch has failed. What was written stays.
    Failed(String),
    /// Ask for a file, with this credential.
    Request { url: String, auth: String },
    /// Take the body. `first` says that nothing was fetched before.
    Download { file_name: String, first: bool, lan: bool },
}

/// What is to be done after a piece of a body.
#[derive(Debug)]
pub enum ChunkStep {
    /// The fetch was given up.
    Cancelled(Discard),
    /// Go on.
    Silent,
    /// Go on, and tell how far it is.
    Report { received: u64, percent: u32 },
}

/// What is to be done with a body that has come.
#[derive(Debug)]
pub enum BodyStep {
    /// Take these files away, and write this as the file.
    Save { plain: Vec<u8>, remove: Vec<String> },
    /// The fetch ends.
    Abort(Discard),
}

/// What a fetch is reported as that was given up.
pub open spec fn cancelled_text() -> Seq<char> {
    "__CANCELLED__"@
}

/// `d` takes away the files `saved` and the temporary file, where there is one, and no other.
pub open spec fn discards(d: Discard, saved: Seq<String>, tmp: Option<Seq<char>>) -> bool {
    text::views(d.remove@) == match tmp {
        Some(t) => text::views(saved).push(t),
        None => text::views(saved),
    }
}

/// A fetch that is under way.
pub struct CrossPull {
    pub pull_id: String,
    pub files: Vec<FileMeta>,
    /// The routes, the one that served last in front.
    pub routes: Vec<Route>,
    /// The number of files that are written.
    pub next: usize,
    /// The route that is asked.
    pub attempt: usize,
    /// The credential for the file that is asked for.
    pub auth: String,
    /// The files that were written.
    pub saved: Vec<String>,
    pub done_plain: u64,
    pub total_plain: u64,
    /// Whether the route that served last is in the local network; `None` before the first answer.
    pub route_lan: Option<bool>,
    pub last_percent: u32,
    pub last_report: u64,
}

/// A text for a file that is too large.
pub open spec fn too_large_text(f: FileMeta) -> Seq<char> {
    "跨 LAN 单文件上限 "@ + text::dec((MAX_CROSS_LAN_FILE_BYTES / 1_048_576) as nat) + " MiB："@
        + f.file_name@ + " 为 "@ + text::dec((f.file_size / 1_048_576) as nat)
        + " MiB，请改用局域网直连传输"@
}

/// The hash under which a file is asked for.
pub open spec fn hash_of(f: FileMeta) -> Seq<char> {
    match f.hash {
        Some(h) => h@,
        None => ""@,
    }
}

/// The credential for a file; empty without the network's key, which the other end refuses.
pub open spec fn auth_for(key: Option<[u8; 32]>, f: FileMeta) -> Seq<char> {
    match key {
        Some(k) => file_auth::credential(k@, hash_of(f)),
        None => ""@,
    }
}

/// The address of a file.
pub open spec fn url_for(base: Seq<char>, f: FileMeta) -> Seq<char> {
    base + "/file/"@ + hash_of(f)
}

/// The routes with the one at `i` in front and the last one in its place.
pub open spec fn promoted<T>(v: Seq<T>, i: int) -> Seq<T> {
    seq![v[i]] + v.update(i, v.last()).drop_last()
}

/// How much of a file has come, by the share of its body that has: the body is a little longer than
/// the file. The whole file where the length of the body is not known.
pub open spec fn file_done(received: u64, file_size: u64, body_len: u64) -> nat {
    if received * file_size <= u64::MAX && body_len != 0 {
        (received * file_size) as nat / body_len as nat
    } else {
        file_size as nat
    }
}

fn done_of(received: u64, file_size: u64, body_len: u64) -> (r: u64)
    ensures
        r == file_done(received, file_size, body_len),
{
    match received.checked_mul(file_size) {
        Some(n) => if body_len != 0 {
            n / body_len
        } else {
            file_size
        },
        None => file_size,
    }
}

/// What is said of a refusal.
pub open spec fn refusal_text(code: u16, words: Seq<char>) -> Seq<char> {
    "对端返回 HTTP "@ + words + "："@ + http_status_spec(code)
}

/// What is said of a reply that brings no file.
pub open spec fn reply_error(base: Seq<char>, reply: Reply) -> Seq<char> {
    match reply {
        Reply::Status { code, text } => refusal_text(code, text@),
        Reply::Fault(f) => send_err_spec(base, f),
    }
}

/// A reply that brings a file.
pub open spec fn is_success(reply: Reply) -> bool {
    reply matches Reply::Status { code, .. } && 200 <= code <= 299
}

/// What is said where there is no route.
pub open spec fn no_route_text() -> Seq<char> {
    "对端不在本机局域网发现表中，且未配置对外文件地址（ext_file_ep），无法拉取"@
}

impl CrossPull {
    /// There is a route, and the sums are those of the files that are written and of all.
    pub open spec fn wf(&self) -> bool {
        &&& self.next <= self.files@.len()
        &&& self.routes@.len() > 0
        &&& self.total_plain == types::total_size(self.files@)
        &&& self.done_plain == types::total_size(self.files@.take(self.next as int))
        &&& self.total_plain * 100 <= u64::MAX
        &&& self.saved@.len() == self.next
    }

    /// A file is being asked for.
    pub open spec fn is_asking(&self) -> bool {
        self.wf() && self.next < self.files@.len() && self.attempt < self.routes@.len()
    }

    /// The file that is fetched next.
    pub open spec fn current(&self) -> FileMeta {
        self.files@[self.next as int]
    }

    /// A step to `pct` at time `now` is told.
    pub open spec fn reports(&self, pct: u32, now: u64) -> bool {
        pct >= self.last_percent + PROGRESS_STEP_PERCENT || now >= self.last_report
            + PROGRESS_STEP_MS
    }

    fn discard(&self, tmp: Option<&str>, report: String) -> (r: Discard)
        ensures
            discards(
                r,
                self.saved@,
                match tmp {
                    Some(t) => Some(t@),
                    None => None,
                },
            ),
            r.report == report,
    {
        let mut remove = clone_strings(&self.saved);
        match tmp {
            Some(t) => {
                let t = t.to_owned();
                proof {
                    text::lemma_views_push(remove@, t);
                }
                remove.push(t);
            },
            None => {},
        }
        Discard { remove, report }
    }

    /// Whether the fetch was given up. Then all that it wrote goes, and the temporary file `tmp` of the
    /// body that is coming in, where there is one.
    pub fn cancelled(&self, conn: &mut ServerConn, tmp: Option<&str>) -> (r: Option<Discard>)
        ensures
            final(conn).cross_pull_cancel@ == old(conn).cross_pull_cancel@.remove(self.pull_id@),
            *final(conn) == (ServerConn {
                cross_pull_cancel: final(conn).cross_pull_cancel,
                ..*old(conn)
            }),
            match r {
                Some(d) => {
                    &&& old(conn).cross_pull_cancel@.contains(self.pull_id@)
                    &&& discards(
                        d,
                        self.saved@,
                        match tmp {
                            Some(t) => Some(t@),
                            None => None,
                        },
                    )
                    &&& d.report@ == cancelled_text()
                },
                None => !old(conn).cross_pull_cancel@.contains(self.pull_id@),
            },
    {
        if conn.take_cancel(self.pull_id.as_str()) {
            Some(self.discard(tmp, "__CANCELLED__".to_owned()))
        } else {
            None
        }
    }

    /// A fetch of `files`. It fails where there is no route.
    pub fn begin(pull_id: String, files: Vec<FileMeta>, routes: Vec<Route>) -> (r: Result<Self, String>)
        requires
            types::total_size(files@) * 100 <= u64::MAX,
        ensures
            match r {
                Ok(p) => {
                    &&& routes@.len() > 0
                    &&& p.wf()
                    &&& p.pull_id == pull_id
                    &&& p.files == files
                    &&& p.routes == routes
                    &&& p.next == 0
                    &&& p.route_lan is None
                },
                Err(e) => routes@.len() == 0 && e@ == no_route_text(),
            },
    {
        if routes.len() == 0 {
            return Err(
                "对端不在本机局域网发现表中，且未配置对外文件地址（ext_file_ep），无法拉取".to_owned(),
            );
        }
        let total_plain: u64 = types::sum_sizes(&files);
        assert(files@.take(0) =~= Seq::<FileMeta>::empty());
        Ok(
            CrossPull {
                pull_id,
                files,
                routes,
                next: 0,
                attempt: 0,
                auth: String::new(),
                saved: Vec::new(),
                done_plain: 0,
                total_plain,
                route_lan: None,
                last_percent: 0,
                last_report: 0,
            },
        )
    }

    fn request(&self) -> (r: PullStep)
        requires
            self.is_asking(),
        ensures
            r matches PullStep::Request { url, auth } && url@ == url_for(
                self.routes@[self.attempt as int].base@,
                self.current(),
            ) && auth@ == self.auth@,
    {
        let f = &self.files[self.next];
        let mut url = concat(self.routes[self.attempt].base.as_str(), "/file/");
        match &f.hash {
            Some(h) => {
                url.append(h.as_str());
            },
            None => {
                url.append("");
            },
        }
        PullStep::Request { url, auth: self.auth.clone() }
    }

    /// Turns to the next file. A request to give up, and a file that is too large, end the fetch.
    pub fn next_file(&mut self, conn: &mut ServerConn) -> (r: PullStep)
        requires
            old(self).wf(),
        ensures
            final(self).wf(),
            *final(self) == (CrossPull {
                attempt: final(self).attempt,
                auth: final(self).auth,
                ..*old(self)
            }),
            *final(conn) == (ServerConn {
                cross_pull_cancel: final(conn).cross_pull_cancel,
                ..*old(conn)
            }),
            ({
                let id = old(self).pull_id@;
                let f = old(self).current();
                if old(self).next == old(self).files@.len() {
                    &&& r matches PullStep::Finished { paths }
                    &&& text::views(paths@) == text::views(old(self).saved@)
                    &&& *final(conn) == *old(conn)
                } else {
                    &&& final(conn).cross_pull_cancel@ == old(conn).cross_pull_cancel@.remove(id)
                    &&& if old(conn).cross_pull_cancel@.contains(id) {
                        &&& r matches PullStep::Cancelled(d)
                        &&& discards(d, old(self).saved@, None)
                        &&& d.report@ == cancelled_text()
                    } else if f.file_size > MAX_CROSS_LAN_FILE_BYTES {
                        r matches PullStep::Failed(m) && m@ == too_large_text(f)
                    } else {
                        &&& r is Request
                        &&& r->url@ == url_for(old(self).routes@[0].base@, f)
                        &&& r->auth@ == auth_for(old(conn).network_key, f)
                        &&& final(self).is_asking()
                        &&& final(self).attempt == 0
                        &&& final(self).auth@ == r->auth@
                    }
                }
            }),
    {
        if self.next == self.files.len() {
            return PullStep::Finished { paths: clone_strings(&self.saved) };
        }
        match self.cancelled(conn, None) {
            Some(d) => {
                return PullStep::Cancelled(d);
            },
            None => {},
        }
        let f = &self.files[self.next];
        if f.file_size > MAX_CROSS_LAN_FILE_BYTES {
            let mut m = concat3("跨 LAN 单文件上限 ", to_dec(MAX_CROSS_LAN_FILE_BYTES / 1_048_576).as_str(), " MiB：");
            m.append(f.file_name.as_str());
            m.append(" 为 ");
            m.append(to_dec(f.file_size / 1_048_576).as_str());
            m.append(" MiB，请改用局域网直连传输");
            return PullStep::Failed(m);
        }
        let hash = match &f.hash {
            Some(h) => h.clone(),
            None => "".to_owned(),
        };
        self.auth = match &conn.network_key {
            Some(k) => auth_token(k, hash.as_str()),
            None => "".to_owned(),
        };
        self.attempt = 0;
        self.request()
    }

    /// A request was answered, or was not. The first route that brings the file is asked first from
    /// then on; the others are kept, for the one that served may fail later.
    pub fn on_reply(&mut self, reply: Reply, now: u64) -> (r: PullStep)
        requires
            old(self).is_asking(),
        ensures
            final(self).wf(),
            ({
                let at = old(self).attempt as int;
                if is_success(reply) {
                    &&& r is Download
                    &&& r->file_name@ == paths::safe_name(old(self).current().file_name@)
                    &&& r->first == (old(self).route_lan is None)
                    &&& r->lan == old(self).routes@[at].lan
                    &&& final(self).routes@ == promoted(old(self).routes@, at)
                    &&& *final(self) == (CrossPull {
                        routes: final(self).routes,
                        attempt: 0,
                        route_lan: Some(old(self).routes@[at].lan),
                        last_percent: 0,
                        last_report: now,
                        ..*old(self)
                    })
                } else {
                    &&& *final(self) == (CrossPull { attempt: (at + 1) as usize, ..*old(self) })
                    &&& if at + 1 < old(self).routes@.len() {
                        &&& r is Request
                        &&& r->url@ == url_for(old(self).routes@[at + 1].base@, old(self).current())
                        &&& r->auth@ == old(self).auth@
                    } else {
                        r matches PullStep::Failed(m) && m@ == reply_error(
                            old(self).routes@[at].base@,
                            reply,
                        )
                    }
                }
            }),
    {
        let at: usize = self.attempt;
        let failure = match reply {
            Reply::Status { code, text } => {
                if 200 <= code && code <= 299 {
                    let lan = self.routes[at].lan;
                    let first = self.route_lan.is_none();
                    let file_name = safe_segment(self.files[self.next].file_name.as_str());
                    let hit = self.routes.swap_remove(at);
                    self.routes.insert(0, hit);
                    self.attempt = 0;
                    self.route_lan = Some(lan);
                    self.last_percent = 0;
                    self.last_report = now;
                    assert(self.routes@ =~= promoted(old(self).routes@, at as int));
                    return PullStep::Download { file_name, first, lan };
                }
                let mut m = concat3("对端返回 HTTP ", text.as_str(), "：");
                m.append(explain_http_status(code));
                m
            },
            Reply::Fault(f) => explain_send_err(self.routes[at].base.as_str(), f),
        };
        let n: usize = self.routes.len();
        self.attempt = at + 1;
        if at + 1 < n {
            self.request()
        } else {
            PullStep::Failed(failure)
        }
    }

    /// Whether the progress can be told in 64 bits once `received` bytes of a body of `body_len` bytes
    /// have come.
    pub fn can_tell(&self, received: u64, body_len: u64) -> (r: bool)
        requires
            self.next < self.files@.len(),
        ensures
            r == ((self.done_plain + file_done(received, self.current().file_size, body_len)) * 100
                <= u64::MAX),
    {
        let done: u64 = done_of(received, self.files[self.next].file_size, body_len);
        match self.done_plain.checked_add(done) {
            Some(n) => n.checked_mul(100).is_some(),
            None => false,
        }
    }

    /// `received` bytes of a body of `body_len` have come and were written to `tmp`; 0 stands for a
    /// length that is not known.
    pub fn on_chunk(
        &mut self,
        conn: &mut ServerConn,
        tmp: &str,
        received: u64,
        body_len: u64,
        now: u64,
    ) -> (r: ChunkStep)
        requires
            old(self).wf(),
            old(self).next < old(self).files@.len(),
            (old(self).done_plain + file_done(received, old(self).current().file_size, body_len)) * 100
                <= u64::MAX,
        ensures
            final(self).wf(),
            final(conn).cross_pull_cancel@ == old(conn).cross_pull_cancel@.remove(old(self).pull_id@),
            *final(conn) == (ServerConn {
                cross_pull_cancel: final(conn).cross_pull_cancel,
                ..*old(conn)
            }),
            ({
                let overall = (old(self).done_plain + file_done(
                    received,
                    old(self).current().file_size,
                    body_len,
                )) as u64;
                let pct = offers::percent_spec(overall, old(self).total_plain);
                if old(conn).cross_pull_cancel@.contains(old(self).pull_id@) {
                    &&& r matches ChunkStep::Cancelled(d)
                    &&& discards(d, old(self).saved@, Some(tmp@))
                    &&& d.report@ == cancelled_text()
                    &&& *final(self) == *old(self)
                } else if old(self).reports(pct, now) {
                    &&& r == (ChunkStep::Report { received: overall, percent: pct })
                    &&& *final(self) == (CrossPull { last_percent: pct, last_report: now, ..*old(self) })
                } else {
                    r is Silent && *final(self) == *old(self)
                }
            }),
    {
        match self.cancelled(conn, Some(tmp)) {
            Some(d) => {
                return ChunkStep::Cancelled(d);
            },
            None => {},
        }
        let size: u64 = self.files[self.next].file_size;
        let done: u64 = done_of(received, size, body_len);
        let overall: u64 = self.done_plain + done;
        let pct: u32 = percent(overall, self.total_plain);
        let step = pct >= self.last_percent && pct - self.last_percent >= PROGRESS_STEP_PERCENT;
        let late = now >= self.last_report && now - self.last_report >= PROGRESS_STEP_MS;
        if step || late {
            self.last_percent = pct;
            self.last_report = now;
            ChunkStep::Report { received: overall, percent: pct }
        } else {
            ChunkStep::Silent
        }
    }

    /// A body has come; it lies in `tmp` and is `raw`. The file in it is written, and nothing but the
    /// file. Where it cannot be had, the fetch ends, and all that it wrote goes.
    pub fn on_body(&self, key: Option<[u8; 32]>, tmp: &str, raw: &[u8]) -> (r: BodyStep)
        ensures
            match r {
                BodyStep::Save { plain, remove } => {
                    &&& key is Some
                    &&& body_opened(key->0@, raw@) == Some(plain@)
                    &&& text::views(remove@) == seq![tmp@]
                },
                BodyStep::Abort(d) => {
                    &&& key is None || body_opened(key->0@, raw@) is None
                    &&& discards(d, self.saved@, Some(tmp@))
                    &&& d.report@ == body_error(key, raw@)
                },
            },
    {
        match decrypt_download(key, raw) {
            Ok(plain) => {
                let mut remove: Vec<String> = Vec::new();
                remove.push(tmp.to_owned());
                assert(text::views(remove@) =~= seq![tmp@]);
                BodyStep::Save { plain, remove }
            },
            Err(e) => BodyStep::Abort(self.discard(Some(tmp), e.report())),
        }
    }

    /// A file was written to `path`. Returns how much is written, and the percentage.
    pub fn on_saved(&mut self, path: String) -> (r: (u64, u32))
        requires
            old(self).wf(),
            old(self).next < old(self).files@.len(),
        ensures
            final(self).wf(),
            final(self).saved@ == old(self).saved@.push(path),
            *final(self) == (CrossPull {
                saved: final(self).saved,
                next: (old(self).next + 1) as usize,
                done_plain: (old(self).done_plain + old(self).current().file_size) as u64,
                ..*old(self)
            }),
            r.0 == final(self).done_plain,
            r.1 == offers::percent_spec(final(self).done_plain, old(self).total_plain),
    {
        proof {
            types::lemma_total_size_grows(self.files@, self.next + 1);
            assert(self.files@.take(self.next + 1).drop_last() =~= self.files@.take(self.next as int));
        }
        self.done_plain = self.done_plain + self.files[self.next].file_size;
        let n: usize = self.files.len();
        assert(self.next < n);
        self.next = self.next + 1;
        self.saved.push(path);
        (self.done_plain, percent(self.done_plain, self.total_plain))
    }
}

/// When every file is written, what is written is everything.
pub proof fn law_a_finished_fetch_is_whole(p: CrossPull)
    requires
        p.wf(),
        p.next == p.files@.len(),
    ensures
        p.done_plain == p.total_plain,
        p.saved@.len() == p.files@.len(),
{
    assert(p.files@.take(p.next as int) =~= p.files@);
}

/// Putting the route that served in front loses none and adds none.
pub proof fn law_promotion_keeps_every_route<T>(v: Seq<T>, i: int)
    requires
        0 <= i < v.len(),
    ensures
        promoted(v, i)[0] == v[i],
        promoted(v, i).to_multiset() == v.to_multiset(),
{
    broadcast use vstd::seq_lib::group_to_multiset_ensures;

    let w = v.update(i, v.last());
    let rest = w.drop_last();
    assert(promoted(v, i)[0] == v[i]);
    assert(seq![v[i]] =~= Seq::<T>::empty().push(v[i]));
    vstd::seq_lib::lemma_multiset_commutative(seq![v[i]], rest);
    assert(w.to_multiset() =~= v.to_multiset().insert(v.last()).remove(v[i]));
    assert(rest.push(v.last()) =~= w);
    assert(w.to_multiset() =~= rest.to_multiset().insert(v.last()));
    assert(promoted(v, i).to_multiset() =~= rest.to_multiset().insert(v[i]));
    assert(v.contains(v[i]));
    assert(v.to_multiset().count(v[i]) > 0);
    let m = v.to_multiset();
    assert forall|x: T| promoted(v, i).to_multiset().count(x) == m.count(x) by {
        assert(m.insert(v.last()).remove(v[i]).count(x) == rest.to_multiset().insert(v.last()).count(x));
    }
    assert(promoted(v, i).to_multiset() =~= v.to_multiset());
}

/// A device that was found in the local network is asked there first, under the address where it was
/// found; then under the address that it gives, where that is one and is not the same. There are no
/// other routes.
pub proof fn law_the_local_network_is_asked_first(
    discovered: Map<Seq<char>, DiscoveredPeer>,
    from: Seq<char>,
    ep: Seq<char>,
    port: u16,
)
    ensures
        ({
            let r = routes_spec(discovered, from, ep, port);
            let near = discovered.dom().contains(from) && discovered[from].addr@.len() > 0;
            let local = "http://"@ + discovered[from].addr@ + ":"@ + text::dec(
                discovered[from].port as nat,
            );
            let far = "http://"@ + endpoint::normalized_ep(ep, port);
            &&& near ==> r.len() > 0 && r[0] == (local, true)
            &&& near && endpoint::is_valid_ep(ep) && far != local ==> r.len() == 2 && r[1] == (far, false)
            &&& near && (!endpoint::is_valid_ep(ep) || far == local) ==> r.len() == 1
            &&& !near && endpoint::is_valid_ep(ep) ==> r.len() == 1 && r[0] == (far, false)
            &&& !near && !endpoint::is_valid_ep(ep) ==> r.len() == 0
        }),
{
}

/// A file is asked for by its digest, with the credential for that digest under the network's key.
pub proof fn law_files_are_asked_for_by_their_digest(base: Seq<char>, key: [u8; 32], f: FileMeta)
    ensures
        f.hash is Some ==> url_for(base, f) == base + "/file/"@ + f.hash->0@,
        f.hash is Some ==> auth_for(Some(key), f) == bytes::hex(
            crate::crypto::mac::hmac_sha256(
                key@,
                vstd::utf8::encode_utf8("clipsync-file-v1"@ + f.hash->0@),
            ),
        ),
        auth_for(None, f).len() == 0,
{
    reveal_strlit("");
    if f.hash is Some {
        text::lemma_utf8_concat("clipsync-file-v1"@, f.hash->0@);
    }
}

/// A body is twelve bytes of nonce and the ciphertext behind them, and opens to what that holds; one
/// that is shorter than a nonce and a code opens to nothing.
pub proof fn law_bodies_are_nonce_and_ciphertext(key: Seq<u8>, nonce: Seq<u8>, cipher: Seq<u8>)
    requires
        nonce.len() == 12,
    ensures
        cipher.len() >= 16 ==> body_opened(key, nonce + cipher) == aead::aes_gcm_opened(
            key,
            nonce,
            cipher,
        ),
        cipher.len() < 16 ==> body_opened(key, nonce + cipher) is None,
{
    let raw = nonce + cipher;
    assert(raw.take(12) =~= nonce);
    assert(raw.skip(12) =~= cipher);
}

/// The folder of a device is named as the device is paired; a device that is not, or whose name is
/// blank, goes by its identifier.
pub proof fn law_folders_are_named_after_paired_devices(
    registry: Map<Seq<char>, PairedDevice>,
    from: Seq<char>,
)
    ensures
        !registry.dom().contains(from) ==> device_label(registry, from) == from,
        registry.dom().contains(from) && text::trimmed(registry[from].device_name@).len() > 0
            ==> device_label(registry, from) == registry[from].device_name@,
        registry.dom().contains(from) && text::trimmed(registry[from].device_name@).len() == 0
            ==> device_label(registry, from) == from,
{
}

/// An answer brings a file exactly where its status is from 200 to 299.
pub proof fn law_answers_of_success_bring_files(code: u16, text: String, f: SendFault)
    ensures
        is_success(Reply::Status { code, text }) <==> 200 <= code < 300,
        !is_success(Reply::Fault(f)),
{
}

/// How far a file has come is the share of its body that has come.
pub proof fn law_progress_is_the_share_of_the_body(received: u64, file_size: u64, body_len: u64)
    requires
        received * file_size <= u64::MAX,
        body_len > 0,
        received <= body_len,
    ensures
        file_done(received, file_size, body_len) * body_len <= received * file_size,
        received * file_size < (file_done(received, file_size, body_len) + 1) * body_len,
        received == body_len ==> file_done(received, file_size, body_len) == file_size,
{
    let n = (received * file_size) as int;
    let b = body_len as int;
    vstd::arithmetic::div_mod::lemma_fundamental_div_mod(n, b);
    vstd::arithmetic::div_mod::lemma_mod_bound(n, b);
    let q = n / b;
    assert(q * b <= n && n < (q + 1) * b) by (nonlinear_arith)
        requires
            n == b * q + n % b,
            0 <= n % b < b,
    ;
    if received == body_len {
        assert(q == file_size) by (nonlinear_arith)
            requires
                n == b * file_size,
                q * b <= n,
                n < (q + 1) * b,
                b > 0,
        ;
    }
}

/// What a fetch leaves behind that ended early: every file that it wrote and the temporary file are taken
/// away, and no other.
pub proof fn law_early_ends_take_everything_away(d: Discard, saved: Seq<String>, tmp: Seq<char>, i: int)
    requires
        discards(d, saved, Some(tmp)),
    ensures
        d.remove@.len() == saved.len() + 1,
        0 <= i < saved.len() ==> d.remove@[i]@ == saved[i]@,
        d.remove@[saved.len() as int]@ == tmp,
        cancelled_text() == "__CANCELLED__"@,
        MAX_CROSS_LAN_FILE_BYTES == 512 * 1024 * 1024,
{
    let v = text::views(d.remove@);
    assert(v.len() == d.remove@.len());
    assert(v[saved.len() as int] == tmp);
    if 0 <= i < saved.len() {
        assert(v[i] == text::views(saved)[i]);
    }
}

/// A route is seen as its address and whether it is in the local network.
pub proof fn law_routes_are_seen_whole(v: Seq<Route>, i: int)
    requires
        0 <= i < v.len(),
    ensures
        route_views(v).len() == v.len(),
        route_views(v)[i].0 == v[i].base@,
        route_views(v)[i].1 == v[i].lan,
{
}

/// What is said of a failure names what failed: the address without `http://` and slashes at its end, the
/// file that is too large, or the status of the answer.
pub proof fn law_failures_name_what_failed(
    host: Seq<char>,
    f: SendFault,
    m: FileMeta,
    code: u16,
    words: Seq<char>,
)
    requires
        host.len() > 0,
        host[0] != 'h',
        host.last() != '/',
    ensures
        text::has_substring(send_err_spec("http://"@ + host, f), host),
        text::has_substring(too_large_text(m), m.file_name@),
        text::has_substring(refusal_text(code, words), words),
        code == 401 || code == 403 ==> http_status_spec(code) == http_status_spec(401),
{
    reveal_strlit("http://");
    let b = "http://"@ + host;
    assert(b.subrange(0, 7) =~= "http://"@);
    assert(b.skip(7) =~= host);
    assert(!"http://"@.is_prefix_of(host)) by {
        if "http://"@.is_prefix_of(host) {
            assert(host.subrange(0, 7)[0] == 'h');
        }
    }
    reveal_with_fuel(without_scheme, 2);
    assert(without_scheme(b) == host);
    assert(without_slashes(host) == host);
    let e = send_err_spec(b, f);
    let at = "对端文件地址 "@.len() as int;
    assert(e.subrange(at, at + host.len()) =~= host);
    assert(text::occurs_at(e, host, at));
    let t = too_large_text(m);
    let k = ("跨 LAN 单文件上限 "@ + text::dec((MAX_CROSS_LAN_FILE_BYTES / 1_048_576) as nat)
        + " MiB："@).len() as int;
    assert(t.subrange(k, k + m.file_name@.len()) =~= m.file_name@);
    assert(text::occurs_at(t, m.file_name@, k));
    let r = refusal_text(code, words);
    let j = "对端返回 HTTP "@.len() as int;
    assert(r.subrange(j, j + words.len()) =~= words);
    assert(text::occurs_at(r, words, j));
}

} // verus!
