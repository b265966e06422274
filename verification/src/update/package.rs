//! The package of an update: where it is announced, how it is fetched, and when it may be installed.

use vstd::prelude::*;

use crate::bytes;
use crate::bytes::to_hex;
use crate::crypto::mac;
use crate::crypto::mac::sha256_digest;
use crate::strmap::StrMap;
use crate::text;
use crate::text::{concat, concat3, ends_with, same, starts_with, trim};
use crate::transfer::local_files;
use crate::transfer::local_files::components_of;
use crate::update::source;
use crate::update::version;
use crate::update::version::is_newer;

verus! {

/// How far a download has come.
#[derive(Debug)]
pub struct DownloadProgress {
    /// `downloading`, `verifying`, `done` or `error`.
    pub phase: String,
    pub downloaded: u64,
    pub total: u64,
    /// From 0 to 100; `None` where the length is not known.
    pub percent: Option<u8>,
    pub message: Option<String>,
}

/// What a manifest says of one platform.
#[derive(Debug)]
pub struct PlatformEntry {
    pub url: String,
    pub sha256: String,
}

/// What is offered at an update's address.
pub struct LatestManifest {
    pub version: String,
    pub notes: String,
    pub pub_date: String,
    pub platforms: StrMap<PlatformEntry>,
}

/// An update that can be installed.
#[derive(Debug)]
pub struct UpdateInfo {
    pub version: String,
    pub notes: String,
    pub pub_date: String,
    pub url: String,
    pub sha256: String,
}

// ---------------------------------------------------------------------------
// The manifest
// ---------------------------------------------------------------------------

/// What an answer to the request for a manifest means: `true` where its body is to be read, `false`
/// where nothing was published. `words` is the status in words.
pub fn judge_manifest_status(code: u16, words: &str) -> (r: Result<bool, String>)
    ensures
        match r {
            Ok(false) => code == 404,
            Ok(true) => 200 <= code <= 299,
            Err(e) => code != 404 && !(200 <= code <= 299) && e@ == "更新清单返回 HTTP "@ + words@,
        },
{
    if code == 404 {
        Ok(false)
    } else if 200 <= code && code <= 299 {
        Ok(true)
    } else {
        Err(concat("更新清单返回 HTTP ", words))
    }
}

/// The update in a manifest. `None` where it is not newer than `current`; an error where it is, but
/// has no package for the platform.
pub fn judge_manifest(m: LatestManifest, current: &str, platform: &str) -> (r: Result<
    Option<UpdateInfo>,
    String,
>)
    ensures
        match r {
            Ok(None) => !version::newer(m.version@, current@),
            Ok(Some(u)) => {
                &&& version::newer(m.version@, current@)
                &&& m.platforms@.dom().contains(platform@)
                &&& u.version == m.version
                &&& u.notes == m.notes
                &&& u.pub_date == m.pub_date
                &&& u.url == m.platforms@[platform@].url
                &&& u.sha256 == m.platforms@[platform@].sha256
            },
            Err(e) => {
                &&& version::newer(m.version@, current@)
                &&& !m.platforms@.dom().contains(platform@)
                &&& e@ == "更新清单缺少本平台（"@ + platform@ + "）安装包"@
            },
        },
{
    if !is_newer(m.version.as_str(), current) {
        return Ok(None);
    }
    let (url, sha256) = match m.platforms.get(platform) {
        Some(e) => (e.url.clone(), e.sha256.clone()),
        None => {
            return Err(concat3("更新清单缺少本平台（", platform, "）安装包"));
        },
    };
    Ok(Some(UpdateInfo { version: m.version, notes: m.notes, pub_date: m.pub_date, url, sha256 }))
}

// ---------------------------------------------------------------------------
// The download
// ---------------------------------------------------------------------------

/// The percentage that is fetched; `None` where the length is not known or the product does not fit.
pub open spec fn percent_of(downloaded: u64, total: u64) -> Option<u8> {
    if downloaded * 100 > u64::MAX || total == 0 {
        None
    } else {
        let p = (downloaded * 100) as nat / total as nat;
        Some(
            if p < 100 {
                p as u8
            } else {
                100u8
            },
        )
    }
}

/// The percentage that is fetched.
pub fn download_percent(downloaded: u64, total: u64) -> (r: Option<u8>)
    ensures
        r == percent_of(downloaded, total),
{
    match downloaded.checked_mul(100) {
        Some(n) => if total == 0 {
            None
        } else {
            let p: u64 = n / total;
            if p < 100 {
                Some(p as u8)
            } else {
                Some(100)
            }
        },
        None => None,
    }
}

/// A download that is under way.
pub struct Download {
    /// The length that was announced; 0 where none was.
    pub total: u64,
    pub size: u64,
    /// The percentage that was last told; -5 before the first.
    pub last_percent: i64,
}

impl Download {
    /// The percentage that was last told can have been told.
    pub open spec fn wf(&self) -> bool {
        -5 <= self.last_percent <= 100
    }

    /// The percentage `pct` is told.
    pub open spec fn tells(&self, pct: u8, size: u64) -> bool {
        pct - self.last_percent >= 5 || size == self.total
    }

    /// Nothing is fetched yet.
    pub fn new(total: u64) -> (r: Self)
        ensures
            r.wf(),
            r.total == total,
            r.size == 0,
            r.last_percent == -5,
    {
        Download { total, size: 0, last_percent: -5 }
    }

    /// What is told of the download in a phase.
    pub fn progress(&self, phase: &str, message: Option<String>) -> (r: DownloadProgress)
        ensures
            r.phase@ == phase@,
            r.downloaded == self.size,
            r.total == self.total,
            r.percent == percent_of(self.size, self.total),
            r.message == message,
    {
        DownloadProgress {
            phase: phase.to_owned(),
            downloaded: self.size,
            total: self.total,
            percent: download_percent(self.size, self.total),
            message,
        }
    }

    /// `len` bytes have come. Returns what is told of it: at a step of five percent, and at the end.
    pub fn on_chunk(&mut self, len: u64) -> (r: Option<DownloadProgress>)
        requires
            old(self).wf(),
            old(self).size + len <= u64::MAX,
        ensures
            final(self).wf(),
            final(self).total == old(self).total,
            final(self).size == old(self).size + len,
            ({
                let pct = percent_of(final(self).size, old(self).total);
                if pct is Some && old(self).tells(pct->0, final(self).size) {
                    &&& r matches Some(p) && p.phase@ == "downloading"@ && p.downloaded
                        == final(self).size && p.total == old(self).total && p.percent == pct
                        && p.message is None
                    &&& final(self).last_percent == pct->0
                } else {
                    r is None && final(self).last_percent == old(self).last_percent
                }
            }),
    {
        self.size = self.size + len;
        match download_percent(self.size, self.total) {
            Some(pct) => {
                if pct as i64 - self.last_percent >= 5 || self.size == self.total {
                    self.last_percent = pct as i64;
                    return Some(self.progress("downloading", None));
                }
                None
            },
            None => None,
        }
    }
}

/// The digest of a package, in hexadecimal.
pub open spec fn digest_text(content: Seq<u8>) -> Seq<char> {
    bytes::hex(mac::sha256(content))
}

/// A package has the digest that was announced, whose letters may be of either case.
pub open spec fn has_announced_digest(content: Seq<u8>, announced: Seq<char>) -> bool {
    digest_text(content) == text::unicode_lowercase(text::trimmed(announced))
}

/// What is said of a package that does not have the digest that was announced.
pub open spec fn mismatch_text(content: Seq<u8>, announced: Seq<char>) -> Seq<char> {
    "sha256 校验失败（期望 "@ + announced + "，实际 "@ + digest_text(content) + "）——已删除下载文件"@
}

/// Whether a package has the digest that was announced, whose letters may be of either case. Returns
/// the digest.
pub fn verify_download(content: &[u8], sha256: &str) -> (r: Result<String, String>)
    ensures
        match r {
            Ok(got) => has_announced_digest(content@, sha256@) && got@ == digest_text(content@),
            Err(e) => !has_announced_digest(content@, sha256@) && e@ == mismatch_text(
                content@,
                sha256@,
            ),
        },
        text::lowered(text::trimmed(sha256@)) == digest_text(content@) && (forall|i: int|
            0 <= i < text::trimmed(sha256@).len() ==> #[trigger] text::trimmed(sha256@)[i]
                <= '\u{7f}') ==> r is Ok,
{
    let got = to_hex(&sha256_digest(content));
    let expected = trim(sha256);
    let lower = expected.as_str().to_lowercase();
    if same(got.as_str(), lower.as_str()) {
        Ok(got)
    } else {
        let mut m = concat3("sha256 校验失败（期望 ", sha256, "，实际 ");
        m.append(got.as_str());
        m.append("）——已删除下载文件");
        Err(m)
    }
}

/// A folder of an earlier download is taken away after this long.
pub const STALE_DOWNLOAD_SECS: u64 = 3600;

/// Whether a folder in the system's temporary directory is that of a download that was given up: not
/// the present one, and more than an hour old, for another download may be under way. `age` is in
/// nanoseconds.
pub fn is_stale_download(name: &str, is_own: bool, age: Option<u128>) -> (r: bool)
    ensures
        r == ("clipsync-update"@.is_prefix_of(name@) && !is_own && age is Some && age->0
            > STALE_DOWNLOAD_SECS * 1_000_000_000),
{
    if !starts_with(name, "clipsync-update") || is_own {
        return false;
    }
    match age {
        Some(a) => a > 3_600_000_000_000,
        None => false,
    }
}

// ---------------------------------------------------------------------------
// The installation
// ---------------------------------------------------------------------------

/// A file of this name lies in a directory.
pub open spec fn holds(files: Seq<String>, name: Seq<char>) -> bool {
    exists|i: int| 0 <= i < files.len() && (#[trigger] files[i])@ == name
}

fn lists(files: &[String], name: &str) -> (r: bool)
    ensures
        r == holds(files@, name@),
{
    let mut i: usize = 0;
    while i < files.len()
        invariant
            i <= files@.len(),
            forall|k: int| 0 <= k < i ==> (#[trigger] files@[k])@ != name@,
        decreases files@.len() - i,
    {
        if same(files[i].as_str(), name) {
            return true;
        }
        i += 1;
    }
    false
}

/// An installer has put the program into a directory with these files: it leaves a marker; older ones
/// left the program that takes it away again.
pub open spec fn is_installed_in(files: Seq<String>) -> bool {
    holds(files, "installed.marker"@) || holds(files, "uninstall.exe"@)
}

/// Whether an installer has put the program into a directory with these files.
pub fn detect_installed_in(files: &[String]) -> (r: bool)
    ensures
        r == is_installed_in(files@),
{
    lists(files, "installed.marker") || lists(files, "uninstall.exe")
}

/// A program at `exe` lies in a bundle of macOS: in `X.app/Contents/MacOS/`.
pub open spec fn is_bundled(exe: Seq<char>) -> bool {
    let c = local_files::components(exe);
    let n = c.len();
    &&& n >= 4
    &&& c[n - 2] == "MacOS"@
    &&& c[n - 3] == "Contents"@
    &&& text::has_suffix(c[n - 4], ".app"@)
}

/// Whether a program lies in a bundle of macOS, as in `/Applications/ClipSync.app/Contents/MacOS/`.
pub fn is_in_app_bundle(exe: &str) -> (r: bool)
    ensures
        r == is_bundled(exe@),
{
    let c = components_of(exe);
    let n: usize = c.len();
    let ghost v = local_files::components(exe@);
    assert(v.len() == n);
    if n < 4 {
        return false;
    }
    assert(v[n - 2] == c@[n - 2]@ && v[n - 3] == c@[n - 3]@ && v[n - 4] == c@[n - 4]@);
    same(c[n - 2].as_str(), "MacOS") && same(c[n - 3].as_str(), "Contents") && ends_with(
        c[n - 4].as_str(),
        ".app",
    )
}

/// What is known of how the program is run.
pub struct InstallFacts {
    /// Updating was asked for through the environment.
    pub forced: bool,
    /// The program was built for debugging.
    pub debug: bool,
    pub is_macos: bool,
    /// Where the program lies, where that is known.
    pub exe: Option<String>,
    /// The files beside it.
    pub files: Vec<String>,
}

/// Whether the program was installed, and may be updated. A copy of the program alone is not; on macOS
/// a bundle is.
pub fn is_installed_build(facts: &InstallFacts) -> (r: bool)
    ensures
        r == (facts.forced || facts.debug || (facts.exe is Some && ((facts.is_macos && is_bundled(
            facts.exe->0@,
        )) || is_installed_in(facts.files@)))),
{
    if facts.forced || facts.debug {
        return true;
    }
    match &facts.exe {
        Some(exe) => (facts.is_macos && is_in_app_bundle(exe.as_str())) || detect_installed_in(
            &facts.files,
        ),
        None => false,
    }
}

/// A package that was fetched and has the digest that was announced.
#[derive(Debug)]
pub struct PendingUpdate {
    pub path: String,
    /// The digest, in hexadecimal.
    pub digest: String,
}

/// A download is over. Where it brought a package that passed the check of its digest, that is the one
/// that may be installed from now on; a failure leaves the one that there was. `outcome` is the digest
/// of the package, or why the download failed. Returns where the package lies.
pub fn settle_download(
    pending: &mut Option<PendingUpdate>,
    path: String,
    outcome: Result<String, String>,
) -> (r: Result<String, String>)
    ensures
        match outcome {
            Ok(d) => {
                &&& *final(pending) == Some(PendingUpdate { path, digest: d })
                &&& r matches Ok(p)
                &&& p@ == path@
            },
            Err(e) => *final(pending) == *old(pending) && r == Err::<String, String>(e),
        },
        pending_view(*final(pending)) == settled(
            pending_view(*old(pending)),
            path@,
            match outcome {
                Ok(d) => Some(d@),
                Err(_) => None,
            },
        ),
{
    match outcome {
        Ok(digest) => {
            *pending = Some(PendingUpdate { path: path.clone(), digest });
            Ok(path)
        },
        Err(e) => Err(e),
    }
}

/// The temporary file of a download that has to go once the download is over: that of every download
/// that failed. One that succeeded was moved to its place.
pub fn leftover(tmp: String, outcome: &Result<String, String>) -> (r: Option<String>)
    ensures
        r == match outcome {
            Ok(_) => None::<String>,
            Err(_) => Some(tmp),
        },
{
    match outcome {
        Ok(_) => None,
        Err(_) => Some(tmp),
    }
}

/// The path and the digest of the package that may be installed.
pub open spec fn pending_view(p: Option<PendingUpdate>) -> Option<(Seq<char>, Seq<char>)> {
    match p {
        Some(u) => Some((u.path@, u.digest@)),
        None => None,
    }
}

/// The path and the digest of the package that may be installed after a download, which gave the digest
/// `got`, or failed.
pub open spec fn settled(
    before: Option<(Seq<char>, Seq<char>)>,
    path: Seq<char>,
    got: Option<Seq<char>>,
) -> Option<(Seq<char>, Seq<char>)> {
    match got {
        Some(d) => Some((path, d)),
        None => before,
    }
}

/// A download: what came, where it lies, and the digest that was announced. `broken` says that it
/// failed for another reason than its digest.
pub struct Fetched {
    pub path: Seq<char>,
    pub content: Seq<u8>,
    pub announced: Seq<char>,
    pub broken: bool,
}

/// The digest that a download gives; `None` where it failed.
pub open spec fn digest_gained(f: Fetched) -> Option<Seq<char>> {
    if !f.broken && has_announced_digest(f.content, f.announced) {
        Some(digest_text(f.content))
    } else {
        None
    }
}

/// The path and the digest of the package that may be installed after these downloads, one after the
/// other. At first there is none.
pub open spec fn pending_after(downloads: Seq<Fetched>) -> Option<(Seq<char>, Seq<char>)>
    decreases downloads.len(),
{
    if downloads.len() == 0 {
        None
    } else {
        let f = downloads.last();
        settled(pending_after(downloads.drop_last()), f.path, digest_gained(f))
    }
}

/// Two paths that name the same, however often a separator is written.
pub open spec fn same_path(a: Seq<char>, b: Seq<char>) -> bool {
    local_files::components(a) == local_files::components(b)
}

fn is_same_path(a: &str, b: &str) -> (r: bool)
    ensures
        r == same_path(a@, b@),
{
    let p = components_of(a);
    let q = components_of(b);
    let ghost v = local_files::components(a@);
    let ghost w = local_files::components(b@);
    assert(v.len() == p@.len() && w.len() == q@.len());
    if p.len() != q.len() {
        return false;
    }
    let mut i: usize = 0;
    while i < p.len()
        invariant
            v == text::views(p@),
            w == text::views(q@),
            p@.len() == q@.len(),
            i <= p@.len(),
            v == local_files::components(a@),
            w == local_files::components(b@),
            forall|k: int| 0 <= k < i ==> #[trigger] v[k] == w[k],
        decreases p@.len() - i,
    {
        if !same(p[i].as_str(), q[i].as_str()) {
            assert(v[i as int] != w[i as int]);
            return false;
        }
        assert(v[i as int] == w[i as int]);
        i += 1;
    }
    assert(v =~= w);
    true
}

/// Before a package is opened: why it is not installed.
pub open spec fn install_refusal(
    installed: bool,
    pending: Option<PendingUpdate>,
    path: Seq<char>,
    exists: bool,
) -> Option<Seq<char>> {
    if !installed {
        Some(source::portable_text())
    } else if pending is None {
        Some("没有待安装的更新包（请先在本界面完成下载）"@)
    } else if !same_path(pending->0.path@, path) {
        Some("拒绝安装：路径与本次下载的更新包不一致"@)
    } else if !exists {
        Some("安装包不存在: "@ + path)
    } else {
        None
    }
}

/// Before a package is opened: whether it may be. It must be the one that was fetched, for the path
/// comes from elsewhere, and any program could stand there.
pub fn may_open_package(
    installed: bool,
    pending: &Option<PendingUpdate>,
    path: &str,
    exists: bool,
) -> (r: Result<(), String>)
    ensures
        match r {
            Ok(_) => install_refusal(installed, *pending, path@, exists) is None,
            Err(e) => install_refusal(installed, *pending, path@, exists) == Some(e@),
        },
{
    if !installed {
        return Err("当前为免安装版，不支持在线更新（请使用 NSIS 安装版）".to_owned());
    }
    match pending {
        Some(p) => {
            if !is_same_path(p.path.as_str(), path) {
                return Err("拒绝安装：路径与本次下载的更新包不一致".to_owned());
            }
        },
        None => {
            return Err("没有待安装的更新包（请先在本界面完成下载）".to_owned());
        },
    }
    if !exists {
        return Err(concat("安装包不存在: ", path));
    }
    Ok(())
}

/// Before a package is started: whether it still is what was fetched.
pub fn may_start_package(pending: &PendingUpdate, content: &[u8]) -> (r: Result<(), String>)
    ensures
        r is Ok <==> digest_text(content@) == pending.digest@,
        r matches Err(e) ==> e@ == "拒绝安装：安装包内容与下载校验结果不一致（可能已被替换）"@,
{
    let got = to_hex(&sha256_digest(content));
    if same(got.as_str(), pending.digest.as_str()) {
        Ok(())
    } else {
        Err("拒绝安装：安装包内容与下载校验结果不一致（可能已被替换）".to_owned())
    }
}

/// How a package is started on Linux.
#[derive(Debug, Clone, Copy, PartialEq, Eq, Structural)]
pub enum LinuxPackage {
    /// It is a program itself.
    AppImage,
    /// The package manager installs it.
    Deb,
    /// The desktop opens it.
    Other,
}

/// How a package is started on Linux.
pub fn linux_package(path: &str) -> (r: LinuxPackage)
    ensures
        r == if text::has_suffix(path@, ".AppImage"@) {
            LinuxPackage::AppImage
        } else if text::has_suffix(path@, ".deb"@) {
            LinuxPackage::Deb
        } else {
            LinuxPackage::Other
        },
{
    if ends_with(path, ".AppImage") {
        LinuxPackage::AppImage
    } else if ends_with(path, ".deb") {
        LinuxPackage::Deb
    } else {
        LinuxPackage::Other
    }
}

/// The download at `i` brought the package at `path`, which had the digest that was announced, `digest`,
/// and no later one brought any.
pub open spec fn brought_by(
    downloads: Seq<Fetched>,
    path: Seq<char>,
    digest: Seq<char>,
    i: int,
) -> bool {
    &&& 0 <= i < downloads.len()
    &&& !downloads[i].broken
    &&& has_announced_digest(downloads[i].content, downloads[i].announced)
    &&& path == downloads[i].path
    &&& digest == digest_text(downloads[i].content)
    &&& brought_none(downloads, i + 1)
}

/// None of the downloads from `start` on brought a package that had the digest that was announced.
pub open spec fn brought_none(downloads: Seq<Fetched>, start: int) -> bool {
    forall|k: int| start <= k < downloads.len() ==> digest_gained(#[trigger] downloads[k]) is None
}

/// A package may be installed only if one of the downloads brought it and it had the digest that was
/// announced; it is the one that the last such download brought.
pub proof fn law_only_checked_packages_are_pending(downloads: Seq<Fetched>)
    ensures
        match pending_after(downloads) {
            Some(p) => exists|i: int| #[trigger] brought_by(downloads, p.0, p.1, i),
            None => brought_none(downloads, 0),
        },
    decreases downloads.len(),
{
    if downloads.len() > 0 {
        let n = downloads.len() - 1;
        let init = downloads.drop_last();
        let f = downloads.last();
        assert(downloads[n] == f);
        assert(forall|k: int| 0 <= k < n ==> #[trigger] downloads[k] == init[k]);
        law_only_checked_packages_are_pending(init);
        match digest_gained(f) {
            Some(d) => {
                let p = pending_after(downloads)->0;
                assert(p == (f.path, d));
                assert(brought_by(downloads, p.0, p.1, n));
            },
            None => match pending_after(init) {
                Some(p) => {
                    let i = choose|i: int| #[trigger] brought_by(init, p.0, p.1, i);
                    assert(brought_none(downloads, i + 1));
                    assert(brought_by(downloads, p.0, p.1, i));
                    assert(pending_after(downloads) == Some(p));
                },
                None => {
                    assert forall|k: int| 0 <= k < downloads.len() implies digest_gained(
                        #[trigger] downloads[k],
                    ) is None by {
                        if k < n {
                            assert(downloads[k] == init[k]);
                        }
                    }
                },
            },
        }
    }
}

/// Only a package whose digest was announced is ever started. Whatever was downloaded before, what is
/// started lies where one of the downloads put its package, has the digest that was announced for it,
/// and the same digest as what was fetched then. `started` is what lies there when it is started.
pub proof fn law_only_announced_packages_start(
    downloads: Seq<Fetched>,
    pending: PendingUpdate,
    started: Seq<u8>,
)
    requires
        pending_after(downloads) == pending_view(Some(pending)),
        digest_text(started) == pending.digest@,
    ensures
        exists|i: int|
            {
                &&& 0 <= i < downloads.len()
                &&& pending.path@ == (#[trigger] downloads[i]).path
                &&& has_announced_digest(started, downloads[i].announced)
                &&& mac::sha256(started) == mac::sha256(downloads[i].content)
            },
{
    law_only_checked_packages_are_pending(downloads);
    let i = choose|i: int| #[trigger] brought_by(downloads, pending.path@, pending.digest@, i);
    bytes::lemma_hex_injective(mac::sha256(started), mac::sha256(downloads[i].content));
    assert(pending.path@ == downloads[i].path);
}

/// The percentage of a download is the share that has come, rounded down, and never above 100.
pub proof fn law_percentages_are_the_share_that_has_come(downloaded: u64, total: u64)
    requires
        downloaded * 100 <= u64::MAX,
    ensures
        total == 0 ==> percent_of(downloaded, total) is None,
        total > 0 && downloaded >= total ==> percent_of(downloaded, total) == Some(100u8),
        total > 0 && downloaded < total ==> percent_of(downloaded, total) is Some && percent_of(
            downloaded,
            total,
        )->0 * total <= downloaded * 100 < (percent_of(downloaded, total)->0 + 1) * total,
{
    if total > 0 {
        let n = (downloaded * 100) as int;
        let t = total as int;
        let q = n / t;
        vstd::arithmetic::div_mod::lemma_fundamental_div_mod(n, t);
        vstd::arithmetic::div_mod::lemma_mod_bound(n, t);
        assert(q * t <= n && n < (q + 1) * t) by (nonlinear_arith)
            requires
                n == t * q + n % t,
                0 <= n % t < t,
        ;
        if downloaded >= total {
            assert(q >= 100) by (nonlinear_arith)
                requires
                    n >= 100 * t,
                    n < (q + 1) * t,
                    t > 0,
            ;
        } else {
            assert(q < 100) by (nonlinear_arith)
                requires
                    n < 100 * t,
                    q * t <= n,
                    t > 0,
            ;
        }
    }
}

/// A package has the announced digest exactly where its SHA-256, in hexadecimal, is what was announced,
/// in small letters and without white space round it.
pub proof fn law_digests_are_those_of_the_whole_package(a: Seq<u8>, b: Seq<u8>, announced: Seq<char>)
    ensures
        digest_text(a) == digest_text(b) <==> mac::sha256(a) == mac::sha256(b),
        has_announced_digest(a, announced) <==> bytes::hex(mac::sha256(a)) == text::unicode_lowercase(
            text::trimmed(announced),
        ),
{
    if digest_text(a) == digest_text(b) {
        bytes::lemma_hex_injective(mac::sha256(a), mac::sha256(b));
    }
}

/// A package may be opened exactly where the program was installed, the package is the pending one and
/// it is there.
pub proof fn law_only_the_pending_package_is_opened(
    installed: bool,
    pending: Option<PendingUpdate>,
    path: Seq<char>,
    there: bool,
)
    ensures
        install_refusal(installed, pending, path, there) is None <==> installed && pending is Some
            && local_files::components(pending->0.path@) == local_files::components(path) && there,
{
}

/// A program counts as installed exactly where the file that the installer leaves, or the one that
/// uninstalls it, lies beside it.
pub proof fn law_installed_programs_are_told_by_their_files(files: Seq<String>, i: int)
    ensures
        0 <= i < files.len() && (files[i]@ == "installed.marker"@ || files[i]@ == "uninstall.exe"@)
            ==> is_installed_in(files),
        (forall|k: int|
            0 <= k < files.len() ==> (#[trigger] files[k])@ != "installed.marker"@ && files[k]@
                != "uninstall.exe"@) ==> !is_installed_in(files),
{
}

/// Two paths name the same package exactly where they have the same names.
pub proof fn law_paths_with_the_same_names_are_the_same(names: Seq<Seq<char>>, other: Seq<Seq<char>>)
    requires
        names.len() > 0,
        other.len() > 0,
        forall|i: int|
            0 <= i < names.len() ==> (#[trigger] names[i]).len() > 0 && names[i] != "."@
                && !names[i].contains('/'),
        forall|i: int|
            0 <= i < other.len() ==> (#[trigger] other[i]).len() > 0 && other[i] != "."@
                && !other[i].contains('/'),
    ensures
        same_path(
            seq!['/'] + text::joined(names, seq!['/']),
            seq!['/'] + text::joined(other, seq!['/']),
        ) <==> names == other,
{
    local_files::law_paths_are_taken_apart_into_their_names(names);
    local_files::law_paths_are_taken_apart_into_their_names(other);
    let a = seq![seq!['/']] + names;
    let b = seq![seq!['/']] + other;
    if a == b {
        assert(a.skip(1) =~= names);
        assert(b.skip(1) =~= other);
    }
}

/// On macOS a program lies in a bundle exactly where the three folders above it are `X.app`, `Contents` and
/// `MacOS`.
pub proof fn law_bundles_are_told_by_their_folders(names: Seq<Seq<char>>)
    requires
        names.len() >= 4,
        forall|i: int|
            0 <= i < names.len() ==> (#[trigger] names[i]).len() > 0 && names[i] != "."@
                && !names[i].contains('/'),
    ensures
        is_bundled(seq!['/'] + text::joined(names, seq!['/'])) <==> names[names.len() - 2] == "MacOS"@
            && names[names.len() - 3] == "Contents"@ && text::has_suffix(
            names[names.len() - 4],
            ".app"@,
        ),
{
    local_files::law_paths_are_taken_apart_into_their_names(names);
    let c = seq![seq!['/']] + names;
    let n = c.len() as int;
    assert(c[n - 2] == names[names.len() - 2]);
    assert(c[n - 3] == names[names.len() - 3]);
    assert(c[n - 4] == names[names.len() - 4]);
}

} // verus!
