//! Where an update may come from.

use vstd::prelude::*;

use crate::text;
use crate::text::{
    chars_of, concat, concat3, contains_char, contains_str, find_from, same, string_of_range,
    strip_prefix, trim,
};

verus! {

/// The repository whose releases are the other way to an update.
pub const GITHUB_REPO: &'static str = "dumengzhao/ClipSync";

/// What is said where no server is configured.
pub open spec fn no_server_text() -> Seq<char> {
    "未配置服务端地址，请在设置里填写服务端连接地址"@
}

/// The key of a platform in a manifest.
pub open spec fn platform_key_spec(os: Seq<char>, arch: Seq<char>) -> Seq<char> {
    if os == "windows"@ && arch == "x86_64"@ {
        "windows-x86_64"@
    } else if os == "windows"@ && arch == "aarch64"@ {
        "windows-aarch64"@
    } else if os == "macos"@ && arch == "x86_64"@ {
        "darwin-x86_64"@
    } else if os == "macos"@ && arch == "aarch64"@ {
        "darwin-aarch64"@
    } else if os == "linux"@ && arch == "x86_64"@ {
        "linux-x86_64"@
    } else if os == "linux"@ && arch == "aarch64"@ {
        "linux-aarch64"@
    } else {
        "unknown"@
    }
}

/// The key of a platform in a manifest.
pub fn platform_key(os: &str, arch: &str) -> (r: &'static str)
    ensures
        r@ == platform_key_spec(os@, arch@),
{
    let x86 = same(arch, "x86_64");
    let arm = same(arch, "aarch64");
    if same(os, "windows") && x86 {
        "windows-x86_64"
    } else if same(os, "windows") && arm {
        "windows-aarch64"
    } else if same(os, "macos") && x86 {
        "darwin-x86_64"
    } else if same(os, "macos") && arm {
        "darwin-aarch64"
    } else if same(os, "linux") && x86 {
        "linux-x86_64"
    } else if same(os, "linux") && arm {
        "linux-aarch64"
    } else {
        "unknown"
    }
}

/// The address of the manifest of the latest release. Drafts and prereleases are not found there.
pub fn github_manifest_url() -> (r: String)
    ensures
        r@ == "https://github.com/"@ + GITHUB_REPO@ + "/releases/latest/download/latest.json"@,
{
    concat3("https://github.com/", GITHUB_REPO, "/releases/latest/download/latest.json")
}

// ---------------------------------------------------------------------------
// The server
// ---------------------------------------------------------------------------

/// Whether an address asks for encryption, and what stands behind its scheme. Without a scheme it
/// does not.
pub open spec fn scheme_split(s: Seq<char>) -> (bool, Seq<char>) {
    if text::strip_prefix_spec(s, "wss://"@) is Some {
        (true, text::strip_prefix_spec(s, "wss://"@)->0)
    } else if text::strip_prefix_spec(s, "ws://"@) is Some {
        (false, text::strip_prefix_spec(s, "ws://"@)->0)
    } else if text::strip_prefix_spec(s, "https://"@) is Some {
        (true, text::strip_prefix_spec(s, "https://"@)->0)
    } else if text::strip_prefix_spec(s, "http://"@) is Some {
        (false, text::strip_prefix_spec(s, "http://"@)->0)
    } else {
        (false, s)
    }
}

/// What stands before the first `/` or `?`, trimmed.
pub open spec fn authority(rest: Seq<char>) -> Seq<char> {
    let a = text::find(rest, '/');
    let b = text::find(rest, '?');
    text::trimmed(
        rest.take(
            if a < b {
                a
            } else {
                b
            },
        ),
    )
}

/// The address under which a server offers updates.
pub open spec fn update_base(server_url: Seq<char>) -> Option<Seq<char>> {
    let (tls, rest) = scheme_split(text::trimmed(server_url));
    let host = authority(rest);
    if host.len() == 0 {
        None
    } else if tls {
        Some("https"@ + "://"@ + host)
    } else {
        Some("http"@ + "://"@ + host)
    }
}

fn split_scheme(s: &str) -> (r: (bool, String))
    ensures
        r.0 == scheme_split(s@).0,
        r.1@ == scheme_split(s@).1,
{
    match strip_prefix(s, "wss://") {
        Some(rest) => {
            return (true, rest);
        },
        None => {},
    }
    match strip_prefix(s, "ws://") {
        Some(rest) => {
            return (false, rest);
        },
        None => {},
    }
    match strip_prefix(s, "https://") {
        Some(rest) => {
            return (true, rest);
        },
        None => {},
    }
    match strip_prefix(s, "http://") {
        Some(rest) => {
            return (false, rest);
        },
        None => {},
    }
    (false, s.to_owned())
}

/// The address under which the configured server offers updates: `wss` becomes `https`, `ws` and an
/// address without a scheme become `http`. `None` where no server is configured.
pub fn update_base_from_server_url(server_url: &str) -> (r: Option<String>)
    ensures
        text::opt_view(r) == update_base(server_url@),
{
    let s = trim(server_url);
    let (tls, rest) = split_scheme(s.as_str());
    let v = chars_of(rest.as_str());
    proof {
        text::lemma_find(rest@, '/');
        text::lemma_find(rest@, '?');
        assert(v@.skip(0) =~= v@);
    }
    let a: usize = find_from(&v, 0, '/');
    let b: usize = find_from(&v, 0, '?');
    let end: usize = if a < b {
        a
    } else {
        b
    };
    let head = string_of_range(&v, 0, end);
    assert(head@ =~= rest@.take(end as int));
    let host = trim(head.as_str());
    if host.as_str().is_empty() {
        None
    } else if tls {
        Some(concat3("https", "://", host.as_str()))
    } else {
        Some(concat3("http", "://", host.as_str()))
    }
}

/// The address of the manifest on the configured server.
pub fn server_manifest_url(server_url: &str) -> (r: Result<String, String>)
    ensures
        match r {
            Ok(u) => update_base(server_url@) is Some && u@ == update_base(server_url@)->0
                + "/update/latest.json"@,
            Err(e) => update_base(server_url@) is None && e@ == no_server_text(),
        },
{
    match update_base_from_server_url(server_url) {
        Some(base) => Ok(concat(base.as_str(), "/update/latest.json")),
        None => Err("未配置服务端地址，请在设置里填写服务端连接地址".to_owned()),
    }
}

/// Whatever is configured, the address of the updates has a scheme and a host.
pub proof fn law_update_base_has_scheme(server_url: Seq<char>)
    ensures
        update_base(server_url) matches Some(b) ==> ("https://"@.is_prefix_of(b)
            || "http://"@.is_prefix_of(b)) && b.len() > 7,
{
    reveal_strlit("https");
    reveal_strlit("http");
    reveal_strlit("://");
    reveal_strlit("https://");
    reveal_strlit("http://");
    if update_base(server_url) is Some {
        let (tls, rest) = scheme_split(text::trimmed(server_url));
        let host = authority(rest);
        let b = update_base(server_url)->0;
        if tls {
            assert("https://"@ =~= "https"@ + "://"@);
            assert(b.subrange(0, 8) =~= "https://"@);
        } else {
            assert("http://"@ =~= "http"@ + "://"@);
            assert(b.subrange(0, 7) =~= "http://"@);
        }
    }
}

// ---------------------------------------------------------------------------
// The address of a package
// ---------------------------------------------------------------------------

/// What is read of an address.
#[derive(Debug)]
pub struct UrlParts {
    pub scheme: String,
    pub host: Option<String>,
    /// The port, or the one that belongs to the scheme.
    pub port: Option<u16>,
}

/// The scheme, the host and the port of an address.
pub type Origin = (Seq<char>, Option<Seq<char>>, Option<u16>);

impl UrlParts {
    /// The scheme, the host and the port.
    pub open spec fn origin(&self) -> Origin {
        (self.scheme@, text::opt_view(self.host), self.port)
    }

    /// Whether two addresses have the same scheme, host and port.
    pub fn same_origin(&self, other: &UrlParts) -> (r: bool)
        ensures
            r == (self.origin() == other.origin()),
    {
        if !same(self.scheme.as_str(), other.scheme.as_str()) {
            return false;
        }
        match (&self.host, &other.host) {
            (Some(a), Some(b)) => {
                if !same(a.as_str(), b.as_str()) {
                    return false;
                }
            },
            (None, None) => {},
            _ => {
                return false;
            },
        }
        match (self.port, other.port) {
            (Some(a), Some(b)) => a == b,
            (None, None) => true,
            _ => false,
        }
    }
}

/// What is read of an address: the scheme, the host and the port; or why it is none.
pub open spec fn url_view(r: Result<UrlParts, String>) -> Result<Origin, Seq<char>> {
    match r {
        Ok(u) => Ok(u.origin()),
        Err(e) => Err(e@),
    }
}

/// What `reqwest::Url::parse` reads of a text.
pub uninterp spec fn parsed_url(s: Seq<char>) -> Result<Origin, Seq<char>>;

/// Calls `reqwest::Url::parse`, then `scheme`, `host_str` and `port_or_known_default`. What comes out
/// depends on the text alone.
#[verifier::external_body]
fn parse_url(s: &str) -> (r: Result<UrlParts, String>)
    ensures
        url_view(r) == parsed_url(s@),
{
    match reqwest::Url::parse(s) {
        Ok(u) => Ok(
            UrlParts {
                scheme: u.scheme().to_owned(),
                host: u.host_str().map(|h| h.to_owned()),
                port: u.port_or_known_default(),
            },
        ),
        Err(e) => Err(e.to_string()),
    }
}

/// What is read of an address; or why it is none.
pub fn read_url(s: &str) -> (r: Result<UrlParts, String>)
    ensures
        url_view(r) == parsed_url(s@),
{
    parse_url(s)
}

/// Which way a package comes.
#[derive(Debug, Clone, Copy, PartialEq, Eq, Structural)]
pub enum DownloadSource {
    /// From the configured server: the address must have its scheme, host and port.
    Relay,
    /// From GitHub: the address must be encrypted and of one of GitHub's hosts.
    Github,
}

/// A host that GitHub keeps releases on.
pub open spec fn is_github_host(h: Seq<char>) -> bool {
    ||| h == "github.com"@
    ||| h == "objects.githubusercontent.com"@
    ||| h == "release-assets.githubusercontent.com"@
    ||| h == "github-releases.githubusercontent.com"@
}

/// The host, or nothing.
pub open spec fn host_text(u: Origin) -> Seq<char> {
    match u.1 {
        Some(h) => h,
        None => ""@,
    }
}

/// Why an address is none of GitHub's; `None` where it is one.
pub open spec fn github_refusal(u: Origin) -> Option<Seq<char>> {
    if u.0 != "https"@ {
        Some("GitHub 更新地址必须是 https"@)
    } else if !is_github_host(host_text(u)) {
        Some("更新地址不在 GitHub 允许的域名内（"@ + host_text(u) + "）"@)
    } else {
        None
    }
}

/// Whether a package may be fetched from an address on GitHub: it must be encrypted, and its host must
/// be one of GitHub's, letter by letter. A host that only ends or begins like one is none.
pub fn github_url_allowed(target: &UrlParts) -> (r: Result<(), String>)
    ensures
        match r {
            Ok(_) => github_refusal(target.origin()) is None,
            Err(e) => github_refusal(target.origin()) == Some(e@),
        },
{
    if !same(target.scheme.as_str(), "https") {
        return Err("GitHub 更新地址必须是 https".to_owned());
    }
    let host = match &target.host {
        Some(h) => h.as_str(),
        None => "",
    };
    if same(host, "github.com") || same(host, "objects.githubusercontent.com") || same(
        host,
        "release-assets.githubusercontent.com",
    ) || same(host, "github-releases.githubusercontent.com") {
        Ok(())
    } else {
        Err(concat3("更新地址不在 GitHub 允许的域名内（", host, "）"))
    }
}

/// A separator of paths.
pub open spec fn is_separator(c: char) -> bool {
    c == '/' || c == '\\'
}

/// `s` without separators at its end.
pub open spec fn without_separators(s: Seq<char>) -> Seq<char>
    decreases s.len(),
{
    if s.len() > 0 && is_separator(s.last()) {
        without_separators(s.drop_last())
    } else {
        s
    }
}

/// What stands behind the last separator.
pub open spec fn behind_last(s: Seq<char>) -> Seq<char>
    decreases s.len(),
{
    if s.len() == 0 || is_separator(s.last()) {
        seq![]
    } else {
        behind_last(s.drop_last()).push(s.last())
    }
}

/// The name of the file that an address ends in.
pub open spec fn basename(url: Seq<char>) -> Seq<char> {
    behind_last(without_separators(url))
}

proof fn lemma_behind_last(s: Seq<char>, i: int)
    requires
        0 <= i <= s.len(),
        i > 0 ==> is_separator(s[i - 1]),
        forall|k: int| i <= k < s.len() ==> !is_separator(#[trigger] s[k]),
    ensures
        behind_last(s) == s.skip(i),
    decreases s.len(),
{
    if i < s.len() {
        lemma_behind_last(s.drop_last(), i);
        assert(s.drop_last().skip(i).push(s.last()) =~= s.skip(i));
    } else {
        assert(s.skip(i) =~= Seq::<char>::empty());
    }
}

/// The name of the file that an address ends in; empty where there is none.
pub fn basename_of(url: &str) -> (r: String)
    ensures
        r@ == basename(url@),
{
    let v = chars_of(url);
    let mut end: usize = v.len();
    assert(v@.take(end as int) =~= url@);
    while end > 0 && (v[end - 1] == '/' || v[end - 1] == '\\')
        invariant
            end <= v@.len(),
            without_separators(v@.take(end as int)) == without_separators(url@),
        decreases end,
    {
        assert(v@.take(end as int).drop_last() =~= v@.take(end - 1));
        end -= 1;
    }
    let ghost s = v@.take(end as int);
    assert(end > 0 ==> s.last() == v@[end - 1]);
    let mut from: usize = end;
    while from > 0 && v[from - 1] != '/' && v[from - 1] != '\\'
        invariant
            from <= end <= v@.len(),
            forall|k: int| from <= k < end ==> !is_separator(#[trigger] v@[k]),
        decreases from,
    {
        from -= 1;
    }
    let r = string_of_range(&v, from, end);
    proof {
        assert forall|k: int| from <= k < s.len() implies !is_separator(#[trigger] s[k]) by {
            assert(s[k] == v@[k]);
        }
        lemma_behind_last(s, from as int);
        assert(r@ =~= s.skip(from as int));
    }
    r
}

/// The name under which a package is stored; an error where the address ends in none, or in one with
/// two dots in a row.
pub open spec fn package_name(url: Seq<char>) -> Result<Seq<char>, Seq<char>> {
    let name = basename(url);
    if name.len() == 0 || text::has_substring(name, ".."@) || name.contains('/') || name.contains(
        '\\',
    ) {
        Err("无效的下载文件名: "@ + name)
    } else {
        Ok(name)
    }
}

/// The name under which a package is stored.
fn package_name_of(url: &str) -> (r: Result<String, String>)
    ensures
        match r {
            Ok(n) => package_name(url@) == Ok::<Seq<char>, Seq<char>>(n@),
            Err(e) => package_name(url@) == Err::<Seq<char>, Seq<char>>(e@),
        },
{
    let name = basename_of(url);
    if name.as_str().is_empty() || contains_str(name.as_str(), "..") || contains_char(
        name.as_str(),
        '/',
    ) || contains_char(name.as_str(), '\\') {
        Err(concat("无效的下载文件名: ", name.as_str()))
    } else {
        Ok(name)
    }
}

/// What is said to a program that was not installed.
pub open spec fn portable_text() -> Seq<char> {
    "当前为免安装版，不支持在线更新（请使用 NSIS 安装版）"@
}

/// The name under which the package at `url` is stored, or why it is not fetched. `base` is the
/// address of the server's updates; `target` and `allowed` are what is read of `url` and of `base`.
pub open spec fn download_target_spec(
    installed: bool,
    url: Seq<char>,
    source: DownloadSource,
    base: Option<Seq<char>>,
    target: Result<Origin, Seq<char>>,
    allowed: Result<Origin, Seq<char>>,
) -> Result<Seq<char>, Seq<char>> {
    if !installed {
        Err(portable_text())
    } else if target is Err {
        Err("更新地址非法: "@ + target->Err_0)
    } else {
        match source {
            DownloadSource::Relay => if base is None {
                Err("未配置服务端地址，无法校验更新来源"@)
            } else if allowed is Err {
                Err("服务端地址非法: "@ + allowed->Err_0)
            } else if target->Ok_0 != allowed->Ok_0 {
                Err(
                    "更新地址与配置的服务端不同源，已拒绝下载："@ + url + "（期望源自 "@ + base->0 + "）"@,
                )
            } else {
                package_name(url)
            },
            DownloadSource::Github => match github_refusal(target->Ok_0) {
                Some(why) => Err(why + "，已拒绝下载："@ + url),
                None => package_name(url),
            },
        }
    }
}

/// The name under which the package at `url` is stored, or why it is not fetched. A package comes from
/// the configured server itself, or from GitHub's hosts, and from nowhere else: the address comes from
/// a manifest, and its digest too.
pub fn judge_download(
    installed: bool,
    url: &str,
    source: DownloadSource,
    base: Option<String>,
    target: Result<UrlParts, String>,
    allowed: Result<UrlParts, String>,
) -> (r: Result<String, String>)
    ensures
        match r {
            Ok(n) => download_target_spec(
                installed,
                url@,
                source,
                text::opt_view(base),
                url_view(target),
                url_view(allowed),
            ) == Ok::<Seq<char>, Seq<char>>(n@),
            Err(e) => download_target_spec(
                installed,
                url@,
                source,
                text::opt_view(base),
                url_view(target),
                url_view(allowed),
            ) == Err::<Seq<char>, Seq<char>>(e@),
        },
{
    if !installed {
        return Err("当前为免安装版，不支持在线更新（请使用 NSIS 安装版）".to_owned());
    }
    let t = match &target {
        Ok(t) => t,
        Err(e) => {
            return Err(concat("更新地址非法: ", e.as_str()));
        },
    };
    match source {
        DownloadSource::Relay => {
            let b = match &base {
                Some(b) => b,
                None => {
                    return Err("未配置服务端地址，无法校验更新来源".to_owned());
                },
            };
            let a = match &allowed {
                Ok(a) => a,
                Err(e) => {
                    return Err(concat("服务端地址非法: ", e.as_str()));
                },
            };
            if !t.same_origin(a) {
                let mut m = concat3("更新地址与配置的服务端不同源，已拒绝下载：", url, "（期望源自 ");
                m.append(b.as_str());
                m.append("）");
                return Err(m);
            }
        },
        DownloadSource::Github => {
            match github_url_allowed(t) {
                Ok(()) => {},
                Err(why) => {
                    return Err(concat3(why.as_str(), "，已拒绝下载：", url));
                },
            }
        },
    }
    package_name_of(url)
}

/// The name under which the package at `url` is stored, or why it is not fetched.
pub fn download_target(installed: bool, url: &str, source: DownloadSource, server_url: &str) -> (r:
    Result<String, String>)
    ensures
        ({
            let base = update_base(server_url@);
            let owed = download_target_spec(
                installed,
                url@,
                source,
                base,
                parsed_url(url@),
                if base is Some {
                    parsed_url(base->0)
                } else {
                    Err(""@)
                },
            );
            match r {
                Ok(n) => owed == Ok::<Seq<char>, Seq<char>>(n@),
                Err(e) => owed == Err::<Seq<char>, Seq<char>>(e@),
            }
        }),
{
    let target = read_url(url);
    let base = update_base_from_server_url(server_url);
    let allowed = match &base {
        Some(b) => read_url(b.as_str()),
        None => Err("".to_owned()),
    };
    judge_download(installed, url, source, base, target, allowed)
}

/// A package from the server's way comes from the server's own origin, and one from the other way
/// from GitHub over an encrypted connection.
pub proof fn law_packages_come_from_their_source(
    installed: bool,
    url: Seq<char>,
    source: DownloadSource,
    base: Option<Seq<char>>,
    target: Result<Origin, Seq<char>>,
    allowed: Result<Origin, Seq<char>>,
)
    requires
        download_target_spec(installed, url, source, base, target, allowed) is Ok,
    ensures
        installed,
        target is Ok,
        source is Relay ==> base is Some && allowed is Ok && target->Ok_0 == allowed->Ok_0,
        source is Github ==> (target->Ok_0).0 == "https"@ && is_github_host(
            host_text(target->Ok_0),
        ),
{
}

/// A platform is named by its system, which for macOS is called darwin, and its processor.
#[verifier::rlimit(30)]
pub proof fn law_platforms_are_named_by_system_and_processor(arch: Seq<char>)
    requires
        arch == "x86_64"@ || arch == "aarch64"@,
    ensures
        platform_key_spec("windows"@, arch) == "windows-"@ + arch,
        platform_key_spec("macos"@, arch) == "darwin-"@ + arch,
        platform_key_spec("linux"@, arch) == "linux-"@ + arch,
{
    reveal_strlit("x86_64");
    reveal_strlit("aarch64");
    reveal_strlit("windows");
    reveal_strlit("macos");
    reveal_strlit("linux");
    reveal_strlit("windows-");
    reveal_strlit("darwin-");
    reveal_strlit("linux-");
    reveal_strlit("windows-x86_64");
    reveal_strlit("windows-aarch64");
    reveal_strlit("darwin-x86_64");
    reveal_strlit("darwin-aarch64");
    reveal_strlit("linux-x86_64");
    reveal_strlit("linux-aarch64");
    assert("x86_64"@.len() == 6 && "aarch64"@.len() == 7);
    assert("windows"@.len() == 7 && "macos"@[0] == 'm' && "linux"@[0] == 'l' && "windows"@[0] == 'w');
    assert("windows-"@ + "x86_64"@ =~= "windows-x86_64"@);
    assert("windows-"@ + "aarch64"@ =~= "windows-aarch64"@);
    assert("darwin-"@ + "x86_64"@ =~= "darwin-x86_64"@);
    assert("darwin-"@ + "aarch64"@ =~= "darwin-aarch64"@);
    assert("linux-"@ + "x86_64"@ =~= "linux-x86_64"@);
    assert("linux-"@ + "aarch64"@ =~= "linux-aarch64"@);
}

/// The name of a package is what stands behind the last separator of its address; separators at the end
/// do not count.
pub proof fn law_packages_are_named_by_the_end_of_their_address(
    a: Seq<char>,
    sep: char,
    name: Seq<char>,
)
    requires
        sep == '/' || sep == '\\',
        name.len() > 0,
        !name.contains('/'),
        !name.contains('\\'),
    ensures
        basename(a.push(sep) + name) == name,
        basename((a.push(sep) + name).push('/')) == name,
        basename(name) == name,
        !text::has_substring(name, ".."@) ==> package_name(a.push(sep) + name) == Ok::<
            Seq<char>,
            Seq<char>,
        >(name),
        text::has_substring(name, ".."@) ==> package_name(a.push(sep) + name) is Err,
{
    let s = a.push(sep) + name;
    let n = a.len() as int + 1;
    assert forall|k: int| 0 <= k < name.len() implies !is_separator(#[trigger] name[k]) by {
        assert(name.contains(name[k]));
    }
    assert forall|k: int| n <= k < s.len() implies !is_separator(#[trigger] s[k]) by {
        assert(s[k] == name[k - n]);
    }
    assert(s[n - 1] == sep);
    lemma_behind_last(s, n);
    assert(s.skip(n) =~= name);
    assert(s.last() == name.last());
    assert(!is_separator(name[name.len() - 1]));
    assert(s.push('/').drop_last() =~= s);
    lemma_behind_last(name, 0);
    assert(name.skip(0) =~= name);
}

/// Updates are looked for on the server's own host, encrypted where the connection to it is, whatever
/// path the address of the server has.
pub proof fn law_updates_come_from_the_host_of_the_server(host: Seq<char>, path: Seq<char>)
    requires
        host.len() > 0,
        !host.contains('/'),
        !host.contains('?'),
        !text::is_white(host[0]),
        !text::is_white(host.last()),
        path.len() > 0 ==> path[0] == '/' && !text::is_white(path.last()),
    ensures
        update_base("wss://"@ + host + path) == Some("https://"@ + host),
        update_base("https://"@ + host + path) == Some("https://"@ + host),
        update_base("ws://"@ + host + path) == Some("http://"@ + host),
        update_base("http://"@ + host + path) == Some("http://"@ + host),
        update_base(host) == Some("http://"@ + host),
{
    reveal_strlit("wss://");
    reveal_strlit("ws://");
    reveal_strlit("https://");
    reveal_strlit("http://");
    lemma_base(host, path, "wss://"@);
    lemma_base(host, path, "https://"@);
    lemma_base(host, path, "ws://"@);
    lemma_base(host, path, "http://"@);
    let none: Seq<char> = seq![];
    lemma_authority(host, none);
    assert(host + none =~= host);
    text::lemma_trimmed_fixed(host);
    lemma_no_slash(host, "wss://"@, 4);
    lemma_no_slash(host, "ws://"@, 3);
    lemma_no_slash(host, "https://"@, 6);
    lemma_no_slash(host, "http://"@, 5);
    reveal_strlit("http");
    reveal_strlit("://");
    assert("http"@ + "://"@ =~= "http://"@);
}

proof fn lemma_no_slash(host: Seq<char>, p: Seq<char>, k: int)
    requires
        !host.contains('/'),
        0 <= k < p.len(),
        p[k] == '/',
    ensures
        !p.is_prefix_of(host),
{
    if p.is_prefix_of(host) {
        assert(host.subrange(0, p.len() as int)[k] == p[k]);
        assert(host.contains(host[k]));
    }
}

#[verifier::rlimit(30)]
proof fn lemma_base(host: Seq<char>, path: Seq<char>, p: Seq<char>)
    requires
        host.len() > 0,
        !host.contains('/'),
        !host.contains('?'),
        !text::is_white(host[0]),
        !text::is_white(host.last()),
        path.len() > 0 ==> path[0] == '/' && !text::is_white(path.last()),
        p == "wss://"@ || p == "https://"@ || p == "ws://"@ || p == "http://"@,
    ensures
        p == "wss://"@ || p == "https://"@ ==> update_base(p + host + path) == Some("https://"@ + host),
        p == "ws://"@ || p == "http://"@ ==> update_base(p + host + path) == Some("http://"@ + host),
{
    reveal_strlit("wss://");
    reveal_strlit("ws://");
    reveal_strlit("https://");
    reveal_strlit("http://");
    reveal_strlit("https");
    reveal_strlit("http");
    reveal_strlit("://");
    assert("https"@ + "://"@ =~= "https://"@);
    assert("http"@ + "://"@ =~= "http://"@);
    let rest = host + path;
    lemma_authority(host, path);
    let a = p + host + path;
    assert(a =~= p + rest);
    assert(a[0] == p[0]);
    assert(a.last() == if path.len() > 0 {
        path.last()
    } else {
        host.last()
    });
    assert(!text::is_white(a[0]));
    text::lemma_trimmed_fixed(a);
    let n = p.len() as int;
    assert(a.subrange(0, n) =~= p);
    assert(a.skip(n) =~= rest);
    if p == "https://"@ || p == "http://"@ {
        lemma_not_prefix(a, "wss://"@, 0);
        lemma_not_prefix(a, "ws://"@, 0);
    }
    if p == "ws://"@ {
        assert(a[2] == ':');
        lemma_not_prefix(a, "wss://"@, 2);
    }
    if p == "http://"@ {
        assert(a[4] == ':');
        lemma_not_prefix(a, "https://"@, 4);
    }
}

proof fn lemma_not_prefix(s: Seq<char>, p: Seq<char>, i: int)
    requires
        0 <= i < p.len(),
        i < s.len(),
        s[i] != p[i],
    ensures
        !p.is_prefix_of(s),
{
    if p.is_prefix_of(s) {
        assert(s.subrange(0, p.len() as int)[i] == p[i]);
    }
}

proof fn lemma_authority(host: Seq<char>, path: Seq<char>)
    requires
        host.len() > 0,
        !host.contains('/'),
        !host.contains('?'),
        !text::is_white(host[0]),
        !text::is_white(host.last()),
        path.len() > 0 ==> path[0] == '/',
    ensures
        authority(host + path) == host,
{
    let s = host + path;
    assert forall|i: int| 0 <= i < host.len() implies s[i] != '/' && s[i] != '?' by {
        assert(s[i] == host[i]);
        assert(host.contains(host[i]));
    }
    text::lemma_find_is(s, '/', host.len() as int);
    text::lemma_find(s, '?');
    assert(text::find(s, '?') >= host.len()) by {
        if text::find(s, '?') < host.len() {
            assert(s[text::find(s, '?')] == '?');
        }
    }
    assert(s.take(host.len() as int) =~= host);
    text::lemma_trimmed_fixed(host);
}

/// A package is fetched from the configured server where its address has the scheme, host and port of
/// the server, and from GitHub where it is on one of GitHub's hosts, encrypted; then under the name that
/// its address ends in.
pub proof fn law_packages_of_the_right_source_are_fetched(
    url: Seq<char>,
    base: Seq<char>,
    origin: Origin,
    other: Result<Origin, Seq<char>>,
)
    ensures
        download_target_spec(
            true,
            url,
            DownloadSource::Relay,
            Some(base),
            Ok::<Origin, Seq<char>>(origin),
            Ok::<Origin, Seq<char>>(origin),
        ) == package_name(url),
        origin.0 == "https"@ && (origin.1 == Some("github.com"@) || origin.1 == Some(
            "objects.githubusercontent.com"@,
        ) || origin.1 == Some("release-assets.githubusercontent.com"@) || origin.1 == Some(
            "github-releases.githubusercontent.com"@,
        )) ==> download_target_spec(
            true,
            url,
            DownloadSource::Github,
            Some(base),
            Ok::<Origin, Seq<char>>(origin),
            other,
        ) == package_name(url),
        origin.0 != "https"@ || !(origin.1 == Some("github.com"@) || origin.1 == Some(
            "objects.githubusercontent.com"@,
        ) || origin.1 == Some("release-assets.githubusercontent.com"@) || origin.1 == Some(
            "github-releases.githubusercontent.com"@,
        )) ==> download_target_spec(
            true,
            url,
            DownloadSource::Github,
            Some(base),
            Ok::<Origin, Seq<char>>(origin),
            other,
        ) is Err,
{
    reveal_strlit("");
    reveal_strlit("github.com");
    reveal_strlit("objects.githubusercontent.com");
    reveal_strlit("release-assets.githubusercontent.com");
    reveal_strlit("github-releases.githubusercontent.com");
    assert(""@.len() == 0);
    assert("github.com"@.len() > 0 && "objects.githubusercontent.com"@.len() > 0
        && "release-assets.githubusercontent.com"@.len() > 0
        && "github-releases.githubusercontent.com"@.len() > 0);
}

} // verus!
