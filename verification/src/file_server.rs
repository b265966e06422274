//! Serving the files that this device offers beyond the local network.
//!
//! A file is asked for with `GET /file/<digest>` on the port on which this device also takes its
//! connections. Who asks must hold the network's key, and gets the file encrypted under it.

use vstd::prelude::*;

use crate::bytes;
use crate::crypto::aead;
use crate::crypto::aead::encrypt;
use crate::crypto::file_auth;
use crate::crypto::file_auth::verify;
use crate::crypto::random::random_nonce;
use crate::file_share::FileShare;
use crate::server_conn::pull;
use crate::text;
use crate::text::{
    chars_of, concat3, find_from, from_utf8_lossy, lines_of, same, split_once, string_of_range, strip_prefix, to_dec,
    to_lower, trim, white,
};

verus! {

/// The head of a request may not be longer than this.
pub const MAX_HEAD_BYTES: usize = 16_384;

/// The head of a request must be read within this time.
pub const HEAD_TIMEOUT_SECS: u64 = 10;

/// The name of the header that carries the credential, in lower case.
pub const AUTH_HEADER: &'static str = "x-clipsync-auth";

// ---------------------------------------------------------------------------
// The head of a request
// ---------------------------------------------------------------------------

/// An empty line ends at `i`.
pub open spec fn head_ends_at(b: Seq<u8>, i: int) -> bool {
    &&& 4 <= i <= b.len()
    &&& b[i - 4] == 13
    &&& b[i - 3] == 10
    &&& b[i - 2] == 13
    &&& b[i - 1] == 10
}

/// What is to be done after a piece of a request's head.
#[derive(Debug, Clone, Copy, PartialEq, Eq, Structural)]
pub enum HeadStep {
    /// The head is whole, and ends here.
    Complete(usize),
    /// Read on.
    More,
    /// The head is too long.
    TooLong,
}

/// What is to be done with the bytes that have come: the head ends with the first empty line.
pub fn head_step(buf: &[u8]) -> (r: HeadStep)
    ensures
        match r {
            HeadStep::Complete(n) => head_ends_at(buf@, n as int) && forall|i: int|
                i < n ==> !#[trigger] head_ends_at(buf@, i),
            HeadStep::More => buf@.len() <= MAX_HEAD_BYTES && forall|i: int|
                !#[trigger] head_ends_at(buf@, i),
            HeadStep::TooLong => buf@.len() > MAX_HEAD_BYTES && forall|i: int|
                !#[trigger] head_ends_at(buf@, i),
        },
{
    let n: usize = buf.len();
    let mut i: usize = 0;
    while i <= n && n - i >= 4
        invariant
            n == buf@.len(),
            i <= n,
            forall|k: int| k < i + 4 ==> !#[trigger] head_ends_at(buf@, k),
        decreases n - i,
    {
        if buf[i] == 13 && buf[i + 1] == 10 && buf[i + 2] == 13 && buf[i + 3] == 10 {
            return HeadStep::Complete(i + 4);
        }
        i += 1;
    }
    if n > MAX_HEAD_BYTES {
        HeadStep::TooLong
    } else {
        HeadStep::More
    }
}

/// Where the first white space stands; the length where there is none.
pub open spec fn find_white(s: Seq<char>) -> int
    decreases s.len(),
{
    if s.len() == 0 || text::is_white(s[0]) {
        0
    } else {
        1 + find_white(s.drop_first())
    }
}

/// The first word of a line.
pub open spec fn word(s: Seq<char>) -> Seq<char> {
    let t = text::trim_start_spec(s);
    t.take(find_white(t))
}

/// What stands behind the first word.
pub open spec fn behind_word(s: Seq<char>) -> Seq<char> {
    let t = text::trim_start_spec(s);
    t.skip(find_white(t))
}

proof fn lemma_find_white(s: Seq<char>)
    ensures
        0 <= find_white(s) <= s.len(),
    decreases s.len(),
{
    if s.len() > 0 && !text::is_white(s[0]) {
        lemma_find_white(s.drop_first());
    }
}

/// The word at `from` or behind it, and where it ends.
fn word_from(v: &[char], from: usize) -> (r: (String, usize))
    requires
        from <= v@.len(),
    ensures
        r.0@ == word(v@.skip(from as int)),
        from <= r.1 <= v@.len(),
        v@.skip(r.1 as int) == behind_word(v@.skip(from as int)),
{
    let n: usize = v.len();
    let mut i: usize = from;
    while i < n && white(v[i])
        invariant
            n == v@.len(),
            from <= i <= n,
            text::trim_start_spec(v@.skip(i as int)) == text::trim_start_spec(v@.skip(from as int)),
        decreases n - i,
    {
        assert(v@.skip(i as int).drop_first() =~= v@.skip(i + 1));
        i += 1;
    }
    let ghost t = v@.skip(i as int);
    assert(i < n ==> t[0] == v@[i as int]);
    assert(t == text::trim_start_spec(v@.skip(from as int)));
    let start: usize = i;
    while i < n && !white(v[i])
        invariant
            n == v@.len(),
            from <= start <= i <= n,
            t == v@.skip(start as int),
            find_white(t) == (i - start) + find_white(v@.skip(i as int)),
        decreases n - i,
    {
        assert(v@.skip(i as int).drop_first() =~= v@.skip(i + 1));
        assert(v@.skip(i as int)[0] == v@[i as int]);
        i += 1;
    }
    proof {
        if i < n {
            assert(v@.skip(i as int)[0] == v@[i as int]);
        }
        assert(find_white(t) == i - start);
        assert(v@.skip(i as int) =~= t.skip(i - start));
    }
    let w = string_of_range(v, start, i);
    assert(w@ =~= t.take(i - start));
    (w, i)
}

/// The value of a header in the lines `lines`; names are compared without regard to case.
pub open spec fn header_in(lines: Seq<Seq<char>>, name: Seq<char>) -> Option<Seq<char>>
    decreases lines.len(),
{
    if lines.len() == 0 {
        None
    } else {
        match text::split_once_spec(lines[0], ':') {
            Some(p) => if text::lowered(text::trimmed(p.0)) == text::lowered(name) {
                Some(text::trimmed(p.1))
            } else {
                header_in(lines.drop_first(), name)
            },
            None => header_in(lines.drop_first(), name),
        }
    }
}

/// The lines of a head behind the first.
pub open spec fn header_lines(head: Seq<char>) -> Seq<Seq<char>> {
    let l = text::lines(head);
    if l.len() == 0 {
        l
    } else {
        l.drop_first()
    }
}

/// The first line of a head.
pub open spec fn request_line(head: Seq<char>) -> Seq<char> {
    let l = text::lines(head);
    if l.len() == 0 {
        ""@
    } else {
        l[0]
    }
}

/// The value of a header; names are compared without regard to case.
pub fn header_value(head: &str, name: &str) -> (r: Option<String>)
    ensures
        text::opt_view(r) == header_in(header_lines(head@), name@),
{
    let lines = lines_of(head);
    let ghost all = text::lines(head@);
    let n: usize = lines.len();
    assert(all.len() == n);
    let wanted = to_lower(name);
    let mut i: usize = 1;
    proof {
        if n > 0 {
            assert(all.skip(1) =~= all.drop_first());
        }
    }
    while i < n
        invariant
            n == lines@.len(),
            1 <= i,
            n > 0 ==> i <= n,
            all == text::views(lines@),
            all == text::lines(head@),
            wanted@ == text::lowered(name@),
            n > 0 ==> header_in(all.skip(i as int), name@) == header_in(header_lines(head@), name@),
        decreases n - i,
    {
        let ghost rest = all.skip(i as int);
        assert(rest[0] == lines@[i as int]@);
        assert(rest.drop_first() =~= all.skip(i + 1));
        match split_once(lines[i].as_str(), ':') {
            Some((k, v)) => {
                if same(to_lower(trim(k.as_str()).as_str()).as_str(), wanted.as_str()) {
                    return Some(trim(v.as_str()));
                }
            },
            None => {},
        }
        i += 1;
    }
    None
}

// ---------------------------------------------------------------------------
// The answer
// ---------------------------------------------------------------------------

/// What is asked for: what stands behind `/file/`, up to a `?` or `#`.
pub open spec fn asked_hash(rest: Seq<char>) -> Seq<char> {
    let a = text::find(rest, '?');
    let b = text::find(rest, '#');
    rest.take(
        if a < b {
            a
        } else {
            b
        },
    )
}

fn hash_in(rest: &str) -> (r: String)
    ensures
        r@ == asked_hash(rest@),
{
    let v = chars_of(rest);
    proof {
        text::lemma_find(rest@, '?');
        text::lemma_find(rest@, '#');
        assert(v@.skip(0) =~= v@);
    }
    let a: usize = find_from(&v, 0, '?');
    let b: usize = find_from(&v, 0, '#');
    let end: usize = if a < b {
        a
    } else {
        b
    };
    let r = string_of_range(&v, 0, end);
    assert(r@ =~= rest@.take(end as int));
    r
}

/// What is to be answered.
#[derive(Debug)]
pub enum FileAnswer {
    /// A status with a word of explanation.
    Status { code: u16, message: &'static str },
    /// The file at this path, encrypted.
    Serve { path: String },
}

/// What is to be answered, over views.
pub enum AnswerView {
    Status { code: u16, message: Seq<char> },
    Serve { path: Seq<char> },
}

/// The answer to a request with the given head. The key comes before the credential, and the
/// credential before the file, so that nobody without the key learns which files there are.
pub open spec fn answer_spec(
    head: Seq<char>,
    key: Option<[u8; 32]>,
    share: Map<Seq<char>, Seq<char>>,
) -> AnswerView {
    let line = request_line(head);
    let path = word(behind_word(line));
    if word(line) != "GET"@ {
        AnswerView::Status { code: 405, message: "method not allowed"@ }
    } else {
        match text::strip_prefix_spec(path, "/file/"@) {
            None => AnswerView::Status { code: 200, message: "clipsync file server"@ },
            Some(rest) => {
                let hash = asked_hash(rest);
                let presented = match header_in(header_lines(head), AUTH_HEADER@) {
                    Some(v) => v,
                    None => ""@,
                };
                if key is None {
                    AnswerView::Status { code: 503, message: "encryption key not ready"@ }
                } else if presented.len() == 0 || text::trimmed(presented) != file_auth::credential(
                    key->0@,
                    hash,
                ) {
                    AnswerView::Status { code: 401, message: "unauthorized"@ }
                } else if share.dom().contains(hash) {
                    AnswerView::Serve { path: share[hash] }
                } else {
                    AnswerView::Status { code: 404, message: "not found"@ }
                }
            },
        }
    }
}

/// The view of an answer.
pub open spec fn answer_view(a: FileAnswer) -> AnswerView {
    match a {
        FileAnswer::Status { code, message } => AnswerView::Status { code, message: message@ },
        FileAnswer::Serve { path } => AnswerView::Serve { path: path@ },
    }
}

/// The answer to a request with the given head.
pub fn answer(head: &str, key: &Option<[u8; 32]>, share: &FileShare) -> (r: FileAnswer)
    ensures
        answer_view(r) == answer_spec(head@, *key, share@),
{
    let lines = lines_of(head);
    let ghost all = text::lines(head@);
    assert(all.len() == lines@.len());
    let line = if lines.len() == 0 {
        "".to_owned()
    } else {
        assert(all[0] == lines@[0]@);
        lines[0].clone()
    };
    let v = chars_of(line.as_str());
    assert(v@.skip(0) =~= line@);
    let (method, end) = word_from(&v, 0);
    let (path, _) = word_from(&v, end);
    if !same(method.as_str(), "GET") {
        return FileAnswer::Status { code: 405, message: "method not allowed" };
    }
    let hash = match strip_prefix(path.as_str(), "/file/") {
        Some(rest) => hash_in(rest.as_str()),
        None => {
            return FileAnswer::Status { code: 200, message: "clipsync file server" };
        },
    };
    let key = match key {
        Some(k) => k,
        None => {
            return FileAnswer::Status { code: 503, message: "encryption key not ready" };
        },
    };
    let presented = match header_value(head, AUTH_HEADER) {
        Some(p) => p,
        None => "".to_owned(),
    };
    proof {
        reveal_strlit("");
    }
    if !verify(key, hash.as_str(), presented.as_str()) {
        return FileAnswer::Status { code: 401, message: "unauthorized" };
    }
    match share.path_of(hash.as_str()) {
        Some(path) => FileAnswer::Serve { path },
        None => FileAnswer::Status { code: 404, message: "not found" },
    }
}

/// The answer to a request whose head has come as bytes.
pub fn answer_bytes(head: &[u8], key: &Option<[u8; 32]>, share: &FileShare) -> (r: FileAnswer)
    ensures
        answer_view(r) == answer_spec(text::lossy(head@), *key, share@),
{
    let head = from_utf8_lossy(head);
    answer(head.as_str(), key, share)
}

/// A file is served to nobody but who shows the credential for it under this network's key.
pub proof fn law_files_are_served_to_key_holders_only(
    head: Seq<char>,
    key: Option<[u8; 32]>,
    share: Map<Seq<char>, Seq<char>>,
)
    requires
        answer_spec(head, key, share) is Serve,
    ensures
        key is Some,
        exists|hash: Seq<char>, presented: Seq<char>|
            {
                &&& header_in(header_lines(head), AUTH_HEADER@) == Some(presented)
                &&& #[trigger] text::trimmed(presented) == #[trigger] file_auth::credential(
                    key->0@,
                    hash,
                )
                &&& share.dom().contains(hash)
                &&& answer_spec(head, key, share)->path == share[hash]
            },
{
    let line = request_line(head);
    let path = word(behind_word(line));
    let rest = text::strip_prefix_spec(path, "/file/"@)->0;
    let hash = asked_hash(rest);
    let presented = match header_in(header_lines(head), AUTH_HEADER@) {
        Some(v) => v,
        None => ""@,
    };
    reveal_strlit("");
    assert(text::trimmed(presented) == file_auth::credential(key->0@, hash));
}

/// The body that carries a file, under the given nonce: the nonce and the ciphertext behind it. `None`
/// where the file is too long to be encrypted; it is never sent as it is.
pub fn sealed_body_with(key: &[u8; 32], nonce: &[u8; 12], plain: &[u8]) -> (r: Option<Vec<u8>>)
    ensures
        r is Some <==> plain@.len() <= aead::MAX_PLAINTEXT,
        r matches Some(b) ==> b@ == nonce@ + aead::aes_gcm_sealed(key@, nonce@, plain@)
            && pull::body_opened(key@, b@) == Some(plain@),
{
    match encrypt(key, nonce, plain) {
        Ok(c) => {
            let b = bytes::concat(nonce, &c);
            assert(b@.take(12) =~= nonce@);
            assert(b@.skip(12) =~= c@);
            Some(b)
        },
        Err(_) => None,
    }
}

/// The body that carries a file, under a random nonce.
pub fn sealed_body(key: &[u8; 32], plain: &[u8]) -> (r: Option<Vec<u8>>)
    ensures
        r is Some <==> plain@.len() <= aead::MAX_PLAINTEXT,
        r matches Some(b) ==> pull::body_opened(key@, b@) == Some(plain@),
{
    let nonce = random_nonce();
    sealed_body_with(key, &nonce, plain)
}

/// What is said of a status in the first line of an answer.
pub open spec fn status_words(code: u16) -> Seq<char> {
    if code == 200 {
        "OK"@
    } else if code == 400 {
        "Bad Request"@
    } else if code == 404 {
        "Not Found"@
    } else if code == 405 {
        "Method Not Allowed"@
    } else if code == 503 {
        "Service Unavailable"@
    } else {
        "Error"@
    }
}

/// What is said of a status in the first line of an answer.
pub fn status_text(code: u16) -> (r: &'static str)
    ensures
        r@ == status_words(code),
{
    if code == 200 {
        "OK"
    } else if code == 400 {
        "Bad Request"
    } else if code == 404 {
        "Not Found"
    } else if code == 405 {
        "Method Not Allowed"
    } else if code == 503 {
        "Service Unavailable"
    } else {
        "Error"
    }
}

/// The head of an answer that gives a status.
pub open spec fn status_head_spec(code: u16, len: nat) -> Seq<char> {
    "HTTP/1.1 "@ + text::dec(code as nat) + " "@ + status_words(code)
        + "\r\nContent-Type: text/plain; charset=utf-8\r\nContent-Length: "@ + text::dec(len)
        + "\r\nConnection: close\r\n\r\n"@
}

/// The head of an answer that gives a status with a message of `len` bytes.
pub fn status_head(code: u16, len: usize) -> (r: String)
    ensures
        r@ == status_head_spec(code, len as nat),
{
    let mut r = concat3("HTTP/1.1 ", to_dec(code as u64).as_str(), " ");
    r.append(status_text(code));
    r.append("\r\nContent-Type: text/plain; charset=utf-8\r\nContent-Length: ");
    r.append(to_dec(len as u64).as_str());
    r.append("\r\nConnection: close\r\n\r\n");
    r
}

/// The head of an answer that carries a file of `len` bytes, as it is sent.
pub fn body_head(len: usize) -> (r: String)
    ensures
        r@
            == "HTTP/1.1 200 OK\r\nContent-Type: application/octet-stream\r\nContent-Length: "@ + text::dec(
            len as nat,
        ) + "\r\nConnection: close\r\n\r\n"@,
{
    concat3(
        "HTTP/1.1 200 OK\r\nContent-Type: application/octet-stream\r\nContent-Length: ",
        to_dec(len as u64).as_str(),
        "\r\nConnection: close\r\n\r\n",
    )
}

/// An answer that gives a status, as it is sent.
pub fn write_status(code: u16, message: &str) -> (r: Vec<u8>)
    ensures
        r@ == text::utf8(status_head_spec(code, text::utf8(message@).len())) + text::utf8(message@),
{
    let body = message.as_bytes();
    let head = status_head(code, body.len());
    bytes::concat(head.as_str().as_bytes(), body)
}

proof fn lemma_word(w: Seq<char>, rest: Seq<char>)
    requires
        w.len() > 0,
        forall|i: int| 0 <= i < w.len() ==> !text::is_white(#[trigger] w[i]),
        rest.len() > 0 ==> text::is_white(rest[0]),
    ensures
        word(w + rest) == w,
        behind_word(w + rest) == rest,
        word(seq![' '] + (w + rest)) == w,
        behind_word(seq![' '] + (w + rest)) == rest,
{
    let s = w + rest;
    assert(s[0] == w[0]);
    assert(!text::is_white(w[0]));
    assert(text::trim_start_spec(s) == s);
    lemma_white_at(w, rest);
    assert(s.take(w.len() as int) =~= w);
    assert(s.skip(w.len() as int) =~= rest);
    let t = seq![' '] + s;
    assert(t.drop_first() =~= s);
    assert(t[0] == ' ');
}

proof fn lemma_white_at(w: Seq<char>, rest: Seq<char>)
    requires
        forall|i: int| 0 <= i < w.len() ==> !text::is_white(#[trigger] w[i]),
        rest.len() > 0 ==> text::is_white(rest[0]),
    ensures
        find_white(w + rest) == w.len(),
    decreases w.len(),
{
    let s = w + rest;
    if w.len() > 0 {
        let t = w.drop_first();
        assert(!text::is_white(w[0]));
        assert(s[0] == w[0]);
        assert forall|i: int| 0 <= i < t.len() implies !text::is_white(#[trigger] t[i]) by {
            assert(t[i] == w[i + 1]);
        }
        assert(s.drop_first() =~= t + rest);
        lemma_white_at(t, rest);
    } else {
        assert(s =~= rest);
    }
}

/// A line of a head gives a header its value: the name may be written in letters of either case, and
/// white space round the value does not count. A line of another name is passed over.
pub proof fn law_headers_are_found_by_their_name(
    name: Seq<char>,
    written: Seq<char>,
    value: Seq<char>,
    lines: Seq<Seq<char>>,
)
    requires
        written.len() > 0,
        !written.contains(':'),
        !text::is_white(written[0]),
        !text::is_white(written.last()),
        value.len() > 0 ==> !text::is_white(value[0]) && !text::is_white(value.last()),
    ensures
        text::lowered(written) == text::lowered(name) ==> header_in(
            seq![written + seq![':', ' '] + value] + lines,
            name,
        ) == Some(value),
        text::lowered(written) != text::lowered(name) ==> header_in(
            seq![written + seq![':', ' '] + value] + lines,
            name,
        ) == header_in(lines, name),
        header_in(seq![], name) is None,
{
    let line = written + seq![':', ' '] + value;
    let all = seq![line] + lines;
    assert(all[0] == line);
    assert(all.drop_first() =~= lines);
    let n = written.len() as int;
    assert forall|i: int| 0 <= i < n implies line[i] != ':' by {
        assert(line[i] == written[i]);
        assert(written.contains(written[i]));
    }
    assert(line[n] == ':');
    assert(line.contains(':'));
    text::lemma_find_is(line, ':', n);
    assert(line.take(n) =~= written);
    let rest = line.skip(n + 1);
    assert(rest =~= seq![' '] + value);
    text::lemma_trimmed_fixed(written);
    let none: Seq<char> = seq![];
    assert(rest =~= seq![' '] + value + none);
    text::law_trimming_takes_white_space_only(seq![' '], value, none);
}

/// Who asks for a file by its digest and shows the credential for it gets the file; who shows another
/// one is turned away, and learns not whether there is such a file.
#[verifier::rlimit(30)]
pub proof fn law_key_holders_get_the_file_they_ask_for(
    hash: Seq<char>,
    shown: Seq<char>,
    key: [u8; 32],
    share: Map<Seq<char>, Seq<char>>,
)
    requires
        forall|i: int|
            0 <= i < hash.len() ==> !text::is_white(#[trigger] hash[i]) && hash[i] != '?' && hash[i]
                != '#',
        shown.len() > 0,
        forall|i: int| 0 <= i < shown.len() ==> !text::is_white(#[trigger] shown[i]),
    ensures
        ({
            let head = "GET /file/"@ + hash + " HTTP/1.1\r\nX-Clipsync-Auth: "@ + shown + "\r\n\r\n"@;
            let right = shown == file_auth::credential(key@, hash);
            &&& right && share.dom().contains(hash) ==> answer_spec(head, Some(key), share)
                == AnswerView::Serve { path: share[hash] }
            &&& right && !share.dom().contains(hash) ==> answer_spec(head, Some(key), share) is Status
                && answer_spec(head, Some(key), share)->code == 404
            &&& !right ==> answer_spec(head, Some(key), share) is Status && answer_spec(
                head,
                Some(key),
                share,
            )->code == 401
            &&& answer_spec(head, None, share) is Status && answer_spec(head, None, share)->code == 503
        }),
{
    reveal_strlit("GET /file/");
    reveal_strlit(" HTTP/1.1\r\nX-Clipsync-Auth: ");
    reveal_strlit("\r\n\r\n");
    reveal_strlit("GET");
    reveal_strlit("/file/");
    reveal_strlit("x-clipsync-auth");
    reveal_strlit("");
    let head = "GET /file/"@ + hash + " HTTP/1.1\r\nX-Clipsync-Auth: "@ + shown + "\r\n\r\n"@;
    let proto = seq![' ', 'H', 'T', 'T', 'P', '/', '1', '.', '1'];
    let get = seq!['G', 'E', 'T'];
    let file = seq!['/', 'f', 'i', 'l', 'e', '/'];
    let name = seq!['X', '-', 'C', 'l', 'i', 'p', 's', 'y', 'n', 'c', '-', 'A', 'u', 't', 'h'];
    let path = file + hash;
    let line = get + (seq![' '] + (path + proto));
    let header = name + seq![':', ' '] + shown;
    let a = line.push('\r');
    let b = header.push('\r');
    let c = seq!['\r'];
    let none: Seq<char> = seq![];
    let last = c.push('\n') + none;
    let second = b.push('\n') + last;
    assert(head =~= a.push('\n') + second);
    assert(forall|i: int| 0 <= i < path.len() ==> !text::is_white(#[trigger] path[i]));
    assert(!a.contains('\n')) by {
        assert forall|i: int| 0 <= i < a.len() implies a[i] != '\n' by {
            if 10 <= i < 10 + hash.len() {
                assert(a[i] == hash[i - 10]);
            } else if i < 10 {
            } else if i < a.len() - 1 {
                assert(a[i] == proto[i - 10 - hash.len()]);
            }
        }
    }
    assert(!b.contains('\n')) by {
        assert forall|i: int| 0 <= i < b.len() implies b[i] != '\n' by {
            if 17 <= i < 17 + shown.len() {
                assert(b[i] == shown[i - 17]);
            }
        }
    }
    assert(!c.contains('\n'));
    text::law_lines_end_at_line_feeds(a, second);
    text::law_lines_end_at_line_feeds(b, last);
    text::law_lines_end_at_line_feeds(c, none);
    assert(a.drop_last() =~= line);
    assert(b.drop_last() =~= header);
    assert(c.drop_last() =~= none);
    let l = text::lines(head);
    assert(l =~= seq![line] + (seq![header] + (seq![none] + text::lines(none))));
    assert(l[0] == line);
    let rest_lines = seq![none] + text::lines(none);
    assert(l.drop_first() =~= seq![header] + rest_lines);
    assert("GET"@ =~= get);
    assert("/file/"@ =~= file);
    assert(forall|i: int| 0 <= i < get.len() ==> !text::is_white(#[trigger] get[i]));
    lemma_word(get, seq![' '] + (path + proto));
    lemma_word(path, proto);
    assert(path.subrange(0, 6) =~= file);
    assert(path.skip(6) =~= hash);
    text::lemma_find_is(hash, '?', hash.len() as int);
    text::lemma_find_is(hash, '#', hash.len() as int);
    assert(hash.take(hash.len() as int) =~= hash);
    assert(text::lowered(name) =~= text::lowered("x-clipsync-auth"@));
    assert(!name.contains(':'));
    law_headers_are_found_by_their_name("x-clipsync-auth"@, name, shown, rest_lines);
    assert(!text::is_white(shown[0]) && !text::is_white(shown[shown.len() - 1]));
    text::lemma_trimmed_fixed(shown);
}

/// Nothing but requests to get are answered, and what is no request for a file gets a greeting.
pub proof fn law_other_requests_get_no_file(
    head: Seq<char>,
    key: Option<[u8; 32]>,
    share: Map<Seq<char>, Seq<char>>,
)
    ensures
        word(request_line(head)) != "GET"@ ==> answer_spec(head, key, share) is Status && answer_spec(
            head,
            key,
            share,
        )->code == 405,
        word(request_line(head)) == "GET"@ && !"/file/"@.is_prefix_of(
            word(behind_word(request_line(head))),
        ) ==> answer_spec(head, key, share) is Status && answer_spec(head, key, share)->code == 200,
{
}

/// The head of a request ends behind the first empty line, and what is asked for ends at a question mark
/// or a number sign.
pub proof fn law_heads_end_with_an_empty_line(b: Seq<u8>, i: int, hash: Seq<char>, c: char, rest: Seq<char>)
    requires
        !hash.contains('?'),
        !hash.contains('#'),
        c == '?' || c == '#',
    ensures
        head_ends_at(b, i) <==> 4 <= i <= b.len() && b.subrange(i - 4, i) == seq![13u8, 10u8, 13u8, 10u8],
        asked_hash(hash) == hash,
        asked_hash(hash.push(c) + rest) == hash,
{
    if 4 <= i <= b.len() {
        let t = b.subrange(i - 4, i);
        if head_ends_at(b, i) {
            assert(t =~= seq![13u8, 10u8, 13u8, 10u8]);
        }
        if t == seq![13u8, 10u8, 13u8, 10u8] {
            assert(t[0] == 13 && t[1] == 10 && t[2] == 13 && t[3] == 10);
        }
    }
    let n = hash.len() as int;
    assert forall|k: int| 0 <= k < n implies hash[k] != '?' && hash[k] != '#' by {
        assert(hash.contains(hash[k]));
    }
    text::lemma_find_is(hash, '?', n);
    text::lemma_find_is(hash, '#', n);
    assert(hash.take(n) =~= hash);
    let s = hash.push(c) + rest;
    assert forall|k: int| 0 <= k < n implies s[k] != '?' && s[k] != '#' by {
        assert(s[k] == hash[k]);
    }
    text::lemma_find_is(s, c, n);
    text::lemma_find(s, '?');
    text::lemma_find(s, '#');
    assert(text::find(s, '?') >= n && text::find(s, '#') >= n) by {
        if text::find(s, '?') < n {
            assert(s[text::find(s, '?')] == '?');
        }
        if text::find(s, '#') < n {
            assert(s[text::find(s, '#')] == '#');
        }
    }
    assert(s.take(n) =~= hash);
}

/// An answer begins with its status, in digits and words, and tells the length of what follows.
pub proof fn law_answers_tell_status_and_length(code: u16, len: nat)
    ensures
        ("HTTP/1.1 "@ + text::dec(code as nat) + " "@ + status_words(code)).is_prefix_of(
            status_head_spec(code, len),
        ),
        text::has_substring(status_head_spec(code, len), "Content-Length: "@ + text::dec(len)),
        status_words(200) == "OK"@ && status_words(404) == "Not Found"@,
{
    reveal_strlit("\r\nContent-Type: text/plain; charset=utf-8\r\nContent-Length: ");
    reveal_strlit("Content-Length: ");
    let h = status_head_spec(code, len);
    let a = "HTTP/1.1 "@ + text::dec(code as nat) + " "@ + status_words(code);
    assert(h.subrange(0, a.len() as int) =~= a);
    let m = "\r\nContent-Type: text/plain; charset=utf-8\r\nContent-Length: "@;
    let p = "Content-Length: "@ + text::dec(len);
    let at = a.len() + m.len() - 16;
    assert(h.subrange(at, at + p.len()) =~= p);
    assert(text::occurs_at(h, p, at));
}

/// An answer is seen as its status and message, or as the path of the file.
pub proof fn law_answers_are_seen_whole(code: u16, message: &'static str, path: String)
    ensures
        answer_view(FileAnswer::Status { code, message }) == (AnswerView::Status {
            code,
            message: message@,
        }),
        answer_view(FileAnswer::Serve { path }) == (AnswerView::Serve { path: path@ }),
{
}

} // verus!
