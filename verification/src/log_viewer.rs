//! Following the log in a window.
//!
//! When the window is ready it gets the end of the log, and from then on what is appended. The two
//! meet at the end of a line: no line comes twice, and none is lost.

use vstd::prelude::*;

use crate::bytes;
use crate::text;
use crate::text::{from_utf8_lossy, starts_with};

verus! {

/// The label of the window.
pub const LOG_WINDOW_LABEL: &'static str = "log-viewer";

/// How often the log is looked at, in milliseconds.
pub const POLL_INTERVAL_MS: u64 = 400;

/// How much of the log is shown at first, in bytes.
pub const TAIL_HISTORY_BYTES: u64 = 204_800;

/// How many lines are handed over at once.
pub const MAX_LINES_PER_TICK: usize = 500;

/// How much is read at once, in bytes.
pub const MAX_READ_PER_TICK: u64 = 4_194_304;

/// A line that is longer than this before it ends is thrown away.
pub const MAX_PARTIAL: usize = 1_048_576;

/// How long the window is waited for, in seconds.
pub const READY_TIMEOUT_SECS: u64 = 3;

/// The log's directory is looked through every so many looks.
pub const RESCAN_TICKS: u32 = 25;

// ---------------------------------------------------------------------------
// One follower at a time
// ---------------------------------------------------------------------------

/// Who follows the log. Each follower has a number; one whose number is no longer the present one
/// must stop, so that a window that was closed and opened again has one follower and not two.
pub struct TailGate {
    pub generation: u64,
    pub running: bool,
}

/// What is done with the log window.
#[derive(Debug, Clone, Copy, PartialEq, Eq, Structural)]
pub enum OpenStep {
    /// It is brought to the front.
    Focus,
    /// It is brought to the front, and the log is followed from its end.
    FocusAndFollow(u64),
    /// It is made. It says itself when it listens.
    Create(u64),
}

/// What is done with the log window, where the number is now `generation`.
pub open spec fn open_step(is_open: bool, running: bool, generation: u64) -> OpenStep {
    if !is_open {
        OpenStep::Create(generation)
    } else if running {
        OpenStep::Focus
    } else {
        OpenStep::FocusAndFollow(generation)
    }
}

impl TailGate {
    /// Nobody follows the log.
    pub fn new() -> (r: Self)
        ensures
            r.generation == 0,
            !r.running,
    {
        TailGate { generation: 0, running: false }
    }

    /// Asks to follow the log. `None` where somebody does already; else the number of the follower.
    pub fn claim_tail_start(&mut self) -> (r: Option<u64>)
        requires
            old(self).generation < u64::MAX,
        ensures
            final(self).running,
            if old(self).running {
                r is None && final(self).generation == old(self).generation
            } else {
                r == Some(final(self).generation) && final(self).generation == old(self).generation + 1
            },
    {
        if self.running {
            None
        } else {
            self.running = true;
            self.generation = self.generation + 1;
            Some(self.generation)
        }
    }

    /// A new window was opened: whoever follows the log must stop.
    pub fn invalidate_tail(&mut self)
        requires
            old(self).generation < u64::MAX,
        ensures
            final(self).generation == old(self).generation + 1,
            !final(self).running,
    {
        self.generation = self.generation + 1;
        self.running = false;
    }

    /// The log window is to be shown. One that exists is brought to the front, and the log is followed
    /// again where nobody does any more; else a window is made, and whoever follows the log for an
    /// earlier one must stop.
    pub fn open_window(&mut self, is_open: bool) -> (r: OpenStep)
        requires
            old(self).generation < u64::MAX,
        ensures
            r == open_step(is_open, old(self).running, final(self).generation),
            final(self).running == is_open,
            final(self).generation == old(self).generation + if is_open && old(self).running {
                0int
            } else {
                1int
            },
    {
        if is_open {
            match self.claim_tail_start() {
                Some(generation) => OpenStep::FocusAndFollow(generation),
                None => OpenStep::Focus,
            }
        } else {
            self.invalidate_tail();
            OpenStep::Create(self.generation)
        }
    }

    /// A window that was made as number `created` has not said in time that it listens: the number under
    /// which the log is followed without it, from its end. `None` where somebody follows it already, or
    /// the window was made anew.
    pub fn ready_timed_out(&mut self, created: u64) -> (r: Option<u64>)
        requires
            old(self).generation < u64::MAX,
        ensures
            if old(self).generation == created && !old(self).running {
                &&& r == Some(final(self).generation)
                &&& final(self).generation == old(self).generation + 1
                &&& final(self).running
            } else {
                r is None && *final(self) == *old(self)
            },
    {
        if self.generation != created {
            return None;
        }
        self.claim_tail_start()
    }

    /// Whether the follower `gen` may go on.
    pub fn is_current(&self, gen: u64) -> (r: bool)
        ensures
            r == (self.generation == gen),
    {
        self.generation == gen
    }

    /// The follower `gen` has stopped. One that was followed by another does not speak for it.
    pub fn finish(&mut self, gen: u64)
        ensures
            final(self).generation == old(self).generation,
            final(self).running == (old(self).running && old(self).generation != gen),
    {
        if self.generation == gen {
            self.running = false;
        }
    }
}

// ---------------------------------------------------------------------------
// The newest file
// ---------------------------------------------------------------------------

/// An entry of the log's directory.
pub struct LogEntry {
    pub name: String,
    pub is_file: bool,
    /// When it was last written, where that is known.
    pub modified: Option<u128>,
}

/// The entry is a file of the log.
pub open spec fn is_log(e: LogEntry) -> bool {
    "clipsync.log"@.is_prefix_of(e.name@) && e.is_file && e.modified is Some
}

/// The file that was written last; the first of several. The days in the names are not trusted: they
/// depend on a time zone.
pub fn newest_log(entries: &[LogEntry]) -> (r: Option<usize>)
    ensures
        match r {
            Some(i) => {
                &&& i < entries@.len()
                &&& is_log(entries@[i as int])
                &&& forall|k: int|
                    0 <= k < entries@.len() && is_log(#[trigger] entries@[k])
                        ==> entries@[k].modified->0 <= entries@[i as int].modified->0
                &&& forall|k: int|
                    0 <= k < i && is_log(#[trigger] entries@[k]) ==> entries@[k].modified->0
                        < entries@[i as int].modified->0
            },
            None => forall|k: int| 0 <= k < entries@.len() ==> !is_log(#[trigger] entries@[k]),
        },
{
    let mut best: Option<(usize, u128)> = None;
    let n: usize = entries.len();
    let mut i: usize = 0;
    while i < n
        invariant
            n == entries@.len(),
            i <= n,
            match best {
                Some(b) => {
                    &&& b.0 < i
                    &&& is_log(entries@[b.0 as int])
                    &&& entries@[b.0 as int].modified == Some(b.1)
                    &&& forall|k: int|
                        0 <= k < i && is_log(#[trigger] entries@[k]) ==> entries@[k].modified->0 <= b.1
                    &&& forall|k: int|
                        0 <= k < b.0 && is_log(#[trigger] entries@[k]) ==> entries@[k].modified->0
                            < b.1
                },
                None => forall|k: int| 0 <= k < i ==> !is_log(#[trigger] entries@[k]),
            },
        decreases n - i,
    {
        let e = &entries[i];
        if starts_with(e.name.as_str(), "clipsync.log") && e.is_file {
            match e.modified {
                Some(t) => {
                    let later = match best {
                        Some(b) => t > b.1,
                        None => true,
                    };
                    if later {
                        best = Some((i, t));
                    }
                },
                None => {},
            }
        }
        i += 1;
    }
    match best {
        Some(b) => Some(b.0),
        None => None,
    }
}

// ---------------------------------------------------------------------------
// Lines
// ---------------------------------------------------------------------------

/// Where the first line end stands; the length where there is none.
pub open spec fn newline(d: Seq<u8>) -> int
    decreases d.len(),
{
    if d.len() == 0 || d[0] == 10 {
        0
    } else {
        1 + newline(d.drop_first())
    }
}

/// A line without a carriage return at its end.
pub open spec fn chomped(d: Seq<u8>) -> Seq<u8> {
    if d.len() > 0 && d.last() == 13 {
        d.drop_last()
    } else {
        d
    }
}

/// The lines of `d` that have ended.
pub open spec fn byte_lines(d: Seq<u8>) -> Seq<Seq<u8>>
    decreases d.len(),
{
    let i = newline(d);
    if i < 0 || i >= d.len() {
        seq![]
    } else {
        seq![chomped(d.take(i))] + byte_lines(d.skip(i + 1))
    }
}

/// What stands behind the last line end.
pub open spec fn unended(d: Seq<u8>) -> Seq<u8>
    decreases d.len(),
{
    if d.len() == 0 || d.last() == 10 {
        seq![]
    } else {
        unended(d.drop_last()).push(d.last())
    }
}

/// The texts of lines.
pub open spec fn line_texts(lines: Seq<Seq<u8>>) -> Seq<Seq<char>> {
    Seq::new(lines.len(), |i: int| text::lossy(lines[i]))
}

proof fn lemma_newline(d: Seq<u8>)
    ensures
        0 <= newline(d) <= d.len(),
        newline(d) < d.len() ==> d[newline(d)] == 10,
        forall|k: int| 0 <= k < newline(d) ==> #[trigger] d[k] != 10,
    decreases d.len(),
{
    if d.len() > 0 && d[0] != 10 {
        let t = d.drop_first();
        lemma_newline(t);
        assert forall|k: int| 0 <= k < newline(d) implies #[trigger] d[k] != 10 by {
            if k > 0 {
                assert(t[k - 1] == d[k]);
            }
        }
        if newline(d) < d.len() {
            assert(t[newline(t)] == d[newline(d)]);
        }
    }
}

proof fn lemma_newline_is(d: Seq<u8>, k: int)
    requires
        0 <= k < d.len(),
        d[k] == 10,
        forall|i: int| 0 <= i < k ==> #[trigger] d[i] != 10,
    ensures
        newline(d) == k,
{
    lemma_newline(d);
    if newline(d) < k {
        assert(d[newline(d)] == 10);
    }
}

proof fn lemma_unended(d: Seq<u8>, k: int)
    requires
        0 <= k <= d.len(),
        k > 0 ==> d[k - 1] == 10,
        forall|i: int| k <= i < d.len() ==> #[trigger] d[i] != 10,
    ensures
        unended(d) == d.skip(k),
    decreases d.len(),
{
    if k < d.len() {
        assert(d[d.len() - 1] != 10);
        lemma_unended(d.drop_last(), k);
        assert(d.drop_last().skip(k).push(d.last()) =~= d.skip(k));
    } else {
        assert(d.skip(k) =~= Seq::<u8>::empty());
    }
}

proof fn lemma_unended_split(d: Seq<u8>)
    ensures
        unended(d).len() <= d.len(),
        ({
            let k = d.len() - unended(d).len();
            &&& unended(d) == d.skip(k)
            &&& k > 0 ==> d[k - 1] == 10
            &&& forall|i: int| k <= i < d.len() ==> #[trigger] d[i] != 10
        }),
    decreases d.len(),
{
    if d.len() == 0 || d.last() == 10 {
        assert(d.skip(d.len() as int) =~= Seq::<u8>::empty());
    } else {
        let t = d.drop_last();
        lemma_unended_split(t);
        let k = t.len() - unended(t).len();
        assert(t.skip(k).push(d.last()) =~= d.skip(k));
        assert forall|i: int| k <= i < d.len() implies #[trigger] d[i] != 10 by {
            if i < t.len() {
                assert(t[i] == d[i]);
            }
        }
        if k > 0 {
            assert(t[k - 1] == d[k - 1]);
        }
    }
}

/// However a text is cut in two, its lines are those of the first part, and then those of what was
/// left over of it together with the second part.
pub proof fn law_lines_do_not_depend_on_the_cut(x: Seq<u8>, y: Seq<u8>)
    ensures
        byte_lines(x + y) == byte_lines(x) + byte_lines(unended(x) + y),
        unended(x + y) == unended(unended(x) + y),
    decreases x.len(),
{
    lemma_newline(x);
    let i = newline(x);
    lemma_unended_split(x);
    if i < x.len() {
        let d = x + y;
        assert(d[i] == x[i]);
        assert forall|k: int| 0 <= k < i implies #[trigger] d[k] != 10 by {
            assert(d[k] == x[k]);
        }
        lemma_newline_is(d, i);
        let rest = x.skip(i + 1);
        assert(d.take(i) =~= x.take(i));
        assert(d.skip(i + 1) =~= rest + y);
        law_lines_do_not_depend_on_the_cut(rest, y);
        // What is left over of `x` is left over of what stands behind its first line.
        let k = x.len() - unended(x).len();
        assert(k > i) by {
            if k <= i {
                assert(x[i] != 10);
            }
        }
        assert forall|j: int| k - i - 1 <= j < rest.len() implies #[trigger] rest[j] != 10 by {
            assert(rest[j] == x[j + i + 1]);
        }
        if k > i + 1 {
            assert(rest[k - i - 2] == x[k - 1]);
        }
        lemma_unended(rest, k - i - 1);
        assert(rest.skip(k - i - 1) =~= x.skip(k));
        assert(unended(rest) == unended(x));
        assert(seq![chomped(x.take(i))] + (byte_lines(rest) + byte_lines(unended(x) + y)) =~= (seq![
            chomped(x.take(i)),
        ] + byte_lines(rest)) + byte_lines(unended(x) + y));
    } else {
        lemma_unended(x, 0);
        assert(x.skip(0) =~= x);
        assert(Seq::<Seq<u8>>::empty() + byte_lines(x + y) =~= byte_lines(x + y));
        assert(byte_lines(x) =~= Seq::<Seq<u8>>::empty());
    }
    // The second claim: what is left over is cut off at the last line end of all.
    let d = x + y;
    let e = unended(x) + y;
    let k = x.len() - unended(x).len();
    assert(e =~= d.skip(k));
    lemma_unended_split(e);
    let m = e.len() - unended(e).len();
    if m > 0 {
        assert(e[m - 1] == d[k + m - 1]);
    } else if k > 0 {
        assert(d[k - 1] == x[k - 1]);
    }
    assert forall|j: int| k + m <= j < d.len() implies #[trigger] d[j] != 10 by {
        assert(d[j] == e[j - k]);
    }
    lemma_unended(d, k + m);
    assert(d.skip(k + m) =~= e.skip(m));
}

/// The lines in `data`, without their line ends.
pub fn split_lines(data: &[u8]) -> (r: Vec<String>)
    ensures
        text::views(r@) == line_texts(byte_lines(data@)),
{
    let n: usize = data.len();
    let mut out: Vec<String> = Vec::new();
    let mut start: usize = 0;
    let mut i: usize = 0;
    let ghost mut done: Seq<Seq<u8>> = seq![];
    proof {
        assert(data@.skip(0) =~= data@);
        assert(done + byte_lines(data@) =~= byte_lines(data@));
        assert(text::views(out@) =~= line_texts(done));
    }
    while i < n
        invariant
            n == data@.len(),
            start <= i <= n,
            forall|k: int| start <= k < i ==> #[trigger] data@[k] != 10,
            text::views(out@) == line_texts(done),
            done + byte_lines(data@.skip(start as int)) == byte_lines(data@),
        decreases n - i,
    {
        if data[i] == 10 {
            let end: usize = if i > start && data[i - 1] == 13 {
                i - 1
            } else {
                i
            };
            let line = bytes::range(data, start, end);
            let s = from_utf8_lossy(&line);
            proof {
                let rest = data@.skip(start as int);
                assert forall|k: int| 0 <= k < i - start implies #[trigger] rest[k] != 10 by {
                    assert(rest[k] == data@[start + k]);
                }
                assert(rest[i - start] == 10);
                lemma_newline_is(rest, i - start);
                let head = rest.take(i - start);
                assert(head =~= data@.subrange(start as int, i as int));
                assert(line@ =~= chomped(head));
                assert(rest.skip(i - start + 1) =~= data@.skip(i + 1));
                text::lemma_views_push(out@, s);
                assert(line_texts(done.push(chomped(head))) =~= line_texts(done).push(s@));
                assert((done + (seq![chomped(head)] + byte_lines(data@.skip(i + 1)))) =~= done.push(
                    chomped(head),
                ) + byte_lines(data@.skip(i + 1)));
                done = done.push(chomped(head));
            }
            out.push(s);
            start = i + 1;
        }
        i += 1;
    }
    proof {
        let rest = data@.skip(start as int);
        lemma_newline(rest);
        if newline(rest) < rest.len() {
            assert(rest[newline(rest)] == data@[start + newline(rest)]);
        }
        assert(done + byte_lines(rest) =~= done);
    }
    out
}

// ---------------------------------------------------------------------------
// The end of the log
// ---------------------------------------------------------------------------

/// From where on the log is shown at first.
pub fn history_start(len: u64) -> (r: u64)
    ensures
        r == if len <= TAIL_HISTORY_BYTES {
            0
        } else {
            (len - TAIL_HISTORY_BYTES) as u64
        },
{
    if len <= TAIL_HISTORY_BYTES {
        0
    } else {
        len - TAIL_HISTORY_BYTES
    }
}

/// How many bytes are passed over: a line that began before what was read and ends in it. Where
/// everything was read, or no line ends in what was read, none.
pub open spec fn passed_over(buf: Seq<u8>, from: u64) -> int {
    if from > 0 && newline(buf) < buf.len() {
        newline(buf) + 1
    } else {
        0
    }
}

/// Where following begins: behind the last line that has ended; where none ends in what was read, at
/// the beginning of that.
pub open spec fn follow_from(buf: Seq<u8>, from: u64) -> int {
    from + (buf.len() - unended(buf).len())
}

/// The lines at the end of the log, and where following begins. `buf` is the log from `from` to its
/// end. A line that has not ended yet is left to whoever follows.
pub fn read_history(buf: &[u8], from: u64) -> (r: (Vec<String>, u64))
    requires
        from + buf@.len() <= u64::MAX,
    ensures
        text::views(r.0@) == line_texts(byte_lines(buf@.skip(passed_over(buf@, from)))),
        r.1 == follow_from(buf@, from),
{
    let n: usize = buf.len();
    proof {
        lemma_newline(buf@);
        lemma_unended_split(buf@);
    }
    let mut first: usize = 0;
    while first < n && buf[first] != 10
        invariant
            n == buf@.len(),
            first <= n,
            forall|k: int| 0 <= k < first ==> #[trigger] buf@[k] != 10,
        decreases n - first,
    {
        first += 1;
    }
    proof {
        if first < n {
            lemma_newline_is(buf@, first as int);
        } else if newline(buf@) < n {
            assert(buf@[newline(buf@)] == 10);
        }
    }
    let start: usize = if from > 0 && first < n {
        first + 1
    } else {
        0
    };
    let mut last: usize = n;
    while last > 0 && buf[last - 1] != 10
        invariant
            n == buf@.len(),
            last <= n,
            forall|k: int| last <= k < n ==> #[trigger] buf@[k] != 10,
        decreases last,
    {
        last -= 1;
    }
    proof {
        lemma_unended(buf@, last as int);
    }
    let next: u64 = from + last as u64;
    let body = bytes::range(buf, start, n);
    assert(body@ =~= buf@.skip(start as int));
    (split_lines(&body), next)
}

/// The lines that are shown at first and those that come from following are, one behind the other, the
/// lines of the log: none comes twice, and none is lost. `buf` is the end of the log when the window
/// was ready, `more` what was appended later.
pub proof fn law_history_and_following_are_seamless(buf: Seq<u8>, from: u64, more: Seq<u8>)
    ensures
        ({
            let start = passed_over(buf, from);
            let met = follow_from(buf, from) - from;
            &&& 0 <= start <= met <= buf.len()
            &&& byte_lines(buf.skip(start)) + byte_lines((buf + more).skip(met)) == byte_lines(
                (buf + more).skip(start),
            )
        }),
{
    lemma_newline(buf);
    lemma_unended_split(buf);
    let start = passed_over(buf, from);
    let k = buf.len() - unended(buf).len();
    if from > 0 && newline(buf) < buf.len() {
        let i = newline(buf);
        assert(k > i) by {
            if k <= i {
                assert(buf[i] != 10);
            }
        }
    }
    let x = buf.skip(start);
    assert((buf + more).skip(start) =~= x + more);
    law_lines_do_not_depend_on_the_cut(x, more);
    assert forall|j: int| k - start <= j < x.len() implies #[trigger] x[j] != 10 by {
        assert(x[j] == buf[j + start]);
    }
    if k > start {
        assert(x[k - start - 1] == buf[k - 1]);
    }
    lemma_unended(x, k - start);
    assert(x.skip(k - start) =~= buf.skip(k));
    assert((buf + more).skip(k) =~= buf.skip(k) + more);
}

// ---------------------------------------------------------------------------
// Following
// ---------------------------------------------------------------------------

/// A follower of the log.
pub struct Tail {
    /// The file that is followed.
    pub path: Option<String>,
    pub offset: u64,
    /// The beginning of a line that has not ended.
    pub partial: Vec<u8>,
    /// No file was followed yet.
    pub first_file: bool,
    /// Where the first file is followed from; at its end where that is not given.
    pub initial_offset: Option<u64>,
    pub ticks_since_scan: u32,
}

/// What is to be read.
#[derive(Debug)]
pub struct TailRead {
    /// The file was begun anew: clear the window.
    pub reset: bool,
    /// Read from here to there.
    pub range: Option<(u64, u64)>,
}

/// Lines in parcels of at most `n`.
pub open spec fn parcels(lines: Seq<Seq<char>>, n: nat) -> Seq<Seq<Seq<char>>>
    decreases lines.len(),
{
    if lines.len() == 0 || n == 0 {
        seq![]
    } else if lines.len() <= n {
        seq![lines]
    } else {
        seq![lines.take(n as int)] + parcels(lines.skip(n as int), n)
    }
}

/// The views of parcels.
pub open spec fn parcel_views(v: Seq<Vec<String>>) -> Seq<Seq<Seq<char>>> {
    Seq::new(v.len(), |i: int| text::views(v[i]@))
}

fn parcel_out(lines: Vec<String>) -> (r: Vec<Vec<String>>)
    ensures
        parcel_views(r@) == parcels(text::views(lines@), MAX_LINES_PER_TICK as nat),
{
    let ghost all = text::views(lines@);
    let n: usize = lines.len();
    let mut out: Vec<Vec<String>> = Vec::new();
    let mut i: usize = 0;
    proof {
        assert(all.skip(0) =~= all);
        assert(parcel_views(out@) + parcels(all, MAX_LINES_PER_TICK as nat) =~= parcels(
            all,
            MAX_LINES_PER_TICK as nat,
        ));
    }
    while i < n
        invariant
            n == lines@.len(),
            i <= n,
            all == text::views(lines@),
            parcel_views(out@) + parcels(all.skip(i as int), MAX_LINES_PER_TICK as nat) == parcels(
                all,
                MAX_LINES_PER_TICK as nat,
            ),
        decreases n - i,
    {
        let end: usize = if n - i > MAX_LINES_PER_TICK {
            i + MAX_LINES_PER_TICK
        } else {
            n
        };
        let mut parcel: Vec<String> = Vec::new();
        let mut j: usize = i;
        assert(text::views(parcel@) =~= all.subrange(i as int, i as int));
        while j < end
            invariant
                n == lines@.len(),
                i <= j <= end <= n,
                all == text::views(lines@),
                text::views(parcel@) == all.subrange(i as int, j as int),
            decreases end - j,
        {
            let s = lines[j].clone();
            proof {
                text::lemma_views_push(parcel@, s);
                assert(all.subrange(i as int, j as int).push(s@) =~= all.subrange(i as int, j + 1));
            }
            parcel.push(s);
            j += 1;
        }
        proof {
            let rest = all.skip(i as int);
            let one = all.subrange(i as int, end as int);
            assert(rest.take(end - i) =~= one);
            assert(rest.skip(end - i) =~= all.skip(end as int));
            if end == n {
                assert(one =~= rest);
                assert(parcels(all.skip(n as int), MAX_LINES_PER_TICK as nat) =~= seq![]);
                assert(seq![one] + Seq::<Seq<Seq<char>>>::empty() =~= seq![one]);
            }
            assert(parcels(rest, MAX_LINES_PER_TICK as nat) == seq![one] + parcels(
                all.skip(end as int),
                MAX_LINES_PER_TICK as nat,
            ));
            assert(parcel_views(out@.push(parcel)) =~= parcel_views(out@).push(one));
            assert(parcel_views(out@) + (seq![one] + parcels(
                all.skip(end as int),
                MAX_LINES_PER_TICK as nat,
            )) =~= parcel_views(out@).push(one) + parcels(
                all.skip(end as int),
                MAX_LINES_PER_TICK as nat,
            ));
        }
        out.push(parcel);
        i = end;
    }
    assert(parcel_views(out@) + parcels(all.skip(n as int), MAX_LINES_PER_TICK as nat)
        =~= parcel_views(out@));
    out
}

impl Tail {
    /// A follower that begins at `initial_offset`, or at the end of the log.
    pub fn new(initial_offset: Option<u64>) -> (r: Self)
        ensures
            r.path is None,
            r.offset == 0,
            r.partial@.len() == 0,
            r.first_file,
            r.initial_offset == initial_offset,
            r.ticks_since_scan == 0,
    {
        Tail {
            path: None,
            offset: 0,
            partial: Vec::new(),
            first_file: true,
            initial_offset,
            ticks_since_scan: 0,
        }
    }

    /// Whether the log's directory is to be looked through: at first, when the file is gone, and every
    /// ten seconds.
    pub fn must_scan(&self) -> (r: bool)
        ensures
            r == (self.path is None || self.ticks_since_scan >= RESCAN_TICKS),
    {
        self.path.is_none() || self.ticks_since_scan >= RESCAN_TICKS
    }

    /// The directory was looked through: the file that is written now, and its length. A file that
    /// comes after another is followed from its beginning.
    pub fn scanned(&mut self, found: Option<(String, u64)>)
        ensures
            final(self).ticks_since_scan == 0,
            match found {
                None => *final(self) == (Tail { ticks_since_scan: 0, ..*old(self) }),
                Some(f) => if text::opt_view(old(self).path) == Some(f.0@) {
                    *final(self) == (Tail { ticks_since_scan: 0, ..*old(self) })
                } else {
                    &&& final(self).path == Some(f.0)
                    &&& final(self).partial@.len() == 0
                    &&& !final(self).first_file
                    &&& final(self).offset == if !old(self).first_file {
                        0
                    } else if old(self).initial_offset is Some {
                        old(self).initial_offset->0
                    } else {
                        f.1
                    }
                    &&& final(self).initial_offset == if old(self).first_file {
                        None
                    } else {
                        old(self).initial_offset
                    }
                },
            },
    {
        self.ticks_since_scan = 0;
        match found {
            Some((path, len)) => {
                let same_file = match &self.path {
                    Some(p) => text::same(p.as_str(), path.as_str()),
                    None => false,
                };
                if !same_file {
                    self.path = Some(path);
                    self.partial = Vec::new();
                    if self.first_file {
                        self.first_file = false;
                        self.offset = match self.initial_offset {
                            Some(off) => off,
                            None => len,
                        };
                        self.initial_offset = None;
                    } else {
                        self.offset = 0;
                    }
                }
            },
            None => {},
        }
    }

    /// One more look was taken.
    pub fn ticked(&mut self)
        ensures
            *final(self) == (Tail {
                ticks_since_scan: if old(self).ticks_since_scan < u32::MAX {
                    (old(self).ticks_since_scan + 1) as u32
                } else {
                    u32::MAX
                },
                ..*old(self)
            }),
    {
        self.ticks_since_scan = self.ticks_since_scan.saturating_add(1);
    }

    /// The file has this length; `None` where it cannot be told, so that the directory is looked
    /// through again. A file that has become shorter was begun anew.
    pub fn measured(&mut self, len: Option<u64>) -> (r: TailRead)
        ensures
            match len {
                None => {
                    &&& !r.reset && r.range is None
                    &&& *final(self) == (Tail { path: None, ..*old(self) })
                },
                Some(n) => {
                    let from = if n < old(self).offset {
                        0
                    } else {
                        old(self).offset
                    };
                    &&& r.reset == (n < old(self).offset)
                    &&& r.reset ==> final(self).partial@.len() == 0
                    &&& *final(self) == (Tail {
                        offset: from,
                        partial: if r.reset {
                            final(self).partial
                        } else {
                            old(self).partial
                        },
                        ..*old(self)
                    })
                    &&& r.range == if n > from {
                        Some(
                            (
                                from,
                                if from + MAX_READ_PER_TICK < n {
                                    (from + MAX_READ_PER_TICK) as u64
                                } else {
                                    n
                                },
                            ),
                        )
                    } else {
                        None
                    }
                },
            },
    {
        let len = match len {
            Some(n) => n,
            None => {
                self.path = None;
                return TailRead { reset: false, range: None };
            },
        };
        let mut reset = false;
        if len < self.offset {
            self.offset = 0;
            self.partial = Vec::new();
            reset = true;
        }
        let from: u64 = self.offset;
        if len > from {
            let to: u64 = if len - from > MAX_READ_PER_TICK {
                from + MAX_READ_PER_TICK
            } else {
                len
            };
            TailRead { reset, range: Some((from, to)) }
        } else {
            TailRead { reset, range: None }
        }
    }

    /// The bytes up to `to` were read. Returns the lines that have ended, in parcels. What has not
    /// ended is kept for the next time, unless it is far too long.
    pub fn read(&mut self, buf: &[u8], to: u64) -> (r: Vec<Vec<String>>)
        ensures
            ({
                let data = old(self).partial@ + buf@;
                let left = unended(data);
                &&& parcel_views(r@) == parcels(
                    line_texts(byte_lines(data)),
                    MAX_LINES_PER_TICK as nat,
                )
                &&& final(self).partial@ == if left.len() > MAX_PARTIAL {
                    seq![]
                } else {
                    left
                }
                &&& *final(self) == (Tail { offset: to, partial: final(self).partial, ..*old(self) })
            }),
    {
        let data = bytes::concat(&self.partial, buf);
        let n: usize = data.len();
        self.offset = to;
        let mut last: usize = n;
        while last > 0 && data[last - 1] != 10
            invariant
                n == data@.len(),
                last <= n,
                forall|k: int| last <= k < n ==> #[trigger] data@[k] != 10,
            decreases last,
        {
            last -= 1;
        }
        proof {
            lemma_unended(data@, last as int);
        }
        if n - last > MAX_PARTIAL {
            self.partial = Vec::new();
            assert(self.partial@ =~= seq![]);
        } else {
            self.partial = bytes::range(&data, last, n);
            assert(self.partial@ =~= data@.skip(last as int));
        }
        parcel_out(split_lines(&data))
    }
}

/// Reading the log in two pieces gives the lines that reading it at once gives, however it was cut,
/// as long as no line is far too long.
pub proof fn law_following_loses_no_line(partial: Seq<u8>, first: Seq<u8>, second: Seq<u8>)
    ensures
        byte_lines(partial + first) + byte_lines(unended(partial + first) + second) == byte_lines(
            partial + (first + second),
        ),
        unended(unended(partial + first) + second) == unended(partial + (first + second)),
{
    assert(partial + (first + second) =~= (partial + first) + second);
    law_lines_do_not_depend_on_the_cut(partial + first, second);
}

/// A line ends at a line feed; a carriage return before it belongs to the end. Every line that has ended
/// is shown, with all its bytes, and what has not ended is kept.
pub proof fn law_lines_are_shown_whole(a: Seq<u8>, rest: Seq<u8>)
    requires
        !a.contains(10u8),
    ensures
        byte_lines(a) == Seq::<Seq<u8>>::empty(),
        unended(a) == a,
        a.len() > 0 && a.last() == 13 ==> byte_lines(a.push(10) + rest) == seq![a.drop_last()]
            + byte_lines(rest),
        !(a.len() > 0 && a.last() == 13) ==> byte_lines(a.push(10) + rest) == seq![a] + byte_lines(rest),
        unended(rest.push(10) + a) == a,
{
    lemma_newline(a);
    assert(newline(a) == a.len()) by {
        if newline(a) < a.len() {
            assert(a.contains(a[newline(a)]));
        }
    }
    let s = a.push(10) + rest;
    assert forall|k: int| 0 <= k < a.len() implies #[trigger] s[k] != 10 by {
        assert(s[k] == a[k]);
        assert(a.contains(a[k]));
    }
    lemma_newline_is(s, a.len() as int);
    assert(s.take(a.len() as int) =~= a);
    assert(s.skip(a.len() as int + 1) =~= rest);
    assert forall|k: int| 0 <= k < a.len() implies #[trigger] a[k] != 10 by {
        assert(a.contains(a[k]));
    }
    lemma_unended(a, 0);
    assert(a.skip(0) =~= a);
    let t = rest.push(10) + a;
    let n = rest.len() as int + 1;
    assert forall|k: int| n <= k < t.len() implies #[trigger] t[k] != 10 by {
        assert(t[k] == a[k - n]);
        assert(a.contains(a[k - n]));
    }
    assert(t[n - 1] == 10);
    lemma_unended(t, n);
    assert(t.skip(n) =~= a);
}

/// A line that is UTF-8 is shown as the text that it encodes.
pub proof fn law_lines_are_shown_as_text(lines: Seq<Seq<u8>>, i: int)
    requires
        0 <= i < lines.len(),
        vstd::utf8::valid_utf8(lines[i]),
    ensures
        line_texts(lines).len() == lines.len(),
        line_texts(lines)[i] == vstd::utf8::decode_utf8(lines[i]),
{
}

/// The parcels hold all lines, one behind the other, and none holds more than the bound.
pub proof fn law_parcels_hold_all_lines(lines: Seq<Seq<char>>, n: nat)
    requires
        n > 0,
    ensures
        parcels(lines, n).flatten() == lines,
        forall|i: int| 0 <= i < parcels(lines, n).len() ==> 0 < (#[trigger] parcels(lines, n)[i]).len()
            <= n,
    decreases lines.len(),
{
    let p = parcels(lines, n);
    if lines.len() == 0 {
        assert(p.flatten() =~= lines);
    } else if lines.len() <= n {
        p.lemma_flatten_one_element();
        assert(p.first() == lines);
    } else {
        let q = parcels(lines.skip(n as int), n);
        law_parcels_hold_all_lines(lines.skip(n as int), n);
        assert(p.drop_first() =~= q);
        assert(p.first() == lines.take(n as int));
        assert(p.flatten() =~= lines);
        assert forall|i: int| 0 <= i < p.len() implies 0 < (#[trigger] p[i]).len() <= n by {
            if i > 0 {
                assert(p[i] == q[i - 1]);
            }
        }
    }
}

/// Of the history nothing is passed over but the line that began before it: nothing where the log is
/// read from its beginning, and else what stands up to the first line end.
pub proof fn law_only_the_first_cut_line_is_passed_over(a: Seq<u8>, rest: Seq<u8>, from: u64)
    requires
        !a.contains(10u8),
    ensures
        passed_over(a.push(10) + rest, 0) == 0,
        from > 0 ==> passed_over(a.push(10) + rest, from) == a.len() + 1,
        passed_over(a, from) == 0,
        follow_from(rest.push(10) + a, from) == from + rest.len() + 1,
        follow_from(a, from) == from,
        TAIL_HISTORY_BYTES == 204_800,
{
    law_lines_are_shown_whole(a, rest);
    let s = a.push(10) + rest;
    assert forall|k: int| 0 <= k < a.len() implies #[trigger] s[k] != 10 by {
        assert(s[k] == a[k]);
        assert(a.contains(a[k]));
    }
    lemma_newline_is(s, a.len() as int);
    lemma_newline(a);
    if newline(a) < a.len() {
        assert(a.contains(a[newline(a)]));
    }
}

/// A file is one of the log exactly where it is a file whose name begins with `clipsync.log` and whose
/// time is known. A window that is open is shown, one that is not is made, and one whose log is not
/// followed is followed again.
pub proof fn law_logs_and_their_window(e: LogEntry, generation: u64)
    ensures
        is_log(e) <==> "clipsync.log"@.is_prefix_of(e.name@) && e.is_file && e.modified is Some,
        open_step(false, true, generation) == OpenStep::Create(generation),
        open_step(false, false, generation) == OpenStep::Create(generation),
        open_step(true, true, generation) == OpenStep::Focus,
        open_step(true, false, generation) == OpenStep::FocusAndFollow(generation),
{
}

/// Parcels are seen line by line; the bounds of reading are 500 lines in a parcel, four MiB at a time and
/// one MiB for a line that has not ended.
pub proof fn law_parcels_are_seen_whole(v: Seq<Vec<String>>, i: int, k: int)
    requires
        0 <= i < v.len(),
        0 <= k < v[i]@.len(),
    ensures
        parcel_views(v).len() == v.len(),
        parcel_views(v)[i].len() == v[i]@.len(),
        parcel_views(v)[i][k] == v[i]@[k]@,
        MAX_LINES_PER_TICK == 500 && MAX_READ_PER_TICK == 4 * 1024 * 1024 && MAX_PARTIAL == 1024 * 1024,
{
}

} // verus!
