//! Where the log is written.

use vstd::prelude::*;

use crate::text;
use crate::text::same;

verus! {

/// The name of the log's files; a day is appended to it.
pub const LOG_FILE: &'static str = "clipsync.log";

/// What is logged unless it is said otherwise. One crate reports an error for every link-local
/// address, which would drown the rest.
pub const DEFAULT_FILTER: &'static str = "info,clipsync=debug,mdns_sd=off";

/// The directory of the log, as the names that lead to it: below the application data, else below the
/// home directory, else `logs` in the working directory.
pub open spec fn log_dir_spec(
    appdata: Option<Seq<char>>,
    home: Option<Seq<char>>,
    os: Seq<char>,
) -> Seq<Seq<char>> {
    if appdata is Some {
        seq![appdata->0, "clipsync"@, "logs"@]
    } else if home is Some && home->0.len() > 0 {
        if os == "macos"@ {
            seq![home->0, "Library"@, "Logs"@, "clipsync"@]
        } else if os == "linux"@ {
            seq![home->0, ".local"@, "share"@, "clipsync"@, "logs"@]
        } else {
            seq![home->0, "clipsync-logs"@]
        }
    } else {
        seq!["logs"@]
    }
}

fn push_name(v: &mut Vec<String>, name: &str)
    ensures
        text::views(final(v)@) == text::views(old(v)@).push(name@),
{
    let s = name.to_owned();
    proof {
        text::lemma_views_push(v@, s);
    }
    v.push(s);
}

/// The directory of the log, as the names that lead to it. The arguments are the environment's
/// `APPDATA` and `HOME` and the operating system.
pub fn log_dir(appdata: Option<String>, home: Option<String>, os: &str) -> (r: Vec<String>)
    ensures
        text::views(r@) == log_dir_spec(text::opt_view(appdata), text::opt_view(home), os@),
{
    let mut r: Vec<String> = Vec::new();
    assert(text::views(r@) =~= seq![]);
    match appdata {
        Some(dir) => {
            push_name(&mut r, dir.as_str());
            push_name(&mut r, "clipsync");
            push_name(&mut r, "logs");
            assert(text::views(r@) =~= seq![dir@, "clipsync"@, "logs"@]);
            return r;
        },
        None => {},
    }
    match home {
        Some(dir) => {
            if !dir.as_str().is_empty() {
                push_name(&mut r, dir.as_str());
                if same(os, "macos") {
                    push_name(&mut r, "Library");
                    push_name(&mut r, "Logs");
                    push_name(&mut r, "clipsync");
                    assert(text::views(r@) =~= seq![dir@, "Library"@, "Logs"@, "clipsync"@]);
                } else if same(os, "linux") {
                    push_name(&mut r, ".local");
                    push_name(&mut r, "share");
                    push_name(&mut r, "clipsync");
                    push_name(&mut r, "logs");
                    assert(text::views(r@) =~= seq![
                        dir@,
                        ".local"@,
                        "share"@,
                        "clipsync"@,
                        "logs"@,
                    ]);
                } else {
                    push_name(&mut r, "clipsync-logs");
                    assert(text::views(r@) =~= seq![dir@, "clipsync-logs"@]);
                }
                return r;
            }
        },
        None => {},
    }
    push_name(&mut r, "logs");
    assert(text::views(r@) =~= seq!["logs"@]);
    r
}

/// The log lies in the directory of the program's data where there is one, else below the home of the
/// user, where the system keeps logs, and else in the working directory.
pub proof fn law_the_log_lies_with_the_data(data: Seq<char>, home: Seq<char>, os: Seq<char>)
    requires
        home.len() > 0,
    ensures
        log_dir_spec(Some(data), Some(home), os) == seq![data, "clipsync"@, "logs"@],
        log_dir_spec(Some(data), None, os) == seq![data, "clipsync"@, "logs"@],
        log_dir_spec(None, Some(home), "macos"@) == seq![home, "Library"@, "Logs"@, "clipsync"@],
        log_dir_spec(None, Some(home), "linux"@) == seq![
            home,
            ".local"@,
            "share"@,
            "clipsync"@,
            "logs"@,
        ],
        os != "macos"@ && os != "linux"@ ==> log_dir_spec(None, Some(home), os) == seq![
            home,
            "clipsync-logs"@,
        ],
        log_dir_spec(None, None, os) == seq!["logs"@],
{
    reveal_strlit("macos");
    reveal_strlit("linux");
    assert("macos"@[0] == 'm' && "linux"@[0] == 'l');
}

} // verus!
