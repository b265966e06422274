//! The icon in the tray: its menu, its dots, and the talk about an update that begins there.

use vstd::prelude::*;

use crate::text;
use crate::text::{concat, concat3, same, trim};
use crate::update::package::UpdateInfo;

verus! {

// ---------------------------------------------------------------------------
// The menu
// ---------------------------------------------------------------------------

/// An entry of the menu.
#[derive(Debug, Clone, Copy, PartialEq, Eq, Structural)]
pub enum TrayItem {
    Show,
    Hide,
    Settings,
    Logs,
    CheckUpdate,
    Separator,
    Quit,
}

/// The menu. Only a program that was installed can look for updates: a copy of the program alone would
/// become an installed one unasked.
pub open spec fn menu(installed: bool) -> Seq<TrayItem> {
    let first = seq![TrayItem::Show, TrayItem::Hide, TrayItem::Settings, TrayItem::Logs];
    let update = if installed {
        seq![TrayItem::CheckUpdate]
    } else {
        seq![]
    };
    first + update + seq![TrayItem::Separator, TrayItem::Quit]
}

/// The menu.
pub fn tray_menu(installed: bool) -> (r: Vec<TrayItem>)
    ensures
        r@ == menu(installed),
{
    let mut items: Vec<TrayItem> = Vec::new();
    items.push(TrayItem::Show);
    items.push(TrayItem::Hide);
    items.push(TrayItem::Settings);
    items.push(TrayItem::Logs);
    if installed {
        items.push(TrayItem::CheckUpdate);
    }
    items.push(TrayItem::Separator);
    items.push(TrayItem::Quit);
    assert(items@ =~= menu(installed));
    items
}

impl TrayItem {
    /// The name under which the system tells that an entry was picked. A separator has none.
    pub open spec fn id_spec(self) -> Seq<char> {
        match self {
            TrayItem::Show => "show"@,
            TrayItem::Hide => "hide"@,
            TrayItem::Settings => "settings"@,
            TrayItem::Logs => "open_logs"@,
            TrayItem::CheckUpdate => "check_update"@,
            TrayItem::Separator => ""@,
            TrayItem::Quit => "quit"@,
        }
    }

    /// The name under which the system tells that an entry was picked.
    pub fn id(self) -> (r: &'static str)
        ensures
            r@ == self.id_spec(),
    {
        match self {
            TrayItem::Show => "show",
            TrayItem::Hide => "hide",
            TrayItem::Settings => "settings",
            TrayItem::Logs => "open_logs",
            TrayItem::CheckUpdate => "check_update",
            TrayItem::Separator => "",
            TrayItem::Quit => "quit",
        }
    }

    /// What an entry says.
    pub fn label(self) -> (r: &'static str)
        ensures
            r@ == match self {
                TrayItem::Show => "显示主窗口"@,
                TrayItem::Hide => "隐藏主窗口"@,
                TrayItem::Settings => "设置"@,
                TrayItem::Logs => "查看日志"@,
                TrayItem::CheckUpdate => "检查更新"@,
                TrayItem::Separator => ""@,
                TrayItem::Quit => "退出 ClipSync"@,
            },
    {
        match self {
            TrayItem::Show => "显示主窗口",
            TrayItem::Hide => "隐藏主窗口",
            TrayItem::Settings => "设置",
            TrayItem::Logs => "查看日志",
            TrayItem::CheckUpdate => "检查更新",
            TrayItem::Separator => "",
            TrayItem::Quit => "退出 ClipSync",
        }
    }

    /// The entry with a name; `None` where there is none, and nothing happens.
    pub open spec fn from_id_spec(id: Seq<char>) -> Option<TrayItem> {
        if id == "show"@ {
            Some(TrayItem::Show)
        } else if id == "hide"@ {
            Some(TrayItem::Hide)
        } else if id == "settings"@ {
            Some(TrayItem::Settings)
        } else if id == "open_logs"@ {
            Some(TrayItem::Logs)
        } else if id == "check_update"@ {
            Some(TrayItem::CheckUpdate)
        } else if id == "quit"@ {
            Some(TrayItem::Quit)
        } else {
            None
        }
    }

    /// The entry with a name.
    pub fn from_id(id: &str) -> (r: Option<TrayItem>)
        ensures
            r == TrayItem::from_id_spec(id@),
    {
        if same(id, "show") {
            Some(TrayItem::Show)
        } else if same(id, "hide") {
            Some(TrayItem::Hide)
        } else if same(id, "settings") {
            Some(TrayItem::Settings)
        } else if same(id, "open_logs") {
            Some(TrayItem::Logs)
        } else if same(id, "check_update") {
            Some(TrayItem::CheckUpdate)
        } else if same(id, "quit") {
            Some(TrayItem::Quit)
        } else {
            None
        }
    }
}

/// The entry that was picked is found again by its name. A separator cannot be picked.
pub proof fn law_picked_entries_are_found(item: TrayItem)
    requires
        item !is Separator,
    ensures
        TrayItem::from_id_spec(item.id_spec()) == Some(item),
{
    reveal_strlit("show");
    reveal_strlit("hide");
    reveal_strlit("settings");
    reveal_strlit("open_logs");
    reveal_strlit("check_update");
    reveal_strlit("quit");
    assert("show"@[0] == 's' && "hide"@[0] == 'h' && "quit"@[0] == 'q');
    assert("show"@.len() == 4 && "hide"@.len() == 4 && "quit"@.len() == 4);
    assert("settings"@.len() == 8 && "open_logs"@.len() == 9 && "check_update"@.len() == 12);
}

/// Whether closing a window hides it only: the main window stays in the tray.
pub fn closes_to_tray(label: &str) -> (r: bool)
    ensures
        r == (label@ == "main"@),
{
    same(label, "main")
}

// ---------------------------------------------------------------------------
// Dots and clicks
// ---------------------------------------------------------------------------

/// What the dot on the icon says.
#[derive(Debug, Clone, Copy, PartialEq, Eq, Structural)]
pub enum TrayDotKind {
    /// Text was sent.
    Push,
    /// Text has come.
    Receive,
}

/// How long a dot is shown, in seconds.
pub const TRAY_DOT_SECS: u64 = 3;

/// The dots that were shown.
pub struct TrayDots {
    pub generation: u64,
}

impl TrayDots {
    /// None yet.
    pub fn new() -> (r: Self)
        ensures
            r.generation == 0,
    {
        TrayDots { generation: 0 }
    }

    /// A dot is shown. Returns its number.
    pub fn tray_dot(&mut self) -> (r: u64)
        requires
            old(self).generation < u64::MAX,
        ensures
            r == old(self).generation + 1,
            final(self).generation == r,
    {
        self.generation = self.generation + 1;
        self.generation
    }

    /// The time of a dot is over: whether the plain icon is shown again. It is not while a later dot is
    /// shown.
    pub fn is_over(&self, dot: u64) -> (r: bool)
        ensures
            r == (self.generation == dot),
    {
        self.generation == dot
    }
}

/// Two clicks within this time are a double click, in milliseconds.
pub const DOUBLE_CLICK_MS: u64 = 500;

/// The clicks on the icon. Not every system tells of double clicks.
pub struct Clicks {
    pub last: Option<u64>,
}

impl Clicks {
    /// No click yet.
    pub fn new() -> (r: Self)
        ensures
            r.last is None,
    {
        Clicks { last: None }
    }

    /// The left button was let go. Returns whether that was a double click; the next click is then a
    /// first one again.
    pub fn click(&mut self, now: u64) -> (r: bool)
        ensures
            r == (old(self).last is Some && now - old(self).last->0 <= DOUBLE_CLICK_MS),
            final(self).last == if r {
                None
            } else {
                Some(now)
            },
    {
        let double = match self.last {
            Some(t) => now < t || now - t <= DOUBLE_CLICK_MS,
            None => false,
        };
        self.last = if double {
            None
        } else {
            Some(now)
        };
        double
    }
}

// ---------------------------------------------------------------------------
// The talk about an update
// ---------------------------------------------------------------------------

/// What is asked of the user when there is an update.
pub open spec fn update_prompt_spec(u: UpdateInfo) -> Seq<char> {
    let notes = if text::trimmed(u.notes@).len() == 0 {
        "（无更新说明）"@
    } else {
        text::trimmed(u.notes@)
    };
    "发现新版本 "@ + u.version@ + "（"@ + u.pub_date@ + "）\n\n"@ + notes
}

/// What is asked of the user when there is an update.
pub fn update_prompt(u: &UpdateInfo) -> (r: String)
    ensures
        r@ == update_prompt_spec(*u),
{
    let mut m = concat3("发现新版本 ", u.version.as_str(), "（");
    m.append(u.pub_date.as_str());
    m.append("）\n\n");
    let notes = trim(u.notes.as_str());
    if notes.as_str().is_empty() {
        m.append("（无更新说明）");
    } else {
        m.append(notes.as_str());
    }
    m
}

/// How far the talk about an update has come.
pub enum UpdateTalk {
    /// It is asked whether there is one.
    Checking,
    /// The user is asked.
    Asking { url: String, sha256: String },
    /// The package is fetched.
    Fetching,
    /// The package is started.
    Starting,
    /// There is nothing more to say.
    Over,
}

/// What has happened.
pub enum UpdateEvent {
    /// It is known whether there is an update.
    Checked(Result<Option<UpdateInfo>, String>),
    /// The user has decided.
    Answered(bool),
    /// The package was fetched to this path.
    Fetched(Result<String, String>),
    /// The package was started.
    Started(Result<(), String>),
}

/// What happens next.
pub enum UpdateStep {
    /// The user is asked.
    Ask { message: String },
    /// The main window is shown, and the package is fetched.
    Fetch { url: String, sha256: String },
    /// The package is started.
    Start { path: String },
    /// The user is told.
    Tell { title: &'static str, message: String, error: bool },
    /// Nothing.
    Nothing,
}

/// The user is told `message` under `title`.
pub open spec fn tells(s: UpdateStep, t: Seq<char>, m: Seq<char>, e: bool) -> bool {
    s matches UpdateStep::Tell { title, message, error } && title@ == t && message@ == m && error == e
}

impl UpdateTalk {
    /// The talk begins with the question whether there is an update.
    pub fn new() -> (r: Self)
        ensures
            r is Checking,
    {
        UpdateTalk::Checking
    }

    /// What happens next. An event that does not belong to the present point of the talk changes
    /// nothing.
    pub fn on_event(&mut self, event: UpdateEvent) -> (r: UpdateStep)
        ensures
            match (*old(self), event) {
                (UpdateTalk::Checking, UpdateEvent::Checked(Ok(Some(u)))) => {
                    &&& r matches UpdateStep::Ask { message } && message@ == update_prompt_spec(u)
                    &&& *final(self) == (UpdateTalk::Asking { url: u.url, sha256: u.sha256 })
                },
                (UpdateTalk::Checking, UpdateEvent::Checked(Ok(None))) => {
                    &&& tells(r, "检查更新"@, "当前已是最新版本。"@, false)
                    &&& *final(self) is Over
                },
                (UpdateTalk::Checking, UpdateEvent::Checked(Err(e))) => {
                    &&& tells(r, "检查更新"@, "检查更新失败："@ + e@, true)
                    &&& *final(self) is Over
                },
                (UpdateTalk::Asking { url, sha256 }, UpdateEvent::Answered(true)) => {
                    &&& r == (UpdateStep::Fetch { url, sha256 })
                    &&& *final(self) is Fetching
                },
                (UpdateTalk::Asking { .. }, UpdateEvent::Answered(false)) => {
                    r is Nothing && *final(self) is Over
                },
                (UpdateTalk::Fetching, UpdateEvent::Fetched(Ok(path))) => {
                    r == (UpdateStep::Start { path }) && *final(self) is Starting
                },
                (UpdateTalk::Fetching, UpdateEvent::Fetched(Err(e))) => {
                    tells(r, "更新"@, "下载失败："@ + e@, true) && *final(self) is Over
                },
                (UpdateTalk::Starting, UpdateEvent::Started(Ok(_))) => {
                    r is Nothing && *final(self) is Over
                },
                (UpdateTalk::Starting, UpdateEvent::Started(Err(e))) => {
                    tells(r, "更新"@, "启动安装失败："@ + e@, true) && *final(self) is Over
                },
                _ => r is Nothing && *final(self) == *old(self),
            },
    {
        let mut now = UpdateTalk::Over;
        std::mem::swap(self, &mut now);
        match (now, event) {
            (UpdateTalk::Checking, UpdateEvent::Checked(Ok(Some(u)))) => {
                let message = update_prompt(&u);
                *self = UpdateTalk::Asking { url: u.url, sha256: u.sha256 };
                UpdateStep::Ask { message }
            },
            (UpdateTalk::Checking, UpdateEvent::Checked(Ok(None))) => {
                UpdateStep::Tell {
                    title: "检查更新",
                    message: "当前已是最新版本。".to_owned(),
                    error: false,
                }
            },
            (UpdateTalk::Checking, UpdateEvent::Checked(Err(e))) => {
                UpdateStep::Tell {
                    title: "检查更新",
                    message: concat("检查更新失败：", e.as_str()),
                    error: true,
                }
            },
            (UpdateTalk::Asking { url, sha256 }, UpdateEvent::Answered(yes)) => {
                if yes {
                    *self = UpdateTalk::Fetching;
                    UpdateStep::Fetch { url, sha256 }
                } else {
                    UpdateStep::Nothing
                }
            },
            (UpdateTalk::Fetching, UpdateEvent::Fetched(Ok(path))) => {
                *self = UpdateTalk::Starting;
                UpdateStep::Start { path }
            },
            (UpdateTalk::Fetching, UpdateEvent::Fetched(Err(e))) => {
                UpdateStep::Tell {
                    title: "更新",
                    message: concat("下载失败：", e.as_str()),
                    error: true,
                }
            },
            (UpdateTalk::Starting, UpdateEvent::Started(Ok(_))) => UpdateStep::Nothing,
            (UpdateTalk::Starting, UpdateEvent::Started(Err(e))) => {
                UpdateStep::Tell {
                    title: "更新",
                    message: concat("启动安装失败：", e.as_str()),
                    error: true,
                }
            },
            (other, _) => {
                *self = other;
                UpdateStep::Nothing
            },
        }
    }
}

/// The menu has an entry to show, to hide, for the settings, for the log and to quit; one to look for
/// updates exactly where the program was installed.
pub proof fn law_the_menu_looks_for_updates_where_installed(installed: bool)
    ensures
        menu(installed).contains(TrayItem::Show),
        menu(installed).contains(TrayItem::Hide),
        menu(installed).contains(TrayItem::Settings),
        menu(installed).contains(TrayItem::Logs),
        menu(installed).last() == TrayItem::Quit,
        menu(installed).contains(TrayItem::CheckUpdate) <==> installed,
        menu(installed).no_duplicates(),
{
    let m = menu(installed);
    assert(m[0] == TrayItem::Show && m[1] == TrayItem::Hide && m[2] == TrayItem::Settings && m[3]
        == TrayItem::Logs);
    if installed {
        assert(m[4] == TrayItem::CheckUpdate);
    }
}

} // verus!
