//! The report console's decisions: how typed answers to its menus are read,
//! and the tally of a run.

use vstd::prelude::*;

use crate::text::{
    eq_ignore_ascii_case, eq_ignore_ascii_case_spec, own, parse_usize, parse_usize_spec, push_i64,
    push_str, str_eq, to_uppercase, trim, trim_spec, uppercase,
};

verus! {

/// What the console asks of its user and shows to them.
pub trait ProcessorUi {
    /// Shows a line.
    fn info(&mut self, msg: &str);

    /// Shows an error line.
    fn error(&mut self, msg: &str);

    /// Reads a line.
    fn input(&mut self, prompt: &str) -> String;

    /// Asks until one of the keys is given, in any case; returns it in
    /// capitals.
    fn choose_key(&mut self, prompt: &str, valid: &[&str]) -> String;

    /// A numbered menu of (key, name) options; the chosen index, or `None`
    /// when the user leaves.
    fn menu(&mut self, title: &str, options: &[(&str, &str)], default_idx: Option<usize>) -> Option<usize>;
}

/// The report console.
#[derive(Debug, Clone, Copy, PartialEq, Eq)]
pub struct ReportConsole;

/// How an answer to a menu is read.
#[derive(Debug, Clone, Copy, PartialEq, Eq, Structural)]
pub enum MenuAnswer {
    /// The option at this index.
    Select(usize),
    /// The user leaves.
    Cancel,
    /// Not an answer; ask again.
    Invalid,
}

/// The first index whose key equals `t` ignoring ASCII case.
pub open spec fn key_index(keys: Seq<Seq<char>>, t: Seq<char>) -> Option<int> {
    crate::search::first_index(keys, key_matches(t))
}

/// Whether a key is `t` ignoring ASCII case.
pub open spec fn key_matches(t: Seq<char>) -> spec_fn(Seq<char>) -> bool {
    |k: Seq<char>| eq_ignore_ascii_case_spec(k, t)
}

/// An answer to a menu of `keys`: empty gives the default or asks again;
/// `0` or `q` leaves; a number from 1 to the count picks that option, any
/// other number asks again; else the option whose key it is, ignoring ASCII
/// case, or asks again.
pub open spec fn menu_answer_spec(input: Seq<char>, keys: Seq<Seq<char>>, default_idx: Option<usize>) -> MenuAnswer {
    let t = trim_spec(input);
    if t.len() == 0 {
        match default_idx {
            Some(i) => MenuAnswer::Select(i),
            None => MenuAnswer::Invalid,
        }
    } else if t == seq!['0'] || eq_ignore_ascii_case_spec(t, seq!['q']) {
        MenuAnswer::Cancel
    } else {
        match parse_usize_spec(t) {
            Some(n) => if 1 <= n <= keys.len() {
                MenuAnswer::Select((n - 1) as usize)
            } else {
                MenuAnswer::Invalid
            },
            None => match key_index(keys, t) {
                Some(i) => MenuAnswer::Select(i as usize),
                None => MenuAnswer::Invalid,
            },
        }
    }
}

/// Reads an answer to a menu.
#[verifier::loop_isolation(false)]
pub fn menu_answer(input: &str, keys: &Vec<&str>, default_idx: Option<usize>) -> (r: MenuAnswer)
    ensures
        r == menu_answer_spec(input@, keys@.map_values(|k: &str| k@), default_idx),
{
    let t = trim(input);
    let ts = t.as_str();
    proof {
        reveal_strlit("0");
        reveal_strlit("q");
        assert("0"@ =~= seq!['0']);
        assert("q"@ =~= seq!['q']);
    }
    if ts.unicode_len() == 0 {
        return match default_idx {
            Some(i) => MenuAnswer::Select(i),
            None => MenuAnswer::Invalid,
        };
    }
    if str_eq(ts, "0") || eq_ignore_ascii_case(ts, "q") {
        return MenuAnswer::Cancel;
    }
    match parse_usize(ts) {
        Some(n) => {
            if 1 <= n && n <= keys.len() {
                MenuAnswer::Select(n - 1)
            } else {
                MenuAnswer::Invalid
            }
        },
        None => {
            let ghost kv = keys@.map_values(|k: &str| k@);
            let mut i: usize = 0;
            while i < keys.len()
                invariant
                    i <= keys@.len(),
                    kv == keys@.map_values(|k: &str| k@),
                    ts@ == t@,
                    forall|j: int| 0 <= j < i ==> !(key_matches(t@))(#[trigger] kv[j]),
                decreases keys@.len() - i,
            {
                assert(kv[i as int] == keys@[i as int]@);
                if eq_ignore_ascii_case(keys[i], ts) {
                    proof {
                        crate::search::lemma_first_index_at(kv, key_matches(t@), i as int);
                    }
                    return MenuAnswer::Select(i);
                }
                i = i + 1;
            }
            proof {
                crate::search::lemma_first_index_none(kv, key_matches(t@));
            }
            MenuAnswer::Invalid
        },
    }
}

/// How an answer to a filter menu is read.
#[derive(Debug, Clone, Copy, PartialEq, Eq, Structural)]
pub enum FilterAnswer {
    /// Keep the current filter.
    Cancel,
    /// No filter.
    All,
    /// The option at this index.
    Select(usize),
}

/// An answer to a filter menu of `count` options: empty keeps the filter,
/// `0` clears it, a number from 1 to the count picks that option, anything
/// else keeps the filter.
pub open spec fn filter_answer_spec(input: Seq<char>, count: usize) -> FilterAnswer {
    let t = trim_spec(input);
    if t.len() == 0 {
        FilterAnswer::Cancel
    } else if t == seq!['0'] {
        FilterAnswer::All
    } else {
        match parse_usize_spec(t) {
            Some(n) => if 1 <= n <= count {
                FilterAnswer::Select((n - 1) as usize)
            } else {
                FilterAnswer::Cancel
            },
            None => FilterAnswer::Cancel,
        }
    }
}

/// Reads an answer to a filter menu.
pub fn filter_answer(input: &str, count: usize) -> (r: FilterAnswer)
    ensures
        r == filter_answer_spec(input@, count),
{
    let t = trim(input);
    let ts = t.as_str();
    proof {
        reveal_strlit("0");
        assert("0"@ =~= seq!['0']);
    }
    if ts.unicode_len() == 0 {
        return FilterAnswer::Cancel;
    }
    if str_eq(ts, "0") {
        return FilterAnswer::All;
    }
    match parse_usize(ts) {
        Some(n) => if 1 <= n && n <= count {
            FilterAnswer::Select(n - 1)
        } else {
            FilterAnswer::Cancel
        },
        None => FilterAnswer::Cancel,
    }
}

/// The statuses a list of handled reports can be filtered by.
pub fn status_filter_options() -> (r: Vec<&'static str>)
    ensures
        r@.map_values(|s: &'static str| s@) == seq![
            "PASS"@,
            "DELETE"@,
            "MUTE_SEVEN_DAYS"@,
            "MUTE_THREE_MONTHS"@,
            "UNLOAD"@,
        ],
{
    let r = vec!["PASS", "DELETE", "MUTE_SEVEN_DAYS", "MUTE_THREE_MONTHS", "UNLOAD"];
    assert(r@.map_values(|s: &'static str| s@) =~= seq![
        "PASS"@,
        "DELETE"@,
        "MUTE_SEVEN_DAYS"@,
        "MUTE_THREE_MONTHS"@,
        "UNLOAD"@,
    ]);
    r
}

/// The key that an answer names, in capitals, when it is one of `valid`.
pub fn choose_answer(input: &str, valid: &Vec<&str>) -> (r: Option<String>)
    ensures
        match r {
            Some(k) => k@ == uppercase(trim_spec(input@)) && valid@.map_values(|v: &str| v@).contains(k@),
            None => !valid@.map_values(|v: &str| v@).contains(uppercase(trim_spec(input@))),
        },
        crate::text::is_ascii_text(trim_spec(input@)) ==> uppercase(trim_spec(input@)) == trim_spec(
            input@,
        ).map_values(|c: char| crate::text::ascii_upper(c)),
{
    let t = trim(input);
    let up = to_uppercase(t.as_str());
    let ghost vv = valid@.map_values(|v: &str| v@);
    let mut i: usize = 0;
    while i < valid.len()
        invariant
            i <= valid@.len(),
            vv == valid@.map_values(|v: &str| v@),
            up@ == uppercase(trim_spec(input@)),
            crate::text::is_ascii_text(trim_spec(input@)) ==> up@ == trim_spec(input@).map_values(
                |c: char| crate::text::ascii_upper(c),
            ),
            forall|j: int| 0 <= j < i ==> vv[j] != up@,
        decreases valid@.len() - i,
    {
        assert(vv[i as int] == valid@[i as int]@);
        if str_eq(valid[i], up.as_str()) {
            assert(vv[i as int] == up@);
            assert(vv.contains(up@));
            return Some(up);
        }
        i = i + 1;
    }
    None
}

/// The tally of the decisions of a run.
#[derive(Debug, Clone, Copy, PartialEq, Eq, Default)]
pub struct RunStats {
    pub passed: i64,
    pub deleted: i64,
    pub muted7: i64,
    pub muted3: i64,
    pub unloaded: i64,
    pub skipped: i64,
}

/// The counts of a tally summed.
pub open spec fn stats_total(s: RunStats) -> int {
    s.passed + s.deleted + s.muted7 + s.muted3 + s.unloaded + s.skipped
}

/// Whether the counts add up, left to right, without leaving `i64`.
pub open spec fn total_fits(s: RunStats) -> bool {
    &&& i64::MIN <= s.passed + s.deleted <= i64::MAX
    &&& i64::MIN <= s.passed + s.deleted + s.muted7 <= i64::MAX
    &&& i64::MIN <= s.passed + s.deleted + s.muted7 + s.muted3 <= i64::MAX
    &&& i64::MIN <= s.passed + s.deleted + s.muted7 + s.muted3 + s.unloaded <= i64::MAX
    &&& i64::MIN <= s.passed + s.deleted + s.muted7 + s.muted3 + s.unloaded + s.skipped <= i64::MAX
}

impl RunStats {
    /// Counts `n` decisions of action `action`; other keys count nowhere.
    pub fn record(&mut self, action: &str, n: i64)
        requires
            action@ == "P"@ ==> i64::MIN <= old(self).passed + n <= i64::MAX,
            action@ == "D"@ ==> i64::MIN <= old(self).deleted + n <= i64::MAX,
            action@ == "S"@ ==> i64::MIN <= old(self).muted7 + n <= i64::MAX,
            action@ == "T"@ ==> i64::MIN <= old(self).muted3 + n <= i64::MAX,
            action@ == "U"@ ==> i64::MIN <= old(self).unloaded + n <= i64::MAX,
        ensures
            *final(self) == (if action@ == "P"@ {
                RunStats { passed: (old(self).passed + n) as i64, ..*old(self) }
            } else if action@ == "D"@ {
                RunStats { deleted: (old(self).deleted + n) as i64, ..*old(self) }
            } else if action@ == "S"@ {
                RunStats { muted7: (old(self).muted7 + n) as i64, ..*old(self) }
            } else if action@ == "T"@ {
                RunStats { muted3: (old(self).muted3 + n) as i64, ..*old(self) }
            } else if action@ == "U"@ {
                RunStats { unloaded: (old(self).unloaded + n) as i64, ..*old(self) }
            } else {
                *old(self)
            }),
    {
        if str_eq(action, "P") {
            self.passed = self.passed + n;
        } else if str_eq(action, "D") {
            self.deleted = self.deleted + n;
        } else if str_eq(action, "S") {
            self.muted7 = self.muted7 + n;
        } else if str_eq(action, "T") {
            self.muted3 = self.muted3 + n;
        } else if str_eq(action, "U") {
            self.unloaded = self.unloaded + n;
        }
    }

    /// All decisions counted.
    pub fn total(&self) -> (r: i64)
        requires
            total_fits(*self),
        ensures
            r == stats_total(*self),
    {
        self.passed + self.deleted + self.muted7 + self.muted3 + self.unloaded + self.skipped
    }

    /// Adds another tally to this one.
    pub fn merge(&mut self, rhs: RunStats)
        requires
            i64::MIN <= old(self).passed + rhs.passed <= i64::MAX,
            i64::MIN <= old(self).deleted + rhs.deleted <= i64::MAX,
            i64::MIN <= old(self).muted7 + rhs.muted7 <= i64::MAX,
            i64::MIN <= old(self).muted3 + rhs.muted3 <= i64::MAX,
            i64::MIN <= old(self).unloaded + rhs.unloaded <= i64::MAX,
            i64::MIN <= old(self).skipped + rhs.skipped <= i64::MAX,
        ensures
            *final(self) == (RunStats {
                passed: (old(self).passed + rhs.passed) as i64,
                deleted: (old(self).deleted + rhs.deleted) as i64,
                muted7: (old(self).muted7 + rhs.muted7) as i64,
                muted3: (old(self).muted3 + rhs.muted3) as i64,
                unloaded: (old(self).unloaded + rhs.unloaded) as i64,
                skipped: (old(self).skipped + rhs.skipped) as i64,
            }),
    {
        self.passed = self.passed + rhs.passed;
        self.deleted = self.deleted + rhs.deleted;
        self.muted7 = self.muted7 + rhs.muted7;
        self.muted3 = self.muted3 + rhs.muted3;
        self.unloaded = self.unloaded + rhs.unloaded;
        self.skipped = self.skipped + rhs.skipped;
    }

    /// The tally as one line.
    pub fn summary(&self) -> (r: String)
        requires
            total_fits(*self),
        ensures
            r@ == summary_text(*self),
    {
        let mut s = own("共 ");
        push_i64(&mut s, self.total());
        push_str(&mut s, " 条: 通过 ");
        push_i64(&mut s, self.passed);
        push_str(&mut s, " | 删除 ");
        push_i64(&mut s, self.deleted);
        push_str(&mut s, " | 禁言7天 ");
        push_i64(&mut s, self.muted7);
        push_str(&mut s, " | 禁言3月 ");
        push_i64(&mut s, self.muted3);
        push_str(&mut s, " | 取消发布 ");
        push_i64(&mut s, self.unloaded);
        push_str(&mut s, " | 跳过 ");
        push_i64(&mut s, self.skipped);
        s
    }
}


/// The tally of a run as one line.
pub open spec fn summary_text(s: RunStats) -> Seq<char> {
    "共 "@ + crate::text::dec_int(stats_total(s)) + " 条: 通过 "@ + crate::text::dec_int(s.passed as int)
        + " | 删除 "@ + crate::text::dec_int(s.deleted as int) + " | 禁言7天 "@ + crate::text::dec_int(
        s.muted7 as int,
    ) + " | 禁言3月 "@ + crate::text::dec_int(s.muted3 as int) + " | 取消发布 "@ + crate::text::dec_int(
        s.unloaded as int,
    ) + " | 跳过 "@ + crate::text::dec_int(s.skipped as int)
}

/// What the main menu of the report console is asked to do.
#[derive(Debug, Clone, Copy, PartialEq, Eq, Structural)]
pub enum ConsoleCommand {
    /// Process the waiting reports (`1` or `p`).
    Process,
    /// Show the processed records (`2` or `d`).
    ViewDone,
    /// Show the administrators' statistics (`3` or `s`).
    Stats,
    /// Leave the console (`0`, `q` or nothing).
    Quit,
    /// Not an answer; the menu is shown again.
    Invalid,
}

/// How an answer to the main menu is read: trimmed and lower-cased, `1` or
/// `p` processes, `2` or `d` shows the processed records, `3` or `s` the
/// statistics, and `0`, `q` or nothing leaves.
pub open spec fn console_command_spec(input: Seq<char>) -> ConsoleCommand {
    let t = crate::text::lowercase(trim_spec(input));
    if t == "1"@ || t == "p"@ {
        ConsoleCommand::Process
    } else if t == "2"@ || t == "d"@ {
        ConsoleCommand::ViewDone
    } else if t == "3"@ || t == "s"@ {
        ConsoleCommand::Stats
    } else if t.len() == 0 || t == "0"@ || t == "q"@ {
        ConsoleCommand::Quit
    } else {
        ConsoleCommand::Invalid
    }
}

/// Reads an answer to the main menu of the console.
pub fn console_command(input: &str) -> (r: ConsoleCommand)
    ensures
        r == console_command_spec(input@),
        crate::text::is_ascii_text(trim_spec(input@)) ==> crate::text::lowercase(trim_spec(input@))
            == trim_spec(input@).map_values(|c: char| crate::text::ascii_lower(c)),
{
    let t = trim(input);
    let l = crate::text::to_lowercase(t.as_str());
    let ls = l.as_str();
    if str_eq(ls, "1") || str_eq(ls, "p") {
        ConsoleCommand::Process
    } else if str_eq(ls, "2") || str_eq(ls, "d") {
        ConsoleCommand::ViewDone
    } else if str_eq(ls, "3") || str_eq(ls, "s") {
        ConsoleCommand::Stats
    } else if ls.unicode_len() == 0 || str_eq(ls, "0") || str_eq(ls, "q") {
        ConsoleCommand::Quit
    } else {
        ConsoleCommand::Invalid
    }
}

/// The lines that the console shows when it is left: the tally of the run
/// when anything was handled, then the farewell.
pub open spec fn farewell_spec(session: RunStats) -> Seq<Seq<char>> {
    if stats_total(session) > 0 {
        seq!["本次会话处理统计: "@ + summary_text(session), "退出举报处理控制台"@]
    } else {
        seq!["退出举报处理控制台"@]
    }
}

/// The lines shown when the console is left after a run with `session`.
pub fn farewell_lines(session: &RunStats) -> (r: Vec<String>)
    requires
        total_fits(*session),
    ensures
        r@.map_values(|s: String| s@) == farewell_spec(*session),
{
    let mut out: Vec<String> = Vec::new();
    if session.total() > 0 {
        let mut line = own("本次会话处理统计: ");
        push_str(&mut line, session.summary().as_str());
        out.push(line);
    }
    out.push(own("退出举报处理控制台"));
    assert(out@.map_values(|s: String| s@) =~= farewell_spec(*session));
    out
}


/// The rows shown on one page of processed records.
pub const DONE_PAGE_SIZE: usize = 15;

/// The browsing state of the processed-records view: the page shown,
/// whether every record has been fetched, and the filter.
#[derive(Debug, Clone, PartialEq, Eq)]
pub struct DoneView {
    pub page: usize,
    pub exhausted: bool,
    pub report_type: Option<String>,
    pub status: Option<String>,
    pub mine: bool,
    pub keyword: Option<String>,
}

/// The model of a [`DoneView`].
pub struct DoneViewV {
    pub page: usize,
    pub exhausted: bool,
    pub report_type: Option<Seq<char>>,
    pub status: Option<Seq<char>>,
    pub mine: bool,
    pub keyword: Option<Seq<char>>,
}

pub open spec fn opt_text(o: Option<String>) -> Option<Seq<char>> {
    match o {
        Some(s) => Some(s@),
        None => None,
    }
}

impl View for DoneView {
    type V = DoneViewV;

    open spec fn view(&self) -> DoneViewV {
        DoneViewV {
            page: self.page,
            exhausted: self.exhausted,
            report_type: opt_text(self.report_type),
            status: opt_text(self.status),
            mine: self.mine,
            keyword: opt_text(self.keyword),
        }
    }
}

/// What the view does after an answer.
#[derive(Debug, Clone, Copy, PartialEq, Eq, Structural)]
pub enum DoneAction {
    /// Show the details of the record at this position among those shown.
    ShowDetail(usize),
    /// A number was given but no record is shown.
    NoRecords,
    /// A number outside the records shown.
    OutOfRange,
    /// The page changed; show it.
    Show,
    /// There is no next page.
    AtLastPage,
    /// There is no previous page.
    AtFirstPage,
    /// Ask for the report type to show, then show the records anew.
    AskType,
    /// Ask for the status to show, then show the records anew.
    AskStatus,
    /// Ask for a search keyword, then show the records anew.
    AskKeyword,
    /// The filter changed; show the records anew.
    Refilter,
    /// Leave for processing the waiting reports.
    Process,
    /// Leave the view.
    Back,
    /// Not an answer.
    Invalid,
}

/// How many pages `visible` records fill; at least one.
pub open spec fn done_page_count(visible: nat) -> nat {
    let p = (visible + 14) / 15;
    if p >= 1 {
        p
    } else {
        1
    }
}

/// Whether more records are fetched before the page is shown: the page is
/// not yet full and records remain.
pub open spec fn done_needs_more(st: DoneViewV, visible: nat) -> bool {
    visible < (st.page + 1) * 15 && !st.exhausted
}

/// An answer to the processed-records view while `visible` records match
/// the filter: a number shows that record; `n` and `b` turn the page; `t`,
/// `s` and `k` ask for a filter and `m` and `x` change it, each going back to
/// the first page; `u` leaves for processing and `q` or nothing leaves.
pub open spec fn done_step_spec(st: DoneViewV, input: Seq<char>, visible: nat) -> (DoneViewV, DoneAction) {
    let t = trim_spec(input);
    match parse_usize_spec(t) {
        Some(idx) => (
            st,
            if visible == 0 {
                DoneAction::NoRecords
            } else if 1 <= idx && idx <= visible {
                DoneAction::ShowDetail((idx - 1) as usize)
            } else {
                DoneAction::OutOfRange
            },
        ),
        None => {
            let l = crate::text::lowercase(t);
            let first = DoneViewV { page: 0, ..st };
            if l == "n"@ {
                if st.exhausted && st.page + 1 >= done_page_count(visible) {
                    (st, DoneAction::AtLastPage)
                } else {
                    (DoneViewV { page: (st.page + 1) as usize, ..st }, DoneAction::Show)
                }
            } else if l == "b"@ {
                if st.page > 0 {
                    (DoneViewV { page: (st.page - 1) as usize, ..st }, DoneAction::Show)
                } else {
                    (st, DoneAction::AtFirstPage)
                }
            } else if l == "t"@ {
                (first, DoneAction::AskType)
            } else if l == "s"@ {
                (first, DoneAction::AskStatus)
            } else if l == "k"@ {
                (first, DoneAction::AskKeyword)
            } else if l == "m"@ {
                (DoneViewV { mine: !st.mine, ..first }, DoneAction::Refilter)
            } else if l == "x"@ {
                (
                    DoneViewV {
                        page: 0,
                        report_type: None,
                        status: None,
                        mine: false,
                        keyword: None,
                        ..st
                    },
                    DoneAction::Refilter,
                )
            } else if l == "u"@ {
                (st, DoneAction::Process)
            } else if l == "q"@ || l.len() == 0 {
                (st, DoneAction::Back)
            } else {
                (st, DoneAction::Invalid)
            }
        },
    }
}

impl DoneView {
    /// The first page, nothing fetched yet, no filter.
    pub fn new() -> (r: DoneView)
        ensures
            r@ == (DoneViewV {
                page: 0,
                exhausted: false,
                report_type: None,
                status: None,
                mine: false,
                keyword: None,
            }),
    {
        DoneView { page: 0, exhausted: false, report_type: None, status: None, mine: false, keyword: None }
    }

    /// Whether more records are fetched before the page is shown.
    pub fn needs_more(&self, visible: usize) -> (r: bool)
        requires
            (self.page + 1) * 15 <= usize::MAX,
        ensures
            r == done_needs_more(self@, visible as nat),
    {
        visible < (self.page + 1) * DONE_PAGE_SIZE && !self.exhausted
    }

    /// How many pages the records shown fill.
    pub fn page_count(visible: usize) -> (r: usize)
        ensures
            r == done_page_count(visible as nat),
    {
        let p = visible / DONE_PAGE_SIZE + if visible % DONE_PAGE_SIZE == 0 {
            0
        } else {
            1
        };
        assert(p == (visible + 14) / 15) by (nonlinear_arith)
            requires
                p == visible / 15 + (if visible % 15 == 0 {
                    0int
                } else {
                    1int
                }),
        {
        }
        if p >= 1 {
            p
        } else {
            1
        }
    }

    /// Takes an answer while `visible` records match the filter
    /// ([`done_step_spec`]).
    pub fn step(&mut self, input: &str, visible: usize) -> (r: DoneAction)
        requires
            old(self).page < usize::MAX,
        ensures
            (final(self)@, r) == done_step_spec(old(self)@, input@, visible as nat),
    {
        let t = trim(input);
        match parse_usize(t.as_str()) {
            Some(idx) => {
                if visible == 0 {
                    DoneAction::NoRecords
                } else if 1 <= idx && idx <= visible {
                    DoneAction::ShowDetail(idx - 1)
                } else {
                    DoneAction::OutOfRange
                }
            },
            None => {
                let l = crate::text::to_lowercase(t.as_str());
                let ls = l.as_str();
                if str_eq(ls, "n") {
                    if self.exhausted && self.page + 1 >= DoneView::page_count(visible) {
                        DoneAction::AtLastPage
                    } else {
                        self.page = self.page + 1;
                        DoneAction::Show
                    }
                } else if str_eq(ls, "b") {
                    if self.page > 0 {
                        self.page = self.page - 1;
                        DoneAction::Show
                    } else {
                        DoneAction::AtFirstPage
                    }
                } else if str_eq(ls, "t") {
                    self.page = 0;
                    DoneAction::AskType
                } else if str_eq(ls, "s") {
                    self.page = 0;
                    DoneAction::AskStatus
                } else if str_eq(ls, "k") {
                    self.page = 0;
                    DoneAction::AskKeyword
                } else if str_eq(ls, "m") {
                    self.page = 0;
                    self.mine = !self.mine;
                    DoneAction::Refilter
                } else if str_eq(ls, "x") {
                    self.page = 0;
                    self.report_type = None;
                    self.status = None;
                    self.mine = false;
                    self.keyword = None;
                    DoneAction::Refilter
                } else if str_eq(ls, "u") {
                    DoneAction::Process
                } else if str_eq(ls, "q") || ls.unicode_len() == 0 {
                    DoneAction::Back
                } else {
                    DoneAction::Invalid
                }
            },
        }
    }
}

/// A search keyword as typed: trimmed, nothing when empty, else lower-cased.
pub open spec fn done_keyword_spec(input: Seq<char>) -> Option<Seq<char>> {
    if trim_spec(input).len() == 0 {
        None
    } else {
        Some(crate::text::lowercase(trim_spec(input)))
    }
}

/// Reads a search keyword ([`done_keyword_spec`]).
pub fn done_keyword(input: &str) -> (r: Option<String>)
    ensures
        opt_text(r) == done_keyword_spec(input@),
{
    let t = trim(input);
    if t.as_str().unicode_len() == 0 {
        None
    } else {
        Some(crate::text::to_lowercase(t.as_str()))
    }
}


/// An answer to the report service's own processed-records view, which
/// filters by report type only: a number shows that record, `n` and `p`
/// turn the page, `t` asks for a type (the page stays until one is
/// chosen), and `q` or nothing leaves.
pub open spec fn type_view_step_spec(st: DoneViewV, input: Seq<char>, visible: nat) -> (DoneViewV, DoneAction) {
    let t = trim_spec(input);
    match parse_usize_spec(t) {
        Some(idx) => (
            st,
            if visible == 0 {
                DoneAction::NoRecords
            } else if 1 <= idx && idx <= visible {
                DoneAction::ShowDetail((idx - 1) as usize)
            } else {
                DoneAction::OutOfRange
            },
        ),
        None => {
            let l = crate::text::lowercase(t);
            if l == "n"@ {
                if st.exhausted && st.page + 1 >= done_page_count(visible) {
                    (st, DoneAction::AtLastPage)
                } else {
                    (DoneViewV { page: (st.page + 1) as usize, ..st }, DoneAction::Show)
                }
            } else if l == "p"@ {
                if st.page > 0 {
                    (DoneViewV { page: (st.page - 1) as usize, ..st }, DoneAction::Show)
                } else {
                    (st, DoneAction::AtFirstPage)
                }
            } else if l == "t"@ {
                (st, DoneAction::AskType)
            } else if l == "q"@ || l.len() == 0 {
                (st, DoneAction::Back)
            } else {
                (st, DoneAction::Invalid)
            }
        },
    }
}

impl DoneView {
    /// Takes an answer to the view filtered by type only
    /// ([`type_view_step_spec`]).
    pub fn type_step(&mut self, input: &str, visible: usize) -> (r: DoneAction)
        requires
            old(self).page < usize::MAX,
        ensures
            (final(self)@, r) == type_view_step_spec(old(self)@, input@, visible as nat),
    {
        let t = trim(input);
        match parse_usize(t.as_str()) {
            Some(idx) => {
                if visible == 0 {
                    DoneAction::NoRecords
                } else if 1 <= idx && idx <= visible {
                    DoneAction::ShowDetail(idx - 1)
                } else {
                    DoneAction::OutOfRange
                }
            },
            None => {
                let l = crate::text::to_lowercase(t.as_str());
                let ls = l.as_str();
                if str_eq(ls, "n") {
                    if self.exhausted && self.page + 1 >= DoneView::page_count(visible) {
                        DoneAction::AtLastPage
                    } else {
                        self.page = self.page + 1;
                        DoneAction::Show
                    }
                } else if str_eq(ls, "p") {
                    if self.page > 0 {
                        self.page = self.page - 1;
                        DoneAction::Show
                    } else {
                        DoneAction::AtFirstPage
                    }
                } else if str_eq(ls, "t") {
                    DoneAction::AskType
                } else if str_eq(ls, "q") || ls.unicode_len() == 0 {
                    DoneAction::Back
                } else {
                    DoneAction::Invalid
                }
            },
        }
    }

    /// Shows the records of the report type chosen (`None` for all), from
    /// the first page.
    pub fn choose_type(&mut self, report_type: Option<String>)
        ensures
            final(self)@ == (DoneViewV { page: 0, report_type: opt_text(report_type), ..old(self)@ }),
    {
        self.page = 0;
        self.report_type = report_type;
    }
}

} // verus!
