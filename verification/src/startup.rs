//! What the program starts with, and what its header shows.

use vstd::prelude::*;

use crate::actions::{PrefillView, TabPrefill};
use crate::app_state::AppState;
use crate::config::{self, AppConfig, PinnedSession, PinnedView, PortEntry, PortView};
use crate::identifiers;
use crate::ports;
use crate::text;
use crate::window::Ui;
use crate::window_laws;

verus! {

// ---------------------------------------------------------------------------
// Fonts
// ---------------------------------------------------------------------------

/// The font where none is set.
pub const DEFAULT_FONT: &'static str = "Monospace 11";

pub const DEFAULT_SIZE: u32 = 11;

/// A font's family and size, out of a description such as `Monospace 11`.
pub open spec fn font_of(desc: Seq<char>) -> (Seq<char>, u32) {
    let s = text::trimmed(desc);
    let i = text::last_index(s, ' ');
    if s.len() == 0 {
        ("Monospace"@, DEFAULT_SIZE)
    } else if i < 0 {
        (s, DEFAULT_SIZE)
    } else {
        match ports::number_in(text::trimmed(s.skip(i + 1)), u32::MAX as nat) {
            Some(n) => (s.take(i), n as u32),
            None => (s, DEFAULT_SIZE),
        }
    }
}

pub fn parse_font_desc(desc: &str) -> (r: (String, u32))
    ensures
        (r.0@, r.1) == font_of(desc@),
{
    let s = text::trim(desc);
    if s.as_str().is_empty() {
        return (text::owned("Monospace"), DEFAULT_SIZE);
    }
    proof {
        text::lemma_last_index(s@, ' ');
    }
    match text::rsplit_once(s.as_str(), ' ') {
        Some((family, size)) => {
            let size = text::trim(size.as_str());
            match ports::read_number(size.as_str(), u32::MAX as u64) {
                Some(n) => (family, n as u32),
                None => (s, DEFAULT_SIZE),
            }
        },
        None => (s, DEFAULT_SIZE),
    }
}

/// The family name as a style sheet takes it.
pub fn style_family(family: &str) -> (r: String)
    ensures
        r@ == text::without(family@, '"'),
{
    text::remove_char(family, '"')
}

// ---------------------------------------------------------------------------
// Ports and tabs
// ---------------------------------------------------------------------------

pub open spec fn autoconnecting(v: Seq<PortView>) -> Seq<Seq<char>>
    decreases v.len(),
{
    if v.len() == 0 {
        Seq::empty()
    } else if v.last().autoconnect {
        autoconnecting(v.drop_last()).push(v.last().id)
    } else {
        autoconnecting(v.drop_last())
    }
}

/// The ports that are started with the program.
pub fn autoconnect_ids(v: &Vec<PortEntry>) -> (r: Vec<String>)
    ensures
        text::texts(r@) == autoconnecting(config::views(v@)),
{
    let ghost all = config::views(v@);
    let mut r = text::no_texts();
    let mut i: usize = 0;
    assert(text::texts(r@) =~= autoconnecting(all.take(0)));
    while i < v.len()
        invariant
            i <= v.len(),
            all == config::views(v@),
            text::texts(r@) == autoconnecting(all.take(i as int)),
        decreases v.len() - i,
    {
        assert(all.take(i + 1).drop_last() =~= all.take(i as int));
        assert(all.take(i + 1).last() == v@[i as int]@);
        if v[i].autoconnect {
            text::add_text(&mut r, v[i].id.clone());
        }
        i += 1;
    }
    assert(all.take(i as int) =~= all);
    r
}

pub open spec fn prefill_of(p: PinnedView) -> PrefillView {
    PrefillView { port_id: p.port_id, remote: p.remote, path: p.via, unproto: false }
}

pub open spec fn prefills(pins: Seq<PinnedView>) -> Seq<PrefillView> {
    pins.map_values(|p: PinnedView| prefill_of(p))
}

/// The tabs that are opened with the program, none of them connected: one for each
/// pin.
pub fn pinned_tabs(v: &Vec<PinnedSession>) -> (r: Vec<TabPrefill>)
    ensures
        config::views(r@) == prefills(config::views(v@)),
{
    let ghost all = prefills(config::views(v@));
    let mut r: Vec<TabPrefill> = Vec::new();
    let mut i: usize = 0;
    assert(config::views(r@) =~= all.take(0));
    while i < v.len()
        invariant
            i <= v.len(),
            all == prefills(config::views(v@)),
            config::views(r@) == all.take(i as int),
        decreases v.len() - i,
    {
        let p = &v[i];
        let t = TabPrefill {
            port_id: p.port_id.clone(),
            remote: p.remote.clone(),
            path: p.via.clone(),
            unproto: false,
        };
        proof {
            config::lemma_views_push(r@, t);
            assert(config::views(v@)[i as int] == p@);
            assert(all[i as int] =~= t@);
            assert(all.take(i + 1) =~= all.take(i as int).push(t@));
        }
        r.push(t);
        i += 1;
    }
    assert(all.take(i as int) =~= all);
    r
}

pub open spec fn favorite_ports(v: Seq<PortView>) -> Seq<PortView>
    decreases v.len(),
{
    if v.len() == 0 {
        v
    } else if v.last().favorite {
        favorite_ports(v.drop_last()).push(v.last())
    } else {
        favorite_ports(v.drop_last())
    }
}

/// The ports that have a button of their own.
pub fn favorites(v: &Vec<PortEntry>) -> (r: Vec<PortEntry>)
    ensures
        config::views(r@) == favorite_ports(config::views(v@)),
{
    let ghost all = config::views(v@);
    let mut r: Vec<PortEntry> = Vec::new();
    let mut i: usize = 0;
    assert(config::views(r@) =~= favorite_ports(all.take(0)));
    while i < v.len()
        invariant
            i <= v.len(),
            all == config::views(v@),
            config::views(r@) == favorite_ports(all.take(i as int)),
        decreases v.len() - i,
    {
        let p = &v[i];
        assert(all.take(i + 1).drop_last() =~= all.take(i as int));
        assert(all.take(i + 1).last() == p@);
        if p.favorite {
            let c = p.clone();
            proof {
                config::lemma_views_push(r@, c);
            }
            r.push(c);
        }
        i += 1;
    }
    assert(all.take(i as int) =~= all);
    r
}

impl Ui {
    /// A window without tabs.
    pub fn new(config: AppConfig) -> (r: Self)
        ensures
            r.state.config == config,
            r@.active.len() == 0,
            r@.tabs.len() == 0,
            r@.bound.len() == 0,
            r@.pending.len() == 0,
            r@.confirmed.len() == 0,
            r.next_tab_id == 0,
            !r.beacon_lit,
            r.state.qrz_session is None,
            window_laws::orderly(r@),
    {
        Ui {
            state: AppState::new(config),
            tabs: Vec::new(),
            bound: Vec::new(),
            pending: Vec::new(),
            next_tab_id: 0,
            confirmed_ports: Vec::new(),
            beacon_lit: false,
        }
    }
}

// ---------------------------------------------------------------------------
// Direwolf
// ---------------------------------------------------------------------------

#[derive(Debug, Clone, Copy, PartialEq, Eq, Structural)]
pub enum DirewolfState {
    Stopped,
    Running,
    FailedToStart,
}

/// What the button says.
pub fn direwolf_tooltip(s: DirewolfState) -> (r: &'static str)
    ensures
        r@ == (match s {
            DirewolfState::Stopped =>
                "Direwolf: stopped \u{2014} click to start, right-click for log/settings"@,
            DirewolfState::Running =>
                "Direwolf: running \u{2014} click to stop, right-click for log/settings"@,
            DirewolfState::FailedToStart =>
                "Direwolf: failed to start \u{2014} right-click for log/settings"@,
        }),
{
    match s {
        DirewolfState::Stopped => {
            "Direwolf: stopped \u{2014} click to start, right-click for log/settings"
        },
        DirewolfState::Running => {
            "Direwolf: running \u{2014} click to stop, right-click for log/settings"
        },
        DirewolfState::FailedToStart => {
            "Direwolf: failed to start \u{2014} right-click for log/settings"
        },
    }
}

/// What becomes of the process.
#[derive(Debug)]
pub enum DirewolfEvent {
    Started { pid: u32 },
    Failed { message: String },
    Exited { description: String },
    Output { line: String },
}

/// The process and what it printed.
#[derive(Debug)]
pub struct DirewolfProcess {
    pub pid: Option<u32>,
    pub state: DirewolfState,
    pub log: Vec<String>,
}

#[verifier::ext_equal]
pub struct ProcessView {
    pub pid: Option<u32>,
    pub state: DirewolfState,
    pub log: Seq<Seq<char>>,
}

impl View for DirewolfProcess {
    type V = ProcessView;

    open spec fn view(&self) -> ProcessView {
        ProcessView { pid: self.pid, state: self.state, log: text::texts(self.log@) }
    }
}

/// What becomes of the process's state, and the line that is logged.
pub open spec fn after_process_event(p: ProcessView, e: DirewolfEvent) -> ProcessView {
    match e {
        DirewolfEvent::Started { pid } => ProcessView {
            pid: Some(pid),
            state: DirewolfState::Running,
            log: p.log.push(
                "--- direwolf started (pid "@ + text::decimal(pid as nat) + ") ---"@,
            ),
        },
        DirewolfEvent::Failed { message } => ProcessView {
            state: DirewolfState::FailedToStart,
            log: p.log.push(text::without(message@, '\0')),
            ..p
        },
        DirewolfEvent::Exited { description } => ProcessView {
            pid: None,
            state: DirewolfState::Stopped,
            log: p.log.push(
                text::without("--- direwolf exited: "@ + description@ + " ---"@, '\0'),
            ),
        },
        DirewolfEvent::Output { line } => ProcessView {
            log: p.log.push(text::without(line@, '\0')),
            ..p
        },
    }
}

impl DirewolfProcess {
    pub fn new() -> (r: Self)
        ensures
            r@ == (ProcessView {
                pid: None,
                state: DirewolfState::Stopped,
                log: Seq::empty(),
            }),
    {
        let r = DirewolfProcess {
            pid: None,
            state: DirewolfState::Stopped,
            log: text::no_texts(),
        };
        assert(r@.log =~= Seq::<Seq<char>>::empty());
        r
    }

    pub fn is_running(&self) -> (r: bool)
        ensures
            r == self@.pid is Some,
    {
        self.pid.is_some()
    }

    pub fn full_log_text(&self) -> (r: String)
        ensures
            r@ == config::file_text(self@.log),
    {
        crate::session_tab::history_text(&self.log)
    }

    /// Takes what became of the process.
    pub fn take(&mut self, e: &DirewolfEvent)
        ensures
            final(self)@ == after_process_event(old(self)@, *e),
    {
        match e {
            DirewolfEvent::Started { pid } => {
                self.pid = Some(*pid);
                self.state = DirewolfState::Running;
                let mut line = text::owned("--- direwolf started (pid ");
                line.append(text::decimal_text(*pid as u64).as_str());
                line.append(") ---");
                text::add_text(&mut self.log, line);
            },
            DirewolfEvent::Failed { message } => {
                self.state = DirewolfState::FailedToStart;
                text::add_text(&mut self.log, text::remove_char(message.as_str(), '\0'));
            },
            DirewolfEvent::Exited { description } => {
                self.pid = None;
                self.state = DirewolfState::Stopped;
                let mut line = text::owned("--- direwolf exited: ");
                line.append(description.as_str());
                line.append(" ---");
                text::add_text(&mut self.log, text::remove_char(line.as_str(), '\0'));
            },
            DirewolfEvent::Output { line } => {
                text::add_text(&mut self.log, text::remove_char(line.as_str(), '\0'));
            },
        }
    }
}

/// The process runs exactly while it has a number, whatever becomes of it, as long
/// as it is only started when it does not run.
pub proof fn law_running_has_pid(p: ProcessView, e: DirewolfEvent)
    requires
        (p.state == DirewolfState::Running) == p.pid is Some,
        e is Failed ==> p.pid is None,
    ensures
        (after_process_event(p, e).state == DirewolfState::Running) == after_process_event(
            p,
            e,
        ).pid is Some,
{
}

/// A font is described by its family and its size.
pub proof fn law_font_read(family: Seq<char>, size: nat)
    requires
        size <= u32::MAX,
        family.len() > 0,
        !text::is_space(family[0]),
    ensures
        font_of(family + seq![' '] + text::decimal(size)) == (family, size as u32),
{
    let d = text::decimal(size);
    let s = family + seq![' '] + d;
    let n = family.len() as int;
    identifiers::lemma_decimal(size);
    ports::lemma_number_kept(size, u32::MAX as nat);
    assert(text::is_digit(d[d.len() - 1]));
    assert(s[0] == family[0]);
    assert(s.last() == d[d.len() - 1]);
    assert(text::trim_start_spec(s) == s);
    assert(text::trimmed(s) == s);
    text::lemma_last_index(s, ' ');
    let i = text::last_index(s, ' ');
    assert(s[n] == ' ');
    assert(i == n) by {
        if i > n {
            assert(s[i] == d[i - n - 1]);
            assert(text::is_digit(d[i - n - 1]));
        }
    }
    assert(s.skip(n + 1) =~= d);
    assert(s.take(n) =~= family);
}

/// What direwolf reports is shown: each line that it writes joins the log, and its
/// number is known exactly from its start to its end.
pub proof fn law_process_shown(p: ProcessView, pid: u32, line: String)
    requires
        !line@.contains('\0'),
    ensures
        ({
            let q = after_process_event(p, DirewolfEvent::Output { line });
            q.log == p.log.push(line@) && q.pid == p.pid && q.state == p.state
        }),
        after_process_event(p, DirewolfEvent::Started { pid }).pid == Some(pid),
        after_process_event(p, DirewolfEvent::Started { pid }).state == DirewolfState::Running,
        after_process_event(p, DirewolfEvent::Exited { description: line }).pid is None,
        after_process_event(p, DirewolfEvent::Exited { description: line }).state
            == DirewolfState::Stopped,
        after_process_event(p, DirewolfEvent::Failed { message: line }).state
            == DirewolfState::FailedToStart,
        after_process_event(p, DirewolfEvent::Failed { message: line }).log == p.log.push(line@),
{
    text::lemma_without_none(line@, '\0');
}

} // verus!
