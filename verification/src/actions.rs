//! What the user does to ports and tabs.

use vstd::prelude::*;
use vstd::utf8::*;

use crate::app_state;
use crate::config::{self, AppConfig, PinnedView};
use crate::port::{CommandView, PortCommand};
use crate::session_tab::{self, SessionTab, TabId, TabView};
use crate::text;
use crate::window::{
    self, Effect, EffectView, Effects, Outcome, Pending, PendingView, SlotView, TabSlot, Ui, UiView,
};

verus! {

// ---------------------------------------------------------------------------
// Ports
// ---------------------------------------------------------------------------

/// Starting a port: nothing where it is up already or not configured.
pub open spec fn started(c: AppConfig, u: UiView, id: Seq<char>) -> Outcome {
    match app_state::entry_with(c.ports@, id) {
        Some(e) => if u.active.contains(id) {
            window::outcome(u, Seq::empty())
        } else {
            window::outcome(
                UiView { active: u.active.push(id), ..u },
                seq![
                    window::port_line(
                        id,
                        e.name@,
                        "connecting ("@ + config::kind_name(e.config) + ")\u{2026}"@,
                    ),
                    EffectView::Spawn { port_id: id },
                ],
            )
        },
        None => window::outcome(u, Seq::empty()),
    }
}

/// A command goes to a port only while it is up.
pub open spec fn command(u: UiView, id: Seq<char>, command: CommandView) -> Effects {
    if u.active.contains(id) {
        seq![EffectView::Command { port_id: id, command }]
    } else {
        Seq::empty()
    }
}

impl Ui {
    pub(crate) fn emit_command(&self, out: &mut Vec<Effect>, id: &str, c: PortCommand)
        ensures
            config::views(final(out)@) == config::views(old(out)@) + command(
                self@,
                id@,
                crate::port::command_view(c),
            ),
    {
        let ghost before = config::views(out@);
        if self.state.is_active(id) {
            window::emit(out, Effect::Command { port_id: text::owned(id), command: c });
            assert(config::views(out@) =~= before + command(
                self@,
                id@,
                crate::port::command_view(c),
            ));
        } else {
            assert(before + Seq::<EffectView>::empty() =~= before);
        }
    }

    pub(crate) fn start(&mut self, out: &mut Vec<Effect>, id: &str)
        ensures
            final(self)@ == started(old(self).state.config, old(self)@, id@).ui,
            config::views(final(out)@) == config::views(old(out)@) + started(
                old(self).state.config,
                old(self)@,
                id@,
            ).effects,
            window::same_settings(old(self).state.config, final(self).state.config),
            final(self).state.qrz_session == old(self).state.qrz_session,
            final(self).tabs == old(self).tabs,
    {
        let ghost before = config::views(out@);
        let ghost o = started(self.state.config, self@, id@);
        match app_state::find_entry(&self.state.config, id) {
            Some(entry) => {
                if !self.state.is_active(id) {
                    let mut t = text::owned("connecting (");
                    t.append(entry.config.kind_label());
                    t.append(")\u{2026}");
                    window::emit_line(out, id, entry.name.as_str(), t.as_str());
                    window::emit(out, Effect::Spawn { port_id: text::owned(id) });
                    assert(config::views(out@) =~= before + o.effects);
                    text::add_text(&mut self.state.active, text::owned(id));
                    assert(self@ =~= o.ui);
                } else {
                    assert(before + o.effects =~= before);
                }
            },
            None => {
                assert(before + o.effects =~= before);
            },
        }
    }

    /// Starts a port.
    pub fn connect_port(&mut self, id: &str) -> (r: Vec<Effect>)
        ensures
            window::outcome(final(self)@, config::views(r@)) == started(
                old(self).state.config,
                old(self)@,
                id@,
            ),
            window::same_settings(old(self).state.config, final(self).state.config),
            final(self).state.qrz_session == old(self).state.qrz_session,
    {
        let mut out: Vec<Effect> = Vec::new();
        let ghost o = started(self.state.config, self@, id@);
        self.start(&mut out, id);
        assert(config::views(out@) =~= o.effects);
        out
    }

    /// A port has ended for good.
    pub fn port_ended(&mut self, id: &str)
        ensures
            final(self)@ == (UiView {
                active: window::without_id(old(self)@.active, id@),
                ..old(self)@
            }),
            window::same_settings(old(self).state.config, final(self).state.config),
            final(self).state.qrz_session == old(self).state.qrz_session,
    {
        window::remove_id(&mut self.state.active, id);
    }

    /// Asks a port to stop.
    pub fn disconnect_port(&self, id: &str) -> (r: Vec<Effect>)
        ensures
            config::views(r@) == command(self@, id@, CommandView::Disconnect),
    {
        let mut out: Vec<Effect> = Vec::new();
        self.emit_command(&mut out, id, PortCommand::Disconnect);
        assert(config::views(out@) =~= command(self@, id@, CommandView::Disconnect));
        out
    }

    /// Sends one unconnected frame.
    pub fn send_unproto(&self, id: &str, dest: String, path: Vec<String>, bytes: Vec<u8>) -> (r: Vec<
        Effect,
    >)
        ensures
            config::views(r@) == command(
                self@,
                id@,
                CommandView::SendUnproto {
                    dest: dest@,
                    path: text::texts(path@),
                    bytes: bytes@,
                },
            ),
    {
        let mut out: Vec<Effect> = Vec::new();
        let ghost c = CommandView::SendUnproto {
            dest: dest@,
            path: text::texts(path@),
            bytes: bytes@,
        };
        self.emit_command(&mut out, id, PortCommand::SendUnproto { dest, via: path, bytes });
        assert(config::views(out@) =~= command(self@, id@, c));
        out
    }

    /// Where the tab with a number stands, or how many there are.
    pub fn find_tab(&self, id: TabId) -> (k: usize)
        ensures
            k == window::slot_index(self@.tabs, id),
            k <= self.tabs@.len(),
    {
        let ghost all = self@.tabs;
        let mut i: usize = 0;
        assert(all.skip(0) =~= all);
        while i < self.tabs.len()
            invariant
                i <= self.tabs.len(),
                all == config::views(self.tabs@),
                window::slot_index(all, id) == i + window::slot_index(all.skip(i as int), id),
            decreases self.tabs.len() - i,
        {
            assert(all.skip(i as int)[0] == self.tabs@[i as int]@);
            if self.tabs[i].id == id {
                return i;
            }
            assert(all.skip(i as int).skip(1) =~= all.skip(i + 1));
            i += 1;
        }
        i
    }
}

// ---------------------------------------------------------------------------
// Tabs
// ---------------------------------------------------------------------------

/// What a new tab starts with.
#[derive(Debug)]
pub struct TabPrefill {
    pub port_id: String,
    pub remote: String,
    pub path: String,
    pub unproto: bool,
}

#[verifier::ext_equal]
pub struct PrefillView {
    pub port_id: Seq<char>,
    pub remote: Seq<char>,
    pub path: Seq<char>,
    pub unproto: bool,
}

impl View for TabPrefill {
    type V = PrefillView;

    open spec fn view(&self) -> PrefillView {
        PrefillView {
            port_id: self.port_id@,
            remote: self.remote@,
            path: self.path@,
            unproto: self.unproto,
        }
    }
}

/// Whether a tab sends unconnected frames: as asked for, where the port can do
/// both.
pub open spec fn sends_unproto(c: config::PortConfigView, asked: bool) -> bool {
    session_tab::sends_unproto(c) && (asked || !session_tab::connects(c))
}

/// The history that a tab shows while it is not connected.
pub open spec fn preview(tab: TabId, t: TabView) -> Effects {
    if t.conn_id is Some {
        Seq::empty()
    } else if text::call_text(t.node).len() == 0 {
        seq![EffectView::Blank { tab }]
    } else {
        seq![EffectView::Preview { tab, port_id: t.port.id, remote: text::call_text(t.node) }]
    }
}

fn emit_preview(out: &mut Vec<Effect>, id: TabId, tab: &SessionTab)
    ensures
        config::views(final(out)@) == config::views(old(out)@) + preview(id, tab@),
{
    let ghost before = config::views(out@);
    if tab.conn_id.is_none() {
        let remote = text::trim_upper(tab.node.as_str());
        if remote.as_str().is_empty() {
            window::emit(out, Effect::Blank { tab: id });
        } else {
            window::emit(out, Effect::Preview { tab: id, port_id: tab.port.id.clone(), remote });
        }
        assert(config::views(out@) =~= before + preview(id, tab@));
    } else {
        assert(before + preview(id, tab@) =~= before);
    }
}

pub open spec fn fresh_tab(e: config::PortView, p: PrefillView, pinned: bool) -> TabView {
    TabView {
        port: e,
        node: p.remote,
        via_raw: p.path,
        unproto: sends_unproto(e.config, p.unproto),
        conn_id: None,
        connected_since: None,
        pending_line: Seq::empty(),
        pinned,
        pinned_identity: if pinned {
            Some((p.port_id, p.remote))
        } else {
            None
        },
        bytes_sent: 0,
        bytes_received: 0,
        packets_sent: 0,
        packets_received: 0,
        mailbox_state: None,
        mailbox_input: Seq::empty(),
    }
}

/// Opening a tab that is not connected, on a port that is configured.
pub open spec fn added(c: AppConfig, u: UiView, p: PrefillView) -> (Option<TabId>, Outcome) {
    match app_state::entry_with(c.ports@, p.port_id) {
        Some(e) => {
            let tab = fresh_tab(
                e@,
                p,
                app_state::has_pin(u.pins, p.port_id, p.remote),
            );
            (
                Some(u.next_tab_id),
                window::outcome(
                    UiView {
                        tabs: u.tabs.push(SlotView { id: u.next_tab_id, tab }),
                        next_tab_id: (u.next_tab_id + 1) as u64,
                        ..u
                    },
                    preview(u.next_tab_id, tab),
                ),
            )
        },
        None => (None, window::outcome(u, Seq::empty())),
    }
}

impl Ui {
    pub(crate) fn open_tab(&mut self, out: &mut Vec<Effect>, p: &TabPrefill) -> (r: Option<TabId>)
        requires
            old(self).next_tab_id < u64::MAX,
        ensures
            r == added(old(self).state.config, old(self)@, p@).0,
            final(self)@ == added(old(self).state.config, old(self)@, p@).1.ui,
            config::views(final(out)@) == config::views(old(out)@) + added(
                old(self).state.config,
                old(self)@,
                p@,
            ).1.effects,
            final(self).state == old(self).state,
    {
        let ghost before = config::views(out@);
        let ghost u = self@;
        let ghost o = added(self.state.config, self@, p@);
        let entry = match app_state::find_entry(&self.state.config, p.port_id.as_str()) {
            Some(e) => e,
            None => {
                assert(before + o.1.effects =~= before);
                return None;
            },
        };
        let pinned = self.state.is_pinned(p.port_id.as_str(), p.remote.as_str());
        let unproto = session_tab::port_supports_unproto(&entry.config) && (p.unproto
            || !session_tab::port_supports_connect(&entry.config));
        let mut tab = SessionTab::new(entry, p.remote.clone(), p.path.clone());
        tab.unproto = unproto;
        tab.pinned = pinned;
        if pinned {
            tab.pinned_identity = Some((p.port_id.clone(), p.remote.clone()));
        }
        let id: TabId = self.next_tab_id;
        emit_preview(out, id, &tab);
        self.next_tab_id = id + 1;
        let slot = TabSlot { id, tab };
        proof {
            config::lemma_views_push(self.tabs@, slot);
            assert(slot@.tab =~= fresh_tab(entry@, p@, pinned));
        }
        self.tabs.push(slot);
        assert(self@ =~= o.1.ui);
        Some(id)
    }

    /// Opens a tab that is not connected. Gives its number and what it is to show,
    /// or nothing where the port is not configured.
    pub fn add_tab(&mut self, p: &TabPrefill) -> (r: (Option<TabId>, Vec<Effect>))
        requires
            old(self).next_tab_id < u64::MAX,
        ensures
            (r.0, window::outcome(final(self)@, config::views(r.1@))) == added(
                old(self).state.config,
                old(self)@,
                p@,
            ),
            final(self).state == old(self).state,
    {
        let mut out: Vec<Effect> = Vec::new();
        let ghost o = added(self.state.config, self@, p@);
        let id = self.open_tab(&mut out, p);
        assert(config::views(out@) =~= o.1.effects);
        (id, out)
    }

    /// Asks for the end of a tab's connection.
    pub fn disconnect_tab(&self, id: TabId) -> (r: Vec<Effect>)
        ensures
            config::views(r@) == hang_up(self@, id),
    {
        let mut out: Vec<Effect> = Vec::new();
        let k: usize = self.find_tab(id);
        if k < self.tabs.len() {
            assert(self@.tabs[k as int] == self.tabs@[k as int]@);
            let tab = &self.tabs[k].tab;
            match tab.conn_id {
                Some(conn) => {
                    self.emit_command(
                        &mut out,
                        tab.port.id.as_str(),
                        PortCommand::CloseConnection { id: conn },
                    );
                },
                None => {},
            }
        }
        assert(config::views(out@) =~= hang_up(self@, id));
        out
    }
}

/// What ends a tab's connection.
pub open spec fn hang_up(u: UiView, id: TabId) -> Effects {
    let k = window::slot_index(u.tabs, id);
    if k < u.tabs.len() {
        match u.tabs[k].tab.conn_id {
            Some(conn) => command(
                u,
                u.tabs[k].tab.port.id,
                CommandView::CloseConnection { id: conn },
            ),
            None => Seq::empty(),
        }
    } else {
        Seq::empty()
    }
}

/// The pins after a tab gave up its own.
pub open spec fn unpinned(pins: Seq<PinnedView>, identity: Option<(Seq<char>, Seq<char>)>) -> Seq<
    PinnedView,
> {
    match identity {
        Some((p, r)) => app_state::after_pin(pins, p, r, ""@, false),
        None => pins,
    }
}

pub open spec fn save_if(b: bool) -> Effects {
    if b {
        seq![EffectView::Save]
    } else {
        Seq::empty()
    }
}

/// Closing a tab: its connection ends, its pin goes, and nothing is bound to it
/// any more.
pub open spec fn closed_tab(u: UiView, id: TabId) -> Outcome {
    let k = window::slot_index(u.tabs, id);
    let rest = UiView {
        bound: window::without_bound_tab(u.bound, id),
        pending: window::without_pending_tab(u.pending, id),
        tabs: window::without_tab(u.tabs, id),
        ..u
    };
    if k < u.tabs.len() {
        let identity = u.tabs[k].tab.pinned_identity;
        window::outcome(
            UiView { pins: unpinned(u.pins, identity), ..rest },
            hang_up(u, id) + save_if(identity is Some),
        )
    } else {
        window::outcome(rest, Seq::empty())
    }
}

impl Ui {
    /// Closes a tab.
    pub fn close_tab(&mut self, id: TabId) -> (r: Vec<Effect>)
        ensures
            window::outcome(final(self)@, config::views(r@)) == closed_tab(old(self)@, id),
            window::same_settings(old(self).state.config, final(self).state.config),
            final(self).state.qrz_session == old(self).state.qrz_session,
    {
        let ghost u = self@;
        let ghost o = closed_tab(u, id);
        let mut out = self.disconnect_tab(id);
        let ghost first = config::views(out@);
        let k: usize = self.find_tab(id);
        window::drop_bound_tab(&mut self.bound, id);
        window::drop_pending_tab(&mut self.pending, id);
        if k < self.tabs.len() {
            assert(u.tabs[k as int] == self.tabs@[k as int]@);
            let slot = self.tabs.remove(k);
            assert(config::views(self.tabs@) =~= u.tabs.remove(k as int));
            match slot.tab.pinned_identity {
                Some((p, r)) => {
                    self.state.set_pinned(p.as_str(), r.as_str(), "", false);
                    window::emit(&mut out, Effect::Save);
                    assert(config::views(out@) =~= first + save_if(true));
                },
                None => {
                    assert(first + save_if(false) =~= first);
                },
            }
        }
        assert(config::views(out@) =~= o.effects);
        assert(self@ =~= o.ui);
        out
    }
}

/// Connecting a tab: it waits for its connection, its port is started if need be,
/// and the node is called on a port that knows nodes.
pub open spec fn dialed(c: AppConfig, u: UiView, id: TabId) -> Outcome {
    let k = window::slot_index(u.tabs, id);
    if k >= u.tabs.len() || u.tabs[k].tab.unproto {
        window::outcome(u, Seq::empty())
    } else {
        let tab = u.tabs[k].tab;
        let needs_node = session_tab::connects(tab.port.config);
        let remote = text::call_text(tab.node);
        if needs_node && remote.len() == 0 {
            window::outcome(
                u,
                preview(id, tab).push(
                    window::plain_line("Enter a node/callsign before connecting."@),
                ),
            )
        } else {
            let key = if needs_node {
                remote
            } else {
                Seq::empty()
            };
            let waiting = UiView {
                pending: window::without_pending(u.pending, tab.port.id, key).push(
                    PendingView { port_id: tab.port.id, remote: key, tab: id },
                ),
                ..u
            };
            let s = started(c, waiting, tab.port.id);
            window::outcome(
                s.ui,
                preview(id, tab) + s.effects + (if needs_node {
                    command(
                        s.ui,
                        tab.port.id,
                        CommandView::OpenConnection {
                            remote,
                            path: session_tab::path_of(tab.via_raw),
                        },
                    )
                } else {
                    Seq::empty()
                }),
            )
        }
    }
}

impl Ui {
    /// Connects a tab.
    pub fn connect_tab(&mut self, id: TabId) -> (r: Vec<Effect>)
        ensures
            window::outcome(final(self)@, config::views(r@)) == dialed(
                old(self).state.config,
                old(self)@,
                id,
            ),
            window::same_settings(old(self).state.config, final(self).state.config),
            final(self).state.qrz_session == old(self).state.qrz_session,
    {
        let ghost u = self@;
        let ghost c = self.state.config;
        let ghost o = dialed(c, u, id);
        let mut out: Vec<Effect> = Vec::new();
        let k: usize = self.find_tab(id);
        if k >= self.tabs.len() {
            assert(config::views(out@) =~= o.effects);
            return out;
        }
        let ghost t = u.tabs[k as int].tab;
        assert(t == self.tabs@[k as int].tab@);
        let tab = &self.tabs[k].tab;
        if tab.unproto {
            assert(config::views(out@) =~= o.effects);
            return out;
        }
        let needs_node = session_tab::port_supports_connect(&tab.port.config);
        let remote = text::trim_upper(tab.node.as_str());
        let port_id = tab.port.id.clone();
        let path = tab.via();
        emit_preview(&mut out, id, tab);
        assert(config::views(out@) =~= preview(id, t));
        if needs_node && remote.as_str().is_empty() {
            window::emit_plain(&mut out, "Enter a node/callsign before connecting.");
            assert(config::views(out@) =~= o.effects);
            return out;
        }
        let key = if needs_node {
            remote.clone()
        } else {
            String::new()
        };
        assert(!needs_node ==> key@ =~= Seq::<char>::empty());
        window::drop_pending(&mut self.pending, port_id.as_str(), key.as_str());
        let waiting = Pending { port_id: port_id.clone(), remote: key, tab: id };
        proof {
            config::lemma_views_push(self.pending@, waiting);
        }
        self.pending.push(waiting);
        let ghost w = self@;
        self.start(&mut out, port_id.as_str());
        if needs_node {
            self.emit_command(
                &mut out,
                port_id.as_str(),
                PortCommand::OpenConnection { remote, via: path },
            );
        }
        assert(config::views(out@) =~= o.effects);
        out
    }
}

// ---------------------------------------------------------------------------
// Pins
// ---------------------------------------------------------------------------

/// Pinning a tab or taking its pin away. Of a tab without a node nothing is recorded,
/// unless its port is itself the session.
pub open spec fn pinned(u: UiView, id: TabId, on: bool) -> Outcome {
    let k = window::slot_index(u.tabs, id);
    if k >= u.tabs.len() {
        window::outcome(u, Seq::empty())
    } else {
        let tab = u.tabs[k].tab;
        let remote = text::call_text(tab.node);
        if !on {
            window::outcome(
                UiView {
                    pins: unpinned(u.pins, tab.pinned_identity),
                    tabs: u.tabs.update(
                        k,
                        SlotView {
                            tab: TabView { pinned: false, pinned_identity: None, ..tab },
                            ..u.tabs[k]
                        },
                    ),
                    ..u
                },
                save_if(tab.pinned_identity is Some),
            )
        } else if remote.len() == 0 && !session_tab::is_terminal(tab.port.config) {
            window::outcome(
                UiView {
                    tabs: u.tabs.update(
                        k,
                        SlotView { tab: TabView { pinned: true, ..tab }, ..u.tabs[k] },
                    ),
                    ..u
                },
                Seq::empty(),
            )
        } else {
            let new = (tab.port.id, remote);
            let rest = if tab.pinned_identity == Some(new) {
                u.pins
            } else {
                unpinned(u.pins, tab.pinned_identity)
            };
            window::outcome(
                UiView {
                    pins: app_state::after_pin(
                        rest,
                        new.0,
                        new.1,
                        session_tab::path_text(tab.port.config, tab.via_raw),
                        true,
                    ),
                    tabs: u.tabs.update(
                        k,
                        SlotView {
                            tab: TabView { pinned: true, pinned_identity: Some(new), ..tab },
                            ..u.tabs[k]
                        },
                    ),
                    ..u
                },
                seq![EffectView::Save],
            )
        }
    }
}

impl Ui {
    /// Pins a tab or takes its pin away.
    pub fn pin_tab(&mut self, id: TabId, on: bool) -> (r: Vec<Effect>)
        ensures
            window::outcome(final(self)@, config::views(r@)) == pinned(old(self)@, id, on),
            window::same_settings(old(self).state.config, final(self).state.config),
            final(self).state.qrz_session == old(self).state.qrz_session,
    {
        let ghost u = self@;
        let ghost o = pinned(u, id, on);
        let mut out: Vec<Effect> = Vec::new();
        let k: usize = self.find_tab(id);
        if k >= self.tabs.len() {
            assert(config::views(out@) =~= o.effects);
            return out;
        }
        let ghost t = u.tabs[k as int].tab;
        assert(u.tabs[k as int] == self.tabs@[k as int]@);
        let mut slot = self.tabs.remove(k);
        slot.tab.pinned = on;
        let remote = text::trim_upper(slot.tab.node.as_str());
        if !on {
            match &slot.tab.pinned_identity {
                Some(old_id) => {
                    self.state.set_pinned(old_id.0.as_str(), old_id.1.as_str(), "", false);
                    window::emit(&mut out, Effect::Save);
                },
                None => {},
            }
            slot.tab.pinned_identity = None;
        } else if !remote.as_str().is_empty() || session_tab::port_is_terminal(
            &slot.tab.port.config,
        ) {
            let port_id = slot.tab.port.id.clone();
            let path = session_tab::typed_path(
                &slot.tab.port.config,
                slot.tab.via_raw.as_str(),
            );
            match &slot.tab.pinned_identity {
                Some(old_id) => {
                    if !(text::eq_str(old_id.0.as_str(), port_id.as_str()) && text::eq_str(
                        old_id.1.as_str(),
                        remote.as_str(),
                    )) {
                        self.state.set_pinned(old_id.0.as_str(), old_id.1.as_str(), "", false);
                    }
                },
                None => {},
            }
            self.state.set_pinned(port_id.as_str(), remote.as_str(), path.as_str(), true);
            slot.tab.pinned_identity = Some((port_id, remote));
            window::emit(&mut out, Effect::Save);
        }
        let ghost new = slot@;
        self.tabs.insert(k, slot);
        assert(config::views(self.tabs@) =~= u.tabs.update(k as int, new));
        assert(config::views(out@) =~= o.effects);
        assert(self@ =~= o.ui);
        out
    }
}

// ---------------------------------------------------------------------------
// Sending
// ---------------------------------------------------------------------------

pub open spec fn with_tab(u: UiView, k: int, tab: TabView) -> UiView {
    UiView { tabs: u.tabs.update(k, SlotView { id: u.tabs[k].id, tab }), ..u }
}

/// A line that was sent, in its tab and in the history.
pub open spec fn echo(id: TabId, tab: TabView, t: Seq<char>) -> Effects {
    seq![
        window::show(id, session_tab::sent_line(t) + "\n"@),
        EffectView::Keep {
            port_id: tab.port.id,
            remote: tab.node,
            line: session_tab::sent_line(t),
        },
    ]
}

fn emit_echo(out: &mut Vec<Effect>, slot: &mut TabSlot, t: &str)
    ensures
        config::views(final(out)@) == config::views(old(out)@) + echo(
            old(slot)@.id,
            old(slot)@.tab,
            t@,
        ),
        final(slot)@ == (SlotView { tab: old(slot)@.tab.sent(t@), ..old(slot)@ }),
{
    let ghost before = config::views(out@);
    let ghost e = echo(slot@.id, slot@.tab, t@);
    let line = slot.tab.append_sent_line(t);
    let mut shown = line.clone();
    shown.append("\n");
    window::emit(
        out,
        Effect::Show { tab: slot.id, text: text::remove_char(shown.as_str(), '\0') },
    );
    window::emit(
        out,
        Effect::Keep { port_id: slot.tab.port.id.clone(), remote: slot.tab.node.clone(), line },
    );
    assert(config::views(out@) =~= before + e);
}

/// Sending text over a tab's connection, on behalf of the program.
pub open spec fn texted(u: UiView, k: int, port_id: Seq<char>, t: Seq<char>) -> Outcome {
    let tab = u.tabs[k].tab;
    window::outcome(
        with_tab(u, k, tab.sent(t)),
        (match tab.conn_id {
            Some(conn) => command(u, port_id, CommandView::Send { id: conn, bytes: encode_utf8(t) }),
            None => Seq::empty(),
        }) + echo(u.tabs[k].id, tab, t),
    )
}

/// Sending a line that the user typed over a tab's connection.
pub open spec fn typed(u: UiView, k: int, t: Seq<char>) -> Outcome {
    let tab = u.tabs[k].tab;
    match tab.conn_id {
        Some(conn) => {
            let sent = command(
                u,
                tab.port.id,
                CommandView::Send { id: conn, bytes: encode_utf8(t + "\n"@) },
            );
            if session_tab::connects(tab.port.config) {
                window::outcome(
                    with_tab(u, k, tab.sent(t)),
                    (sent + echo(u.tabs[k].id, tab, t)).push(
                        window::port_line(
                            tab.port.id,
                            tab.port.name,
                            "TX > "@ + tab.node + ": "@ + t,
                        ),
                    ),
                )
            } else {
                window::outcome(u, sent)
            }
        },
        None => window::outcome(u, Seq::empty()),
    }
}

/// The path, where there is one, as the traffic view shows it.
pub open spec fn path_suffix(path: Seq<Seq<char>>) -> Seq<char> {
    if path.len() == 0 {
        Seq::empty()
    } else {
        " via "@ + text::joined(path, ","@)
    }
}

/// Sending a line that the user typed as an unconnected frame.
pub open spec fn broadcast(u: UiView, k: int, t: Seq<char>) -> Outcome {
    let tab = u.tabs[k].tab;
    let dest = text::call_text(tab.node);
    let path = session_tab::path_of(tab.via_raw);
    if dest.len() == 0 {
        window::outcome(
            u,
            seq![window::plain_line("Enter a destination before sending unproto."@)],
        )
    } else if !u.active.contains(tab.port.id) {
        window::outcome(
            u,
            seq![
                window::port_line(
                    tab.port.id,
                    tab.port.name,
                    "port not connected \u{2014} can't send unproto."@,
                ),
            ],
        )
    } else {
        window::outcome(
            with_tab(u, k, tab.sent(t)),
            (command(
                u,
                tab.port.id,
                CommandView::SendUnproto { dest, path, bytes: encode_utf8(t) },
            ) + echo(u.tabs[k].id, tab, t)).push(
                window::port_line(
                    tab.port.id,
                    tab.port.name,
                    "TX unproto > "@ + dest + path_suffix(path) + ": "@ + t,
                ),
            ),
        )
    }
}

/// Whether what the user typed can be sent at all.
pub open spec fn ready(u: UiView, tab: TabView) -> bool {
    if tab.unproto {
        u.active.contains(tab.port.id)
    } else {
        tab.conn_id is Some
    }
}

/// Entering a line in a tab. The line stays in the input field where it cannot be
/// sent.
pub open spec fn entered(u: UiView, id: TabId, t: Seq<char>) -> (bool, Outcome) {
    let k = window::slot_index(u.tabs, id);
    if t.len() == 0 || k >= u.tabs.len() {
        (false, window::outcome(u, Seq::empty()))
    } else if !ready(u, u.tabs[k].tab) {
        (
            false,
            window::outcome(
                u,
                seq![window::plain_line("Not connected \u{2014} message kept in the input field."@)],
            ),
        )
    } else if u.tabs[k].tab.unproto {
        (true, broadcast(u, k, t))
    } else {
        (true, typed(u, k, t))
    }
}

pub(crate) fn bytes_of(s: &str) -> (r: Vec<u8>)
    ensures
        r@ == encode_utf8(s@),
{
    let b = s.as_bytes();
    let mut r: Vec<u8> = Vec::new();
    let mut i: usize = 0;
    while i < b.len()
        invariant
            i <= b@.len(),
            r@ == b@.take(i as int),
        decreases b@.len() - i,
    {
        r.push(b[i]);
        assert(r@ =~= b@.take(i + 1));
        i += 1;
    }
    assert(b@.take(i as int) =~= b@);
    r
}

impl Ui {
    pub(crate) fn send_tab_text(
        &mut self,
        out: &mut Vec<Effect>,
        k: usize,
        port_id: &str,
        t: &str,
    )
        requires
            k < old(self).tabs@.len(),
        ensures
            final(self)@ == texted(old(self)@, k as int, port_id@, t@).ui,
            config::views(final(out)@) == config::views(old(out)@) + texted(
                old(self)@,
                k as int,
                port_id@,
                t@,
            ).effects,
            final(self).state == old(self).state,
            final(self).tabs@.len() == old(self).tabs@.len(),
    {
        let ghost u = self@;
        let ghost before = config::views(out@);
        let ghost o = texted(u, k as int, port_id@, t@);
        assert(u.tabs[k as int] == self.tabs@[k as int]@);
        match self.tabs[k].tab.conn_id {
            Some(conn) => {
                self.emit_command(out, port_id, PortCommand::Send { id: conn, bytes: bytes_of(t) });
            },
            None => {},
        }
        let mut slot = self.tabs.remove(k);
        emit_echo(out, &mut slot, t);
        let ghost new = slot@;
        self.tabs.insert(k, slot);
        assert(config::views(self.tabs@) =~= u.tabs.update(k as int, new));
        assert(self@ =~= o.ui);
        assert(config::views(out@) =~= before + o.effects);
    }

    fn send_tab_connected(&mut self, out: &mut Vec<Effect>, k: usize, t: &str)
        requires
            k < old(self).tabs@.len(),
        ensures
            final(self)@ == typed(old(self)@, k as int, t@).ui,
            config::views(final(out)@) == config::views(old(out)@) + typed(
                old(self)@,
                k as int,
                t@,
            ).effects,
            final(self).state == old(self).state,
    {
        let ghost u = self@;
        let ghost before = config::views(out@);
        let ghost o = typed(u, k as int, t@);
        assert(u.tabs[k as int] == self.tabs@[k as int]@);
        let conn = match self.tabs[k].tab.conn_id {
            Some(conn) => conn,
            None => {
                assert(before + o.effects =~= before);
                return;
            },
        };
        let mut full = text::owned(t);
        full.append("\n");
        let port_id = self.tabs[k].tab.port.id.clone();
        self.emit_command(
            out,
            port_id.as_str(),
            PortCommand::Send { id: conn, bytes: bytes_of(full.as_str()) },
        );
        if session_tab::port_supports_connect(&self.tabs[k].tab.port.config) {
            let mut slot = self.tabs.remove(k);
            emit_echo(out, &mut slot, t);
            let mut line = text::owned("TX > ");
            line.append(slot.tab.node.as_str());
            line.append(": ");
            line.append(t);
            window::emit_line(out, port_id.as_str(), slot.tab.port.name.as_str(), line.as_str());
            let ghost new = slot@;
            self.tabs.insert(k, slot);
            assert(config::views(self.tabs@) =~= u.tabs.update(k as int, new));
            assert(self@ =~= o.ui);
        }
        assert(config::views(out@) =~= before + o.effects);
    }

    fn send_tab_unproto(&mut self, out: &mut Vec<Effect>, k: usize, t: &str)
        requires
            k < old(self).tabs@.len(),
        ensures
            final(self)@ == broadcast(old(self)@, k as int, t@).ui,
            config::views(final(out)@) == config::views(old(out)@) + broadcast(
                old(self)@,
                k as int,
                t@,
            ).effects,
            final(self).state == old(self).state,
    {
        let ghost u = self@;
        let ghost before = config::views(out@);
        let ghost o = broadcast(u, k as int, t@);
        assert(u.tabs[k as int] == self.tabs@[k as int]@);
        let dest = text::trim_upper(self.tabs[k].tab.node.as_str());
        if dest.as_str().is_empty() {
            window::emit_plain(out, "Enter a destination before sending unproto.");
            assert(config::views(out@) =~= before + o.effects);
            return;
        }
        let port_id = self.tabs[k].tab.port.id.clone();
        let name = self.tabs[k].tab.port.name.clone();
        if !self.state.is_active(port_id.as_str()) {
            window::emit_line(
                out,
                port_id.as_str(),
                name.as_str(),
                "port not connected \u{2014} can't send unproto.",
            );
            assert(config::views(out@) =~= before + o.effects);
            return;
        }
        let path = self.tabs[k].tab.via();
        assert(text::texts(path@).len() == path@.len());
        let mut line = text::owned("TX unproto > ");
        line.append(dest.as_str());
        let ghost head = line@;
        if path.len() > 0 {
            line.append(" via ");
            line.append(text::join(&path, ",").as_str());
        }
        assert(line@ =~= head + path_suffix(text::texts(path@)));
        line.append(": ");
        line.append(t);
        self.emit_command(
            out,
            port_id.as_str(),
            PortCommand::SendUnproto { dest, via: path, bytes: bytes_of(t) },
        );
        let mut slot = self.tabs.remove(k);
        emit_echo(out, &mut slot, t);
        window::emit_line(out, port_id.as_str(), name.as_str(), line.as_str());
        let ghost new = slot@;
        self.tabs.insert(k, slot);
        assert(config::views(self.tabs@) =~= u.tabs.update(k as int, new));
        assert(self@ =~= o.ui);
        assert(config::views(out@) =~= before + o.effects);
    }

    /// Whether a line that is typed in a tab can be sent.
    pub fn can_send(&self, id: TabId) -> (r: bool)
        ensures
            r == ({
                let k = window::slot_index(self@.tabs, id);
                k < self@.tabs.len() && ready(self@, self@.tabs[k].tab)
            }),
    {
        let k: usize = self.find_tab(id);
        if k >= self.tabs.len() {
            return false;
        }
        assert(self@.tabs[k as int] == self.tabs@[k as int]@);
        let tab = &self.tabs[k].tab;
        if tab.unproto {
            self.state.is_active(tab.port.id.as_str())
        } else {
            tab.conn_id.is_some()
        }
    }

    /// Takes a line that the user typed in a tab. Says whether the input field is
    /// to be emptied.
    pub fn activate_input(&mut self, id: TabId, t: &str) -> (r: (bool, Vec<Effect>))
        ensures
            (r.0, window::outcome(final(self)@, config::views(r.1@))) == entered(
                old(self)@,
                id,
                t@,
            ),
            final(self).state == old(self).state,
    {
        let ghost o = entered(self@, id, t@);
        let mut out: Vec<Effect> = Vec::new();
        let k: usize = self.find_tab(id);
        if t.is_empty() || k >= self.tabs.len() {
            assert(config::views(out@) =~= o.1.effects);
            return (false, out);
        }
        assert(self@.tabs[k as int] == self.tabs@[k as int]@);
        let unproto = self.tabs[k].tab.unproto;
        if !self.can_send(id) {
            window::emit_plain(
                &mut out,
                "Not connected \u{2014} message kept in the input field.",
            );
            assert(config::views(out@) =~= o.1.effects);
            return (false, out);
        }
        if unproto {
            self.send_tab_unproto(&mut out, k, t);
        } else {
            self.send_tab_connected(&mut out, k, t);
        }
        assert(config::views(out@) =~= o.1.effects);
        (true, out)
    }
}

// ---------------------------------------------------------------------------
// What is shown of a tab
// ---------------------------------------------------------------------------

/// The title of a tab.
pub open spec fn title_of(t: TabView) -> Seq<char> {
    (if text::trimmed(t.node).len() == 0 {
        t.port.name
    } else {
        t.port.name + ": "@ + t.node
    }) + (if t.unproto {
        " (unproto)"@
    } else {
        Seq::empty()
    })
}

pub fn tab_title(t: &SessionTab) -> (r: String)
    ensures
        r@ == title_of(t@),
{
    let mut r = t.port.name.clone();
    let remote = text::trim(t.node.as_str());
    if !remote.as_str().is_empty() {
        r.append(": ");
        r.append(t.node.as_str());
    }
    let ghost head = r@;
    if t.unproto {
        r.append(" (unproto)");
    }
    assert(!t.unproto ==> head + Seq::<char>::empty() =~= head);
    r
}

/// The left side of the status bar: whether a connection is shown at all, whether
/// it is live, and a text.
#[derive(Debug)]
pub struct Status {
    pub icon: bool,
    pub live: bool,
    pub text: String,
}

/// The state of the tab that is selected, if there is one, at `now` seconds.
pub fn status_of(tab: Option<&SessionTab>, now: u64) -> (r: Status)
    ensures
        r.icon == !(tab matches Some(t) && t@.unproto),
        r.live == (tab matches Some(t) && !t@.unproto && t@.conn_id is Some),
        r.text@ == (match tab {
            None => "No tab selected"@,
            Some(t) => if t@.unproto {
                ""@
            } else if t@.conn_id is None {
                "Disconnected"@
            } else {
                match t@.connected_since {
                    Some(since) => "Connected to "@ + t@.node + " \u{2014} "@
                        + session_tab::duration_text(
                        if now >= since {
                            (now - since) as nat
                        } else {
                            0
                        },
                    ),
                    None => "Connected"@,
                }
            },
        }),
{
    match tab {
        None => Status { icon: true, live: false, text: text::owned("No tab selected") },
        Some(t) => {
            if t.unproto {
                return Status { icon: false, live: false, text: text::owned("") };
            }
            if t.conn_id.is_none() {
                return Status { icon: true, live: false, text: text::owned("Disconnected") };
            }
            match t.elapsed_text(now) {
                Some(elapsed) => {
                    let mut s = text::owned("Connected to ");
                    s.append(t.node.as_str());
                    s.append(" \u{2014} ");
                    s.append(elapsed.as_str());
                    Status { icon: true, live: true, text: s }
                },
                None => Status { icon: true, live: true, text: text::owned("Connected") },
            }
        },
    }
}

} // verus!
