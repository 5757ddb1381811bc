//! What the reports of a port lead to.

use vstd::prelude::*;

use crate::actions::{self, PrefillView, TabPrefill};
use crate::app_state;
use crate::beacons;
use crate::config::{self, AppConfig, IncomingView, NotifiedView};
use crate::keyboard_mode;
use crate::mailbox::{self, MailboxState, StateView};
use crate::notify::{self, MatchView, NotifyMatch};
use crate::port::{self, CommandView, ConnState, ConnectionId, PortCommand, PortEvent};
use crate::session_tab::{self, TabId, TabView};
use crate::template_vars::{TemplateVars, VarsView};
use crate::text;
use crate::window::{
    self, Bound, BoundView, Effect, EffectView, Effects, Outcome, SlotView, Ui, UiView,
};

verus! {

/// Whether connections of a port are to nodes.
pub open spec fn needs_node(c: AppConfig, port_id: Seq<char>) -> bool {
    app_state::entry_with(c.ports@, port_id) matches Some(e) && session_tab::connects(e@.config)
}

fn port_needs_node(c: &AppConfig, port_id: &str) -> (r: bool)
    ensures
        r == needs_node(*c, port_id@),
{
    match app_state::find_entry(c, port_id) {
        Some(e) => session_tab::port_supports_connect(&e.config),
        None => false,
    }
}

// ---------------------------------------------------------------------------
// Ports that come and go
// ---------------------------------------------------------------------------

pub open spec fn bound_on(v: Seq<BoundView>, port_id: Seq<char>, tab: TabId) -> bool {
    exists|i: int| 0 <= i < v.len() && (#[trigger] v[i]).port_id == port_id && v[i].tab == tab
}

/// The tabs after a port went down: those with a connection of it have none.
pub open spec fn cut_off(tabs: Seq<SlotView>, bound: Seq<BoundView>, port_id: Seq<char>) -> Seq<
    SlotView,
> {
    tabs.map_values(
        |s: SlotView|
            if bound_on(bound, port_id, s.id) {
                SlotView { tab: s.tab.disconnected(), ..s }
            } else {
                s
            },
    )
}

fn is_bound_on(v: &Vec<Bound>, port_id: &str, tab: TabId) -> (r: bool)
    ensures
        r == bound_on(config::views(v@), port_id@, tab),
{
    let mut i: usize = 0;
    while i < v.len()
        invariant
            i <= v.len(),
            forall|j: int|
                0 <= j < i ==> !((#[trigger] v@[j])@.port_id == port_id@ && v@[j]@.tab == tab),
        decreases v.len() - i,
    {
        if v[i].tab == tab && text::eq_str(v[i].port_id.as_str(), port_id) {
            assert(config::views(v@)[i as int] == v@[i as int]@);
            return true;
        }
        i += 1;
    }
    assert forall|j: int| 0 <= j < config::views(v@).len() implies !((
    #[trigger] config::views(v@)[j]).port_id == port_id@ && config::views(v@)[j].tab == tab) by {
        assert(v@[j]@ == config::views(v@)[j]);
    }
    false
}

pub open spec fn reason_suffix(reason: Option<Seq<char>>) -> Seq<char> {
    match reason {
        Some(r) => ": "@ + r,
        None => Seq::empty(),
    }
}

pub open spec fn came_up(u: UiView, port_id: Seq<char>) -> Outcome {
    window::outcome(
        UiView { confirmed: window::without_id(u.confirmed, port_id).push(port_id), ..u },
        seq![window::port_line(port_id, port_id, "port connected"@)],
    )
}

pub open spec fn went_down(u: UiView, port_id: Seq<char>, reason: Option<Seq<char>>) -> Outcome {
    window::outcome(
        UiView {
            active: window::without_id(u.active, port_id),
            confirmed: window::without_id(u.confirmed, port_id),
            tabs: cut_off(u.tabs, u.bound, port_id),
            bound: window::without_bound_port(u.bound, port_id),
            pending: window::without_pending_port(u.pending, port_id),
            ..u
        },
        seq![window::port_line(port_id, port_id, "port disconnected"@ + reason_suffix(reason))],
    )
}

/// An error of a port that never came up is a failure to start.
pub open spec fn erred(u: UiView, port_id: Seq<char>, message: Seq<char>) -> Outcome {
    let line = window::port_line(port_id, port_id, "ERROR: "@ + message);
    if u.confirmed.contains(port_id) {
        window::outcome(u, seq![line])
    } else {
        window::outcome(
            UiView { active: window::without_id(u.active, port_id), ..u },
            seq![line, EffectView::Failed { port_id }],
        )
    }
}

impl Ui {
    fn on_port_connected(&mut self, port_id: &str) -> (out: Vec<Effect>)
        ensures
            window::outcome(final(self)@, config::views(out@)) == came_up(old(self)@, port_id@),
            final(self).state == old(self).state,
    {
        let ghost o = came_up(self@, port_id@);
        let mut out: Vec<Effect> = Vec::new();
        window::emit_line(&mut out, port_id, port_id, "port connected");
        window::remove_id(&mut self.confirmed_ports, port_id);
        text::add_text(&mut self.confirmed_ports, text::owned(port_id));
        assert(config::views(out@) =~= o.effects);
        assert(self@ =~= o.ui);
        out
    }

    fn on_port_disconnected(&mut self, port_id: &str, reason: Option<String>) -> (out: Vec<Effect>)
        ensures
            window::outcome(final(self)@, config::views(out@)) == went_down(
                old(self)@,
                port_id@,
                text::opt_view(reason),
            ),
            final(self).state.config == old(self).state.config,
            final(self).state.qrz_session == old(self).state.qrz_session,
    {
        let ghost u = self@;
        let ghost o = went_down(self@, port_id@, text::opt_view(reason));
        let mut out: Vec<Effect> = Vec::new();
        let mut line = text::owned("port disconnected");
        let ghost head = line@;
        match &reason {
            Some(r) => {
                line.append(": ");
                line.append(r.as_str());
            },
            None => {},
        }
        assert(line@ =~= head + reason_suffix(text::opt_view(reason)));
        window::emit_line(&mut out, port_id, port_id, line.as_str());
        window::remove_id(&mut self.state.active, port_id);
        window::remove_id(&mut self.confirmed_ports, port_id);
        let ghost full = cut_off(u.tabs, u.bound, port_id@);
        let ghost before = self@;
        let mut i: usize = 0;
        while i < self.tabs.len()
            invariant
                i <= self.tabs.len(),
                self.tabs@.len() == full.len(),
                full == cut_off(u.tabs, u.bound, port_id@),
                full.len() == u.tabs.len(),
                config::views(self.bound@) == u.bound,
                config::views(self.tabs@) == full.take(i as int) + u.tabs.skip(i as int),
                self@ == (UiView { tabs: self@.tabs, ..before }),
                self.state.config == old(self).state.config,
                self.state.qrz_session == old(self).state.qrz_session,
            decreases self.tabs.len() - i,
        {
            let ghost now = config::views(self.tabs@);
            assert(now[i as int] == u.tabs[i as int]);
            assert(now[i as int] == self.tabs@[i as int]@);
            if is_bound_on(&self.bound, port_id, self.tabs[i].id) {
                let mut slot = self.tabs.remove(i);
                slot.tab.conn_id = None;
                slot.tab.mark_disconnected();
                let ghost new = slot@;
                self.tabs.insert(i, slot);
                assert(config::views(self.tabs@) =~= now.update(i as int, new));
            }
            assert(config::views(self.tabs@)[i as int] == full[i as int]);
            assert(config::views(self.tabs@) =~= full.take(i + 1) + u.tabs.skip(i + 1));
            i += 1;
        }
        assert(full.take(i as int) + u.tabs.skip(i as int) =~= full);
        window::drop_bound_port(&mut self.bound, port_id);
        window::drop_pending_port(&mut self.pending, port_id);
        assert(config::views(out@) =~= o.effects);
        assert(self@ =~= o.ui);
        out
    }

    fn on_port_error(&mut self, port_id: &str, message: &str) -> (out: Vec<Effect>)
        ensures
            window::outcome(final(self)@, config::views(out@)) == erred(
                old(self)@,
                port_id@,
                message@,
            ),
            final(self).state.config == old(self).state.config,
            final(self).state.qrz_session == old(self).state.qrz_session,
    {
        let ghost o = erred(self@, port_id@, message@);
        let mut out: Vec<Effect> = Vec::new();
        let mut line = text::owned("ERROR: ");
        line.append(message);
        window::emit_line(&mut out, port_id, port_id, line.as_str());
        if !text::list_contains(&self.confirmed_ports, port_id) {
            window::remove_id(&mut self.state.active, port_id);
            window::emit(&mut out, Effect::Failed { port_id: text::owned(port_id) });
        }
        assert(config::views(out@) =~= o.effects);
        assert(self@ =~= o.ui);
        out
    }
}

// ---------------------------------------------------------------------------
// Traffic
// ---------------------------------------------------------------------------

/// What a notification says of a frame.
pub open spec fn frame_body(from: Seq<char>, to: Seq<char>, message: Seq<char>) -> Seq<char> {
    "From: "@ + from + "\nTo: "@ + to + "\n"@ + message
}

fn frame_text(from: &str, to: &str, message: &str) -> (r: String)
    ensures
        r@ == frame_body(from@, to@, message@),
{
    let mut r = text::owned("From: ");
    r.append(from);
    r.append("\nTo: ");
    r.append(to);
    r.append("\n");
    r.append(message);
    r
}

pub open spec fn title_for(c: AppConfig, port_id: Seq<char>) -> Seq<char> {
    "Packet Radio \u{2014} "@ + config::name_or_id(config::views(c.ports@), port_id)
}

fn title(c: &AppConfig, port_id: &str) -> (r: String)
    ensures
        r@ == title_for(*c, port_id@),
{
    let mut r = text::owned("Packet Radio \u{2014} ");
    r.append(config::port_name(&c.ports, port_id).as_str());
    r
}

pub open spec fn with_notified(u: UiView, port_id: Seq<char>, line: Seq<char>, now: Seq<char>) -> UiView {
    UiView {
        notified: u.notified.push(
            NotifiedView {
                id: (app_state::largest(app_state::notified_ids(u.notified)) + 1) as u64,
                port_id,
                line,
                timestamp: now,
            },
        ),
        ..u
    }
}

/// A frame that is directed at the station, or that a rule asks about.
pub open spec fn noticed(
    c: AppConfig,
    u: UiView,
    port_id: Seq<char>,
    f: FrameView,
    now: Seq<char>,
) -> Outcome {
    match notify::destination_match(c, f.to) {
        Some(m) => window::outcome(
            with_notified(u, port_id, f.line, now),
            seq![
                EffectView::Notify {
                    title: match m {
                        MatchView::Directed => title_for(c, port_id),
                        MatchView::Custom(label) => title_for(c, port_id) + " ("@ + label + ")"@,
                    },
                    body: frame_body(f.from, f.to, f.message),
                },
                EffectView::Save,
            ],
        ),
        None => window::outcome(u, Seq::empty()),
    }
}

/// A frame that stands on its own, and its line in the traffic view.
pub struct FrameView {
    pub line: Seq<char>,
    pub from: Seq<char>,
    pub to: Seq<char>,
    pub message: Seq<char>,
}

/// A frame that counts as a beacon under the rule named `label`.
pub open spec fn sighted(
    c: AppConfig,
    u: UiView,
    port_id: Seq<char>,
    f: FrameView,
    label: Option<Seq<char>>,
    now: Seq<char>,
) -> Outcome {
    match label {
        Some(l) => window::outcome(
            UiView {
                incoming: u.incoming.push(
                    IncomingView {
                        id: (app_state::largest(app_state::incoming_ids(u.incoming)) + 1) as u64,
                        port_id,
                        from: f.from,
                        to: f.to,
                        message: f.message,
                        timestamp: now,
                    },
                ),
                beacon_lit: true,
                ..u
            },
            if c.notify.beacon_enabled {
                seq![
                    EffectView::Save,
                    EffectView::Notify {
                        title: title_for(c, port_id) + " (Beacon: "@ + l + ")"@,
                        body: frame_body(f.from, f.to, f.message),
                    },
                ]
            } else {
                seq![EffectView::Save]
            },
        ),
        None => window::outcome(u, Seq::empty()),
    }
}

/// The rule under which a frame counts as a beacon.
pub open spec fn beacon_label(c: AppConfig, f: FrameView) -> Option<Seq<char>> {
    beacons::applying_label(
        config::views(c.beacon_rules@),
        beacons::verdicts_on(config::views(c.beacon_rules@), f.to),
        f.from,
    )
}

/// A station's own beacon goes to its entry in the address book.
pub open spec fn beaconed(u: UiView, f: FrameView, now: Seq<char>) -> Outcome {
    if f.to == "BEACON"@ {
        window::outcome(
            UiView { book: app_state::after_beacon(u.book, f.from, f.message, now), ..u },
            actions::save_if(text::call_text(f.from).len() > 0 && f.message.len() > 0),
        )
    } else {
        window::outcome(u, Seq::empty())
    }
}

/// Where the tabs that watch a port's unconnected traffic show a line.
pub open spec fn fed(tabs: Seq<SlotView>, port_id: Seq<char>, line: Seq<char>) -> Effects
    decreases tabs.len(),
{
    if tabs.len() == 0 {
        Seq::empty()
    } else if tabs.last().tab.unproto && tabs.last().tab.port.id == port_id {
        fed(tabs.drop_last(), port_id, line).push(
            window::show(tabs.last().id, line + "\n"@),
        )
    } else {
        fed(tabs.drop_last(), port_id, line)
    }
}

/// A frame that stands on its own: the user is told of it, beacons are recorded,
/// and the tabs that watch show it. `label` names the rule under which it counts as
/// a beacon.
pub open spec fn heard_frame(
    c: AppConfig,
    u: UiView,
    port_id: Seq<char>,
    f: FrameView,
    label: Option<Seq<char>>,
    now: Seq<char>,
) -> Outcome {
    let a = noticed(c, u, port_id, f, now);
    let b = sighted(c, a.ui, port_id, f, label, now);
    let d = beaconed(b.ui, f, now);
    window::outcome(
        d.ui,
        a.effects + b.effects + d.effects + fed(d.ui.tabs, port_id, f.line),
    )
}

impl Ui {
    fn maybe_notify_directed(
        &mut self,
        out: &mut Vec<Effect>,
        port_id: &str,
        line: &str,
        from: &str,
        to: &str,
        message: &str,
        now: &str,
    )
        requires
            app_state::largest(app_state::notified_ids(old(self)@.notified)) < u64::MAX,
        ensures
            ({
                let o = noticed(
                    old(self).state.config,
                    old(self)@,
                    port_id@,
                    FrameView { line: line@, from: from@, to: to@, message: message@ },
                    now@,
                );
                &&& final(self)@ == o.ui
                &&& config::views(final(out)@) == config::views(old(out)@) + o.effects
            }),
            window::same_settings(old(self).state.config, final(self).state.config),
            final(self).state.qrz_session == old(self).state.qrz_session,
    {
        let ghost f = FrameView { line: line@, from: from@, to: to@, message: message@ };
        let ghost before = config::views(out@);
        let ghost o = noticed(self.state.config, self@, port_id@, f, now@);
        let found = match notify::match_destination(&self.state.config, to) {
            Some(m) => m,
            None => {
                assert(before + o.effects =~= before);
                return;
            },
        };
        let mut heading = title(&self.state.config, port_id);
        match &found {
            NotifyMatch::Directed => {},
            NotifyMatch::Custom(label) => {
                heading.append(" (");
                heading.append(label.as_str());
                heading.append(")");
            },
        }
        window::emit(out, Effect::Notify { title: heading, body: frame_text(from, to, message) });
        self.state.record_notified_packet(port_id, line, now);
        window::emit(out, Effect::Save);
        assert(config::views(out@) =~= before + o.effects);
        assert(self@ =~= o.ui);
    }

    fn record_sighting(
        &mut self,
        out: &mut Vec<Effect>,
        port_id: &str,
        line: &str,
        from: &str,
        to: &str,
        message: &str,
        label: &Option<String>,
        now: &str,
    )
        requires
            app_state::largest(app_state::incoming_ids(old(self)@.incoming)) < u64::MAX,
        ensures
            ({
                let o = sighted(
                    old(self).state.config,
                    old(self)@,
                    port_id@,
                    FrameView { line: line@, from: from@, to: to@, message: message@ },
                    text::opt_view(*label),
                    now@,
                );
                &&& final(self)@ == o.ui
                &&& config::views(final(out)@) == config::views(old(out)@) + o.effects
            }),
            window::same_settings(old(self).state.config, final(self).state.config),
            final(self).state.qrz_session == old(self).state.qrz_session,
    {
        let ghost f = FrameView { line: line@, from: from@, to: to@, message: message@ };
        let ghost before = config::views(out@);
        let ghost o = sighted(
            self.state.config,
            self@,
            port_id@,
            f,
            text::opt_view(*label),
            now@,
        );
        match label {
            Some(l) => {
                self.state.record_incoming_beacon(port_id, from, to, message, now);
                window::emit(out, Effect::Save);
                self.beacon_lit = true;
                if self.state.config.notify.beacon_enabled {
                    let mut heading = title(&self.state.config, port_id);
                    heading.append(" (Beacon: ");
                    heading.append(l.as_str());
                    heading.append(")");
                    window::emit(
                        out,
                        Effect::Notify { title: heading, body: frame_text(from, to, message) },
                    );
                }
                assert(config::views(out@) =~= before + o.effects);
                assert(self@ =~= o.ui);
            },
            None => {
                assert(before + o.effects =~= before);
            },
        }
    }

    fn feed_unproto_tabs(&self, out: &mut Vec<Effect>, port_id: &str, line: &str)
        ensures
            config::views(final(out)@) == config::views(old(out)@) + fed(
                self@.tabs,
                port_id@,
                line@,
            ),
    {
        let ghost all = self@.tabs;
        let ghost before = config::views(out@);
        let mut i: usize = 0;
        assert(before + fed(all.take(0), port_id@, line@) =~= before);
        while i < self.tabs.len()
            invariant
                i <= self.tabs.len(),
                all == config::views(self.tabs@),
                config::views(out@) == before + fed(all.take(i as int), port_id@, line@),
            decreases self.tabs.len() - i,
        {
            let slot = &self.tabs[i];
            assert(all.take(i + 1).drop_last() =~= all.take(i as int));
            assert(all.take(i + 1).last() == slot@);
            if slot.tab.unproto && text::eq_str(slot.tab.port.id.as_str(), port_id) {
                let mut t = text::owned(line);
                t.append("\n");
                window::emit(
                    out,
                    Effect::Show { tab: slot.id, text: text::remove_char(t.as_str(), '\0') },
                );
                assert(config::views(out@) =~= before + fed(all.take(i + 1), port_id@, line@));
            }
            i += 1;
        }
        assert(all.take(i as int) =~= all);
    }

    /// Takes a frame that stands on its own, given the rule under which it counts
    /// as a beacon, if there is one.
    pub fn take_frame(
        &mut self,
        port_id: &str,
        line: &str,
        from: &str,
        to: &str,
        message: &str,
        label: Option<String>,
        now: &str,
    ) -> (out: Vec<Effect>)
        requires
            app_state::largest(app_state::notified_ids(old(self)@.notified)) < u64::MAX,
            app_state::largest(app_state::incoming_ids(old(self)@.incoming)) < u64::MAX,
        ensures
            window::outcome(final(self)@, config::views(out@)) == heard_frame(
                old(self).state.config,
                old(self)@,
                port_id@,
                FrameView { line: line@, from: from@, to: to@, message: message@ },
                text::opt_view(label),
                now@,
            ),
            window::same_settings(old(self).state.config, final(self).state.config),
            final(self).state.qrz_session == old(self).state.qrz_session,
    {
        let ghost f = FrameView { line: line@, from: from@, to: to@, message: message@ };
        let ghost c = self.state.config;
        let ghost u = self@;
        let ghost o = heard_frame(c, u, port_id@, f, text::opt_view(label), now@);
        let ghost a = noticed(c, u, port_id@, f, now@);
        let ghost b = sighted(c, a.ui, port_id@, f, text::opt_view(label), now@);
        let ghost d = beaconed(b.ui, f, now@);
        let mut out: Vec<Effect> = Vec::new();
        self.maybe_notify_directed(&mut out, port_id, line, from, to, message, now);
        assert(config::views(out@) =~= a.effects);
        self.record_sighting(&mut out, port_id, line, from, to, message, &label, now);
        assert(config::views(out@) =~= a.effects + b.effects);
        if text::eq_str(to, "BEACON") {
            if self.state.record_beacon_packet(from, message, now) {
                window::emit(&mut out, Effect::Save);
            }
        }
        assert(self@ =~= d.ui);
        assert(config::views(out@) =~= a.effects + b.effects + d.effects);
        self.feed_unproto_tabs(&mut out, port_id, line);
        assert(config::views(out@) =~= o.effects);
        out
    }
}

// ---------------------------------------------------------------------------
// Connections
// ---------------------------------------------------------------------------

/// Who answers a connection that the user did not ask for.
#[verifier::ext_equal]
pub enum Answer {
    Mailbox { greeting: Seq<char> },
    Keyboard { greeting: Seq<char> },
    Nobody,
}

pub open spec fn vars_for(c: AppConfig, node: Seq<char>) -> VarsView {
    VarsView {
        node,
        name: text::or_empty(text::opt_view(c.ui.name)),
        loc: text::or_empty(text::opt_view(c.ui.location)),
        bbs_home: text::or_empty(text::opt_view(c.ui.home_bbs)),
    }
}

/// A greeting: the text that is set, with its placeholders replaced, or another
/// where none is set.
pub open spec fn greeting(c: AppConfig, set: Seq<char>, call: Seq<char>, other: Seq<char>) -> Seq<
    char,
> {
    if set.len() == 0 {
        other
    } else {
        vars_for(c, call).applied(set)
    }
}

fn greeting_text(c: &AppConfig, set: &str, call: &str, other: String) -> (r: String)
    ensures
        r@ == greeting(*c, set@, call@, other@),
{
    if set.is_empty() {
        other
    } else {
        let vars = TemplateVars::from_config(c, call);
        assert(vars@ =~= vars_for(*c, call@));
        vars.apply(set)
    }
}

/// Who answers on a port when `to` is called: the mailbox first.
pub open spec fn answer_for(c: AppConfig, port_id: Seq<char>, to: Option<Seq<char>>) -> Answer {
    let keyboard_call = keyboard_mode::identity(
        c.keyboard_mode.node_call@,
        text::or_empty(text::opt_view(c.ui.default_call)),
    );
    if keyboard_mode::answers(c.mailbox.enabled, c.mailbox.respond_call@, to)
        && keyboard_mode::listens(text::texts(c.mailbox.listen_ports@), port_id) {
        let call = text::call_text(c.mailbox.respond_call@);
        Answer::Mailbox {
            greeting: greeting(c, c.mailbox.intro_message@, call, mailbox::banner(call)),
        }
    } else if keyboard_mode::answers(c.keyboard_mode.enabled, keyboard_call, to)
        && keyboard_mode::listens(text::texts(c.keyboard_mode.listen_ports@), port_id) {
        Answer::Keyboard {
            greeting: greeting(
                c,
                c.keyboard_mode.welcome_message@,
                keyboard_call,
                keyboard_mode::welcome_text(keyboard_call),
            ),
        }
    } else {
        Answer::Nobody
    }
}

/// Answers a new connection in a tab.
pub open spec fn answered(u: UiView, k: int, port_id: Seq<char>, a: Answer) -> Outcome {
    let tab = u.tabs[k].tab;
    match a {
        Answer::Mailbox { greeting } => actions::texted(
            actions::with_tab(
                u,
                k,
                TabView { mailbox_state: Some(StateView::Command), ..tab },
            ),
            k,
            port_id,
            greeting,
        ),
        Answer::Keyboard { greeting } => actions::texted(u, k, port_id, greeting),
        Answer::Nobody => window::outcome(u, Seq::empty()),
    }
}

/// The user is told of a connection that was not asked for.
pub open spec fn announced(
    c: AppConfig,
    u: UiView,
    port_id: Seq<char>,
    label: Seq<char>,
    now: Seq<char>,
) -> Outcome {
    if c.notify.directed_enabled {
        let body = label + " connected to you"@;
        window::outcome(
            with_notified(u, port_id, body, now),
            seq![EffectView::Notify { title: title_for(c, port_id), body }, EffectView::Save],
        )
    } else {
        window::outcome(u, Seq::empty())
    }
}

/// A line that was typed in advance goes out first on a port that knows no nodes.
pub open spec fn greeted(u: UiView, k: int, port_id: Seq<char>, conn: ConnectionId) -> Effects {
    let tab = u.tabs[k].tab;
    if tab.via_raw.len() > 0 {
        actions::command(
            u,
            port_id,
            CommandView::Send { id: conn, bytes: vstd::utf8::encode_utf8(tab.via_raw + "\n"@) },
        )
    } else {
        Seq::empty()
    }
}

/// A connection opened in the tab at `k`.
pub open spec fn connected(
    c: AppConfig,
    u: UiView,
    k: int,
    port_id: Seq<char>,
    o: OpenedView,
    incoming: bool,
    now: Seq<char>,
    secs: u64,
) -> Outcome {
    let tab = u.tabs[k].tab;
    let needs = needs_node(c, port_id);
    let live = actions::with_tab(
        u,
        k,
        TabView {
            conn_id: Some(o.id),
            connected_since: Some(secs),
            node: if needs && tab.node.len() == 0 {
                o.label
            } else {
                tab.node
            },
            ..tab
        },
    );
    if !needs {
        window::outcome(live, greeted(live, k, port_id, o.id))
    } else if incoming {
        let a = answered(live, k, port_id, answer_for(c, port_id, o.to));
        let b = announced(c, a.ui, port_id, o.label, now);
        window::outcome(b.ui, a.effects + b.effects)
    } else {
        window::outcome(live, Seq::empty())
    }
}

/// A connection that opened, with the node's name and the callsign that was called.
pub struct OpenedView {
    pub id: ConnectionId,
    pub label: Seq<char>,
    pub to: Option<Seq<char>>,
}

/// A connection opened: it is bound to the tab that waits for it, or to a new one.
pub open spec fn opened(
    c: AppConfig,
    u: UiView,
    port_id: Seq<char>,
    o: OpenedView,
    now: Seq<char>,
    secs: u64,
) -> Outcome {
    let needs = needs_node(c, port_id);
    let key = if needs {
        o.label
    } else {
        Seq::empty()
    };
    let waiting = window::pending_tab(u.pending, port_id, key);
    let placed = match waiting {
        Some(t) => (
            Some(t),
            window::outcome(
                UiView { pending: window::without_pending(u.pending, port_id, key), ..u },
                Seq::empty(),
            ),
        ),
        None => actions::added(
            c,
            u,
            PrefillView { port_id, remote: o.label, path: Seq::empty(), unproto: false },
        ),
    };
    match placed.0 {
        Some(t) => {
            let bound = UiView {
                bound: window::after_bind(placed.1.ui.bound, port_id, o.id, t),
                ..placed.1.ui
            };
            let k = window::slot_index(bound.tabs, t);
            let a = if k < bound.tabs.len() {
                connected(c, bound, k, port_id, o, waiting is None, now, secs)
            } else {
                window::outcome(bound, Seq::empty())
            };
            let logged = if needs {
                UiView {
                    qsos: app_state::after_qso_start(a.ui.qsos, port_id, o.label, now),
                    ..a.ui
                }
            } else {
                a.ui
            };
            window::outcome(
                logged,
                placed.1.effects + a.effects + actions::save_if(
                    needs && text::call_text(o.label).len() > 0,
                ),
            )
        },
        None => placed.1,
    }
}

impl Ui {
    fn answer_call(&mut self, out: &mut Vec<Effect>, k: usize, port_id: &str, to: Option<&str>)
        requires
            k < old(self).tabs@.len(),
        ensures
            ({
                let o = answered(
                    old(self)@,
                    k as int,
                    port_id@,
                    answer_for(
                        old(self).state.config,
                        port_id@,
                        keyboard_mode::str_view(to),
                    ),
                );
                &&& final(self)@ == o.ui
                &&& config::views(final(out)@) == config::views(old(out)@) + o.effects
            }),
            final(self).state == old(self).state,
            final(self).tabs@.len() == old(self).tabs@.len(),
    {
        let ghost before = config::views(out@);
        let ghost u = self@;
        let ghost c = self.state.config;
        let ghost a = answer_for(c, port_id@, keyboard_mode::str_view(to));
        let ghost o = answered(u, k as int, port_id@, a);
        if mailbox::should_answer(
            self.state.config.mailbox.enabled,
            self.state.config.mailbox.respond_call.as_str(),
            to,
        ) && keyboard_mode::listens_on(&self.state.config.mailbox.listen_ports, port_id) {
            let call = text::trim_upper(self.state.config.mailbox.respond_call.as_str());
            let banner = mailbox::welcome_banner(call.as_str());
            let t = greeting_text(
                &self.state.config,
                self.state.config.mailbox.intro_message.as_str(),
                call.as_str(),
                banner,
            );
            assert(u.tabs[k as int] == self.tabs@[k as int]@);
            let mut slot = self.tabs.remove(k);
            slot.tab.mailbox_state = Some(MailboxState::Command);
            let ghost new = slot@;
            self.tabs.insert(k, slot);
            assert(config::views(self.tabs@) =~= u.tabs.update(k as int, new));
            self.send_tab_text(out, k, port_id, t.as_str());
            return;
        }
        let own = match &self.state.config.ui.default_call {
            Some(s) => s.clone(),
            None => String::new(),
        };
        let call = keyboard_mode::resolve_identity(
            self.state.config.keyboard_mode.node_call.as_str(),
            own.as_str(),
        );
        assert(own@ =~= text::or_empty(text::opt_view(c.ui.default_call)));
        if keyboard_mode::should_answer(
            self.state.config.keyboard_mode.enabled,
            call.as_str(),
            to,
        ) && keyboard_mode::listens_on(&self.state.config.keyboard_mode.listen_ports, port_id) {
            let welcome = keyboard_mode::default_welcome(call.as_str());
            let t = greeting_text(
                &self.state.config,
                self.state.config.keyboard_mode.welcome_message.as_str(),
                call.as_str(),
                welcome,
            );
            self.send_tab_text(out, k, port_id, t.as_str());
            return;
        }
        assert(before + o.effects =~= before);
    }

    fn connect_slot(
        &mut self,
        out: &mut Vec<Effect>,
        k: usize,
        port_id: &str,
        id: ConnectionId,
        label: &str,
        to: Option<&str>,
        incoming: bool,
        now: &str,
        secs: u64,
    )
        requires
            k < old(self).tabs@.len(),
            app_state::largest(app_state::notified_ids(old(self)@.notified)) < u64::MAX,
        ensures
            ({
                let o = connected(
                    old(self).state.config,
                    old(self)@,
                    k as int,
                    port_id@,
                    OpenedView { id, label: label@, to: keyboard_mode::str_view(to) },
                    incoming,
                    now@,
                    secs,
                );
                &&& final(self)@ == o.ui
                &&& config::views(final(out)@) == config::views(old(out)@) + o.effects
            }),
            window::same_settings(old(self).state.config, final(self).state.config),
            final(self).state.qrz_session == old(self).state.qrz_session,
    {
        let ghost before = config::views(out@);
        let ghost u = self@;
        let ghost c = self.state.config;
        let ghost w = OpenedView { id, label: label@, to: keyboard_mode::str_view(to) };
        let ghost o = connected(c, u, k as int, port_id@, w, incoming, now@, secs);
        let needs = port_needs_node(&self.state.config, port_id);
        assert(u.tabs[k as int] == self.tabs@[k as int]@);
        let mut slot = self.tabs.remove(k);
        slot.tab.conn_id = Some(id);
        slot.tab.mark_connected(secs);
        if needs && slot.tab.node.as_str().is_empty() {
            slot.tab.node = text::owned(label);
        }
        let first_line = slot.tab.via_raw.clone();
        let ghost new = slot@;
        self.tabs.insert(k, slot);
        assert(config::views(self.tabs@) =~= u.tabs.update(k as int, new));
        let ghost live = self@;
        if !needs {
            if !first_line.as_str().is_empty() {
                let mut t = first_line;
                t.append("\n");
                self.emit_command(
                    out,
                    port_id,
                    PortCommand::Send { id, bytes: actions::bytes_of(t.as_str()) },
                );
            }
            assert(config::views(out@) =~= before + o.effects);
            return;
        }
        if incoming {
            let ghost a = answered(
                live,
                k as int,
                port_id@,
                answer_for(c, port_id@, keyboard_mode::str_view(to)),
            );
            self.answer_call(out, k, port_id, to);
            assert(self@ == a.ui);
            if self.state.config.notify.directed_enabled {
                let mut body = text::owned(label);
                body.append(" connected to you");
                let heading = title(&self.state.config, port_id);
                self.state.record_notified_packet(port_id, body.as_str(), now);
                window::emit(out, Effect::Notify { title: heading, body });
                window::emit(out, Effect::Save);
            }
            assert(self@ =~= o.ui);
            assert(config::views(out@) =~= before + o.effects);
        } else {
            assert(before + o.effects =~= before);
        }
    }

    fn on_connection_opened(
        &mut self,
        port_id: &str,
        id: ConnectionId,
        label: &str,
        to: Option<&str>,
        now: &str,
        secs: u64,
    ) -> (out: Vec<Effect>)
        requires
            old(self).next_tab_id < u64::MAX,
            app_state::largest(app_state::notified_ids(old(self)@.notified)) < u64::MAX,
        ensures
            window::outcome(final(self)@, config::views(out@)) == opened(
                old(self).state.config,
                old(self)@,
                port_id@,
                OpenedView { id, label: label@, to: keyboard_mode::str_view(to) },
                now@,
                secs,
            ),
            window::same_settings(old(self).state.config, final(self).state.config),
            final(self).state.qrz_session == old(self).state.qrz_session,
    {
        let ghost u = self@;
        let ghost c = self.state.config;
        let ghost w = OpenedView { id, label: label@, to: keyboard_mode::str_view(to) };
        let ghost o = opened(c, u, port_id@, w, now@, secs);
        let mut out: Vec<Effect> = Vec::new();
        let needs = port_needs_node(&self.state.config, port_id);
        let key = if needs {
            text::owned(label)
        } else {
            String::new()
        };
        assert(!needs ==> key@ =~= Seq::<char>::empty());
        let waiting = window::find_pending(&self.pending, port_id, key.as_str());
        let tab_id = match waiting {
            Some(t) => {
                window::drop_pending(&mut self.pending, port_id, key.as_str());
                Some(t)
            },
            None => {
                let p = TabPrefill {
                    port_id: text::owned(port_id),
                    remote: text::owned(label),
                    path: String::new(),
                    unproto: false,
                };
                assert(p@ =~= PrefillView {
                    port_id: port_id@,
                    remote: label@,
                    path: Seq::empty(),
                    unproto: false,
                });
                self.open_tab(&mut out, &p)
            },
        };
        let ghost placed = self@;
        let ghost first = config::views(out@);
        let t = match tab_id {
            Some(t) => t,
            None => {
                assert(config::views(out@) =~= o.effects);
                return out;
            },
        };
        window::drop_bound(&mut self.bound, port_id, id);
        let b = Bound { port_id: text::owned(port_id), conn: id, tab: t };
        proof {
            config::lemma_views_push(self.bound@, b);
        }
        self.bound.push(b);
        let ghost bound = self@;
        assert(bound =~= UiView {
            bound: window::after_bind(placed.bound, port_id@, id, t),
            ..placed
        });
        let k: usize = self.find_tab(t);
        if k < self.tabs.len() {
            self.connect_slot(
                &mut out,
                k,
                port_id,
                id,
                label,
                to,
                waiting.is_none(),
                now,
                secs,
            );
        }
        if needs {
            if self.state.log_qso_started(port_id, label, now) {
                window::emit(&mut out, Effect::Save);
            }
        }
        assert(self@ =~= o.ui);
        assert(config::views(out@) =~= o.effects);
        out
    }
}

/// The line that a tab did not finish, for the history.
pub open spec fn flushed(tab: TabView) -> Effects {
    if tab.pending_line.len() > 0 {
        seq![
            EffectView::Keep {
                port_id: tab.port.id,
                remote: tab.node,
                line: text::without_line_end(tab.pending_line),
            },
        ]
    } else {
        Seq::empty()
    }
}

/// A connection ended.
pub open spec fn ended(
    c: AppConfig,
    u: UiView,
    port_id: Seq<char>,
    id: ConnectionId,
    now: Seq<char>,
) -> Outcome {
    match window::bound_tab(u.bound, port_id, id) {
        Some(t) => {
            let rest = UiView { bound: window::without_bound(u.bound, port_id, id), ..u };
            let k = window::slot_index(u.tabs, t);
            if k < u.tabs.len() {
                let tab = u.tabs[k].tab;
                let logs = needs_node(c, port_id);
                window::outcome(
                    UiView {
                        qsos: if logs {
                            app_state::after_qso_end(u.qsos, port_id, tab.node, now)
                        } else {
                            u.qsos
                        },
                        ..actions::with_tab(
                            rest,
                            k,
                            TabView {
                                conn_id: None,
                                connected_since: None,
                                pending_line: Seq::empty(),
                                mailbox_state: None,
                                ..tab
                            },
                        )
                    },
                    actions::save_if(logs) + flushed(tab),
                )
            } else {
                window::outcome(rest, Seq::empty())
            }
        },
        None => window::outcome(u, Seq::empty()),
    }
}

impl Ui {
    fn on_connection_closed(&mut self, port_id: &str, id: ConnectionId, now: &str) -> (out: Vec<
        Effect,
    >)
        ensures
            window::outcome(final(self)@, config::views(out@)) == ended(
                old(self).state.config,
                old(self)@,
                port_id@,
                id,
                now@,
            ),
            window::same_settings(old(self).state.config, final(self).state.config),
            final(self).state.qrz_session == old(self).state.qrz_session,
    {
        let ghost u = self@;
        let ghost c = self.state.config;
        let ghost o = ended(c, u, port_id@, id, now@);
        let mut out: Vec<Effect> = Vec::new();
        let t = match window::find_bound(&self.bound, port_id, id) {
            Some(t) => t,
            None => {
                assert(config::views(out@) =~= o.effects);
                return out;
            },
        };
        window::drop_bound(&mut self.bound, port_id, id);
        let k: usize = self.find_tab(t);
        if k < self.tabs.len() {
            assert(u.tabs[k as int] == self.tabs@[k as int]@);
            let ghost tab = u.tabs[k as int].tab;
            let mut slot = self.tabs.remove(k);
            let logs = port_needs_node(&self.state.config, port_id);
            if logs {
                self.state.log_qso_ended(port_id, slot.tab.node.as_str(), now);
                window::emit(&mut out, Effect::Save);
            }
            assert(config::views(out@) =~= actions::save_if(logs));
            slot.tab.conn_id = None;
            slot.tab.mark_disconnected();
            match slot.tab.flush_pending() {
                Some(line) => {
                    window::emit(
                        &mut out,
                        Effect::Keep {
                            port_id: slot.tab.port.id.clone(),
                            remote: slot.tab.node.clone(),
                            line,
                        },
                    );
                },
                None => {},
            }
            assert(config::views(out@) =~= actions::save_if(logs) + flushed(tab));
            slot.tab.mailbox_state = None;
            let ghost new = slot@;
            self.tabs.insert(k, slot);
            assert(config::views(self.tabs@) =~= u.tabs.update(k as int, new));
        }
        assert(config::views(out@) =~= o.effects);
        assert(self@ =~= o.ui);
        out
    }
}

/// The name of a connection's state.
pub open spec fn state_name(s: ConnState) -> Seq<char> {
    match s {
        ConnState::Connecting => "connecting"@,
        ConnState::Connected => "connected"@,
        ConnState::Disconnecting => "disconnecting"@,
        ConnState::Disconnected => "disconnected"@,
    }
}

pub fn describe_state(s: ConnState) -> (r: &'static str)
    ensures
        r@ == state_name(s),
{
    match s {
        ConnState::Connecting => "connecting",
        ConnState::Connected => "connected",
        ConnState::Disconnecting => "disconnecting",
        ConnState::Disconnected => "disconnected",
    }
}

// ---------------------------------------------------------------------------
// Received data
// ---------------------------------------------------------------------------

/// Where a command of the mailbox leaves the tab at `k`; and whether that is its
/// last one.
pub open spec fn commanded(
    u: UiView,
    k: int,
    port_id: Seq<char>,
    remote: Seq<char>,
    state: StateView,
    line: Seq<char>,
    now: Seq<char>,
) -> (bool, Outcome) {
    let tab = u.tabs[k].tab;
    let reply = mailbox::line_reply(
        state,
        u.messages,
        remote,
        port_id,
        line,
        now,
    );
    let moved = UiView {
        qsos: match reply.contact {
            Some(q) => u.qsos.push(q),
            None => u.qsos,
        },
        messages: mailbox::stored(u.messages, reply),
        ..actions::with_tab(u, k, TabView { mailbox_state: Some(reply.state), ..tab })
    };
    let said = if reply.text.len() > 0 {
        actions::texted(moved, k, port_id, reply.text)
    } else {
        window::outcome(moved, Seq::empty())
    };
    let first = seq![EffectView::Save] + said.effects;
    if reply.close {
        (true, window::preceded(first, dismissed(said.ui, k, port_id)))
    } else {
        (false, window::outcome(said.ui, first))
    }
}

/// The mailbox ends the connection of the tab at `k`.
pub open spec fn dismissed(u: UiView, k: int, port_id: Seq<char>) -> Outcome {
    let tab = u.tabs[k].tab;
    window::outcome(
        actions::with_tab(u, k, TabView { mailbox_state: None, ..tab }),
        match tab.conn_id {
            Some(conn) => actions::command(u, port_id, CommandView::CloseConnection { id: conn }),
            None => Seq::empty(),
        },
    )
}

/// The mailbox takes one line after another, until one of them ends it.
pub open spec fn driven(
    u: UiView,
    k: int,
    port_id: Seq<char>,
    remote: Seq<char>,
    lines: Seq<Seq<char>>,
    now: Seq<char>,
) -> Outcome
    decreases lines.len(),
{
    if lines.len() == 0 {
        window::outcome(u, Seq::empty())
    } else {
        match u.tabs[k].tab.mailbox_state {
            Some(state) => {
                let (last, o) = commanded(u, k, port_id, remote, state, lines[0], now);
                if last {
                    o
                } else {
                    window::preceded(
                        o.effects,
                        driven(o.ui, k, port_id, remote, lines.skip(1), now),
                    )
                }
            },
            None => window::outcome(u, Seq::empty()),
        }
    }
}

/// Received text goes to the mailbox, where that answers in the tab.
pub open spec fn offered(
    u: UiView,
    k: int,
    port_id: Seq<char>,
    t: Seq<char>,
    now: Seq<char>,
) -> Outcome {
    let tab = u.tabs[k].tab;
    if tab.mailbox_state is None {
        window::outcome(u, Seq::empty())
    } else {
        driven(
            actions::with_tab(
                u,
                k,
                TabView {
                    mailbox_input: session_tab::unfinished(tab.mailbox_input + t),
                    ..tab
                },
            ),
            k,
            port_id,
            text::call_text(tab.node),
            session_tab::complete_lines(tab.mailbox_input + t),
            now,
        )
    }
}

pub open spec fn kept(tab: TabView, lines: Seq<Seq<char>>) -> Effects {
    lines.map_values(
        |l: Seq<char>|
            EffectView::Keep { port_id: tab.port.id, remote: tab.node, line: l },
    )
}

/// Bytes came in over a connection.
pub open spec fn received(
    u: UiView,
    port_id: Seq<char>,
    id: ConnectionId,
    bytes: Seq<u8>,
    now: Seq<char>,
) -> Outcome {
    match window::bound_tab(u.bound, port_id, id) {
        Some(t) => {
            let k = window::slot_index(u.tabs, t);
            if k < u.tabs.len() {
                let tab = u.tabs[k].tab;
                let shown = text::without(text::shown_text(bytes), '\0');
                window::preceded(
                    seq![EffectView::Show { tab: t, text: shown }] + kept(
                        tab,
                        tab.received_lines(shown),
                    ),
                    offered(actions::with_tab(u, k, tab.received(shown)), k, port_id, shown, now),
                )
            } else {
                window::outcome(u, Seq::empty())
            }
        },
        None => window::outcome(u, Seq::empty()),
    }
}

impl Ui {
    fn set_mailbox_state(&mut self, k: usize, s: Option<MailboxState>)
        requires
            k < old(self).tabs@.len(),
        ensures
            final(self)@ == actions::with_tab(
                old(self)@,
                k as int,
                TabView { mailbox_state: mailbox::dialogue(s), ..old(self)@.tabs[k as int].tab },
            ),
            final(self).state == old(self).state,
            final(self).tabs@.len() == old(self).tabs@.len(),
    {
        let ghost u = self@;
        assert(u.tabs[k as int] == self.tabs@[k as int]@);
        let mut slot = self.tabs.remove(k);
        slot.tab.mailbox_state = s;
        let ghost new = slot@;
        self.tabs.insert(k, slot);
        assert(config::views(self.tabs@) =~= u.tabs.update(k as int, new));
    }

    fn dismiss(&mut self, out: &mut Vec<Effect>, k: usize, port_id: &str)
        requires
            k < old(self).tabs@.len(),
        ensures
            final(self)@ == dismissed(old(self)@, k as int, port_id@).ui,
            config::views(final(out)@) == config::views(old(out)@) + dismissed(
                old(self)@,
                k as int,
                port_id@,
            ).effects,
            final(self).state == old(self).state,
            final(self).tabs@.len() == old(self).tabs@.len(),
    {
        let ghost u = self@;
        let ghost before = config::views(out@);
        assert(u.tabs[k as int] == self.tabs@[k as int]@);
        match self.tabs[k].tab.conn_id {
            Some(conn) => {
                self.emit_command(out, port_id, PortCommand::CloseConnection { id: conn });
            },
            None => {
                assert(before + Seq::<EffectView>::empty() =~= before);
            },
        }
        self.set_mailbox_state(k, None);
    }

    fn run_mailbox_line(
        &mut self,
        out: &mut Vec<Effect>,
        k: usize,
        port_id: &str,
        remote: &str,
        state: MailboxState,
        line: &str,
        now: &str,
    ) -> (last: bool)
        requires
            k < old(self).tabs@.len(),
        ensures
            ({
                let o = commanded(
                    old(self)@,
                    k as int,
                    port_id@,
                    remote@,
                    state@,
                    line@,
                    now@,
                );
                &&& last == o.0
                &&& final(self)@ == o.1.ui
                &&& config::views(final(out)@) == config::views(old(out)@) + o.1.effects
            }),
            window::same_settings(old(self).state.config, final(self).state.config),
            final(self).state.qrz_session == old(self).state.qrz_session,
            final(self).tabs@.len() == old(self).tabs@.len(),
    {
        let ghost u = self@;
        let ghost c = self.state.config;
        let ghost before = config::views(out@);
        let ghost o = commanded(u, k as int, port_id@, remote@, state@, line@, now@);
        let mut s = state;
        let (answer, close, contact) = mailbox::handle_line(
            &mut s,
            &mut self.state.config.mailbox.messages,
            remote,
            port_id,
            line,
            now,
        );
        assert(window::same_settings(c, self.state.config));
        match contact {
            Some(q) => {
                proof {
                    config::lemma_views_push(self.state.config.qso_log@, q);
                }
                self.state.config.qso_log.push(q);
            },
            None => {},
        }
        window::emit(out, Effect::Save);
        self.set_mailbox_state(k, Some(s));
        if !answer.as_str().is_empty() {
            self.send_tab_text(out, k, port_id, answer.as_str());
        }
        if close {
            self.dismiss(out, k, port_id);
            assert(config::views(out@) =~= before + o.1.effects);
        } else {
            assert(config::views(out@) =~= before + o.1.effects);
        }
        close
    }

    fn drive_mailbox(&mut self, out: &mut Vec<Effect>, k: usize, port_id: &str, t: &str, now: &str)
        requires
            k < old(self).tabs@.len(),
        ensures
            ({
                let o = offered(
                    old(self)@,
                    k as int,
                    port_id@,
                    t@,
                    now@,
                );
                &&& final(self)@ == o.ui
                &&& config::views(final(out)@) == config::views(old(out)@) + o.effects
            }),
            window::same_settings(old(self).state.config, final(self).state.config),
            final(self).state.qrz_session == old(self).state.qrz_session,
    {
        let ghost u = self@;
        let ghost c = self.state.config;
        let ghost before = config::views(out@);
        let ghost o = offered(u, k as int, port_id@, t@, now@);
        assert(u.tabs[k as int] == self.tabs@[k as int]@);
        if self.tabs[k].tab.mailbox_state.is_none() {
            assert(before + o.effects =~= before);
            return;
        }
        let remote = text::trim_upper(self.tabs[k].tab.node.as_str());
        let mut slot = self.tabs.remove(k);
        let lines = slot.tab.take_mailbox_lines(t);
        let ghost new = slot@;
        self.tabs.insert(k, slot);
        assert(config::views(self.tabs@) =~= u.tabs.update(k as int, new));
        let ghost all = text::texts(lines@);
        assert(all.len() == lines@.len());
        let mut i: usize = 0;
        assert(all.skip(0) =~= all);
        assert(self@ =~= actions::with_tab(u, k as int, new.tab));
        while i < lines.len()
            invariant
                i <= lines.len(),
                k < self.tabs@.len(),
                all == text::texts(lines@),
                all.len() == lines@.len(),
                window::same_settings(c, self.state.config),
                self.state.qrz_session == old(self).state.qrz_session,
                c == old(self).state.config,
                u == old(self)@,
                before == config::views(old(out)@),
                o == offered(u, k as int, port_id@, t@, now@),
                o.ui == driven(
                    self@,
                    k as int,
                    port_id@,
                    remote@,
                    all.skip(i as int),
                    now@,
                ).ui,
                before + o.effects == config::views(out@) + driven(
                    self@,
                    k as int,
                    port_id@,
                    remote@,
                    all.skip(i as int),
                    now@,
                ).effects,
            decreases lines.len() - i,
        {
            let ghost v = self@;
            let ghost done = config::views(out@);
            let ghost rest = all.skip(i as int);
            assert(rest[0] == lines@[i as int]@);
            assert(rest.skip(1) =~= all.skip(i + 1));
            assert(v.tabs[k as int] == self.tabs@[k as int]@);
            let state = match &self.tabs[k].tab.mailbox_state {
                Some(s) => s.clone(),
                None => {
                    assert(done + Seq::<EffectView>::empty() =~= done);
                    return;
                },
            };
            let ghost step = commanded(
                v,
                k as int,
                port_id@,
                remote@,
                state@,
                rest[0],
                now@,
            );
            let last = self.run_mailbox_line(
                out,
                k,
                port_id,
                remote.as_str(),
                state,
                lines[i].as_str(),
                now,
            );
            if last {
                return;
            }
            proof {
                let later = driven(self@, k as int, port_id@, remote@, all.skip(i + 1), now@);
                assert(done + (step.1.effects + later.effects) =~= (done + step.1.effects)
                    + later.effects);
            }
            i += 1;
        }
        proof {
            let done = config::views(out@);
            assert(done + Seq::<EffectView>::empty() =~= done);
        }
    }

    fn on_data(&mut self, port_id: &str, id: ConnectionId, bytes: &Vec<u8>, now: &str) -> (out: Vec<
        Effect,
    >)
        ensures
            window::outcome(final(self)@, config::views(out@)) == received(
                old(self)@,
                port_id@,
                id,
                bytes@,
                now@,
            ),
            window::same_settings(old(self).state.config, final(self).state.config),
            final(self).state.qrz_session == old(self).state.qrz_session,
    {
        let ghost u = self@;
        let ghost c = self.state.config;
        let ghost o = received(u, port_id@, id, bytes@, now@);
        let mut out: Vec<Effect> = Vec::new();
        let t = match window::find_bound(&self.bound, port_id, id) {
            Some(t) => t,
            None => {
                assert(config::views(out@) =~= o.effects);
                return out;
            },
        };
        let k: usize = self.find_tab(t);
        if k >= self.tabs.len() {
            assert(config::views(out@) =~= o.effects);
            return out;
        }
        let ghost tab = u.tabs[k as int].tab;
        assert(u.tabs[k as int] == self.tabs@[k as int]@);
        let raw = text::from_utf8_lossy(bytes.as_slice());
        let shown = text::remove_char(raw.as_str(), '\0');
        window::emit(&mut out, Effect::Show { tab: t, text: shown.clone() });
        let mut slot = self.tabs.remove(k);
        let lines = slot.tab.receive_data(shown.as_str());
        let ghost all = kept(tab, text::texts(lines@));
        let ghost head = seq![EffectView::Show { tab: t, text: shown@ }];
        let mut i: usize = 0;
        assert(config::views(out@) =~= head + all.take(0));
        while i < lines.len()
            invariant
                i <= lines.len(),
                all == kept(tab, text::texts(lines@)),
                slot@.tab.port.id == tab.port.id,
                slot@.tab.node == tab.node,
                config::views(out@) == head + all.take(i as int),
            decreases lines.len() - i,
        {
            window::emit(
                &mut out,
                Effect::Keep {
                    port_id: slot.tab.port.id.clone(),
                    remote: slot.tab.node.clone(),
                    line: lines[i].clone(),
                },
            );
            assert(text::texts(lines@)[i as int] == lines@[i as int]@);
            assert(all.take(i + 1) =~= all.take(i as int).push(all[i as int]));
            assert(config::views(out@) =~= head + all.take(i + 1));
            i += 1;
        }
        assert(all.take(i as int) =~= all);
        let ghost new = slot@;
        self.tabs.insert(k, slot);
        assert(config::views(self.tabs@) =~= u.tabs.update(k as int, new));
        self.drive_mailbox(&mut out, k, port_id, shown.as_str(), now);
        assert(config::views(out@) =~= o.effects);
        out
    }
}

// ---------------------------------------------------------------------------
// Every report
// ---------------------------------------------------------------------------

/// Whether a number is left for what an event records.
pub open spec fn room(u: UiView, e: port::EventView) -> bool {
    match e {
        port::EventView::Monitor { from, to, message, .. } => {
            &&& app_state::largest(app_state::notified_ids(u.notified)) < u64::MAX
            &&& app_state::largest(app_state::incoming_ids(u.incoming)) < u64::MAX
        },
        port::EventView::ConnectionOpened { .. } => {
            &&& u.next_tab_id < u64::MAX
            &&& app_state::largest(app_state::notified_ids(u.notified)) < u64::MAX
        },
        port::EventView::StationHeard { callsign } => app_state::can_count(u.book, callsign),
        port::EventView::NodesBroadcast { from, .. } => app_state::can_count(u.book, from),
        _ => true,
    }
}

/// What a report of a port leads to, at `now`, which is `secs` seconds.
pub open spec fn after_event(
    c: AppConfig,
    u: UiView,
    port_id: Seq<char>,
    e: port::EventView,
    now: Seq<char>,
    secs: u64,
) -> Outcome {
    match e {
        port::EventView::PortConnected => came_up(u, port_id),
        port::EventView::PortDisconnected { reason } => went_down(u, port_id, reason),
        port::EventView::PortError { message } => erred(u, port_id, message),
        port::EventView::Monitor { line, from, to, message } => {
            let first = seq![window::port_line(port_id, port_id, line)];
            match (from, to, message) {
                (Some(from), Some(to), Some(message)) => {
                    let f = FrameView { line, from, to, message };
                    window::preceded(
                        first,
                        heard_frame(c, u, port_id, f, beacon_label(c, f), now),
                    )
                },
                _ => window::outcome(u, first),
            }
        },
        port::EventView::ConnectionOpened { id, label, to } => opened(
            c,
            u,
            port_id,
            OpenedView { id, label, to },
            now,
            secs,
        ),
        port::EventView::ConnectionClosed { id } => ended(c, u, port_id, id, now),
        port::EventView::ConnState { id, state } => window::outcome(
            u,
            seq![
                window::port_line(
                    port_id,
                    port_id,
                    "connection "@ + text::decimal(id as nat) + ": "@ + state_name(state),
                ),
            ],
        ),
        port::EventView::Data { id, bytes } => received(u, port_id, id, bytes, now),
        port::EventView::StationHeard { callsign } => window::outcome(
            UiView { book: app_state::after_heard(u.book, callsign, now), ..u },
            actions::save_if(text::call_text(callsign).len() > 0),
        ),
        port::EventView::NodesBroadcast { from, sender_alias, entries } => window::outcome(
            UiView {
                book: app_state::after_broadcast(u.book, from, sender_alias, entries, now),
                ..u
            },
            actions::save_if(text::call_text(from).len() > 0),
        ),
    }
}

impl Ui {
    fn on_monitor(
        &mut self,
        port_id: &str,
        line: &str,
        from: &Option<String>,
        to: &Option<String>,
        message: &Option<String>,
        now: &str,
    ) -> (out: Vec<Effect>)
        requires
            app_state::largest(app_state::notified_ids(old(self)@.notified)) < u64::MAX,
            app_state::largest(app_state::incoming_ids(old(self)@.incoming)) < u64::MAX,
        ensures
            window::outcome(final(self)@, config::views(out@)) == after_event(
                old(self).state.config,
                old(self)@,
                port_id@,
                port::EventView::Monitor {
                    line: line@,
                    from: text::opt_view(*from),
                    to: text::opt_view(*to),
                    message: text::opt_view(*message),
                },
                now@,
                0,
            ),
            window::same_settings(old(self).state.config, final(self).state.config),
            final(self).state.qrz_session == old(self).state.qrz_session,
    {
        let mut out: Vec<Effect> = Vec::new();
        window::emit_line(&mut out, port_id, port_id, line);
        let ghost first = seq![window::port_line(port_id@, port_id@, line@)];
        assert(config::views(out@) =~= first);
        match from {
            Some(from) => {
                match to {
                    Some(to) => {
                        match message {
                            Some(message) => {
                                let label = beacons::detect_beacon(
                                    &self.state.config.beacon_rules,
                                    from.as_str(),
                                    to.as_str(),
                                );
                                let mut more = self.take_frame(
                                    port_id,
                                    line,
                                    from.as_str(),
                                    to.as_str(),
                                    message.as_str(),
                                    label,
                                    now,
                                );
                                let ghost a = out@;
                                let ghost b = more@;
                                out.append(&mut more);
                                assert(config::views(out@) =~= config::views(a)
                                    + config::views(b));
                            },
                            None => {},
                        }
                    },
                    None => {},
                }
            },
            None => {},
        }
        out
    }

    /// The incoming beacons were looked at.
    pub fn clear_beacon_lit(&mut self)
        ensures
            final(self)@ == (UiView { beacon_lit: false, ..old(self)@ }),
            final(self).state == old(self).state,
    {
        self.beacon_lit = false;
    }

    /// Whether a number is left for what a report of a port records.
    pub fn has_room(&self, event: &PortEvent) -> (r: bool)
        ensures
            r == room(self@, port::event_view(*event)),
    {
        match event {
            PortEvent::Monitor { .. } => {
                self.state.last_notified() < u64::MAX && self.state.last_incoming() < u64::MAX
            },
            PortEvent::ConnectionOpened { .. } => {
                self.next_tab_id < u64::MAX && self.state.last_notified() < u64::MAX
            },
            PortEvent::StationHeard { callsign } => app_state::has_count_left(
                &self.state.config.address_book,
                callsign.as_str(),
            ),
            PortEvent::NodesBroadcast { from, .. } => app_state::has_count_left(
                &self.state.config.address_book,
                from.as_str(),
            ),
            _ => true,
        }
    }

    /// Takes a report of a port, at `now`, which is `secs` seconds.
    pub fn handle_event(&mut self, port_id: &str, event: PortEvent, now: &str, secs: u64) -> (out: Vec<
        Effect,
    >)
        requires
            room(old(self)@, port::event_view(event)),
        ensures
            window::outcome(final(self)@, config::views(out@)) == after_event(
                old(self).state.config,
                old(self)@,
                port_id@,
                port::event_view(event),
                now@,
                secs,
            ),
            window::same_settings(old(self).state.config, final(self).state.config),
            final(self).state.qrz_session == old(self).state.qrz_session,
    {
        let ghost o = after_event(
            self.state.config,
            self@,
            port_id@,
            port::event_view(event),
            now@,
            secs,
        );
        match event {
            PortEvent::PortConnected => self.on_port_connected(port_id),
            PortEvent::PortDisconnected { reason } => self.on_port_disconnected(port_id, reason),
            PortEvent::PortError { message } => self.on_port_error(port_id, message.as_str()),
            PortEvent::Monitor { line, from, to, message } => self.on_monitor(
                port_id,
                line.as_str(),
                &from,
                &to,
                &message,
                now,
            ),
            PortEvent::ConnectionOpened { id, label, to } => {
                let called = match &to {
                    Some(t) => Some(t.as_str()),
                    None => None,
                };
                assert(keyboard_mode::str_view(called) == text::opt_view(to));
                self.on_connection_opened(port_id, id, label.as_str(), called, now, secs)
            },
            PortEvent::ConnectionClosed { id } => self.on_connection_closed(port_id, id, now),
            PortEvent::ConnState { id, state } => {
                let mut out: Vec<Effect> = Vec::new();
                let mut line = text::owned("connection ");
                line.append(text::decimal_text(id).as_str());
                line.append(": ");
                line.append(describe_state(state));
                window::emit_line(&mut out, port_id, port_id, line.as_str());
                assert(config::views(out@) =~= o.effects);
                out
            },
            PortEvent::Data { id, bytes } => self.on_data(port_id, id, &bytes, now),
            PortEvent::StationHeard { callsign } => {
                let mut out: Vec<Effect> = Vec::new();
                if self.state.record_heard(callsign.as_str(), now) {
                    window::emit(&mut out, Effect::Save);
                }
                assert(config::views(out@) =~= o.effects);
                assert(self@ =~= o.ui);
                out
            },
            PortEvent::NodesBroadcast { from, sender_alias, entries } => {
                let mut out: Vec<Effect> = Vec::new();
                if self.state.record_nodes_broadcast(
                    from.as_str(),
                    sender_alias.as_str(),
                    &entries,
                    now,
                ) {
                    window::emit(&mut out, Effect::Save);
                }
                assert(config::views(out@) =~= o.effects);
                assert(self@ =~= o.ui);
                out
            },
        }
    }
}

} // verus!
