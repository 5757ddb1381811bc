//! The main window, without its widgets: the session tabs, the connections they
//! are bound to, and what an action of the user leads to.

use vstd::prelude::*;
use vstd::utf8::*;

use crate::app_state::AppState;
use crate::config::{
    self, AppConfig, EntryView, IncomingView, MailboxPrefs, MessageView, NotifiedView, PinnedView,
    QsoView,
};
use crate::port::{self, CommandView, ConnectionId, PortCommand};
use crate::session_tab::{SessionTab, TabId, TabView};
use crate::text;

verus! {

// ---------------------------------------------------------------------------
// Effects
// ---------------------------------------------------------------------------

/// What is to be done outside: on a screen, on a port or on a disk.
#[derive(Debug)]
#[allow(inconsistent_fields)]
pub enum Effect {
    /// A line for the traffic view. `port_id` is empty where no port is meant.
    Monitor { port_id: String, line: String },
    /// A command for a port that is up.
    Command { port_id: String, command: PortCommand },
    /// The port is to be started.
    Spawn { port_id: String },
    /// A desktop notification.
    Notify { title: String, body: String },
    /// Text to add to a tab.
    Show { tab: TabId, text: String },
    /// A line to add to the history of a node.
    Keep { port_id: String, remote: String, line: String },
    /// A tab is to show the history of a node, in place of what it shows.
    Preview { tab: TabId, port_id: String, remote: String },
    /// A tab is to show nothing.
    Blank { tab: TabId },
    /// The port could not be started.
    Failed { port_id: String },
    /// The configuration is to be saved.
    Save,
}

#[verifier::ext_equal]
#[allow(inconsistent_fields)]
pub enum EffectView {
    Monitor { port_id: Seq<char>, line: Seq<char> },
    Command { port_id: Seq<char>, command: CommandView },
    Spawn { port_id: Seq<char> },
    Notify { title: Seq<char>, body: Seq<char> },
    Show { tab: TabId, text: Seq<char> },
    Keep { port_id: Seq<char>, remote: Seq<char>, line: Seq<char> },
    Preview { tab: TabId, port_id: Seq<char>, remote: Seq<char> },
    Blank { tab: TabId },
    Failed { port_id: Seq<char> },
    Save,
}

impl View for Effect {
    type V = EffectView;

    open spec fn view(&self) -> EffectView {
        match *self {
            Effect::Monitor { port_id, line } => EffectView::Monitor {
                port_id: port_id@,
                line: line@,
            },
            Effect::Command { port_id, command } => EffectView::Command {
                port_id: port_id@,
                command: port::command_view(command),
            },
            Effect::Spawn { port_id } => EffectView::Spawn { port_id: port_id@ },
            Effect::Notify { title, body } => EffectView::Notify { title: title@, body: body@ },
            Effect::Show { tab, text } => EffectView::Show { tab, text: text@ },
            Effect::Keep { port_id, remote, line } => EffectView::Keep {
                port_id: port_id@,
                remote: remote@,
                line: line@,
            },
            Effect::Preview { tab, port_id, remote } => EffectView::Preview {
                tab,
                port_id: port_id@,
                remote: remote@,
            },
            Effect::Blank { tab } => EffectView::Blank { tab },
            Effect::Failed { port_id } => EffectView::Failed { port_id: port_id@ },
            Effect::Save => EffectView::Save,
        }
    }
}

pub type Effects = Seq<EffectView>;

pub fn emit(out: &mut Vec<Effect>, e: Effect)
    ensures
        config::views(final(out)@) == config::views(old(out)@).push(e@),
{
    proof {
        config::lemma_views_push(out@, e);
    }
    out.push(e);
}

/// A line about a port.
pub open spec fn port_line(port_id: Seq<char>, shown: Seq<char>, t: Seq<char>) -> EffectView {
    EffectView::Monitor { port_id, line: "["@ + shown + "] "@ + t }
}

/// Adds a line about a port, which is shown as `shown`.
pub fn emit_line(out: &mut Vec<Effect>, port_id: &str, shown: &str, t: &str)
    ensures
        config::views(final(out)@) == config::views(old(out)@).push(
            port_line(port_id@, shown@, t@),
        ),
{
    let mut line = text::owned("[");
    line.append(shown);
    line.append("] ");
    line.append(t);
    emit(out, Effect::Monitor { port_id: text::owned(port_id), line });
}

/// A line about no port.
pub open spec fn plain_line(t: Seq<char>) -> EffectView {
    EffectView::Monitor { port_id: Seq::empty(), line: t }
}

pub(crate) fn emit_plain(out: &mut Vec<Effect>, t: &str)
    ensures
        config::views(final(out)@) == config::views(old(out)@).push(plain_line(t@)),
{
    let port_id = String::new();
    assert(port_id@ =~= Seq::<char>::empty());
    emit(out, Effect::Monitor { port_id, line: text::owned(t) });
}

/// Text as a tab shows it: without zero characters.
pub open spec fn show(tab: TabId, t: Seq<char>) -> EffectView {
    EffectView::Show { tab, text: text::without(t, '\0') }
}

// ---------------------------------------------------------------------------
// The state of the window
// ---------------------------------------------------------------------------

/// A tab with its number.
#[derive(Debug)]
pub struct TabSlot {
    pub id: TabId,
    pub tab: SessionTab,
}

#[verifier::ext_equal]
pub struct SlotView {
    pub id: TabId,
    pub tab: TabView,
}

impl View for TabSlot {
    type V = SlotView;

    open spec fn view(&self) -> SlotView {
        SlotView { id: self.id, tab: self.tab@ }
    }
}

/// A live connection and the tab it is bound to.
#[derive(Debug)]
pub struct Bound {
    pub port_id: String,
    pub conn: ConnectionId,
    pub tab: TabId,
}

#[verifier::ext_equal]
pub struct BoundView {
    pub port_id: Seq<char>,
    pub conn: ConnectionId,
    pub tab: TabId,
}

impl View for Bound {
    type V = BoundView;

    open spec fn view(&self) -> BoundView {
        BoundView { port_id: self.port_id@, conn: self.conn, tab: self.tab }
    }
}

/// A connection that a tab waits for. `remote` is empty on a port that knows no
/// nodes, which has one connection at most.
#[derive(Debug)]
pub struct Pending {
    pub port_id: String,
    pub remote: String,
    pub tab: TabId,
}

#[verifier::ext_equal]
pub struct PendingView {
    pub port_id: Seq<char>,
    pub remote: Seq<char>,
    pub tab: TabId,
}

impl View for Pending {
    type V = PendingView;

    open spec fn view(&self) -> PendingView {
        PendingView { port_id: self.port_id@, remote: self.remote@, tab: self.tab }
    }
}

#[derive(Debug)]
pub struct Ui {
    pub state: AppState,
    pub tabs: Vec<TabSlot>,
    pub bound: Vec<Bound>,
    pub pending: Vec<Pending>,
    pub next_tab_id: TabId,
    /// Ports that came up and did not go down since: an error of another port is a
    /// failure to start.
    pub confirmed_ports: Vec<String>,
    /// A beacon came in that was not looked at yet.
    pub beacon_lit: bool,
}

/// What changes as the program runs.
#[verifier::ext_equal]
pub struct UiView {
    pub book: Seq<EntryView>,
    pub pins: Seq<PinnedView>,
    pub qsos: Seq<QsoView>,
    pub messages: Seq<MessageView>,
    pub notified: Seq<NotifiedView>,
    pub incoming: Seq<IncomingView>,
    pub active: Seq<Seq<char>>,
    pub tabs: Seq<SlotView>,
    pub bound: Seq<BoundView>,
    pub pending: Seq<PendingView>,
    pub next_tab_id: TabId,
    pub confirmed: Seq<Seq<char>>,
    pub beacon_lit: bool,
}

impl View for Ui {
    type V = UiView;

    open spec fn view(&self) -> UiView {
        UiView {
            book: self.state.book(),
            pins: self.state.pins(),
            qsos: self.state.qsos(),
            messages: config::views(self.state.config.mailbox.messages@),
            notified: self.state.notified(),
            incoming: self.state.incoming(),
            active: text::texts(self.state.active@),
            tabs: config::views(self.tabs@),
            bound: config::views(self.bound@),
            pending: config::views(self.pending@),
            next_tab_id: self.next_tab_id,
            confirmed: text::texts(self.confirmed_ports@),
            beacon_lit: self.beacon_lit,
        }
    }
}

/// The two configurations differ at most in what is recorded as the program runs.
pub open spec fn same_settings(a: AppConfig, b: AppConfig) -> bool {
    b == (AppConfig {
        address_book: b.address_book,
        pinned_sessions: b.pinned_sessions,
        qso_log: b.qso_log,
        notified_packets: b.notified_packets,
        incoming_beacons: b.incoming_beacons,
        mailbox: MailboxPrefs { messages: b.mailbox.messages, ..a.mailbox },
        ..a
    })
}

/// A state and what is to be done.
#[verifier::ext_equal]
pub struct Outcome {
    pub ui: UiView,
    pub effects: Effects,
}

pub open spec fn outcome(ui: UiView, effects: Effects) -> Outcome {
    Outcome { ui, effects }
}

/// `o`, after `effects` were to be done already.
pub open spec fn preceded(effects: Effects, o: Outcome) -> Outcome {
    Outcome { ui: o.ui, effects: effects + o.effects }
}

pub open spec fn slot_index(tabs: Seq<SlotView>, id: TabId) -> int
    decreases tabs.len(),
{
    if tabs.len() == 0 || tabs[0].id == id {
        0
    } else {
        1 + slot_index(tabs.skip(1), id)
    }
}

pub proof fn lemma_slot_index(tabs: Seq<SlotView>, id: TabId)
    ensures
        0 <= slot_index(tabs, id) <= tabs.len(),
        slot_index(tabs, id) < tabs.len() ==> tabs[slot_index(tabs, id)].id == id,
        forall|i: int| 0 <= i < slot_index(tabs, id) ==> (#[trigger] tabs[i]).id != id,
    decreases tabs.len(),
{
    if tabs.len() > 0 && tabs[0].id != id {
        let rest = tabs.skip(1);
        lemma_slot_index(rest, id);
        assert forall|i: int| 0 <= i < slot_index(tabs, id) implies (
        #[trigger] tabs[i]).id != id by {
            if i > 0 {
                assert(rest[i - 1] == tabs[i]);
            }
        }
    }
}

pub open spec fn without_tab(tabs: Seq<SlotView>, id: TabId) -> Seq<SlotView> {
    let k = slot_index(tabs, id);
    if k < tabs.len() {
        tabs.remove(k)
    } else {
        tabs
    }
}

/// The list without any `id`.
pub open spec fn without_id(v: Seq<Seq<char>>, id: Seq<char>) -> Seq<Seq<char>>
    decreases v.len(),
{
    if v.len() == 0 {
        v
    } else if v.last() == id {
        without_id(v.drop_last(), id)
    } else {
        without_id(v.drop_last(), id).push(v.last())
    }
}

pub fn remove_id(v: &mut Vec<String>, id: &str)
    ensures
        text::texts(final(v)@) == without_id(text::texts(old(v)@), id@),
{
    let ghost all = text::texts(v@);
    let mut kept = text::no_texts();
    let mut i: usize = 0;
    assert(text::texts(kept@) =~= without_id(all.take(0), id@));
    while i < v.len()
        invariant
            i <= v.len(),
            all == text::texts(v@),
            text::texts(kept@) == without_id(all.take(i as int), id@),
        decreases v.len() - i,
    {
        proof {
            assert(all.take(i + 1).drop_last() =~= all.take(i as int));
            assert(all.take(i + 1).last() == v@[i as int]@);
        }
        if !text::eq_str(v[i].as_str(), id) {
            text::add_text(&mut kept, v[i].clone());
        }
        i += 1;
    }
    assert(all.take(i as int) =~= all);
    *v = kept;
}

// ---------------------------------------------------------------------------
// Connections that are bound or awaited
// ---------------------------------------------------------------------------

pub open spec fn bound_tab(
    v: Seq<BoundView>,
    port_id: Seq<char>,
    conn: ConnectionId,
) -> Option<TabId>
    decreases v.len(),
{
    if v.len() == 0 {
        None
    } else if v[0].port_id == port_id && v[0].conn == conn {
        Some(v[0].tab)
    } else {
        bound_tab(v.skip(1), port_id, conn)
    }
}

pub open spec fn without_bound(
    v: Seq<BoundView>,
    port_id: Seq<char>,
    conn: ConnectionId,
) -> Seq<BoundView>
    decreases v.len(),
{
    if v.len() == 0 {
        v
    } else if v.last().port_id == port_id && v.last().conn == conn {
        without_bound(v.drop_last(), port_id, conn)
    } else {
        without_bound(v.drop_last(), port_id, conn).push(v.last())
    }
}

pub open spec fn after_bind(
    v: Seq<BoundView>,
    port_id: Seq<char>,
    conn: ConnectionId,
    tab: TabId,
) -> Seq<BoundView> {
    without_bound(v, port_id, conn).push(BoundView { port_id, conn, tab })
}

/// Without what is bound to a tab.
pub open spec fn without_bound_tab(v: Seq<BoundView>, tab: TabId) -> Seq<BoundView>
    decreases v.len(),
{
    if v.len() == 0 {
        v
    } else if v.last().tab == tab {
        without_bound_tab(v.drop_last(), tab)
    } else {
        without_bound_tab(v.drop_last(), tab).push(v.last())
    }
}

/// Without what a port had bound.
pub open spec fn without_bound_port(v: Seq<BoundView>, port_id: Seq<char>) -> Seq<BoundView>
    decreases v.len(),
{
    if v.len() == 0 {
        v
    } else if v.last().port_id == port_id {
        without_bound_port(v.drop_last(), port_id)
    } else {
        without_bound_port(v.drop_last(), port_id).push(v.last())
    }
}

pub open spec fn pending_tab(
    v: Seq<PendingView>,
    port_id: Seq<char>,
    remote: Seq<char>,
) -> Option<TabId>
    decreases v.len(),
{
    if v.len() == 0 {
        None
    } else if v[0].port_id == port_id && v[0].remote == remote {
        Some(v[0].tab)
    } else {
        pending_tab(v.skip(1), port_id, remote)
    }
}

pub open spec fn without_pending(
    v: Seq<PendingView>,
    port_id: Seq<char>,
    remote: Seq<char>,
) -> Seq<PendingView>
    decreases v.len(),
{
    if v.len() == 0 {
        v
    } else if v.last().port_id == port_id && v.last().remote == remote {
        without_pending(v.drop_last(), port_id, remote)
    } else {
        without_pending(v.drop_last(), port_id, remote).push(v.last())
    }
}

pub open spec fn without_pending_tab(v: Seq<PendingView>, tab: TabId) -> Seq<PendingView>
    decreases v.len(),
{
    if v.len() == 0 {
        v
    } else if v.last().tab == tab {
        without_pending_tab(v.drop_last(), tab)
    } else {
        without_pending_tab(v.drop_last(), tab).push(v.last())
    }
}

pub open spec fn without_pending_port(v: Seq<PendingView>, port_id: Seq<char>) -> Seq<PendingView>
    decreases v.len(),
{
    if v.len() == 0 {
        v
    } else if v.last().port_id == port_id {
        without_pending_port(v.drop_last(), port_id)
    } else {
        without_pending_port(v.drop_last(), port_id).push(v.last())
    }
}

impl Bound {
    fn copy(&self) -> (r: Self)
        ensures
            r@ == self@,
    {
        Bound { port_id: self.port_id.clone(), conn: self.conn, tab: self.tab }
    }
}

impl Pending {
    fn copy(&self) -> (r: Self)
        ensures
            r@ == self@,
    {
        Pending { port_id: self.port_id.clone(), remote: self.remote.clone(), tab: self.tab }
    }
}

pub(crate) fn find_bound(v: &Vec<Bound>, port_id: &str, conn: ConnectionId) -> (r: Option<TabId>)
    ensures
        r == bound_tab(config::views(v@), port_id@, conn),
{
    let ghost all = config::views(v@);
    let mut i: usize = 0;
    assert(all.skip(0) =~= all);
    while i < v.len()
        invariant
            i <= v.len(),
            all == config::views(v@),
            bound_tab(all, port_id@, conn) == bound_tab(all.skip(i as int), port_id@, conn),
        decreases v.len() - i,
    {
        assert(all.skip(i as int)[0] == v@[i as int]@);
        if text::eq_str(v[i].port_id.as_str(), port_id) && v[i].conn == conn {
            return Some(v[i].tab);
        }
        assert(all.skip(i as int).skip(1) =~= all.skip(i + 1));
        i += 1;
    }
    None
}

pub(crate) fn drop_bound(v: &mut Vec<Bound>, port_id: &str, conn: ConnectionId)
    ensures
        config::views(final(v)@) == without_bound(config::views(old(v)@), port_id@, conn),
{
    let ghost all = config::views(v@);
    let mut kept: Vec<Bound> = Vec::new();
    let mut i: usize = 0;
    assert(config::views(kept@) =~= without_bound(all.take(0), port_id@, conn));
    while i < v.len()
        invariant
            i <= v.len(),
            all == config::views(v@),
            config::views(kept@) == without_bound(all.take(i as int), port_id@, conn),
        decreases v.len() - i,
    {
        let b = &v[i];
        assert(all.take(i + 1).drop_last() =~= all.take(i as int));
        assert(all.take(i + 1).last() == b@);
        if !(text::eq_str(b.port_id.as_str(), port_id) && b.conn == conn) {
            let c = b.copy();
            proof {
                config::lemma_views_push(kept@, c);
            }
            kept.push(c);
        }
        i += 1;
    }
    assert(all.take(i as int) =~= all);
    *v = kept;
}

pub(crate) fn drop_bound_tab(v: &mut Vec<Bound>, tab: TabId)
    ensures
        config::views(final(v)@) == without_bound_tab(config::views(old(v)@), tab),
{
    let ghost all = config::views(v@);
    let mut kept: Vec<Bound> = Vec::new();
    let mut i: usize = 0;
    assert(config::views(kept@) =~= without_bound_tab(all.take(0), tab));
    while i < v.len()
        invariant
            i <= v.len(),
            all == config::views(v@),
            config::views(kept@) == without_bound_tab(all.take(i as int), tab),
        decreases v.len() - i,
    {
        let b = &v[i];
        assert(all.take(i + 1).drop_last() =~= all.take(i as int));
        assert(all.take(i + 1).last() == b@);
        if b.tab != tab {
            let c = b.copy();
            proof {
                config::lemma_views_push(kept@, c);
            }
            kept.push(c);
        }
        i += 1;
    }
    assert(all.take(i as int) =~= all);
    *v = kept;
}

pub(crate) fn drop_bound_port(v: &mut Vec<Bound>, port_id: &str)
    ensures
        config::views(final(v)@) == without_bound_port(config::views(old(v)@), port_id@),
{
    let ghost all = config::views(v@);
    let mut kept: Vec<Bound> = Vec::new();
    let mut i: usize = 0;
    assert(config::views(kept@) =~= without_bound_port(all.take(0), port_id@));
    while i < v.len()
        invariant
            i <= v.len(),
            all == config::views(v@),
            config::views(kept@) == without_bound_port(all.take(i as int), port_id@),
        decreases v.len() - i,
    {
        let b = &v[i];
        assert(all.take(i + 1).drop_last() =~= all.take(i as int));
        assert(all.take(i + 1).last() == b@);
        if !text::eq_str(b.port_id.as_str(), port_id) {
            let c = b.copy();
            proof {
                config::lemma_views_push(kept@, c);
            }
            kept.push(c);
        }
        i += 1;
    }
    assert(all.take(i as int) =~= all);
    *v = kept;
}

pub(crate) fn find_pending(v: &Vec<Pending>, port_id: &str, remote: &str) -> (r: Option<TabId>)
    ensures
        r == pending_tab(config::views(v@), port_id@, remote@),
{
    let ghost all = config::views(v@);
    let mut i: usize = 0;
    assert(all.skip(0) =~= all);
    while i < v.len()
        invariant
            i <= v.len(),
            all == config::views(v@),
            pending_tab(all, port_id@, remote@) == pending_tab(
                all.skip(i as int),
                port_id@,
                remote@,
            ),
        decreases v.len() - i,
    {
        assert(all.skip(i as int)[0] == v@[i as int]@);
        if text::eq_str(v[i].port_id.as_str(), port_id) && text::eq_str(
            v[i].remote.as_str(),
            remote,
        ) {
            return Some(v[i].tab);
        }
        assert(all.skip(i as int).skip(1) =~= all.skip(i + 1));
        i += 1;
    }
    None
}

pub(crate) fn drop_pending(v: &mut Vec<Pending>, port_id: &str, remote: &str)
    ensures
        config::views(final(v)@) == without_pending(config::views(old(v)@), port_id@, remote@),
{
    let ghost all = config::views(v@);
    let mut kept: Vec<Pending> = Vec::new();
    let mut i: usize = 0;
    assert(config::views(kept@) =~= without_pending(all.take(0), port_id@, remote@));
    while i < v.len()
        invariant
            i <= v.len(),
            all == config::views(v@),
            config::views(kept@) == without_pending(all.take(i as int), port_id@, remote@),
        decreases v.len() - i,
    {
        let b = &v[i];
        assert(all.take(i + 1).drop_last() =~= all.take(i as int));
        assert(all.take(i + 1).last() == b@);
        if !(text::eq_str(b.port_id.as_str(), port_id) && text::eq_str(b.remote.as_str(), remote)) {
            let c = b.copy();
            proof {
                config::lemma_views_push(kept@, c);
            }
            kept.push(c);
        }
        i += 1;
    }
    assert(all.take(i as int) =~= all);
    *v = kept;
}

pub(crate) fn drop_pending_tab(v: &mut Vec<Pending>, tab: TabId)
    ensures
        config::views(final(v)@) == without_pending_tab(config::views(old(v)@), tab),
{
    let ghost all = config::views(v@);
    let mut kept: Vec<Pending> = Vec::new();
    let mut i: usize = 0;
    assert(config::views(kept@) =~= without_pending_tab(all.take(0), tab));
    while i < v.len()
        invariant
            i <= v.len(),
            all == config::views(v@),
            config::views(kept@) == without_pending_tab(all.take(i as int), tab),
        decreases v.len() - i,
    {
        let b = &v[i];
        assert(all.take(i + 1).drop_last() =~= all.take(i as int));
        assert(all.take(i + 1).last() == b@);
        if b.tab != tab {
            let c = b.copy();
            proof {
                config::lemma_views_push(kept@, c);
            }
            kept.push(c);
        }
        i += 1;
    }
    assert(all.take(i as int) =~= all);
    *v = kept;
}

pub(crate) fn drop_pending_port(v: &mut Vec<Pending>, port_id: &str)
    ensures
        config::views(final(v)@) == without_pending_port(config::views(old(v)@), port_id@),
{
    let ghost all = config::views(v@);
    let mut kept: Vec<Pending> = Vec::new();
    let mut i: usize = 0;
    assert(config::views(kept@) =~= without_pending_port(all.take(0), port_id@));
    while i < v.len()
        invariant
            i <= v.len(),
            all == config::views(v@),
            config::views(kept@) == without_pending_port(all.take(i as int), port_id@),
        decreases v.len() - i,
    {
        let b = &v[i];
        assert(all.take(i + 1).drop_last() =~= all.take(i as int));
        assert(all.take(i + 1).last() == b@);
        if !text::eq_str(b.port_id.as_str(), port_id) {
            let c = b.copy();
            proof {
                config::lemma_views_push(kept@, c);
            }
            kept.push(c);
        }
        i += 1;
    }
    assert(all.take(i as int) =~= all);
    *v = kept;
}

} // verus!
