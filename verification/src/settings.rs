//! The settings that the user edits: the mailbox, keyboard-to-keyboard mode,
//! notifications, highlighting and the profile.

use vstd::prelude::*;

use crate::app_state::AppState;
use crate::config::{
    self, AppConfig, DirewolfPrefs, HighlightPrefs, HighlightRule, HighlightView,
    KeyboardModePrefs, MailboxMessage, MailboxPrefs, MessageView, NotifyPrefs, PortEntry, PortView,
    UiPrefs,
};
use crate::identifiers;
use crate::keyboard_mode;
use crate::mailbox;
use crate::ports::{self, ListenChoice};
use crate::qrz;
use crate::session_tab;
use crate::sorting::{self, KeyView, SortKey};
use crate::template_vars::{TemplateVars, VarsView};
use crate::text;

verus! {

// ---------------------------------------------------------------------------
// The mailbox
// ---------------------------------------------------------------------------

/// What a click on the mailbox's switch leads to: the settings, where the mailbox
/// has no callsign yet and is off, and else the other state.
#[derive(Debug, Clone, Copy, PartialEq, Eq, Structural)]
pub enum SwitchClick {
    OpenSettings,
    Turn(bool),
}

pub fn click_mailbox(m: &MailboxPrefs) -> (r: SwitchClick)
    ensures
        r == (if !m.enabled && text::trimmed(m.respond_call@).len() == 0 {
            SwitchClick::OpenSettings
        } else {
            SwitchClick::Turn(!m.enabled)
        }),
{
    let call = text::trim(m.respond_call.as_str());
    if !m.enabled && call.as_str().is_empty() {
        SwitchClick::OpenSettings
    } else {
        SwitchClick::Turn(!m.enabled)
    }
}

/// What the mailbox's switch says.
pub fn mailbox_tooltip(enabled: bool) -> (r: &'static str)
    ensures
        r@ == (if enabled {
            "Mailbox: on \u{2014} click to turn off, right-click for settings"@
        } else {
            "Mailbox: off \u{2014} click to turn on, right-click for settings"@
        }),
{
    if enabled {
        "Mailbox: on \u{2014} click to turn off, right-click for settings"
    } else {
        "Mailbox: off \u{2014} click to turn on, right-click for settings"
    }
}

/// The mailbox's settings as they are typed.
#[derive(Debug)]
pub struct MailboxForm {
    pub respond_call: String,
    pub intro_message: String,
    pub beacon_text: String,
    pub beacon_interval: String,
    pub listen: Vec<ListenChoice>,
}

/// Why the form is not saved, if it is not.
pub open spec fn mailbox_error(m: MailboxPrefs, f: MailboxForm) -> Option<Seq<char>> {
    if text::call_text(f.respond_call@).len() == 0 && m.enabled {
        Some("A Mailbox Callsign is required while the mailbox is enabled."@)
    } else if ports::positive_in(f.beacon_interval@) is None {
        Some("Beacon Interval must be a positive number."@)
    } else {
        None
    }
}

/// `after` is `before` with what the form says.
pub open spec fn mailbox_saved(before: MailboxPrefs, f: MailboxForm, after: MailboxPrefs) -> bool {
    &&& after.respond_call@ == text::call_text(f.respond_call@)
    &&& after.intro_message@ == f.intro_message@
    &&& after.beacon_text@ == f.beacon_text@
    &&& Some(after.beacon_interval_secs as nat) == ports::positive_in(f.beacon_interval@)
    &&& text::texts(after.listen_ports@) == ports::collapsed(config::views(f.listen@))
    &&& after.enabled == before.enabled
    &&& after.messages == before.messages
}

pub fn save_mailbox(m: &mut MailboxPrefs, f: &MailboxForm) -> (r: Result<(), String>)
    ensures
        match mailbox_error(*old(m), *f) {
            None => r is Ok && mailbox_saved(*old(m), *f, *final(m)),
            Some(e) => r matches Err(t) && t@ == e && *final(m) == *old(m),
        },
{
    let call = text::trim_upper(f.respond_call.as_str());
    if call.as_str().is_empty() && m.enabled {
        return Err(text::owned("A Mailbox Callsign is required while the mailbox is enabled."));
    }
    let secs: u32 = match ports::read_positive(f.beacon_interval.as_str()) {
        Some(n) => n,
        None => {
            return Err(text::owned("Beacon Interval must be a positive number."));
        },
    };
    m.respond_call = call;
    m.intro_message = f.intro_message.clone();
    m.beacon_text = f.beacon_text.clone();
    m.beacon_interval_secs = secs;
    m.listen_ports = ports::collapse_listen_ports(&f.listen);
    Ok(())
}

/// What is shown of a greeting: its first line, where it is set.
pub open spec fn greeting_shown(t: Seq<char>) -> Seq<char> {
    if text::trimmed(t).len() == 0 {
        "Using the default greeting"@
    } else {
        first_line(t)
    }
}

pub open spec fn first_line(t: Seq<char>) -> Seq<char> {
    if text::lines_of(t).len() == 0 {
        Seq::empty()
    } else {
        text::lines_of(t)[0]
    }
}

fn first_line_of(t: &str) -> (r: String)
    ensures
        r@ == first_line(t@),
{
    let v = text::lines(t);
    assert(text::texts(v@).len() == v@.len());
    if v.len() == 0 {
        let r = String::new();
        assert(r@ =~= Seq::<char>::empty());
        r
    } else {
        assert(text::texts(v@)[0] == v@[0]@);
        v[0].clone()
    }
}

pub fn greeting_hint(t: &str) -> (r: String)
    ensures
        r@ == greeting_shown(t@),
{
    let bare = text::trim(t);
    if bare.as_str().is_empty() {
        text::owned("Using the default greeting")
    } else {
        first_line_of(t)
    }
}

pub open spec fn some_unread(v: Seq<MessageView>) -> bool {
    exists|i: int| 0 <= i < v.len() && !(#[trigger] v[i]).read
}

/// Whether a message was not read yet.
pub fn has_unread(v: &Vec<MailboxMessage>) -> (r: bool)
    ensures
        r == some_unread(config::views(v@)),
{
    let mut i: usize = 0;
    while i < v.len()
        invariant
            i <= v.len(),
            forall|j: int| 0 <= j < i ==> (#[trigger] v@[j]).read,
        decreases v.len() - i,
    {
        if !v[i].read {
            assert(!config::views(v@)[i as int].read);
            return true;
        }
        i += 1;
    }
    assert forall|j: int| 0 <= j < config::views(v@).len() implies (
    #[trigger] config::views(v@)[j]).read by {
        assert(v@[j].read);
    }
    false
}

pub open spec fn without_message(v: Seq<MessageView>, id: u64) -> Seq<MessageView>
    decreases v.len(),
{
    if v.len() == 0 {
        v
    } else if v.last().id == id {
        without_message(v.drop_last(), id)
    } else {
        without_message(v.drop_last(), id).push(v.last())
    }
}

pub fn remove_message(v: &mut Vec<MailboxMessage>, id: u64)
    ensures
        config::views(final(v)@) == without_message(config::views(old(v)@), id),
{
    let ghost all = config::views(v@);
    let mut kept: Vec<MailboxMessage> = Vec::new();
    let mut i: usize = 0;
    assert(config::views(kept@) =~= without_message(all.take(0), id));
    while i < v.len()
        invariant
            i <= v.len(),
            all == config::views(v@),
            config::views(kept@) == without_message(all.take(i as int), id),
        decreases v.len() - i,
    {
        let m = &v[i];
        assert(all.take(i + 1).drop_last() =~= all.take(i as int));
        assert(all.take(i + 1).last() == m@);
        if m.id != id {
            let c = m.clone();
            proof {
                config::lemma_views_push(kept@, c);
            }
            kept.push(c);
        }
        i += 1;
    }
    assert(all.take(i as int) =~= all);
    *v = kept;
}

pub open spec fn message_keys(v: Seq<MessageView>) -> Seq<KeyView> {
    v.map_values(|m: MessageView| KeyView { major: Some(m.timestamp), minor: Seq::empty() })
}

/// The positions of the messages, the newest first.
pub fn message_order(v: &Vec<MailboxMessage>) -> (r: Vec<usize>)
    ensures
        r@ == sorting::sorted_positions(message_keys(config::views(v@)), v@.len(), true),
{
    let ghost all = message_keys(config::views(v@));
    let mut keys: Vec<SortKey> = Vec::new();
    let mut i: usize = 0;
    assert(sorting::key_views(keys@) =~= all.take(0));
    while i < v.len()
        invariant
            i <= v.len(),
            keys@.len() == i,
            all == message_keys(config::views(v@)),
            sorting::key_views(keys@) == all.take(i as int),
        decreases v.len() - i,
    {
        let k = SortKey { major: Some(v[i].timestamp.clone()), minor: String::new() };
        assert(k@.minor =~= Seq::<char>::empty());
        let ghost before = keys@;
        keys.push(k);
        assert(config::views(v@)[i as int] == v@[i as int]@);
        assert(sorting::key_views(keys@) =~= sorting::key_views(before).push(k@));
        assert(all.take(i + 1) =~= all.take(i as int).push(k@));
        i += 1;
    }
    assert(all.take(i as int) =~= all);
    sorting::stable_order(&keys, true)
}

/// The two lines of a message's row.
pub fn message_row(m: &MailboxMessage) -> (r: (String, String))
    ensures
        r.0@ == "To "@ + m.to@ + "  from "@ + m.from@ + "  \u{2014}  "@ + m.subject@ + (if m.read {
            Seq::empty()
        } else {
            " (unread)"@
        }),
        r.1@ == m.timestamp@ + "  \u{b7}  "@ + first_line(m.body@),
{
    let mut a = text::owned("To ");
    a.append(m.to.as_str());
    a.append("  from ");
    a.append(m.from.as_str());
    a.append("  \u{2014}  ");
    a.append(m.subject.as_str());
    let ghost head = a@;
    if !m.read {
        a.append(" (unread)");
    }
    assert(m.read ==> head + Seq::<char>::empty() =~= head);
    let mut b = m.timestamp.clone();
    b.append("  \u{b7}  ");
    b.append(first_line_of(m.body.as_str()).as_str());
    (a, b)
}

// ---------------------------------------------------------------------------
// Keyboard-to-keyboard mode
// ---------------------------------------------------------------------------

/// The mode's settings as they are typed.
#[derive(Debug)]
pub struct KeyboardForm {
    pub ssid: u8,
    pub welcome_message: String,
    pub beacon_text: String,
    pub beacon_interval: String,
    pub listen: Vec<ListenChoice>,
}

/// A callsign with an SSID, or nothing where there is no callsign.
pub open spec fn with_ssid(base: Seq<char>, ssid: u8) -> Seq<char> {
    if base.len() == 0 {
        base
    } else {
        base + "-"@ + text::decimal(ssid as nat)
    }
}

fn join_ssid(base: &str, ssid: u8) -> (r: String)
    ensures
        r@ == with_ssid(base@, ssid),
{
    let mut r = text::owned(base);
    if !base.is_empty() {
        r.append("-");
        r.append(text::decimal_text(ssid as u64).as_str());
    }
    r
}

/// The SSID of a callsign: the number after its last hyphen, 0 where there is none
/// up to 15.
pub open spec fn ssid_in(call: Seq<char>) -> u8 {
    let base = qrz::base_call(call);
    if base == call {
        0
    } else {
        match ports::number_in(call.skip(base.len() as int + 1), 15) {
            Some(n) => n as u8,
            None => 0,
        }
    }
}

/// A callsign's two parts, as a form shows them.
pub fn split_call_ssid(call: &str) -> (r: (String, u8))
    ensures
        r.0@ == qrz::base_call(call@),
        r.1 == ssid_in(call@),
{
    let base = qrz::strip_ssid(call);
    if text::eq_str(base.as_str(), call) {
        return (base, 0);
    }
    proof {
        text::lemma_last_index(call@, '-');
    }
    let ssid: u8 = match text::rsplit_once(call, '-') {
        Some((_, s)) => match ports::read_number(s.as_str(), 15) {
            Some(n) => n as u8,
            None => 0,
        },
        None => 0,
    };
    (base, ssid)
}

/// `after` is `before` with what the form says. The callsign is the profile's, with
/// the mode's own SSID.
pub open spec fn keyboard_saved(
    before: KeyboardModePrefs,
    profile_call: Option<Seq<char>>,
    f: KeyboardForm,
    after: KeyboardModePrefs,
) -> bool {
    &&& after.node_call@ == with_ssid(qrz::base_call(text::or_empty(profile_call)), f.ssid)
    &&& after.welcome_message@ == f.welcome_message@
    &&& after.beacon_text@ == f.beacon_text@
    &&& Some(after.beacon_interval_secs as nat) == ports::positive_in(f.beacon_interval@)
    &&& text::texts(after.listen_ports@) == ports::collapsed(config::views(f.listen@))
    &&& after.enabled == before.enabled
}

pub fn save_keyboard_mode(
    k: &mut KeyboardModePrefs,
    profile_call: &Option<String>,
    f: &KeyboardForm,
) -> (r: Result<(), String>)
    ensures
        r is Ok == ports::positive_in(f.beacon_interval@) is Some,
        r is Ok ==> keyboard_saved(*old(k), text::opt_view(*profile_call), *f, *final(k)),
        r matches Err(e) ==> {
            &&& e@ == "Beacon Interval must be a positive number."@
            &&& *final(k) == *old(k)
        },
{
    let secs: u32 = match ports::read_positive(f.beacon_interval.as_str()) {
        Some(n) => n,
        None => {
            return Err(text::owned("Beacon Interval must be a positive number."));
        },
    };
    let call = match profile_call {
        Some(c) => c.clone(),
        None => String::new(),
    };
    assert(call@ =~= text::or_empty(text::opt_view(*profile_call)));
    let base = qrz::strip_ssid(call.as_str());
    k.node_call = join_ssid(base.as_str(), f.ssid);
    k.welcome_message = f.welcome_message.clone();
    k.beacon_text = f.beacon_text.clone();
    k.beacon_interval_secs = secs;
    k.listen_ports = ports::collapse_listen_ports(&f.listen);
    Ok(())
}

// ---------------------------------------------------------------------------
// Availability beacons
// ---------------------------------------------------------------------------

/// An unconnected frame to everyone, sent again and again on some ports.
#[derive(Debug)]
pub struct Announcement {
    pub ports: Vec<String>,
    pub text: String,
    pub interval_secs: u32,
}

/// Where such frames go.
pub const ANNOUNCE_TO: &'static str = "CQ";

/// The ports that are listened on and can send unconnected frames.
pub open spec fn announcing_ports(ports: Seq<PortView>, listen: Seq<Seq<char>>) -> Seq<Seq<char>>
    decreases ports.len(),
{
    if ports.len() == 0 {
        Seq::empty()
    } else if keyboard_mode::listens(listen, ports.last().id) && session_tab::sends_unproto(
        ports.last().config,
    ) {
        announcing_ports(ports.drop_last(), listen).push(ports.last().id)
    } else {
        announcing_ports(ports.drop_last(), listen)
    }
}

fn ports_announcing(v: &Vec<PortEntry>, listen: &Vec<String>) -> (r: Vec<String>)
    ensures
        text::texts(r@) == announcing_ports(config::views(v@), text::texts(listen@)),
{
    let ghost all = config::views(v@);
    let ghost wanted = text::texts(listen@);
    let mut r = text::no_texts();
    let mut i: usize = 0;
    assert(text::texts(r@) =~= announcing_ports(all.take(0), wanted));
    while i < v.len()
        invariant
            i <= v.len(),
            all == config::views(v@),
            wanted == text::texts(listen@),
            text::texts(r@) == announcing_ports(all.take(i as int), wanted),
        decreases v.len() - i,
    {
        let p = &v[i];
        assert(all.take(i + 1).drop_last() =~= all.take(i as int));
        assert(all.take(i + 1).last() == p@);
        if keyboard_mode::listens_on(listen, p.id.as_str()) && session_tab::port_supports_unproto(
            &p.config,
        ) {
            text::add_text(&mut r, p.id.clone());
        }
        i += 1;
    }
    assert(all.take(i as int) =~= all);
    r
}

/// What a feature with these settings announces: nothing where it is off or has no
/// text. `$$NODE` stands for the feature's own callsign.
pub open spec fn announces(
    c: AppConfig,
    enabled: bool,
    call: Seq<char>,
    t: Seq<char>,
    secs: u32,
    listen: Seq<Seq<char>>,
    r: Option<Announcement>,
) -> bool {
    if !enabled || t.len() == 0 {
        r is None
    } else {
        &&& r matches Some(a)
        &&& text::texts(a.ports@) == announcing_ports(config::views(c.ports@), listen)
        &&& a.text@ == (VarsView {
            node: call,
            name: text::or_empty(text::opt_view(c.ui.name)),
            loc: text::or_empty(text::opt_view(c.ui.location)),
            bbs_home: text::or_empty(text::opt_view(c.ui.home_bbs)),
        }).applied(t)
        &&& a.interval_secs == secs
    }
}

fn announce(
    c: &AppConfig,
    enabled: bool,
    call: &str,
    t: &str,
    secs: u32,
    listen: &Vec<String>,
) -> (r: Option<Announcement>)
    ensures
        announces(*c, enabled, call@, t@, secs, text::texts(listen@), r),
{
    if !enabled || t.is_empty() {
        return None;
    }
    let vars = TemplateVars::from_config(c, call);
    Some(
        Announcement {
            ports: ports_announcing(&c.ports, listen),
            text: vars.apply(t),
            interval_secs: secs,
        },
    )
}

/// What the mailbox announces.
pub fn mailbox_beacon(c: &AppConfig) -> (r: Option<Announcement>)
    ensures
        announces(
            *c,
            c.mailbox.enabled,
            text::call_text(c.mailbox.respond_call@),
            c.mailbox.beacon_text@,
            c.mailbox.beacon_interval_secs,
            text::texts(c.mailbox.listen_ports@),
            r,
        ),
{
    let call = text::trim_upper(c.mailbox.respond_call.as_str());
    announce(
        c,
        c.mailbox.enabled,
        call.as_str(),
        c.mailbox.beacon_text.as_str(),
        c.mailbox.beacon_interval_secs,
        &c.mailbox.listen_ports,
    )
}

/// What keyboard-to-keyboard mode announces.
pub fn keyboard_mode_beacon(c: &AppConfig) -> (r: Option<Announcement>)
    ensures
        announces(
            *c,
            c.keyboard_mode.enabled,
            keyboard_mode::identity(
                c.keyboard_mode.node_call@,
                text::or_empty(text::opt_view(c.ui.default_call)),
            ),
            c.keyboard_mode.beacon_text@,
            c.keyboard_mode.beacon_interval_secs,
            text::texts(c.keyboard_mode.listen_ports@),
            r,
        ),
{
    let own = match &c.ui.default_call {
        Some(s) => s.clone(),
        None => String::new(),
    };
    assert(own@ =~= text::or_empty(text::opt_view(c.ui.default_call)));
    let call = keyboard_mode::resolve_identity(c.keyboard_mode.node_call.as_str(), own.as_str());
    announce(
        c,
        c.keyboard_mode.enabled,
        call.as_str(),
        c.keyboard_mode.beacon_text.as_str(),
        c.keyboard_mode.beacon_interval_secs,
        &c.keyboard_mode.listen_ports,
    )
}

// ---------------------------------------------------------------------------
// Preferences
// ---------------------------------------------------------------------------

/// The preferences as they are typed.
#[derive(Debug)]
pub struct PreferencesForm {
    pub name: String,
    pub call_base: String,
    pub call_ssid: u8,
    pub location: String,
    pub home_bbs: String,
    pub font: String,
    pub show_timestamps: bool,
    pub history_lines: String,
    pub qrz_username: String,
    pub qrz_password: String,
    pub directed_enabled: bool,
    pub highlight: bool,
    pub callsign_color: String,
    pub known_callsign_color: String,
    pub my_call_color: String,
    pub ax25_command_color: String,
    pub rules: Vec<HighlightRule>,
}

/// The text as it is, unless it is blank.
pub open spec fn unless_blank(s: Seq<char>) -> Option<Seq<char>> {
    if text::trimmed(s).len() == 0 {
        None
    } else {
        Some(s)
    }
}

fn nonblank(s: &String) -> (r: Option<String>)
    ensures
        text::opt_view(r) == unless_blank(s@),
{
    let bare = text::trim(s.as_str());
    if bare.as_str().is_empty() {
        None
    } else {
        Some(s.clone())
    }
}

/// `after` is `before` with what the form says of the profile and the display.
pub open spec fn ui_saved(before: UiPrefs, f: PreferencesForm, after: UiPrefs) -> bool {
    &&& text::opt_view(after.font) == unless_blank(f.font@)
    &&& after.show_timestamps == f.show_timestamps
    &&& text::opt_view(after.name) == unless_blank(f.name@)
    &&& text::opt_view(after.default_call) == text::unless_empty(
        with_ssid(text::call_text(f.call_base@), f.call_ssid),
    )
    &&& text::opt_view(after.location) == unless_blank(f.location@)
    &&& text::opt_view(after.home_bbs) == match unless_blank(f.home_bbs@) {
        Some(b) => Some(text::upper_text(b)),
        None => None,
    }
    &&& text::opt_view(after.qrz_username) == unless_blank(f.qrz_username@)
    &&& text::opt_view(after.qrz_password) == text::unless_empty(f.qrz_password@)
    &&& Some(after.history_lines as nat) == ports::positive_in(f.history_lines@)
    &&& after.show_monitor == before.show_monitor
    &&& after.monitor_buffer_lines == before.monitor_buffer_lines
    &&& after.tab_buffer_max_lines == before.tab_buffer_max_lines
}

pub open spec fn highlighting_saved(f: PreferencesForm, after: HighlightPrefs) -> bool {
    &&& after.enabled == f.highlight
    &&& after.callsign_color@ == f.callsign_color@
    &&& after.known_callsign_color@ == f.known_callsign_color@
    &&& after.my_call_color@ == f.my_call_color@
    &&& after.ax25_command_color@ == f.ax25_command_color@
    &&& config::views(after.rules@) == config::views(f.rules@)
}

impl AppState {
    /// Saves the preferences. The next lookup logs in anew.
    pub fn save_preferences(&mut self, f: &PreferencesForm) -> (r: Result<(), String>)
        ensures
            r is Ok == ports::positive_in(f.history_lines@) is Some,
            r is Ok ==> {
                &&& ui_saved(old(self).config.ui, *f, final(self).config.ui)
                &&& highlighting_saved(*f, final(self).config.highlighting)
                &&& final(self).config.notify == (NotifyPrefs {
                    directed_enabled: f.directed_enabled,
                    ..old(self).config.notify
                })
                &&& final(self).config == (AppConfig {
                    ui: final(self).config.ui,
                    highlighting: final(self).config.highlighting,
                    notify: final(self).config.notify,
                    ..old(self).config
                })
                &&& final(self).qrz_session is None
                &&& final(self).active == old(self).active
            },
            r matches Err(e) ==> {
                &&& e@ == "History Lines must be a positive number."@
                &&& *final(self) == *old(self)
            },
    {
        let lines: u32 = match ports::read_positive(f.history_lines.as_str()) {
            Some(n) => n,
            None => {
                return Err(text::owned("History Lines must be a positive number."));
            },
        };
        let base = text::trim_upper(f.call_base.as_str());
        let call = join_ssid(base.as_str(), f.call_ssid);
        self.config.ui.font = nonblank(&f.font);
        self.config.ui.show_timestamps = f.show_timestamps;
        self.config.ui.name = nonblank(&f.name);
        self.config.ui.default_call = text::nonempty(call);
        self.config.ui.location = nonblank(&f.location);
        self.config.ui.home_bbs = match nonblank(&f.home_bbs) {
            Some(b) => Some(text::to_uppercase(b.as_str())),
            None => None,
        };
        self.config.ui.qrz_username = nonblank(&f.qrz_username);
        self.config.ui.qrz_password = text::nonempty(f.qrz_password.clone());
        self.config.ui.history_lines = lines;
        self.config.highlighting = HighlightPrefs {
            enabled: f.highlight,
            callsign_color: f.callsign_color.clone(),
            known_callsign_color: f.known_callsign_color.clone(),
            my_call_color: f.my_call_color.clone(),
            ax25_command_color: f.ax25_command_color.clone(),
            rules: config::copy_list(&f.rules),
        };
        self.config.notify.directed_enabled = f.directed_enabled;
        self.qrz_session = None;
        Ok(())
    }
}

/// A rule that was just added.
pub fn new_highlight_rule() -> (r: HighlightRule)
    ensures
        r@ == (HighlightView {
            label: "New Rule"@,
            pattern: Seq::empty(),
            regex: false,
            color: "#FFD700"@,
            notify: false,
            enabled: true,
        }),
{
    let r = HighlightRule {
        label: text::owned("New Rule"),
        pattern: String::new(),
        regex: false,
        color: text::owned("#FFD700"),
        notify: false,
        enabled: true,
    };
    assert(r@.pattern =~= Seq::<char>::empty());
    r
}

/// The sound of notifications: a file, or nothing where no file is named.
pub fn set_notification_sound(n: &mut NotifyPrefs, path: &str)
    ensures
        text::opt_view(final(n).notification_sound) == unless_blank(path@),
        *final(n) == (NotifyPrefs {
            notification_sound: final(n).notification_sound,
            ..*old(n)
        }),
{
    let p = text::owned(path);
    n.notification_sound = nonblank(&p);
}

/// What the switch of directed notifications says.
pub fn directed_tooltip(enabled: bool) -> (r: &'static str)
    ensures
        r@ == (if enabled {
            "Directed notifications on \u{2014} click to disable"@
        } else {
            "Directed notifications off \u{2014} click to enable"@
        }),
{
    if enabled {
        "Directed notifications on \u{2014} click to disable"
    } else {
        "Directed notifications off \u{2014} click to enable"
    }
}

/// Saves how Direwolf is run.
pub fn save_direwolf(d: &mut DirewolfPrefs, auto_start: bool, config_text: String)
    ensures
        final(d).auto_start == auto_start,
        final(d).config_text == config_text,
{
    d.auto_start = auto_start;
    d.config_text = config_text;
}

// ---------------------------------------------------------------------------
// Laws
// ---------------------------------------------------------------------------

/// The mailbox is never left enabled without a callsign by its settings.
pub proof fn law_enabled_has_callsign(before: MailboxPrefs, f: MailboxForm, after: MailboxPrefs)
    requires
        mailbox_error(before, f) is None,
        mailbox_saved(before, f, after),
    ensures
        after.enabled ==> after.respond_call@.len() > 0,
{
}

/// A callsign and an SSID that were joined come apart again.
pub proof fn law_ssid_kept(base: Seq<char>, ssid: u8)
    requires
        base.len() > 0,
        ssid <= 15,
    ensures
        qrz::base_call(with_ssid(base, ssid)) == base,
        ssid_in(with_ssid(base, ssid)) == ssid,
{
    let d = text::decimal(ssid as nat);
    let call = with_ssid(base, ssid);
    identifiers::lemma_decimal(ssid as nat);
    reveal_strlit("-");
    text::lemma_last_index(call, '-');
    assert(call[base.len() as int] == '-');
    assert forall|i: int| base.len() < i < call.len() implies call[i] != '-' by {
        assert(call[i] == d[i - base.len() - 1]);
        assert(text::is_digit(d[i - base.len() - 1]));
    }
    assert(text::last_index(call, '-') == base.len());
    assert(call.skip(base.len() as int + 1) =~= d);
    assert(call.take(base.len() as int) =~= base);
    assert(text::is_digit(d[0]));
}

/// A port that announces is listened on and can send unconnected frames.
pub proof fn law_announcing_ports(ports: Seq<PortView>, listen: Seq<Seq<char>>)
    ensures
        forall|i: int|
            0 <= i < announcing_ports(ports, listen).len() ==> exists|j: int|
                0 <= j < ports.len() && (#[trigger] announcing_ports(ports, listen)[i]) == (
                #[trigger] ports[j]).id && keyboard_mode::listens(listen, ports[j].id)
                    && session_tab::sends_unproto(ports[j].config),
    decreases ports.len(),
{
    if ports.len() > 0 {
        let short = ports.drop_last();
        let before = announcing_ports(short, listen);
        law_announcing_ports(short, listen);
        assert forall|i: int| 0 <= i < announcing_ports(ports, listen).len() implies exists|j: int|
            0 <= j < ports.len() && (#[trigger] announcing_ports(ports, listen)[i]) == (
            #[trigger] ports[j]).id && keyboard_mode::listens(listen, ports[j].id)
                && session_tab::sends_unproto(ports[j].config) by {
            if i < before.len() {
                let j = choose|j: int|
                    0 <= j < short.len() && before[i] == (#[trigger] short[j]).id
                        && keyboard_mode::listens(listen, short[j].id)
                        && session_tab::sends_unproto(short[j].config);
                assert(ports[j] == short[j]);
            } else {
                assert(ports[ports.len() - 1] == ports.last());
            }
        }
    }
}

/// An announcement says what was written for it, with the callsign that it speaks of in
/// the place of the node, and nothing is announced of what is off or has no text.
pub proof fn law_announced_text(
    c: AppConfig,
    enabled: bool,
    call: Seq<char>,
    a: Seq<char>,
    b: Seq<char>,
    secs: u32,
    listen: Seq<Seq<char>>,
    r: Option<Announcement>,
)
    requires
        !a.contains('$'),
        !b.contains('$'),
        !call.contains('$'),
        !text::or_empty(text::opt_view(c.ui.name)).contains('$'),
        !text::or_empty(text::opt_view(c.ui.location)).contains('$'),
        announces(c, enabled, call, a + "$$NODE"@ + b, secs, listen, r),
    ensures
        enabled ==> r is Some && r->0.text@ == a + call + b && r->0.interval_secs == secs,
        !enabled ==> r is None,
{
    reveal_strlit("$$NODE");
    let vars = VarsView {
        node: call,
        name: text::or_empty(text::opt_view(c.ui.name)),
        loc: text::or_empty(text::opt_view(c.ui.location)),
        bbs_home: text::or_empty(text::opt_view(c.ui.home_bbs)),
    };
    crate::template_vars::law_placeholder_replaced(vars, a, b);
}

} // verus!
