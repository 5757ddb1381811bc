//! The configuration model: what is kept about ports, stations, messages and
//! preferences, with its defaults and the names of the files it is kept in.

use vstd::prelude::*;

use crate::text;

verus! {

/// What the items of a list hold.
pub open spec fn views<T: View>(v: Seq<T>) -> Seq<T::V> {
    v.map_values(|t: T| t@)
}

pub proof fn lemma_views_push<T: View>(v: Seq<T>, t: T)
    ensures
        views(v.push(t)) == views(v).push(t@),
{
    assert(views(v.push(t)) =~= views(v).push(t@));
}

// ---------------------------------------------------------------------------
// Ports
// ---------------------------------------------------------------------------

/// Transmit parameters of a KISS TNC; what is unset is left as the TNC has it.
#[derive(Debug, Clone, Copy, PartialEq, Eq, Default)]
pub struct KissParams {
    /// In units of 10 ms.
    pub tx_delay: Option<u8>,
    pub persistence: Option<u8>,
    /// In units of 10 ms.
    pub slot_time: Option<u8>,
    pub full_duplex: Option<bool>,
}

/// Tuning of the connected mode on a KISS port; what is unset takes its default.
#[derive(Debug, Clone, Copy, PartialEq, Eq, Default)]
pub struct KissArqParams {
    pub window: Option<u8>,
    pub t1_ms: Option<u32>,
    pub n2: Option<u32>,
    pub n1_bytes: Option<usize>,
}

/// Credentials for an AGWPE host that asks for them.
#[derive(Debug, PartialEq, Eq)]
pub struct AgwpeLogin {
    pub username: String,
    pub password: String,
}

impl Clone for AgwpeLogin {
    fn clone(&self) -> (r: Self)
        ensures
            r == *self,
    {
        AgwpeLogin {
            username: self.username.clone(),
            password: self.password.clone(),
        }
    }
}

/// How a port reaches its TNC or host.
#[derive(Debug)]
#[allow(inconsistent_fields)]
pub enum PortConfig {
    Telnet { host: String, port: u16 },
    Ssh { host: String, port: u16, user: String },
    Agwpe {
        host: String,
        port: u16,
        radio_port: u8,
        my_call: String,
        login: Option<AgwpeLogin>,
    },
    Ax25RawSocket { device: String },
    /// A KISS TNC reached over TCP.
    KissTcp {
        host: String,
        port: u16,
        my_call: String,
        kiss_params: KissParams,
        kiss_arq: KissArqParams,
    },
    /// A KISS TNC on a serial port.
    KissSerial {
        device: String,
        baud: u32,
        my_call: String,
        kiss_params: KissParams,
        kiss_arq: KissArqParams,
    },
}

#[verifier::ext_equal]
#[allow(inconsistent_fields)]
pub enum PortConfigView {
    Telnet { host: Seq<char>, port: u16 },
    Ssh { host: Seq<char>, port: u16, user: Seq<char> },
    Agwpe {
        host: Seq<char>,
        port: u16,
        radio_port: u8,
        my_call: Seq<char>,
        login: Option<(Seq<char>, Seq<char>)>,
    },
    Ax25RawSocket { device: Seq<char> },
    KissTcp {
        host: Seq<char>,
        port: u16,
        my_call: Seq<char>,
        kiss_params: KissParams,
        kiss_arq: KissArqParams,
    },
    KissSerial {
        device: Seq<char>,
        baud: u32,
        my_call: Seq<char>,
        kiss_params: KissParams,
        kiss_arq: KissArqParams,
    },
}

pub open spec fn login_view(o: Option<AgwpeLogin>) -> Option<(Seq<char>, Seq<char>)> {
    match o {
        Some(l) => Some((l.username@, l.password@)),
        None => None,
    }
}

impl View for PortConfig {
    type V = PortConfigView;

    open spec fn view(&self) -> PortConfigView {
        match *self {
            PortConfig::Telnet { host, port } => PortConfigView::Telnet { host: host@, port },
            PortConfig::Ssh { host, port, user } => PortConfigView::Ssh {
                host: host@,
                port,
                user: user@,
            },
            PortConfig::Agwpe { host, port, radio_port, my_call, login } => PortConfigView::Agwpe {
                host: host@,
                port,
                radio_port,
                my_call: my_call@,
                login: login_view(login),
            },
            PortConfig::Ax25RawSocket { device } => PortConfigView::Ax25RawSocket {
                device: device@,
            },
            PortConfig::KissTcp { host, port, my_call, kiss_params, kiss_arq } => PortConfigView::KissTcp {
                host: host@,
                port,
                my_call: my_call@,
                kiss_params,
                kiss_arq,
            },
            PortConfig::KissSerial { device, baud, my_call, kiss_params, kiss_arq } => PortConfigView::KissSerial {
                device: device@,
                baud,
                my_call: my_call@,
                kiss_params,
                kiss_arq,
            },
        }
    }
}

impl Clone for PortConfig {
    fn clone(&self) -> (r: Self)
        ensures
            r == *self,
    {
        match self {
            PortConfig::Telnet { host, port } => PortConfig::Telnet {
                host: host.clone(),
                port: *port,
            },
            PortConfig::Ssh { host, port, user } => PortConfig::Ssh {
                host: host.clone(),
                port: *port,
                user: user.clone(),
            },
            PortConfig::Agwpe { host, port, radio_port, my_call, login } => PortConfig::Agwpe {
                host: host.clone(),
                port: *port,
                radio_port: *radio_port,
                my_call: my_call.clone(),
                login: match login {
                    Some(l) => Some(l.clone()),
                    None => None,
                },
            },
            PortConfig::Ax25RawSocket { device } => PortConfig::Ax25RawSocket {
                device: device.clone(),
            },
            PortConfig::KissTcp { host, port, my_call, kiss_params, kiss_arq } => PortConfig::KissTcp {
                host: host.clone(),
                port: *port,
                my_call: my_call.clone(),
                kiss_params: *kiss_params,
                kiss_arq: *kiss_arq,
            },
            PortConfig::KissSerial { device, baud, my_call, kiss_params, kiss_arq } => PortConfig::KissSerial {
                device: device.clone(),
                baud: *baud,
                my_call: my_call.clone(),
                kiss_params: *kiss_params,
                kiss_arq: *kiss_arq,
            },
        }
    }
}

/// What the kind of a port is called.
pub open spec fn kind_name(c: PortConfig) -> Seq<char> {
    match c {
        PortConfig::Telnet { .. } => "Telnet"@,
        PortConfig::Ssh { .. } => "SSH"@,
        PortConfig::Agwpe { .. } => "AGWPE"@,
        PortConfig::Ax25RawSocket { .. } => "AX.25 raw socket"@,
        PortConfig::KissTcp { .. } => "KISS (TCP)"@,
        PortConfig::KissSerial { .. } => "KISS (Serial)"@,
    }
}

impl PortConfig {
    pub fn kind_label(&self) -> (r: &'static str)
        ensures
            r@ == kind_name(*self),
    {
        match self {
            PortConfig::Telnet { .. } => "Telnet",
            PortConfig::Ssh { .. } => "SSH",
            PortConfig::Agwpe { .. } => "AGWPE",
            PortConfig::Ax25RawSocket { .. } => "AX.25 raw socket",
            PortConfig::KissTcp { .. } => "KISS (TCP)",
            PortConfig::KissSerial { .. } => "KISS (Serial)",
        }
    }
}

/// One configured port. A favorite has a button of its own in the main window.
#[derive(Debug)]
pub struct PortEntry {
    pub id: String,
    pub name: String,
    pub config: PortConfig,
    pub autoconnect: bool,
    pub favorite: bool,
}

#[verifier::ext_equal]
pub struct PortView {
    pub id: Seq<char>,
    pub name: Seq<char>,
    pub config: PortConfigView,
    pub autoconnect: bool,
    pub favorite: bool,
}

impl View for PortEntry {
    type V = PortView;

    open spec fn view(&self) -> PortView {
        PortView {
            id: self.id@,
            name: self.name@,
            config: self.config@,
            autoconnect: self.autoconnect,
            favorite: self.favorite,
        }
    }
}

impl Clone for PortEntry {
    fn clone(&self) -> (r: Self)
        ensures
            r == *self,
    {
        PortEntry {
            id: self.id.clone(),
            name: self.name.clone(),
            config: self.config.clone(),
            autoconnect: self.autoconnect,
            favorite: self.favorite,
        }
    }
}

/// A copy of a list.
pub fn copy_list<T: View + Clone>(v: &Vec<T>) -> (r: Vec<T>)
    requires
        forall|a: &T, b: T| #[trigger] call_ensures(T::clone, (a,), b) ==> b@ == a@,
        forall|a: &T| #[trigger] call_requires(T::clone, (a,)),
    ensures
        views(r@) == views(v@),
{
    let mut r: Vec<T> = Vec::new();
    let mut i: usize = 0;
    assert(views(r@) =~= views(v@).take(0));
    while i < v.len()
        invariant
            forall|a: &T, b: T| #[trigger] call_ensures(T::clone, (a,), b) ==> b@ == a@,
            forall|a: &T| #[trigger] call_requires(T::clone, (a,)),
            i <= v.len(),
            views(r@) == views(v@).take(i as int),
        decreases v.len() - i,
    {
        let ghost before = r@;
        let item = v[i].clone();
        r.push(item);
        assert(views(r@) =~= views(before).push(v@[i as int]@));
        assert(views(v@).take(i + 1) =~= views(v@).take(i as int).push(v@[i as int]@));
        i += 1;
    }
    assert(views(v@).take(i as int) =~= views(v@));
    r
}

// ---------------------------------------------------------------------------
// Stations
// ---------------------------------------------------------------------------

/// A beacon text that a station sent, and when it last did.
#[derive(Debug, PartialEq, Eq)]
pub struct BeaconPacketLogEntry {
    pub text: String,
    pub when: String,
}

#[verifier::ext_equal]
pub struct BeaconTextView {
    pub text: Seq<char>,
    pub when: Seq<char>,
}

impl View for BeaconPacketLogEntry {
    type V = BeaconTextView;

    open spec fn view(&self) -> BeaconTextView {
        BeaconTextView {
            text: self.text@,
            when: self.when@,
        }
    }
}

impl Clone for BeaconPacketLogEntry {
    fn clone(&self) -> (r: Self)
        ensures
            r == *self,
    {
        BeaconPacketLogEntry {
            text: self.text.clone(),
            when: self.when.clone(),
        }
    }
}

/// A known station, entered by hand or heard.
#[derive(Debug)]
pub struct AddressBookEntry {
    /// In upper case; identifies the entry.
    pub callsign: String,
    pub name: Option<String>,
    /// A node or BBS alias, which is not the operator's name.
    pub alias: Option<String>,
    pub location: Option<String>,
    pub notes: Option<String>,
    /// Local time, or nothing for a station that was never heard.
    pub last_heard: Option<String>,
    pub heard_count: u32,
    /// A digipeater path, empty for a direct path.
    pub via: String,
    /// Where the station's own mail is kept.
    pub home_bbs: String,
    /// Heard by this station, not only named in a node's broadcast.
    pub heard_direct: bool,
    /// The last few beacon texts, the newest first.
    pub recent_beacons: Vec<BeaconPacketLogEntry>,
}

#[verifier::ext_equal]
pub struct EntryView {
    pub callsign: Seq<char>,
    pub name: Option<Seq<char>>,
    pub alias: Option<Seq<char>>,
    pub location: Option<Seq<char>>,
    pub notes: Option<Seq<char>>,
    pub last_heard: Option<Seq<char>>,
    pub heard_count: u32,
    pub via: Seq<char>,
    pub home_bbs: Seq<char>,
    pub heard_direct: bool,
    pub recent_beacons: Seq<BeaconTextView>,
}

impl View for AddressBookEntry {
    type V = EntryView;

    open spec fn view(&self) -> EntryView {
        EntryView {
            callsign: self.callsign@,
            name: text::opt_view(self.name),
            alias: text::opt_view(self.alias),
            location: text::opt_view(self.location),
            notes: text::opt_view(self.notes),
            last_heard: text::opt_view(self.last_heard),
            heard_count: self.heard_count,
            via: self.via@,
            home_bbs: self.home_bbs@,
            heard_direct: self.heard_direct,
            recent_beacons: views(self.recent_beacons@),
        }
    }
}

impl Clone for AddressBookEntry {
    fn clone(&self) -> (r: Self)
        ensures
            r@ == self@,
    {
        AddressBookEntry {
            callsign: self.callsign.clone(),
            name: text::copy_opt(&self.name),
            alias: text::copy_opt(&self.alias),
            location: text::copy_opt(&self.location),
            notes: text::copy_opt(&self.notes),
            last_heard: text::copy_opt(&self.last_heard),
            heard_count: self.heard_count,
            via: self.via.clone(),
            home_bbs: self.home_bbs.clone(),
            heard_direct: self.heard_direct,
            recent_beacons: copy_list(&self.recent_beacons),
        }
    }
}

/// A tab that comes back, disconnected, when the program starts.
#[derive(Debug, PartialEq, Eq)]
pub struct PinnedSession {
    pub port_id: String,
    pub remote: String,
    pub via: String,
}

#[verifier::ext_equal]
pub struct PinnedView {
    pub port_id: Seq<char>,
    pub remote: Seq<char>,
    pub via: Seq<char>,
}

impl View for PinnedSession {
    type V = PinnedView;

    open spec fn view(&self) -> PinnedView {
        PinnedView {
            port_id: self.port_id@,
            remote: self.remote@,
            via: self.via@,
        }
    }
}

impl Clone for PinnedSession {
    fn clone(&self) -> (r: Self)
        ensures
            r == *self,
    {
        PinnedSession {
            port_id: self.port_id.clone(),
            remote: self.remote.clone(),
            via: self.via.clone(),
        }
    }
}

/// Scrollback of one node as an early configuration file kept it.
#[derive(Debug, Clone, Default)]
pub struct NodeHistory {
    pub port_id: String,
    pub remote: String,
    pub unproto: bool,
    pub lines: Vec<String>,
}

/// A message left in the mailbox.
#[derive(Debug, PartialEq, Eq)]
pub struct MailboxMessage {
    pub id: u64,
    pub to: String,
    pub from: String,
    pub subject: String,
    pub body: String,
    pub timestamp: String,
    pub read: bool,
}

#[verifier::ext_equal]
pub struct MessageView {
    pub id: u64,
    pub to: Seq<char>,
    pub from: Seq<char>,
    pub subject: Seq<char>,
    pub body: Seq<char>,
    pub timestamp: Seq<char>,
    pub read: bool,
}

impl View for MailboxMessage {
    type V = MessageView;

    open spec fn view(&self) -> MessageView {
        MessageView {
            id: self.id,
            to: self.to@,
            from: self.from@,
            subject: self.subject@,
            body: self.body@,
            timestamp: self.timestamp@,
            read: self.read,
        }
    }
}

impl Clone for MailboxMessage {
    fn clone(&self) -> (r: Self)
        ensures
            r == *self,
    {
        MailboxMessage {
            id: self.id,
            to: self.to.clone(),
            from: self.from.clone(),
            subject: self.subject.clone(),
            body: self.body.clone(),
            timestamp: self.timestamp.clone(),
            read: self.read,
        }
    }
}

/// One two-way contact.
#[derive(Debug, PartialEq, Eq)]
pub struct QsoLogEntry {
    pub callsign: String,
    pub port_id: String,
    pub started: String,
    pub ended: Option<String>,
    /// The position that the station gave.
    pub location: Option<String>,
    /// Logged by the mailbox on the station's call.
    pub from_cq: bool,
}

#[verifier::ext_equal]
pub struct QsoView {
    pub callsign: Seq<char>,
    pub port_id: Seq<char>,
    pub started: Seq<char>,
    pub ended: Option<Seq<char>>,
    pub location: Option<Seq<char>>,
    pub from_cq: bool,
}

impl View for QsoLogEntry {
    type V = QsoView;

    open spec fn view(&self) -> QsoView {
        QsoView {
            callsign: self.callsign@,
            port_id: self.port_id@,
            started: self.started@,
            ended: text::opt_view(self.ended),
            location: text::opt_view(self.location),
            from_cq: self.from_cq,
        }
    }
}

impl Clone for QsoLogEntry {
    fn clone(&self) -> (r: Self)
        ensures
            r == *self,
    {
        QsoLogEntry {
            callsign: self.callsign.clone(),
            port_id: self.port_id.clone(),
            started: self.started.clone(),
            ended: text::copy_opt(&self.ended),
            location: text::copy_opt(&self.location),
            from_cq: self.from_cq,
        }
    }
}

/// A packet that raised a notification.
#[derive(Debug, PartialEq, Eq)]
pub struct NotifiedPacket {
    pub id: u64,
    pub port_id: String,
    pub line: String,
    pub timestamp: String,
}

#[verifier::ext_equal]
pub struct NotifiedView {
    pub id: u64,
    pub port_id: Seq<char>,
    pub line: Seq<char>,
    pub timestamp: Seq<char>,
}

impl View for NotifiedPacket {
    type V = NotifiedView;

    open spec fn view(&self) -> NotifiedView {
        NotifiedView {
            id: self.id,
            port_id: self.port_id@,
            line: self.line@,
            timestamp: self.timestamp@,
        }
    }
}

impl Clone for NotifiedPacket {
    fn clone(&self) -> (r: Self)
        ensures
            r == *self,
    {
        NotifiedPacket {
            id: self.id,
            port_id: self.port_id.clone(),
            line: self.line.clone(),
            timestamp: self.timestamp.clone(),
        }
    }
}

/// A frame that matched a beacon rule.
#[derive(Debug, PartialEq, Eq)]
pub struct IncomingBeacon {
    pub id: u64,
    pub port_id: String,
    pub from: String,
    pub to: String,
    pub message: String,
    pub timestamp: String,
}

#[verifier::ext_equal]
pub struct IncomingView {
    pub id: u64,
    pub port_id: Seq<char>,
    pub from: Seq<char>,
    pub to: Seq<char>,
    pub message: Seq<char>,
    pub timestamp: Seq<char>,
}

impl View for IncomingBeacon {
    type V = IncomingView;

    open spec fn view(&self) -> IncomingView {
        IncomingView {
            id: self.id,
            port_id: self.port_id@,
            from: self.from@,
            to: self.to@,
            message: self.message@,
            timestamp: self.timestamp@,
        }
    }
}

impl Clone for IncomingBeacon {
    fn clone(&self) -> (r: Self)
        ensures
            r == *self,
    {
        IncomingBeacon {
            id: self.id,
            port_id: self.port_id.clone(),
            from: self.from.clone(),
            to: self.to.clone(),
            message: self.message.clone(),
            timestamp: self.timestamp.clone(),
        }
    }
}

// ---------------------------------------------------------------------------
// Beacons and rules
// ---------------------------------------------------------------------------

/// A beacon that is sent at an interval while its port is connected.
#[derive(Debug, PartialEq, Eq)]
pub struct Beacon {
    pub id: String,
    pub port_id: String,
    pub dest: String,
    pub via: String,
    pub message: String,
    pub interval_secs: u32,
    pub enabled: bool,
    /// Shown first, and kept from removal.
    pub pinned: bool,
}

#[verifier::ext_equal]
pub struct BeaconView {
    pub id: Seq<char>,
    pub port_id: Seq<char>,
    pub dest: Seq<char>,
    pub via: Seq<char>,
    pub message: Seq<char>,
    pub interval_secs: u32,
    pub enabled: bool,
    pub pinned: bool,
}

impl View for Beacon {
    type V = BeaconView;

    open spec fn view(&self) -> BeaconView {
        BeaconView {
            id: self.id@,
            port_id: self.port_id@,
            dest: self.dest@,
            via: self.via@,
            message: self.message@,
            interval_secs: self.interval_secs,
            enabled: self.enabled,
            pinned: self.pinned,
        }
    }
}

impl Clone for Beacon {
    fn clone(&self) -> (r: Self)
        ensures
            r == *self,
    {
        Beacon {
            id: self.id.clone(),
            port_id: self.port_id.clone(),
            dest: self.dest.clone(),
            via: self.via.clone(),
            message: self.message.clone(),
            interval_secs: self.interval_secs,
            enabled: self.enabled,
            pinned: self.pinned,
        }
    }
}

/// A rule by which a frame counts as a beacon: a regular expression for its
/// destination, and a sender where one is asked for.
#[derive(Debug, PartialEq, Eq)]
pub struct BeaconMonitorRule {
    pub id: String,
    pub label: String,
    pub pattern: String,
    pub sender: String,
    pub enabled: bool,
    pub from_address_book: bool,
}

#[verifier::ext_equal]
pub struct RuleView {
    pub id: Seq<char>,
    pub label: Seq<char>,
    pub pattern: Seq<char>,
    pub sender: Seq<char>,
    pub enabled: bool,
    pub from_address_book: bool,
}

impl View for BeaconMonitorRule {
    type V = RuleView;

    open spec fn view(&self) -> RuleView {
        RuleView {
            id: self.id@,
            label: self.label@,
            pattern: self.pattern@,
            sender: self.sender@,
            enabled: self.enabled,
            from_address_book: self.from_address_book,
        }
    }
}

impl Clone for BeaconMonitorRule {
    fn clone(&self) -> (r: Self)
        ensures
            r == *self,
    {
        BeaconMonitorRule {
            id: self.id.clone(),
            label: self.label.clone(),
            pattern: self.pattern.clone(),
            sender: self.sender.clone(),
            enabled: self.enabled,
            from_address_book: self.from_address_book,
        }
    }
}

/// A rule that colors what it matches: words separated by commas or bars, or a
/// regular expression.
#[derive(Debug, PartialEq, Eq)]
pub struct HighlightRule {
    pub label: String,
    pub pattern: String,
    pub regex: bool,
    /// A color as style sheets write it.
    pub color: String,
    /// A frame to exactly such a destination also raises a notification.
    pub notify: bool,
    pub enabled: bool,
}

#[verifier::ext_equal]
pub struct HighlightView {
    pub label: Seq<char>,
    pub pattern: Seq<char>,
    pub regex: bool,
    pub color: Seq<char>,
    pub notify: bool,
    pub enabled: bool,
}

impl View for HighlightRule {
    type V = HighlightView;

    open spec fn view(&self) -> HighlightView {
        HighlightView {
            label: self.label@,
            pattern: self.pattern@,
            regex: self.regex,
            color: self.color@,
            notify: self.notify,
            enabled: self.enabled,
        }
    }
}

impl Clone for HighlightRule {
    fn clone(&self) -> (r: Self)
        ensures
            r == *self,
    {
        HighlightRule {
            label: self.label.clone(),
            pattern: self.pattern.clone(),
            regex: self.regex,
            color: self.color.clone(),
            notify: self.notify,
            enabled: self.enabled,
        }
    }
}

// ---------------------------------------------------------------------------
// Preferences
// ---------------------------------------------------------------------------

/// The personal mailbox; off unless enabled.
#[derive(Debug, Clone)]
pub struct MailboxPrefs {
    pub enabled: bool,
    /// The only callsign that the mailbox answers to.
    pub respond_call: String,
    /// Sent on connect in place of the banner, where it is not empty.
    pub intro_message: String,
    /// Announced at the interval while enabled, where it is not empty.
    pub beacon_text: String,
    pub beacon_interval_secs: u32,
    /// Identifiers of the ports to answer on; none means any.
    pub listen_ports: Vec<String>,
    pub messages: Vec<MailboxMessage>,
}

/// Keyboard-to-keyboard mode; off unless enabled.
#[derive(Debug, Clone)]
pub struct KeyboardModePrefs {
    pub enabled: bool,
    /// The callsign to answer as; empty stands for the station's own.
    pub node_call: String,
    pub welcome_message: String,
    pub beacon_text: String,
    pub beacon_interval_secs: u32,
    /// Identifiers of the ports to answer on; none means any.
    pub listen_ports: Vec<String>,
}

/// Running Direwolf as a child process.
#[derive(Debug, Clone, Default)]
pub struct DirewolfPrefs {
    pub auto_start: bool,
    pub config_text: String,
}

/// Which traffic raises a notification.
#[derive(Debug, Clone, Default)]
pub struct NotifyPrefs {
    pub directed_enabled: bool,
    pub custom_enabled: bool,
    pub beacon_enabled: bool,
    pub notification_sound: Option<String>,
}

/// One switch for all scheduled beacons.
#[derive(Debug, Clone, Copy)]
pub struct BeaconPrefs {
    pub enabled: bool,
}

/// Colors of the scrollback.
#[derive(Debug, Clone)]
pub struct HighlightPrefs {
    pub enabled: bool,
    pub callsign_color: String,
    pub known_callsign_color: String,
    pub my_call_color: String,
    pub ax25_command_color: String,
    pub rules: Vec<HighlightRule>,
}

/// General preferences.
#[derive(Debug, Clone)]
pub struct UiPrefs {
    /// A family name and, after a space, a size in points.
    pub font: Option<String>,
    pub show_timestamps: bool,
    pub show_monitor: bool,
    pub default_call: Option<String>,
    pub name: Option<String>,
    pub location: Option<String>,
    pub home_bbs: Option<String>,
    pub qrz_username: Option<String>,
    pub qrz_password: Option<String>,
    /// How many lines of a node's history are shown.
    pub history_lines: u32,
    /// How many lines the traffic view keeps.
    pub monitor_buffer_lines: u32,
    /// How many lines a tab shows.
    pub tab_buffer_max_lines: u32,
}

/// The whole configuration.
#[derive(Debug, Clone)]
pub struct AppConfig {
    pub ports: Vec<PortEntry>,
    pub ui: UiPrefs,
    pub address_book: Vec<AddressBookEntry>,
    pub pinned_sessions: Vec<PinnedSession>,
    pub highlighting: HighlightPrefs,
    pub beacons: Vec<Beacon>,
    pub beacon_prefs: BeaconPrefs,
    pub beacon_rules: Vec<BeaconMonitorRule>,
    pub incoming_beacons: Vec<IncomingBeacon>,
    pub qso_log: Vec<QsoLogEntry>,
    pub mailbox: MailboxPrefs,
    pub keyboard_mode: KeyboardModePrefs,
    pub notify: NotifyPrefs,
    pub notified_packets: Vec<NotifiedPacket>,
    pub direwolf: DirewolfPrefs,
}

// ---------------------------------------------------------------------------
// Defaults
// ---------------------------------------------------------------------------

pub const MAILBOX_BEACON_INTERVAL: u32 = 1200;

pub const KEYBOARD_BEACON_INTERVAL: u32 = 600;

pub const HISTORY_LINES: u32 = 1000;

pub const MONITOR_BUFFER_LINES: u32 = 5000;

pub const TAB_BUFFER_MAX_LINES: u32 = 25000;

/// The preferences that a mailbox starts with.
pub open spec fn fresh_mailbox(m: MailboxPrefs) -> bool {
    &&& !m.enabled
    &&& m.respond_call@.len() == 0
    &&& m.intro_message@.len() == 0
    &&& m.beacon_text@.len() == 0
    &&& m.beacon_interval_secs == MAILBOX_BEACON_INTERVAL
    &&& m.listen_ports@.len() == 0
    &&& m.messages@.len() == 0
}

impl Default for MailboxPrefs {
    fn default() -> (r: Self)
        ensures
            fresh_mailbox(r),
    {
        MailboxPrefs {
            enabled: false,
            respond_call: String::new(),
            intro_message: String::new(),
            beacon_text: String::new(),
            beacon_interval_secs: MAILBOX_BEACON_INTERVAL,
            listen_ports: Vec::new(),
            messages: Vec::new(),
        }
    }
}

/// The preferences that keyboard-to-keyboard mode starts with.
pub open spec fn fresh_keyboard_mode(k: KeyboardModePrefs) -> bool {
    &&& !k.enabled
    &&& k.node_call@.len() == 0
    &&& k.welcome_message@.len() == 0
    &&& k.beacon_text@.len() == 0
    &&& k.beacon_interval_secs == KEYBOARD_BEACON_INTERVAL
    &&& k.listen_ports@.len() == 0
}

impl Default for KeyboardModePrefs {
    fn default() -> (r: Self)
        ensures
            fresh_keyboard_mode(r),
    {
        KeyboardModePrefs {
            enabled: false,
            node_call: String::new(),
            welcome_message: String::new(),
            beacon_text: String::new(),
            beacon_interval_secs: KEYBOARD_BEACON_INTERVAL,
            listen_ports: Vec::new(),
        }
    }
}

impl Default for BeaconPrefs {
    fn default() -> (r: Self)
        ensures
            r.enabled,
    {
        BeaconPrefs { enabled: true }
    }
}

/// The rules that highlighting starts with.
pub open spec fn starting_rules() -> Seq<HighlightView> {
    seq![
        HighlightView {
            label: "CQ"@,
            pattern: "CQ"@,
            regex: false,
            color: "#FFD700"@,
            notify: false,
            enabled: true,
        },
        HighlightView {
            label: "BEACON/IDENT"@,
            pattern: "BEACON,IDENT"@,
            regex: false,
            color: "#FF8C00"@,
            notify: false,
            enabled: true,
        },
    ]
}

pub fn default_rules() -> (r: Vec<HighlightRule>)
    ensures
        views(r@) == starting_rules(),
{
    let mut r: Vec<HighlightRule> = Vec::new();
    r.push(
        HighlightRule {
            label: text::owned("CQ"),
            pattern: text::owned("CQ"),
            regex: false,
            color: text::owned("#FFD700"),
            notify: false,
            enabled: true,
        },
    );
    r.push(
        HighlightRule {
            label: text::owned("BEACON/IDENT"),
            pattern: text::owned("BEACON,IDENT"),
            regex: false,
            color: text::owned("#FF8C00"),
            notify: false,
            enabled: true,
        },
    );
    assert(views(r@) =~= starting_rules());
    r
}

/// The colors and rules that highlighting starts with.
pub open spec fn fresh_highlighting(h: HighlightPrefs) -> bool {
    &&& h.enabled
    &&& h.callsign_color@ == "#4FC1FF"@
    &&& h.known_callsign_color@ == "#B5CEA8"@
    &&& h.my_call_color@ == "#FF5555"@
    &&& h.ax25_command_color@ == "#C586C0"@
    &&& views(h.rules@) == starting_rules()
}

impl Default for HighlightPrefs {
    fn default() -> (r: Self)
        ensures
            fresh_highlighting(r),
    {
        HighlightPrefs {
            enabled: true,
            callsign_color: text::owned("#4FC1FF"),
            known_callsign_color: text::owned("#B5CEA8"),
            my_call_color: text::owned("#FF5555"),
            ax25_command_color: text::owned("#C586C0"),
            rules: default_rules(),
        }
    }
}

/// The general preferences at the start.
pub open spec fn fresh_ui(u: UiPrefs) -> bool {
    &&& u.font is None
    &&& u.show_timestamps
    &&& u.show_monitor
    &&& u.default_call is None
    &&& u.name is None
    &&& u.location is None
    &&& u.home_bbs is None
    &&& u.qrz_username is None
    &&& u.qrz_password is None
    &&& u.history_lines == HISTORY_LINES
    &&& u.monitor_buffer_lines == MONITOR_BUFFER_LINES
    &&& u.tab_buffer_max_lines == TAB_BUFFER_MAX_LINES
}

impl Default for UiPrefs {
    fn default() -> (r: Self)
        ensures
            fresh_ui(r),
    {
        UiPrefs {
            font: None,
            show_timestamps: true,
            show_monitor: true,
            default_call: None,
            name: None,
            location: None,
            home_bbs: None,
            qrz_username: None,
            qrz_password: None,
            history_lines: HISTORY_LINES,
            monitor_buffer_lines: MONITOR_BUFFER_LINES,
            tab_buffer_max_lines: TAB_BUFFER_MAX_LINES,
        }
    }
}

impl Default for AppConfig {
    /// No ports, stations, contacts or messages, and every preference at its start.
    fn default() -> (r: Self)
        ensures
            r.ports@.len() == 0,
            fresh_ui(r.ui),
            r.address_book@.len() == 0,
            r.pinned_sessions@.len() == 0,
            fresh_highlighting(r.highlighting),
            r.beacons@.len() == 0,
            r.beacon_prefs.enabled,
            r.beacon_rules@.len() == 0,
            r.incoming_beacons@.len() == 0,
            r.qso_log@.len() == 0,
            fresh_mailbox(r.mailbox),
            fresh_keyboard_mode(r.keyboard_mode),
            !r.notify.directed_enabled,
            !r.notify.custom_enabled,
            !r.notify.beacon_enabled,
            r.notify.notification_sound is None,
            r.notified_packets@.len() == 0,
            !r.direwolf.auto_start,
            r.direwolf.config_text@.len() == 0,
    {
        AppConfig {
            ports: Vec::new(),
            ui: UiPrefs::default(),
            address_book: Vec::new(),
            pinned_sessions: Vec::new(),
            highlighting: HighlightPrefs::default(),
            beacons: Vec::new(),
            beacon_prefs: BeaconPrefs::default(),
            beacon_rules: Vec::new(),
            incoming_beacons: Vec::new(),
            qso_log: Vec::new(),
            mailbox: MailboxPrefs::default(),
            keyboard_mode: KeyboardModePrefs::default(),
            notify: NotifyPrefs {
                directed_enabled: false,
                custom_enabled: false,
                beacon_enabled: false,
                notification_sound: None,
            },
            notified_packets: Vec::new(),
            direwolf: DirewolfPrefs { auto_start: false, config_text: String::new() },
        }
    }
}

// ---------------------------------------------------------------------------
// Files
// ---------------------------------------------------------------------------

/// `name` inside the directory `dir`.
pub open spec fn path_in(dir: Seq<char>, name: Seq<char>) -> Seq<char> {
    if dir.len() == 0 || dir.last() == '/' {
        dir + name
    } else {
        dir + seq!['/'] + name
    }
}

pub fn join_path(dir: &str, name: &str) -> (r: String)
    ensures
        r@ == path_in(dir@, name@),
{
    let v = text::chars_of(dir);
    let mut r = text::owned(dir);
    if v.len() > 0 && v[v.len() - 1] != '/' {
        r.push('/');
        assert(r@ =~= dir@ + seq!['/']);
    }
    r.append(name);
    r
}

impl AppConfig {
    /// The file of the general preferences, where there is a configuration
    /// directory.
    pub fn config_path(config_dir: Option<&str>) -> (r: Option<String>)
        ensures
            text::opt_view(r) == match config_dir {
                Some(dir) => Some(path_in(dir@, "config.toml"@)),
                None => None,
            },
    {
        match config_dir {
            Some(dir) => Some(join_path(dir, "config.toml")),
            None => None,
        }
    }

    pub fn ports_path(dir: &str) -> (r: String)
        ensures
            r@ == path_in(dir@, "ports.toml"@),
    {
        join_path(dir, "ports.toml")
    }

    pub fn address_book_path(dir: &str) -> (r: String)
        ensures
            r@ == path_in(dir@, "address_book.toml"@),
    {
        join_path(dir, "address_book.toml")
    }

    pub fn qso_log_path(dir: &str) -> (r: String)
        ensures
            r@ == path_in(dir@, "qso_log.toml"@),
    {
        join_path(dir, "qso_log.toml")
    }

    pub fn notified_packets_path(dir: &str) -> (r: String)
        ensures
            r@ == path_in(dir@, "notified_packets.toml"@),
    {
        join_path(dir, "notified_packets.toml")
    }

    pub fn rules_path(dir: &str) -> (r: String)
        ensures
            r@ == path_in(dir@, "rules.toml"@),
    {
        join_path(dir, "rules.toml")
    }

    pub fn pinned_sessions_path(dir: &str) -> (r: String)
        ensures
            r@ == path_in(dir@, "pinned_sessions.toml"@),
    {
        join_path(dir, "pinned_sessions.toml")
    }

    pub fn beacons_path(dir: &str) -> (r: String)
        ensures
            r@ == path_in(dir@, "beacons.toml"@),
    {
        join_path(dir, "beacons.toml")
    }

    pub fn mailbox_path(dir: &str) -> (r: String)
        ensures
            r@ == path_in(dir@, "mailbox.toml"@),
    {
        join_path(dir, "mailbox.toml")
    }

    pub fn beacon_rules_path(dir: &str) -> (r: String)
        ensures
            r@ == path_in(dir@, "beacon_rules.toml"@),
    {
        join_path(dir, "beacon_rules.toml")
    }

    pub fn incoming_beacons_path(dir: &str) -> (r: String)
        ensures
            r@ == path_in(dir@, "incoming_beacons.toml"@),
    {
        join_path(dir, "incoming_beacons.toml")
    }

}

/// The text of a file of lines: each line with its end.
pub open spec fn file_text(lines: Seq<Seq<char>>) -> Seq<char> {
    if lines.len() == 0 {
        Seq::empty()
    } else {
        text::joined(lines, seq!['\n']).push('\n')
    }
}

/// The name of the port `id`, or the identifier itself where no port has it.
pub open spec fn name_or_id(ports: Seq<PortView>, id: Seq<char>) -> Seq<char>
    decreases ports.len(),
{
    if ports.len() == 0 {
        id
    } else if ports[0].id == id {
        ports[0].name
    } else {
        name_or_id(ports.skip(1), id)
    }
}

pub fn port_name(ports: &Vec<PortEntry>, id: &str) -> (r: String)
    ensures
        r@ == name_or_id(views(ports@), id@),
{
    let ghost all = views(ports@);
    let mut i: usize = 0;
    assert(all.skip(0) =~= all);
    while i < ports.len()
        invariant
            i <= ports.len(),
            all == views(ports@),
            name_or_id(all, id@) == name_or_id(all.skip(i as int), id@),
        decreases ports.len() - i,
    {
        assert(all.skip(i as int)[0] == ports@[i as int]@);
        if text::eq_str(ports[i].id.as_str(), id) {
            return ports[i].name.clone();
        }
        assert(all.skip(i as int).skip(1) =~= all.skip(i + 1));
        i += 1;
    }
    text::owned(id)
}

/// What becomes of a node's history in an early configuration file: the name of
/// its port, its node and the text of its own file. History of unconnected traffic
/// is not kept.
pub fn migrated_history(h: &NodeHistory, ports: &Vec<PortEntry>) -> (r: Option<(String, String, String)>)
    ensures
        match r {
            Some((port, node, content)) => {
                &&& !h.unproto
                &&& port@ == name_or_id(views(ports@), h.port_id@)
                &&& node@ == h.remote@
                &&& content@ == file_text(text::texts(h.lines@))
            },
            None => h.unproto,
        },
{
    if h.unproto {
        return None;
    }
    let port = port_name(ports, h.port_id.as_str());
    let mut content = text::join(&h.lines, "\n");
    proof {
        reveal_strlit("\n");
        assert("\n"@ =~= seq!['\n']);
    }
    if h.lines.len() > 0 {
        content.push('\n');
    } else {
        assert(content@ =~= Seq::<char>::empty());
    }
    Some((port, h.remote.clone(), content))
}

/// A file of unconnected history, which nothing reads any more.
pub open spec fn is_orphaned(name: Seq<char>) -> bool {
    name.len() >= 12 && name.skip(name.len() - 12) == "_unproto.txt"@
}

pub fn is_orphaned_history(name: &str) -> (r: bool)
    ensures
        r == is_orphaned(name@),
{
    let v = text::chars_of(name);
    if v.len() < 12 {
        return false;
    }
    let end = text::substring(&v, v.len() - 12, v.len());
    assert(end@ =~= name@.skip(name@.len() - 12));
    text::eq_str(end.as_str(), "_unproto.txt")
}

/// An early configuration file is split once: when there is a general file and no
/// file of ports yet.
pub fn needs_migration(main_exists: bool, ports_exist: bool) -> (r: bool)
    ensures
        r == (main_exists && !ports_exist),
{
    main_exists && !ports_exist
}

} // verus!
