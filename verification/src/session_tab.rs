//! A tab for one connection, without its widgets: its identity, what is buffered
//! of the incoming text, and its traffic counters.

use vstd::prelude::*;
use vstd::utf8::*;

use crate::config::{self, PortConfig, PortConfigView, PortEntry, PortView};
use crate::highlight::{self, Highlighter, HighlighterView, Span, SpanView};
use crate::mailbox::{self, MailboxState, StateView};
use crate::port::ConnectionId;
use crate::text;

verus! {

pub type TabId = u64;

// ---------------------------------------------------------------------------
// What a kind of port can do
// ---------------------------------------------------------------------------

pub open spec fn connects(c: PortConfigView) -> bool {
    c is Agwpe || c is Ax25RawSocket
}

/// Whether a connection to a given station can be opened on such a port.
pub fn port_supports_connect(config: &PortConfig) -> (r: bool)
    ensures
        r == connects(config@),
{
    match config {
        PortConfig::Agwpe { .. } => true,
        PortConfig::Ax25RawSocket { .. } => true,
        _ => false,
    }
}

/// The port itself is the session: there are no nodes to name, and where others have
/// a path stands the line to send first.
pub open spec fn is_terminal(c: PortConfigView) -> bool {
    c is Telnet || c is Ssh
}

/// Whether such a port is itself the session.
pub fn port_is_terminal(config: &PortConfig) -> (r: bool)
    ensures
        r == is_terminal(config@),
{
    match config {
        PortConfig::Telnet { .. } => true,
        PortConfig::Ssh { .. } => true,
        _ => false,
    }
}

/// A path or first line as it is kept: a path without white space around it and in
/// upper case, a first line as it was typed.
pub open spec fn path_text(c: PortConfigView, s: Seq<char>) -> Seq<char> {
    if is_terminal(c) {
        s
    } else {
        text::call_text(s)
    }
}

/// What is kept of a path or first line.
pub fn typed_path(config: &PortConfig, s: &str) -> (r: String)
    ensures
        r@ == path_text(config@, s@),
{
    if port_is_terminal(config) {
        text::owned(s)
    } else {
        text::trim_upper(s)
    }
}

pub open spec fn dialable(c: PortConfigView) -> bool {
    connects(c) || is_terminal(c)
}

/// Whether such a port can be dialed: also those where the port is the session.
pub fn port_dialable(config: &PortConfig) -> (r: bool)
    ensures
        r == dialable(config@),
{
    port_supports_connect(config) || port_is_terminal(config)
}

pub open spec fn sends_unproto(c: PortConfigView) -> bool {
    c is Agwpe || c is KissTcp || c is KissSerial
}

/// Whether such a port sends unconnected frames. A socket of the kernel knows
/// connections only.
pub fn port_supports_unproto(config: &PortConfig) -> (r: bool)
    ensures
        r == sends_unproto(config@),
{
    match config {
        PortConfig::Agwpe { .. } => true,
        PortConfig::KissTcp { .. } => true,
        PortConfig::KissSerial { .. } => true,
        _ => false,
    }
}

// ---------------------------------------------------------------------------
// Lines out of chunks
// ---------------------------------------------------------------------------

/// The lines that end in `s`, without their ends.
pub open spec fn complete_lines(s: Seq<char>) -> Seq<Seq<char>>
    decreases s.len(),
    via complete_lines_decreases
{
    let i = text::char_index(s, '\n');
    if i >= s.len() {
        Seq::empty()
    } else {
        seq![text::without_line_end(s.take(i + 1))] + complete_lines(s.skip(i + 1))
    }
}

#[via_fn]
proof fn complete_lines_decreases(s: Seq<char>) {
    text::lemma_char_index(s, '\n');
}

/// What follows the last line end.
pub open spec fn unfinished(s: Seq<char>) -> Seq<char>
    decreases s.len(),
    via unfinished_decreases
{
    let i = text::char_index(s, '\n');
    if i >= s.len() {
        s
    } else {
        unfinished(s.skip(i + 1))
    }
}

#[via_fn]
proof fn unfinished_decreases(s: Seq<char>) {
    text::lemma_char_index(s, '\n');
}

/// Appends `chunk` to `buffer` and takes the lines out that are complete.
pub fn take_lines(buffer: &mut String, chunk: &str) -> (r: Vec<String>)
    ensures
        text::texts(r@) == complete_lines(old(buffer)@ + chunk@),
        final(buffer)@ == unfinished(old(buffer)@ + chunk@),
{
    let mut whole = buffer.clone();
    whole.append(chunk);
    let ghost s = whole@;
    let mut rest = text::chars_of(whole.as_str());
    let mut out = text::no_texts();
    assert(text::texts(out@) + complete_lines(s) =~= complete_lines(s));
    loop
        invariant
            text::texts(out@) + complete_lines(rest@) == complete_lines(s),
            unfinished(rest@) == unfinished(s),
            s == old(buffer)@ + chunk@,
        decreases rest@.len(),
    {
        let i: usize = text::find_char(&rest, '\n');
        let ghost at = rest@;
        let ghost before = text::texts(out@);
        if i == rest.len() {
            proof {
                assert(before + complete_lines(at) =~= before);
            }
            *buffer = text::string_of(&rest);
            return out;
        }
        let mut line: Vec<char> = Vec::new();
        let mut k: usize = 0;
        while k <= i
            invariant
                k <= i + 1,
                i < rest.len(),
                line@ == rest@.take(k as int),
            decreases i + 1 - k,
        {
            line.push(rest[k]);
            assert(rest@.take(k + 1) =~= rest@.take(k as int).push(rest@[k as int]));
            k += 1;
        }
        let t = text::trim_line_end(&line);
        text::add_text(&mut out, t);
        rest = text::tail(&rest, i + 1);
        assert(text::texts(out@) + complete_lines(rest@) =~= before + complete_lines(at));
    }
}

proof fn lemma_index_in_sum(a: Seq<char>, b: Seq<char>)
    ensures
        text::char_index(a, '\n') < a.len() ==> text::char_index(a + b, '\n') == text::char_index(
            a,
            '\n',
        ),
{
    text::lemma_char_index(a, '\n');
    let i = text::char_index(a, '\n');
    if i < a.len() {
        assert((a + b)[i] == '\n');
        assert forall|j: int| 0 <= j < i implies (a + b)[j] != '\n' by {
            assert((a + b)[j] == a[j]);
        }
        text::lemma_char_index_unique(a + b, '\n', i);
    }
}

/// It makes no difference how text is cut into chunks: the lines of two chunks are
/// those of the first, and those of what it left unfinished with the second.
pub proof fn law_lines_in_pieces(a: Seq<char>, b: Seq<char>)
    ensures
        complete_lines(a + b) == complete_lines(a) + complete_lines(unfinished(a) + b),
        unfinished(a + b) == unfinished(unfinished(a) + b),
    decreases a.len(),
{
    text::lemma_char_index(a, '\n');
    let i = text::char_index(a, '\n');
    if i < a.len() {
        lemma_index_in_sum(a, b);
        let rest = a.skip(i + 1);
        law_lines_in_pieces(rest, b);
        assert((a + b).skip(i + 1) =~= rest + b);
        assert((a + b).take(i + 1) =~= a.take(i + 1));
        assert(complete_lines(a + b) =~= complete_lines(a) + complete_lines(unfinished(a) + b));
    } else {
        assert(complete_lines(a) + complete_lines(a + b) =~= complete_lines(a + b));
    }
}

// ---------------------------------------------------------------------------
// The tab
// ---------------------------------------------------------------------------

/// A tab. Its port, node and path stay the same for its whole life.
#[derive(Debug)]
pub struct SessionTab {
    pub port: PortEntry,
    pub node: String,
    /// A digipeater path, or the line to send first on a Telnet or SSH port.
    pub via_raw: String,
    /// Sends unconnected frames and has no connection.
    pub unproto: bool,
    pub conn_id: Option<ConnectionId>,
    /// When the connection was made, in seconds.
    pub connected_since: Option<u64>,
    pub pending_line: String,
    pub pinned: bool,
    /// The port and node under which the tab is pinned.
    pub pinned_identity: Option<(String, String)>,
    pub bytes_sent: u64,
    pub bytes_received: u64,
    pub packets_sent: u64,
    pub packets_received: u64,
    /// Set while the mailbox answers.
    pub mailbox_state: Option<MailboxState>,
    pub mailbox_input: String,
}

#[verifier::ext_equal]
pub struct TabView {
    pub port: PortView,
    pub node: Seq<char>,
    pub via_raw: Seq<char>,
    pub unproto: bool,
    pub conn_id: Option<ConnectionId>,
    pub connected_since: Option<u64>,
    pub pending_line: Seq<char>,
    pub pinned: bool,
    pub pinned_identity: Option<(Seq<char>, Seq<char>)>,
    pub bytes_sent: u64,
    pub bytes_received: u64,
    pub packets_sent: u64,
    pub packets_received: u64,
    pub mailbox_state: Option<StateView>,
    pub mailbox_input: Seq<char>,
}

pub open spec fn identity_view(o: Option<(String, String)>) -> Option<(Seq<char>, Seq<char>)> {
    match o {
        Some((p, n)) => Some((p@, n@)),
        None => None,
    }
}

impl View for SessionTab {
    type V = TabView;

    open spec fn view(&self) -> TabView {
        TabView {
            port: self.port@,
            node: self.node@,
            via_raw: self.via_raw@,
            unproto: self.unproto,
            conn_id: self.conn_id,
            connected_since: self.connected_since,
            pending_line: self.pending_line@,
            pinned: self.pinned,
            pinned_identity: identity_view(self.pinned_identity),
            bytes_sent: self.bytes_sent,
            bytes_received: self.bytes_received,
            packets_sent: self.packets_sent,
            packets_received: self.packets_received,
            mailbox_state: mailbox::dialogue(self.mailbox_state),
            mailbox_input: self.mailbox_input@,
        }
    }
}

/// A counter that wraps around at its end.
pub open spec fn counted(n: u64, more: nat) -> u64 {
    ((n + more) % 0x1_0000_0000_0000_0000) as u64
}

fn count(n: u64, more: usize) -> (r: u64)
    ensures
        r == counted(n, more as nat),
{
    n.wrapping_add(more as u64)
}

/// The digipeater path that a text names: what stands between commas and white space,
/// in upper case.
pub open spec fn path_of(s: Seq<char>) -> Seq<Seq<char>> {
    text::upper_texts(text::words_between(s, ','))
}

pub fn parse_path(s: &str) -> (r: Vec<String>)
    ensures
        text::texts(r@) == path_of(s@),
{
    let items = text::split_words(s, ',');
    text::to_upper_list(&items)
}

impl TabView {
    /// The tab after text came in: it is counted as it came, and lines are made of
    /// it without its zero characters.
    pub open spec fn received(self, t: Seq<char>) -> TabView {
        TabView {
            bytes_received: counted(self.bytes_received, encode_utf8(t).len()),
            packets_received: counted(self.packets_received, 1),
            pending_line: unfinished(self.pending_line + text::without(t, '\0')),
            ..self
        }
    }

    /// The lines that the text completes.
    pub open spec fn received_lines(self, t: Seq<char>) -> Seq<Seq<char>> {
        complete_lines(self.pending_line + text::without(t, '\0'))
    }

    pub open spec fn sent(self, t: Seq<char>) -> TabView {
        TabView {
            bytes_sent: counted(self.bytes_sent, encode_utf8(t).len()),
            packets_sent: counted(self.packets_sent, 1),
            ..self
        }
    }

    pub open spec fn disconnected(self) -> TabView {
        TabView { conn_id: None, connected_since: None, ..self }
    }
}

/// A line that this station sent, as it is shown and kept.
pub open spec fn sent_line(t: Seq<char>) -> Seq<char> {
    "\u{BB} "@ + t
}

impl SessionTab {
    pub fn new(port: PortEntry, node: String, via_raw: String) -> (r: Self)
        ensures
            r@ == (TabView {
                port: port@,
                node: node@,
                via_raw: via_raw@,
                unproto: false,
                conn_id: None,
                connected_since: None,
                pending_line: Seq::empty(),
                pinned: false,
                pinned_identity: None,
                bytes_sent: 0,
                bytes_received: 0,
                packets_sent: 0,
                packets_received: 0,
                mailbox_state: None,
                mailbox_input: Seq::empty(),
            }),
    {
        let r = SessionTab {
            port,
            node,
            via_raw,
            unproto: false,
            conn_id: None,
            connected_since: None,
            pending_line: String::new(),
            pinned: false,
            pinned_identity: None,
            bytes_sent: 0,
            bytes_received: 0,
            packets_sent: 0,
            packets_received: 0,
            mailbox_state: None,
            mailbox_input: String::new(),
        };
        assert(r@.pending_line =~= Seq::<char>::empty());
        assert(r@.mailbox_input =~= Seq::<char>::empty());
        r
    }

    /// The tab's digipeater path.
    pub fn via(&self) -> (r: Vec<String>)
        ensures
            text::texts(r@) == path_of(self@.via_raw),
    {
        parse_path(self.via_raw.as_str())
    }

    /// Takes text for the mailbox. Gives the lines that it completes.
    pub fn take_mailbox_lines(&mut self, chunk: &str) -> (r: Vec<String>)
        ensures
            text::texts(r@) == complete_lines(old(self)@.mailbox_input + chunk@),
            final(self)@ == (TabView {
                mailbox_input: unfinished(old(self)@.mailbox_input + chunk@),
                ..old(self)@
            }),
    {
        take_lines(&mut self.mailbox_input, chunk)
    }

    /// Under what the tab's history is kept: its port and its node.
    pub fn history_key(&self) -> (r: (String, String))
        ensures
            r.0@ == self@.port.id,
            r.1@ == self@.node,
    {
        (self.port.id.clone(), self.node.clone())
    }

    /// Takes received text. Gives the lines that it completes, to be kept.
    pub fn receive_data(&mut self, t: &str) -> (r: Vec<String>)
        ensures
            text::texts(r@) == old(self)@.received_lines(t@),
            final(self)@ == old(self)@.received(t@),
    {
        self.bytes_received = count(self.bytes_received, t.as_bytes().len());
        self.packets_received = count(self.packets_received, 1);
        let clean = text::remove_char(t, '\0');
        take_lines(&mut self.pending_line, clean.as_str())
    }

    /// Gives up the unfinished line, to be kept, where there is one.
    pub fn flush_pending(&mut self) -> (r: Option<String>)
        ensures
            text::opt_view(r) == (if old(self)@.pending_line.len() > 0 {
                Some(text::without_line_end(old(self)@.pending_line))
            } else {
                None
            }),
            final(self)@ == (TabView { pending_line: Seq::empty(), ..old(self)@ }),
    {
        let v = text::chars_of(self.pending_line.as_str());
        let r = if v.len() > 0 {
            Some(text::trim_line_end(&v))
        } else {
            None
        };
        self.pending_line = String::new();
        assert(self@.pending_line =~= Seq::<char>::empty());
        r
    }

    /// Counts a line that was sent. Gives it as it is shown and kept.
    pub fn append_sent_line(&mut self, t: &str) -> (r: String)
        ensures
            r@ == sent_line(t@),
            final(self)@ == old(self)@.sent(t@),
    {
        self.bytes_sent = count(self.bytes_sent, t.as_bytes().len());
        self.packets_sent = count(self.packets_sent, 1);
        let mut r = text::owned("\u{BB} ");
        r.append(t);
        r
    }

    pub fn mark_connected(&mut self, now: u64)
        ensures
            final(self)@ == (TabView { connected_since: Some(now), ..old(self)@ }),
    {
        self.connected_since = Some(now);
    }

    pub fn mark_disconnected(&mut self)
        ensures
            final(self)@ == (TabView { connected_since: None, ..old(self)@ }),
    {
        self.connected_since = None;
    }

    /// How long the connection stands, where there is one.
    pub fn elapsed_text(&self, now: u64) -> (r: Option<String>)
        ensures
            text::opt_view(r) == match self@.connected_since {
                Some(since) => Some(
                    duration_text(
                        if now >= since {
                            (now - since) as nat
                        } else {
                            0
                        },
                    ),
                ),
                None => None,
            },
    {
        match self.connected_since {
            Some(since) => {
                let secs: u64 = if now >= since {
                    now - since
                } else {
                    0
                };
                let mut r = text::decimal_text(secs / 3600);
                r.append(":");
                r.append(text::padded_decimal((secs % 3600) / 60, 2, '0').as_str());
                r.append(":");
                r.append(text::padded_decimal(secs % 60, 2, '0').as_str());
                Some(r)
            },
            None => None,
        }
    }
}

/// Seconds as hours, minutes and seconds.
pub open spec fn duration_text(secs: nat) -> Seq<char> {
    text::decimal(secs / 3600) + ":"@ + text::padded(text::decimal((secs % 3600) / 60), 2, '0')
        + ":"@ + text::padded(text::decimal(secs % 60), 2, '0')
}

/// A message about the connection, as it is shown.
pub fn status_line(t: &str) -> (r: String)
    ensures
        r@ == "\u{2014} "@ + t@ + " \u{2014}\n"@,
{
    let mut r = text::owned("\u{2014} ");
    r.append(t);
    r.append(" \u{2014}\n");
    r
}

/// The text that shows a node's history.
pub fn history_text(lines: &Vec<String>) -> (r: String)
    ensures
        r@ == config::file_text(text::texts(lines@)),
{
    let mut r = text::join(lines, "\n");
    proof {
        reveal_strlit("\n");
        assert("\n"@ =~= seq!['\n']);
    }
    if lines.len() > 0 {
        r.push('\n');
    } else {
        assert(r@ =~= Seq::<char>::empty());
    }
    r
}

/// How many of the oldest lines give way when `incoming` lines come to `current`
/// and at most `max` are shown.
pub fn lines_to_trim(current: usize, incoming: usize, max: u32) -> (r: usize)
    requires
        current + incoming <= usize::MAX,
    ensures
        r == (if current + incoming > max {
            current + incoming - max
        } else {
            0
        }),
{
    let projected: usize = current + incoming;
    if projected as u64 <= max as u64 {
        0
    } else {
        projected - max as usize
    }
}

// ---------------------------------------------------------------------------
// Colors
// ---------------------------------------------------------------------------

/// The spans of one line.
pub open spec fn line_spans(h: HighlighterView, line: Seq<char>) -> Seq<SpanView> {
    highlight::all_spans(
        h,
        line,
        highlight::found_spans(highlight::tag_pattern(), false, line),
        highlight::found_spans(highlight::callsign_pattern(), false, line),
        highlight::rules_found(h.rules, line),
    )
}

/// The spans of every complete line of a text that stands at `offset`.
pub open spec fn block_spans(h: HighlighterView, offset: int, s: Seq<char>) -> Seq<SpanView>
    decreases s.len(),
    via block_spans_decreases
{
    let i = text::char_index(s, '\n');
    if i >= s.len() {
        Seq::empty()
    } else {
        highlight::shifted(line_spans(h, s.take(i)), offset) + block_spans(
            h,
            offset + i + 1,
            s.skip(i + 1),
        )
    }
}

#[via_fn]
proof fn block_spans_decreases(h: HighlighterView, offset: int, s: Seq<char>) {
    text::lemma_char_index(s, '\n');
}

/// The parts to color of every complete line of `s`, which stands at `offset` in
/// the scrollback.
pub fn highlight_new_lines(h: &Highlighter, offset: usize, s: &str) -> (r: Vec<Span>)
    requires
        offset + s@.len() <= usize::MAX,
    ensures
        config::views(r@) == block_spans(h@, offset as int, s@),
{
    let mut rest = text::chars_of(s);
    let mut at: usize = offset;
    let mut out: Vec<Span> = Vec::new();
    assert(config::views(out@) + block_spans(h@, at as int, s@) =~= block_spans(
        h@,
        offset as int,
        s@,
    ));
    loop
        invariant
            at + rest@.len() <= usize::MAX,
            config::views(out@) + block_spans(h@, at as int, rest@) == block_spans(
                h@,
                offset as int,
                s@,
            ),
        decreases rest@.len(),
    {
        let i: usize = text::find_char(&rest, '\n');
        let ghost before = config::views(out@);
        let ghost now = rest@;
        if i == rest.len() {
            assert(before + block_spans(h@, at as int, now) =~= before);
            return out;
        }
        let line = text::substring(&rest, 0, i);
        assert(line@ =~= now.take(i as int));
        let mut spans = highlight::highlight_line(h, at, line.as_str());
        let ghost found = config::views(spans@);
        let ghost kept = out@;
        let ghost added = spans@;
        out.append(&mut spans);
        assert(config::views(out@) =~= before + found);
        rest = text::tail(&rest, i + 1);
        proof {
            assert(found + block_spans(h@, at + i + 1, rest@) =~= block_spans(h@, at as int, now));
            assert(config::views(out@) + block_spans(h@, at + i + 1, rest@) =~= before
                + block_spans(h@, at as int, now));
        }
        at = at + i + 1;
    }
}

} // verus!
