//! Events and commands that pass between a port and its user.

use vstd::prelude::*;

use crate::text;

verus! {

/// Identifies one logical connection multiplexed over a single port.
pub type ConnectionId = u64;

#[derive(Debug, Clone, Copy, PartialEq, Eq, Structural)]
pub enum ConnState {
    Connecting,
    Connected,
    Disconnecting,
    Disconnected,
}

/// One destination that a NET/ROM node advertises.
#[derive(Debug, Clone, PartialEq, Eq)]
pub struct NodesBroadcastEntry {
    pub callsign: String,
    pub alias: String,
}

#[verifier::ext_equal]
pub struct NodeView {
    pub callsign: Seq<char>,
    pub alias: Seq<char>,
}

pub open spec fn node_view(e: NodesBroadcastEntry) -> NodeView {
    NodeView { callsign: e.callsign@, alias: e.alias@ }
}

pub open spec fn nodes_view(v: Seq<NodesBroadcastEntry>) -> Seq<NodeView> {
    v.map_values(|e: NodesBroadcastEntry| node_view(e))
}

/// What a port reports to its user.
#[derive(Debug, Clone)]
#[allow(inconsistent_fields)]
pub enum PortEvent {
    PortConnected,
    PortDisconnected { reason: Option<String> },
    PortError { message: String },
    /// A line for the live traffic view. `from`, `to` and `message` are there for
    /// a frame that stands on its own (unnumbered information).
    Monitor {
        line: String,
        from: Option<String>,
        to: Option<String>,
        message: Option<String>,
    },
    /// `to` is the callsign that was called, where the port knows it.
    ConnectionOpened { id: ConnectionId, label: String, to: Option<String> },
    ConnectionClosed { id: ConnectionId },
    ConnState { id: ConnectionId, state: ConnState },
    Data { id: ConnectionId, bytes: Vec<u8> },
    /// A station was heard under this callsign.
    StationHeard { callsign: String },
    /// A node advertised the nodes it knows.
    NodesBroadcast { from: String, sender_alias: String, entries: Vec<NodesBroadcastEntry> },
}

/// What an event holds.
#[verifier::ext_equal]
#[allow(inconsistent_fields)]
pub enum EventView {
    PortConnected,
    PortDisconnected { reason: Option<Seq<char>> },
    PortError { message: Seq<char> },
    Monitor {
        line: Seq<char>,
        from: Option<Seq<char>>,
        to: Option<Seq<char>>,
        message: Option<Seq<char>>,
    },
    ConnectionOpened { id: ConnectionId, label: Seq<char>, to: Option<Seq<char>> },
    ConnectionClosed { id: ConnectionId },
    ConnState { id: ConnectionId, state: ConnState },
    Data { id: ConnectionId, bytes: Seq<u8> },
    StationHeard { callsign: Seq<char> },
    NodesBroadcast { from: Seq<char>, sender_alias: Seq<char>, entries: Seq<NodeView> },
}

pub open spec fn event_view(e: PortEvent) -> EventView {
    match e {
        PortEvent::PortConnected => EventView::PortConnected,
        PortEvent::PortDisconnected { reason } => EventView::PortDisconnected {
            reason: text::opt_view(reason),
        },
        PortEvent::PortError { message } => EventView::PortError { message: message@ },
        PortEvent::Monitor { line, from, to, message } => EventView::Monitor {
            line: line@,
            from: text::opt_view(from),
            to: text::opt_view(to),
            message: text::opt_view(message),
        },
        PortEvent::ConnectionOpened { id, label, to } => EventView::ConnectionOpened {
            id,
            label: label@,
            to: text::opt_view(to),
        },
        PortEvent::ConnectionClosed { id } => EventView::ConnectionClosed { id },
        PortEvent::ConnState { id, state } => EventView::ConnState { id, state },
        PortEvent::Data { id, bytes } => EventView::Data { id, bytes: bytes@ },
        PortEvent::StationHeard { callsign } => EventView::StationHeard { callsign: callsign@ },
        PortEvent::NodesBroadcast { from, sender_alias, entries } => EventView::NodesBroadcast {
            from: from@,
            sender_alias: sender_alias@,
            entries: nodes_view(entries@),
        },
    }
}

pub open spec fn events_view(v: Seq<PortEvent>) -> Seq<EventView> {
    v.map_values(|e: PortEvent| event_view(e))
}

/// A line of the traffic view that stands for no message of its own.
pub open spec fn monitor_line(line: Seq<char>) -> EventView {
    EventView::Monitor { line, from: None, to: None, message: None }
}

/// What the user asks of a port. `via` is a digipeater path, empty for none.
#[derive(Debug, Clone)]
pub enum PortCommand {
    Connect,
    Disconnect,
    OpenConnection { remote: String, via: Vec<String> },
    CloseConnection { id: ConnectionId },
    Send { id: ConnectionId, bytes: Vec<u8> },
    /// One unconnected frame, such as a beacon.
    SendUnproto { dest: String, via: Vec<String>, bytes: Vec<u8> },
}

/// What a command holds.
#[verifier::ext_equal]
#[allow(inconsistent_fields)]
pub enum CommandView {
    Connect,
    Disconnect,
    OpenConnection { remote: Seq<char>, path: Seq<Seq<char>> },
    CloseConnection { id: ConnectionId },
    Send { id: ConnectionId, bytes: Seq<u8> },
    SendUnproto { dest: Seq<char>, path: Seq<Seq<char>>, bytes: Seq<u8> },
}

pub open spec fn command_view(c: PortCommand) -> CommandView {
    match c {
        PortCommand::Connect => CommandView::Connect,
        PortCommand::Disconnect => CommandView::Disconnect,
        PortCommand::OpenConnection { remote, via } => CommandView::OpenConnection {
            remote: remote@,
            path: text::texts(via@),
        },
        PortCommand::CloseConnection { id } => CommandView::CloseConnection { id },
        PortCommand::Send { id, bytes } => CommandView::Send { id, bytes: bytes@ },
        PortCommand::SendUnproto { dest, via, bytes } => CommandView::SendUnproto {
            dest: dest@,
            path: text::texts(via@),
            bytes: bytes@,
        },
    }
}

/// Appends `e` to `out`.
pub fn emit(out: &mut Vec<PortEvent>, e: PortEvent)
    ensures
        events_view(final(out)@) == events_view(old(out)@).push(event_view(e)),
{
    out.push(e);
    assert(events_view(out@) =~= events_view(old(out)@).push(event_view(e)));
}

/// Appends a line of the traffic view to `out`.
pub fn emit_line(out: &mut Vec<PortEvent>, line: String)
    ensures
        events_view(final(out)@) == events_view(old(out)@).push(monitor_line(line@)),
{
    emit(out, PortEvent::Monitor { line, from: None, to: None, message: None });
}

} // verus!
