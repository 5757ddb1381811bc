//! Terminal sessions, over Telnet or SSH: one connection for the whole port.

use vstd::prelude::*;

use crate::port::{self, ConnState, ConnectionId, EventView, PortCommand, PortEvent};
use crate::telnet::{self, TelnetFilter};
use crate::text;

verus! {

/// The identifier of the only connection.
pub const CONN_ID: ConnectionId = 0;

/// The parameters of a Telnet port.
#[derive(Debug)]
pub struct TelnetRunner {
    pub host: String,
    pub port: u16,
}

/// The parameters of a port that runs the system's `ssh`.
#[derive(Debug)]
pub struct SshRunner {
    pub host: String,
    pub port: u16,
    pub user: String,
}

pub open spec fn host_port(host: Seq<char>, port: u16) -> Seq<char> {
    host + ":"@ + text::decimal(port as nat)
}

pub fn address_of(host: &str, port: u16) -> (r: String)
    ensures
        r@ == host_port(host@, port),
{
    let mut r = text::owned(host);
    r.append(":");
    r.append(text::decimal_text(port as u64).as_str());
    r
}

impl TelnetRunner {
    /// What the connection is called.
    pub fn label(&self) -> (r: String)
        ensures
            r@ == host_port(self.host@, self.port),
    {
        address_of(self.host.as_str(), self.port)
    }
}

impl SshRunner {
    pub fn label(&self) -> (r: String)
        ensures
            r@ == self.user@ + "@"@ + host_port(self.host@, self.port),
    {
        let mut r = self.user.clone();
        r.append("@");
        r.append(address_of(self.host.as_str(), self.port).as_str());
        r
    }

    /// The arguments that `ssh` is run with.
    pub fn arguments(&self) -> (r: Vec<String>)
        ensures
            text::texts(r@) == seq![
                "-p"@,
                text::decimal(self.port as nat),
                self.user@ + "@"@ + self.host@,
            ],
    {
        let mut r: Vec<String> = Vec::new();
        r.push(text::owned("-p"));
        r.push(text::decimal_text(self.port as u64));
        let mut target = self.user.clone();
        target.append("@");
        target.append(self.host.as_str());
        r.push(target);
        assert(text::texts(r@) =~= seq![
            "-p"@,
            text::decimal(self.port as nat),
            self.user@ + "@"@ + self.host@,
        ]);
        r
    }
}

/// Why a port did not come up.
pub open spec fn connect_error(address: Seq<char>, e: Seq<char>) -> EventView {
    EventView::PortError { message: "connect "@ + address + " failed: "@ + e }
}

pub fn connect_failed(address: &str, error: &str) -> (r: PortEvent)
    ensures
        port::event_view(r) == connect_error(address@, error@),
{
    let mut message = text::owned("connect ");
    message.append(address);
    message.append(" failed: ");
    message.append(error);
    PortEvent::PortError { message }
}

/// The session is up.
pub open spec fn opened(label: Seq<char>) -> Seq<EventView> {
    seq![
        EventView::PortConnected,
        EventView::ConnectionOpened { id: CONN_ID, label, to: None },
        EventView::ConnState { id: CONN_ID, state: ConnState::Connected },
    ]
}

pub fn opened_events(label: String) -> (r: Vec<PortEvent>)
    ensures
        port::events_view(r@) == opened(label@),
{
    let mut r: Vec<PortEvent> = Vec::new();
    r.push(PortEvent::PortConnected);
    r.push(PortEvent::ConnectionOpened { id: CONN_ID, label, to: None });
    r.push(PortEvent::ConnState { id: CONN_ID, state: ConnState::Connected });
    assert(port::events_view(r@) =~= opened(label@));
    r
}

/// The session is over, and the port with it.
pub open spec fn closed() -> Seq<EventView> {
    seq![
        EventView::ConnState { id: CONN_ID, state: ConnState::Disconnected },
        EventView::ConnectionClosed { id: CONN_ID },
        EventView::PortDisconnected { reason: None },
    ]
}

pub fn closed_events() -> (r: Vec<PortEvent>)
    ensures
        port::events_view(r@) == closed(),
{
    let mut r: Vec<PortEvent> = Vec::new();
    r.push(PortEvent::ConnState { id: CONN_ID, state: ConnState::Disconnected });
    r.push(PortEvent::ConnectionClosed { id: CONN_ID });
    r.push(PortEvent::PortDisconnected { reason: None });
    assert(port::events_view(r@) =~= closed());
    r
}

/// What a command asks of a terminal session.
#[derive(Debug)]
pub enum TerminalStep {
    Write(Vec<u8>),
    Stop,
    Nothing,
}

/// Bytes for the connection are written; closing the connection or the port ends
/// the session.
pub fn handle_command(command: PortCommand) -> (r: TerminalStep)
    ensures
        r == (match command {
            PortCommand::Send { id, bytes } => if id == CONN_ID {
                TerminalStep::Write(bytes)
            } else {
                TerminalStep::Nothing
            },
            PortCommand::Disconnect => TerminalStep::Stop,
            PortCommand::CloseConnection { .. } => TerminalStep::Stop,
            _ => TerminalStep::Nothing,
        }),
{
    match command {
        PortCommand::Send { id, bytes } => if id == CONN_ID {
            TerminalStep::Write(bytes)
        } else {
            TerminalStep::Nothing
        },
        PortCommand::Disconnect => TerminalStep::Stop,
        PortCommand::CloseConnection { .. } => TerminalStep::Stop,
        _ => TerminalStep::Nothing,
    }
}

/// Takes bytes that a Telnet host sent. Gives the refusals to write back, and the
/// data to report where there is any.
pub fn receive_telnet(filter: &mut TelnetFilter, input: &[u8]) -> (r: (Vec<u8>, Option<PortEvent>))
    ensures
        final(filter).state == telnet::state_after(old(filter).state, input@),
        r.0@ == telnet::replies_to(old(filter).state, input@),
        ({
            let data = telnet::data_in(old(filter).state, input@);
            match r.1 {
                Some(e) => data.len() > 0 && port::event_view(e) == (EventView::Data {
                    id: CONN_ID,
                    bytes: data,
                }),
                None => data.len() == 0,
            }
        }),
{
    let mut data: Vec<u8> = Vec::new();
    let mut replies: Vec<u8> = Vec::new();
    filter.process(input, &mut data, &mut replies);
    proof {
        assert(data@ =~= telnet::data_in(old(filter).state, input@));
        assert(replies@ =~= telnet::replies_to(old(filter).state, input@));
    }
    if data.len() == 0 {
        (replies, None)
    } else {
        (replies, Some(PortEvent::Data { id: CONN_ID, bytes: data }))
    }
}

} // verus!
