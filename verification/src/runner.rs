//! A port on the kernel's own AX.25 sockets, without the sockets: which
//! connections there are, and what is reported of them.

use vstd::prelude::*;

use crate::port::{self, ConnState, ConnectionId, EventView, PortCommand, PortEvent};
use crate::raw_socket::{self, Ax25Address, Ax25Error, AX25_MAX_DIGIS};
use crate::text;

verus! {

/// The parameters of such a port: the name of an entry in the kernel's port table.
#[derive(Debug)]
pub struct Ax25RawSocketRunner {
    pub device: String,
}

/// The connections of the port.
#[derive(Debug)]
pub struct RawPort {
    pub next_id: u64,
    pub live: Vec<ConnectionId>,
}

/// What a command asks for.
#[derive(Debug)]
pub enum RawStep {
    /// Open a socket to this station. The events come first.
    Open { id: ConnectionId, remote: String, via: Vec<String>, events: Vec<PortEvent> },
    Write { id: ConnectionId, bytes: Vec<u8> },
    Shutdown { id: ConnectionId },
    Stop,
    Nothing,
}

/// A connection is being made.
pub open spec fn opening(id: ConnectionId, remote: Seq<char>) -> Seq<EventView> {
    seq![
        EventView::StationHeard { callsign: remote },
        EventView::ConnectionOpened { id, label: remote, to: None },
        EventView::ConnState { id, state: ConnState::Connecting },
    ]
}

/// A connection that was being made has failed.
pub open spec fn failed(id: ConnectionId, remote: Seq<char>, e: Seq<char>) -> Seq<EventView> {
    seq![
        port::monitor_line("connect to "@ + remote + " failed: "@ + e),
        EventView::ConnState { id, state: ConnState::Disconnected },
        EventView::ConnectionClosed { id },
    ]
}

/// A station has connected.
pub open spec fn accepted(id: ConnectionId, remote: Seq<char>, local: Seq<char>) -> Seq<EventView> {
    seq![
        EventView::StationHeard { callsign: remote },
        EventView::ConnectionOpened { id, label: remote, to: Some(local) },
        EventView::ConnState { id, state: ConnState::Connected },
    ]
}

pub open spec fn ended(id: ConnectionId) -> Seq<EventView> {
    seq![
        EventView::ConnState { id, state: ConnState::Disconnected },
        EventView::ConnectionClosed { id },
    ]
}

/// `live` without `id`.
pub open spec fn without_id(live: Seq<ConnectionId>, id: ConnectionId) -> Seq<ConnectionId>
    decreases live.len(),
{
    if live.len() == 0 {
        live
    } else if live.last() == id {
        without_id(live.drop_last(), id)
    } else {
        without_id(live.drop_last(), id).push(live.last())
    }
}

impl RawPort {
    /// Every live connection has an identifier that was given out before.
    pub open spec fn wf(&self) -> bool {
        forall|i: int| 0 <= i < self.live@.len() ==> #[trigger] self.live@[i] < self.next_id
    }
}

proof fn lemma_without_id(live: Seq<ConnectionId>, id: ConnectionId, bound: u64)
    requires
        forall|i: int| 0 <= i < live.len() ==> #[trigger] live[i] < bound,
    ensures
        !without_id(live, id).contains(id),
        forall|i: int|
            0 <= i < without_id(live, id).len() ==> #[trigger] without_id(live, id)[i] < bound,
    decreases live.len(),
{
    if live.len() > 0 {
        let rest = live.drop_last();
        assert forall|i: int| 0 <= i < rest.len() implies #[trigger] rest[i] < bound by {
            assert(rest[i] == live[i]);
        }
        lemma_without_id(rest, id, bound);
        let kept = without_id(rest, id);
        assert forall|i: int| 0 <= i < without_id(live, id).len() implies #[trigger] without_id(
            live,
            id,
        )[i] < bound && without_id(live, id)[i] != id by {
            if i < kept.len() {
                assert(kept[i] < bound);
                assert(kept.contains(kept[i]));
            } else {
                assert(live[live.len() - 1] < bound);
            }
        }
    }
}

impl RawPort {
    pub fn new() -> (r: Self)
        ensures
            r.next_id == 1,
            r.live@.len() == 0,
            r.wf(),
    {
        RawPort { next_id: 1, live: Vec::new() }
    }

    fn is_live(&self, id: ConnectionId) -> (r: bool)
        ensures
            r == self.live@.contains(id),
    {
        let mut i: usize = 0;
        while i < self.live.len()
            invariant
                i <= self.live.len(),
                forall|j: int| 0 <= j < i ==> self.live@[j] != id,
            decreases self.live.len() - i,
        {
            if self.live[i] == id {
                assert(self.live@[i as int] == id);
                return true;
            }
            i += 1;
        }
        false
    }

    fn drop_id(&mut self, id: ConnectionId)
        ensures
            final(self).live@ == without_id(old(self).live@, id),
            final(self).next_id == old(self).next_id,
            old(self).wf() ==> final(self).wf(),
    {
        let mut kept: Vec<ConnectionId> = Vec::new();
        let mut i: usize = 0;
        while i < self.live.len()
            invariant
                i <= self.live.len(),
                kept@ == without_id(self.live@.take(i as int), id),
            decreases self.live.len() - i,
        {
            assert(self.live@.take(i + 1).drop_last() =~= self.live@.take(i as int));
            if self.live[i] != id {
                kept.push(self.live[i]);
            }
            i += 1;
        }
        assert(self.live@.take(i as int) =~= self.live@);
        proof {
            if self.wf() {
                lemma_without_id(self.live@, id, self.next_id);
            }
        }
        self.live = kept;
    }

    /// Takes a command. Unconnected frames cannot be sent over such a socket.
    pub fn handle_command(&mut self, command: PortCommand) -> (r: RawStep)
        requires
            old(self).next_id < u64::MAX,
        ensures
            match command {
                PortCommand::OpenConnection { remote, via } => {
                    &&& r matches RawStep::Open { id, remote: to, via: path, events }
                    &&& id == old(self).next_id
                    &&& to@ == remote@
                    &&& path == via
                    &&& port::events_view(events@) == opening(id, remote@)
                    &&& final(self).next_id == old(self).next_id + 1
                    &&& final(self).live == old(self).live
                },
                PortCommand::Send { id, bytes } => {
                    &&& *final(self) == *old(self)
                    &&& if old(self).live@.contains(id) {
                        r == (RawStep::Write { id, bytes })
                    } else {
                        r is Nothing
                    }
                },
                PortCommand::CloseConnection { id } => {
                    &&& final(self).next_id == old(self).next_id
                    &&& final(self).live@ == without_id(old(self).live@, id)
                    &&& if old(self).live@.contains(id) {
                        r == (RawStep::Shutdown { id })
                    } else {
                        r is Nothing
                    }
                },
                PortCommand::Disconnect => r is Stop && *final(self) == *old(self),
                PortCommand::Connect => r is Nothing && *final(self) == *old(self),
                PortCommand::SendUnproto { .. } => r is Nothing && *final(self) == *old(self),
            },
            old(self).wf() ==> final(self).wf(),
    {
        match command {
            PortCommand::OpenConnection { remote, via } => {
                let id: u64 = self.next_id;
                self.next_id = id + 1;
                let mut events: Vec<PortEvent> = Vec::new();
                events.push(PortEvent::StationHeard { callsign: remote.clone() });
                events.push(
                    PortEvent::ConnectionOpened { id, label: remote.clone(), to: None },
                );
                events.push(PortEvent::ConnState { id, state: ConnState::Connecting });
                assert(port::events_view(events@) =~= opening(id, remote@));
                RawStep::Open { id, remote, via, events }
            },
            PortCommand::Send { id, bytes } => if self.is_live(id) {
                RawStep::Write { id, bytes }
            } else {
                RawStep::Nothing
            },
            PortCommand::CloseConnection { id } => {
                let live = self.is_live(id);
                self.drop_id(id);
                if live {
                    RawStep::Shutdown { id }
                } else {
                    RawStep::Nothing
                }
            },
            PortCommand::Disconnect => RawStep::Stop,
            PortCommand::Connect => RawStep::Nothing,
            PortCommand::SendUnproto { .. } => RawStep::Nothing,
        }
    }

    /// The socket to a station is connected.
    pub fn opened(&mut self, id: ConnectionId) -> (r: Vec<PortEvent>)
        ensures
            port::events_view(r@) == seq![
                EventView::ConnState { id, state: ConnState::Connected },
            ],
            final(self).live@ == old(self).live@.push(id),
            final(self).next_id == old(self).next_id,
            old(self).wf() && id < old(self).next_id ==> final(self).wf(),
    {
        self.live.push(id);
        let mut r: Vec<PortEvent> = Vec::new();
        r.push(PortEvent::ConnState { id, state: ConnState::Connected });
        assert(port::events_view(r@) =~= seq![
            EventView::ConnState { id, state: ConnState::Connected },
        ]);
        r
    }

    /// A station has connected to the listening socket, which has the callsign
    /// `local`.
    pub fn accepted(&mut self, remote: String, local: String) -> (r: (ConnectionId, Vec<PortEvent>))
        requires
            old(self).next_id < u64::MAX,
        ensures
            r.0 == old(self).next_id,
            port::events_view(r.1@) == accepted(r.0, remote@, local@),
            final(self).next_id == old(self).next_id + 1,
            final(self).live@ == old(self).live@.push(r.0),
            old(self).wf() ==> final(self).wf(),
    {
        let id: u64 = self.next_id;
        self.next_id = id + 1;
        self.live.push(id);
        let mut r: Vec<PortEvent> = Vec::new();
        r.push(PortEvent::StationHeard { callsign: remote.clone() });
        r.push(PortEvent::ConnectionOpened { id, label: remote, to: Some(local) });
        r.push(PortEvent::ConnState { id, state: ConnState::Connected });
        assert(port::events_view(r@) =~= accepted(id, remote@, local@));
        (id, r)
    }

    /// A connection has ended.
    pub fn ended(&mut self, id: ConnectionId) -> (r: Vec<PortEvent>)
        ensures
            port::events_view(r@) == ended(id),
            final(self).live@ == without_id(old(self).live@, id),
            final(self).next_id == old(self).next_id,
            old(self).wf() ==> final(self).wf(),
    {
        self.drop_id(id);
        let mut r: Vec<PortEvent> = Vec::new();
        r.push(PortEvent::ConnState { id, state: ConnState::Disconnected });
        r.push(PortEvent::ConnectionClosed { id });
        assert(port::events_view(r@) =~= ended(id));
        r
    }
}

/// A connection could not be made.
pub fn connect_failed(id: ConnectionId, remote: &str, error: &str) -> (r: Vec<PortEvent>)
    ensures
        port::events_view(r@) == failed(id, remote@, error@),
{
    let mut line = text::owned("connect to ");
    line.append(remote);
    line.append(" failed: ");
    line.append(error);
    let mut r: Vec<PortEvent> = Vec::new();
    r.push(PortEvent::Monitor { line, from: None, to: None, message: None });
    r.push(PortEvent::ConnState { id, state: ConnState::Disconnected });
    r.push(PortEvent::ConnectionClosed { id });
    assert(port::events_view(r@) =~= failed(id, remote@, error@));
    r
}

/// Where a call goes: the station, and the digipeaters as far as an address holds
/// them. `count` is the number of digipeaters that were asked for.
#[derive(Debug)]
pub struct CallAddress {
    pub remote: Ax25Address,
    pub digipeaters: Vec<Ax25Address>,
    pub count: usize,
}

/// `a` is the address that `input` names.
pub open spec fn names(input: Seq<char>, a: Ax25Address) -> bool {
    raw_socket::named(input, Ok(a))
}

/// Encodes the station and its digipeater path. The first callsign that is none
/// is the error.
pub fn call_address(remote: &str, digis: &Vec<String>) -> (r: Result<CallAddress, Ax25Error>)
    ensures
        match r {
            Ok(a) => {
                &&& names(remote@, a.remote)
                &&& a.count == digis@.len()
                &&& a.digipeaters@.len() == if digis@.len() < AX25_MAX_DIGIS {
                    digis@.len()
                } else {
                    AX25_MAX_DIGIS as nat
                }
                &&& forall|i: int|
                    0 <= i < a.digipeaters@.len() ==> names(digis@[i]@, #[trigger] a.digipeaters@[i])
            },
            Err(e) => raw_socket::named(remote@, Err(e)) || (raw_socket::parsed_call(remote@) is Ok
                && exists|k: int|
                0 <= k < digis@.len() && k < AX25_MAX_DIGIS && raw_socket::named(
                    #[trigger] digis@[k]@,
                    Err(e),
                ) && forall|i: int| 0 <= i < k ==> raw_socket::parsed_call(#[trigger] digis@[i]@) is Ok),
        },
{
    let station = match raw_socket::encode_callsign(remote) {
        Ok(a) => a,
        Err(e) => {
            return Err(e);
        },
    };
    let mut digipeaters: Vec<Ax25Address> = Vec::new();
    let mut i: usize = 0;
    while i < digis.len() && i < AX25_MAX_DIGIS
        invariant
            i <= digis.len(),
            i <= AX25_MAX_DIGIS,
            digipeaters@.len() == i,
            names(remote@, station),
            raw_socket::parsed_call(remote@) is Ok,
            forall|j: int| 0 <= j < i ==> names(digis@[j]@, #[trigger] digipeaters@[j]),
            forall|j: int| 0 <= j < i ==> raw_socket::parsed_call(#[trigger] digis@[j]@) is Ok,
        decreases digis.len() - i,
    {
        match raw_socket::encode_callsign(digis[i].as_str()) {
            Ok(a) => {
                digipeaters.push(a);
            },
            Err(e) => {
                assert(raw_socket::named(digis@[i as int]@, Err(e)));
                return Err(e);
            },
        }
        i += 1;
    }
    Ok(CallAddress { remote: station, digipeaters, count: digis.len() })
}

/// Identifiers are never given out twice: a new connection has an identifier that
/// no live connection has, and one that ended is live no more.
pub proof fn law_new_identifier(p: RawPort, id: ConnectionId)
    requires
        p.wf(),
    ensures
        !p.live@.contains(p.next_id),
        !without_id(p.live@, id).contains(id),
{
    lemma_without_id(p.live@, id, p.next_id);
}

proof fn lemma_others_live(live: Seq<ConnectionId>, id: ConnectionId)
    ensures
        without_id(live, id) == live.filter(|x: ConnectionId| x != id),
    decreases live.len(),
{
    reveal(Seq::filter);
    if live.len() > 0 {
        lemma_others_live(live.drop_last(), id);
    }
}

/// A connection that ends leaves the others alive.
pub proof fn law_others_live(live: Seq<ConnectionId>, id: ConnectionId)
    ensures
        without_id(live, id) == live.filter(|x: ConnectionId| x != id),
{
    lemma_others_live(live, id);
}

} // verus!
