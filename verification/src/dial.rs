//! Dialing a station: which ports can be dialed, and what the form leads to.

use vstd::prelude::*;

use crate::actions::{PrefillView, TabPrefill};
use crate::config::{self, AddressBookEntry, PortConfig, PortEntry, PortView};
use crate::session_tab;
use crate::text;

verus! {

pub open spec fn dialable_ports(ports: Seq<PortView>) -> Seq<PortView>
    decreases ports.len(),
{
    if ports.len() == 0 {
        ports
    } else if session_tab::dialable(ports.last().config) {
        dialable_ports(ports.drop_last()).push(ports.last())
    } else {
        dialable_ports(ports.drop_last())
    }
}

/// The ports that can be dialed.
pub fn ports_to_dial(ports: &Vec<PortEntry>) -> (r: Vec<PortEntry>)
    ensures
        config::views(r@) == dialable_ports(config::views(ports@)),
{
    let ghost all = config::views(ports@);
    let mut r: Vec<PortEntry> = Vec::new();
    let mut i: usize = 0;
    assert(config::views(r@) =~= dialable_ports(all.take(0)));
    while i < ports.len()
        invariant
            i <= ports.len(),
            all == config::views(ports@),
            config::views(r@) == dialable_ports(all.take(i as int)),
        decreases ports.len() - i,
    {
        let p = &ports[i];
        assert(all.take(i + 1).drop_last() =~= all.take(i as int));
        assert(all.take(i + 1).last() == p@);
        if session_tab::port_dialable(&p.config) {
            let c = p.clone();
            proof {
                config::lemma_views_push(r@, c);
            }
            r.push(c);
        }
        i += 1;
    }
    assert(all.take(i as int) =~= all);
    r
}

/// The name of the second field: a path, or the line to send first.
pub fn path_label(c: &PortConfig) -> (r: &'static str)
    ensures
        r@ == (if session_tab::is_terminal(c@) {
            "Address"@
        } else {
            "Via"@
        }),
{
    if session_tab::port_is_terminal(c) {
        "Address"
    } else {
        "Via"
    }
}

/// What the form of the dialog leads to: a tab, or a reason why not.
pub open spec fn dial_result(
    ports: Seq<PortView>,
    selected: int,
    active: Seq<Seq<char>>,
    node: Seq<char>,
    path: Seq<char>,
    connect: bool,
) -> Result<PrefillView, Seq<char>> {
    if selected >= ports.len() {
        Err("Select a port."@)
    } else if connect && !active.contains(ports[selected].id) {
        Err("Port not connected \u{2014} start the port first."@)
    } else if session_tab::connects(ports[selected].config) && text::call_text(node).len() == 0 {
        Err("Enter a node/call sign."@)
    } else {
        Ok(
            PrefillView {
                port_id: ports[selected].id,
                remote: text::call_text(node),
                path: session_tab::path_text(ports[selected].config, path),
                unproto: false,
            },
        )
    }
}

/// What the form leads to. `active` are the ports that are up; `connect` asks for
/// a connection at once.
pub fn resolve(
    ports: &Vec<PortEntry>,
    selected: usize,
    active: &Vec<String>,
    node: &str,
    path: &str,
    connect: bool,
) -> (r: Result<TabPrefill, String>)
    ensures
        match dial_result(
            config::views(ports@),
            selected as int,
            text::texts(active@),
            node@,
            path@,
            connect,
        ) {
            Ok(p) => r matches Ok(q) && q@ == p,
            Err(e) => r matches Err(m) && m@ == e,
        },
{
    if selected >= ports.len() {
        return Err(text::owned("Select a port."));
    }
    let port = &ports[selected];
    assert(config::views(ports@)[selected as int] == port@);
    if connect && !text::list_contains(active, port.id.as_str()) {
        return Err(text::owned("Port not connected \u{2014} start the port first."));
    }
    let remote = text::trim_upper(node);
    if session_tab::port_supports_connect(&port.config) && remote.as_str().is_empty() {
        return Err(text::owned("Enter a node/call sign."));
    }
    Ok(
        TabPrefill {
            port_id: port.id.clone(),
            remote,
            path: session_tab::typed_path(&port.config, path),
            unproto: false,
        },
    )
}

/// What picking a station fills in: its callsign, and its path where it has one.
/// A path that was typed stays otherwise.
pub fn fill_from(e: &AddressBookEntry, typed_path: &str) -> (r: (String, String))
    ensures
        r.0@ == e.callsign@,
        r.1@ == (if text::trimmed(e.via@).len() > 0 {
            e.via@
        } else {
            typed_path@
        }),
{
    let path = text::trim(e.via.as_str());
    if path.as_str().is_empty() {
        (e.callsign.clone(), text::owned(typed_path))
    } else {
        (e.callsign.clone(), e.via.clone())
    }
}

/// Only a port that is up is dialed.
pub proof fn law_dial_needs_port(
    ports: Seq<PortView>,
    selected: int,
    active: Seq<Seq<char>>,
    node: Seq<char>,
    path: Seq<char>,
)
    ensures
        dial_result(ports, selected, active, node, path, true) matches Ok(p) ==> active.contains(
            p.port_id,
        ),
{
}

} // verus!
