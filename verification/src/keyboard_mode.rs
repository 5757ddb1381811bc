//! Keyboard-to-keyboard mode: an incoming connection to this station's own
//! callsign is greeted and left to the operator.

use vstd::prelude::*;

use crate::text;

verus! {

/// The greeting where none is configured.
pub open spec fn welcome_text(my_call: Seq<char>) -> Seq<char> {
    my_call + " here, ready for keyboard-to-keyboard. Go ahead.\n"@
}

pub fn default_welcome(my_call: &str) -> (r: String)
    ensures
        r@ == welcome_text(my_call@),
{
    let mut r = text::owned(my_call);
    r.append(" here, ready for keyboard-to-keyboard. Go ahead.\n");
    r
}

/// A connection to `to` is answered under the callsign `call`: the responder is
/// enabled, has a callsign, and is the one that was called.
pub open spec fn answers(enabled: bool, call: Seq<char>, to: Option<Seq<char>>) -> bool {
    &&& enabled
    &&& text::trimmed(call).len() > 0
    &&& to matches Some(t) && text::ascii_upper(t) == text::ascii_upper(text::trimmed(call))
}

pub open spec fn str_view(o: Option<&str>) -> Option<Seq<char>> {
    match o {
        Some(s) => Some(s@),
        None => None,
    }
}

/// Whether a connection that was addressed to `to` starts keyboard-to-keyboard
/// mode.
pub fn should_answer(enabled: bool, node_call: &str, to: Option<&str>) -> (r: bool)
    ensures
        r == answers(enabled, node_call@, str_view(to)),
{
    if !enabled {
        return false;
    }
    let call = text::trim(node_call);
    if call.as_str().is_empty() {
        return false;
    }
    match to {
        Some(t) => text::eq_ignore_ascii_case(t, call.as_str()),
        None => false,
    }
}

/// The line asks to end the connection.
pub open spec fn is_bye_text(line: Seq<char>) -> bool {
    let s = text::call_text(line);
    s == "/BYE"@ || s == "B"@ || s == "BYE"@
}

pub fn is_bye(line: &str) -> (r: bool)
    ensures
        r == is_bye_text(line@),
{
    let s = text::trim_upper(line);
    text::eq_str(s.as_str(), "/BYE") || text::eq_str(s.as_str(), "B") || text::eq_str(
        s.as_str(),
        "BYE",
    )
}

/// No listed port stands for every port.
pub open spec fn listens(listen_ports: Seq<Seq<char>>, port_id: Seq<char>) -> bool {
    listen_ports.len() == 0 || listen_ports.contains(port_id)
}

pub fn listens_on(listen_ports: &Vec<String>, port_id: &str) -> (r: bool)
    ensures
        r == listens(text::texts(listen_ports@), port_id@),
{
    listen_ports.len() == 0 || text::list_contains(listen_ports, port_id)
}

/// The callsign to answer as: the mode's own, else the station's.
pub open spec fn identity(node_call: Seq<char>, default_call: Seq<char>) -> Seq<char> {
    if text::call_text(node_call).len() == 0 {
        default_call
    } else {
        text::call_text(node_call)
    }
}

pub fn resolve_identity(node_call: &str, default_call: &str) -> (r: String)
    ensures
        r@ == identity(node_call@, default_call@),
{
    let call = text::trim_upper(node_call);
    if call.as_str().is_empty() {
        text::owned(default_call)
    } else {
        call
    }
}

/// Two responders with different callsigns never both answer one connection.
pub proof fn law_responders_apart(
    a_enabled: bool,
    a_call: Seq<char>,
    b_enabled: bool,
    b_call: Seq<char>,
    to: Option<Seq<char>>,
)
    requires
        text::ascii_upper(text::trimmed(a_call)) != text::ascii_upper(text::trimmed(b_call)),
    ensures
        !(answers(a_enabled, a_call, to) && answers(b_enabled, b_call, to)),
{
}

/// A responder without a callsign answers nothing, and so does one that is
/// disabled.
pub proof fn law_needs_callsign(enabled: bool, call: Seq<char>, to: Option<Seq<char>>)
    requires
        !enabled || text::trimmed(call).len() == 0,
    ensures
        !answers(enabled, call, to),
{
}

} // verus!
