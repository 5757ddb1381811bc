//! The personal mailbox: a short command prompt for stations that connect.

use vstd::prelude::*;

use crate::app_state;
use crate::config::{self, MailboxMessage, MessageView, QsoLogEntry, QsoView};
use crate::keyboard_mode;
use crate::text;

verus! {

/// Where a connection stands in the dialogue.
#[derive(Debug, PartialEq, Eq)]
pub enum MailboxState {
    Command,
    /// The station typed `CQ` and is asked for its position.
    AwaitingQth,
    /// The station typed `S` and is asked for the subject of its message.
    AwaitingSubject { to: String },
    /// The station types its message, line by line.
    AwaitingBody { to: String, subject: String, lines: Vec<String> },
}

#[verifier::ext_equal]
pub enum StateView {
    Command,
    AwaitingQth,
    AwaitingSubject { to: Seq<char> },
    AwaitingBody { to: Seq<char>, subject: Seq<char>, lines: Seq<Seq<char>> },
}

impl View for MailboxState {
    type V = StateView;

    open spec fn view(&self) -> StateView {
        match self {
            MailboxState::Command => StateView::Command,
            MailboxState::AwaitingQth => StateView::AwaitingQth,
            MailboxState::AwaitingSubject { to } => StateView::AwaitingSubject { to: to@ },
            MailboxState::AwaitingBody { to, subject, lines } => StateView::AwaitingBody {
                to: to@,
                subject: subject@,
                lines: text::texts(lines@),
            },
        }
    }
}

impl Clone for MailboxState {
    fn clone(&self) -> (r: Self)
        ensures
            r@ == self@,
    {
        match self {
            MailboxState::Command => MailboxState::Command,
            MailboxState::AwaitingQth => MailboxState::AwaitingQth,
            MailboxState::AwaitingSubject { to } => MailboxState::AwaitingSubject {
                to: to.clone(),
            },
            MailboxState::AwaitingBody { to, subject, lines } => {
                let copy = config::copy_list(lines);
                assert(text::texts(copy@) =~= config::views(copy@));
                assert(text::texts(lines@) =~= config::views(lines@));
                MailboxState::AwaitingBody {
                    to: to.clone(),
                    subject: subject.clone(),
                    lines: copy,
                }
            },
        }
    }
}

/// The state of a dialogue, if there is one.
pub open spec fn dialogue(o: Option<MailboxState>) -> Option<StateView> {
    match o {
        Some(s) => Some(s@),
        None => None,
    }
}

pub open spec fn banner(my_call: Seq<char>) -> Seq<char> {
    my_call + " BBS. Commands: L)ist  R)ead <id>  CQ  B)ye\n"@
}

pub fn welcome_banner(my_call: &str) -> (r: String)
    ensures
        r@ == banner(my_call@),
{
    let mut r = text::owned(my_call);
    r.append(" BBS. Commands: L)ist  R)ead <id>  CQ  B)ye\n");
    r
}

/// Whether a connection that was addressed to `to` is answered by the mailbox.
pub fn should_answer(enabled: bool, respond_call: &str, to: Option<&str>) -> (r: bool)
    ensures
        r == keyboard_mode::answers(enabled, respond_call@, keyboard_mode::str_view(to)),
{
    keyboard_mode::should_answer(enabled, respond_call, to)
}

/// The style of the mailbox's controls: an unread message comes before being
/// enabled.
pub open spec fn class_of(enabled: bool, has_unread: bool) -> Option<Seq<char>> {
    if has_unread {
        Some("state-warning"@)
    } else if enabled {
        Some("state-success"@)
    } else {
        None
    }
}

pub fn status_class(enabled: bool, has_unread: bool) -> (r: Option<&'static str>)
    ensures
        keyboard_mode::str_view(r) == class_of(enabled, has_unread),
{
    if has_unread {
        Some("state-warning")
    } else if enabled {
        Some("state-success")
    } else {
        None
    }
}

// ---------------------------------------------------------------------------
// Commands
// ---------------------------------------------------------------------------

pub open spec fn same_call(a: Seq<char>, b: Seq<char>) -> bool {
    text::ascii_upper(a) == text::ascii_upper(b)
}

/// The messages that `call` left.
pub open spec fn own_messages(messages: Seq<MessageView>, call: Seq<char>) -> Seq<MessageView>
    decreases messages.len(),
{
    if messages.len() == 0 {
        Seq::empty()
    } else if same_call(messages.last().from, call) {
        own_messages(messages.drop_last(), call).push(messages.last())
    } else {
        own_messages(messages.drop_last(), call)
    }
}

/// One line of the list of messages.
pub open spec fn list_line(m: MessageView) -> Seq<char> {
    text::padded(text::decimal(m.id as nat), 4, ' ') + "  "@ + m.timestamp + "  ["@ + (if m.read {
        "R"@
    } else {
        " "@
    }) + "]  to "@ + m.to + "  "@ + m.subject + "\n"@
}

pub open spec fn list_text(own: Seq<MessageView>) -> Seq<char>
    decreases own.len(),
{
    if own.len() == 0 {
        Seq::empty()
    } else {
        list_text(own.drop_last()) + list_line(own.last())
    }
}

/// The first message numbered `id`.
pub open spec fn message_with(own: Seq<MessageView>, id: u64) -> Option<MessageView>
    decreases own.len(),
{
    if own.len() == 0 {
        None
    } else if message_with(own.drop_last(), id) is Some {
        message_with(own.drop_last(), id)
    } else if own.last().id == id {
        Some(own.last())
    } else {
        None
    }
}

pub open spec fn message_text(m: MessageView) -> Seq<char> {
    "To: "@ + m.to + "\nSubject: "@ + m.subject + "\n\n"@ + m.body + "\n"@ + "Cmd: "@
}

/// The command word of a line, in upper case.
pub open spec fn command_word(line: Seq<char>) -> Seq<char> {
    text::upper_text(line.take(text::char_index(line, ' ')))
}

/// What follows the command word.
pub open spec fn command_arg(line: Seq<char>) -> Seq<char> {
    let i = text::char_index(line, ' ');
    if i < line.len() {
        text::trimmed(line.skip(i + 1))
    } else {
        Seq::empty()
    }
}

/// What a line of input leads to.
#[verifier::ext_equal]
pub struct Reply {
    pub text: Seq<char>,
    pub close: bool,
    pub contact: Option<QsoView>,
    pub message: Option<MessageView>,
    pub state: StateView,
}

/// An answer that leads to `state`, and nothing else.
pub open spec fn asked(t: Seq<char>, state: StateView) -> Reply {
    Reply { text: t, close: false, contact: None, message: None, state }
}

pub open spec fn said(t: Seq<char>) -> Reply {
    asked(t, StateView::Command)
}

/// The answer to a command. `L` lists and `R` reads the messages that the station
/// itself left; `S` begins a message; `CQ` asks for the station's position; `B` ends
/// the connection.
pub open spec fn command_reply(
    messages: Seq<MessageView>,
    call: Seq<char>,
    line: Seq<char>,
) -> Reply {
    let word = command_word(line);
    let own = own_messages(messages, call);
    if word == "L"@ || word == "LIST"@ {
        if own.len() == 0 {
            said("No messages on file from you.\nCmd: "@)
        } else {
            said(list_text(own) + "Cmd: "@)
        }
    } else if word == "R"@ || word == "READ"@ {
        match text::unsigned_value(command_arg(line)) {
            Some(id) => if id <= u64::MAX {
                match message_with(own, id as u64) {
                    Some(m) => said(message_text(m)),
                    None => said("No such message.\nCmd: "@),
                }
            } else {
                said("Usage: R <id>\nCmd: "@)
            },
            None => said("Usage: R <id>\nCmd: "@),
        }
    } else if word == "S"@ || word == "SEND"@ {
        if command_arg(line).len() == 0 {
            said("Usage: S <call>\nCmd: "@)
        } else {
            asked(
                "Subject: "@,
                StateView::AwaitingSubject { to: text::upper_text(command_arg(line)) },
            )
        }
    } else if word == "CQ"@ {
        asked("QTH (city, state/country or grid locator): "@, StateView::AwaitingQth)
    } else if word == "B"@ || word == "BYE"@ {
        Reply { close: true, ..said("73, disconnecting...\n"@) }
    } else {
        said("Unknown command.\nCmd: "@)
    }
}

/// The answer to a position: the contact is logged.
pub open spec fn contact_reply(
    call: Seq<char>,
    port_id: Seq<char>,
    line: Seq<char>,
    timestamp: Seq<char>,
) -> Reply {
    Reply {
        text: (if line.len() == 0 {
            Seq::empty()
        } else {
            "QTH logged: "@ + line + "\n"@
        }) + "Contact logged. 73 de "@ + call + "!\n"@ + "Cmd: "@,
        close: false,
        message: None,
        contact: Some(
            QsoView {
                callsign: call,
                port_id,
                started: timestamp,
                ended: None,
                location: text::unless_empty(line),
                from_cq: true,
            },
        ),
        state: StateView::Command,
    }
}

/// The line that ends a message.
pub open spec fn ends_message(line: Seq<char>) -> bool {
    text::ascii_upper(line) == text::ascii_upper("/EX"@)
}

pub open spec fn message_ids(v: Seq<MessageView>) -> Seq<u64> {
    v.map_values(|m: MessageView| m.id)
}

/// The message that `call` typed. Its number is one above the largest in use.
pub open spec fn new_message(
    messages: Seq<MessageView>,
    call: Seq<char>,
    to: Seq<char>,
    subject: Seq<char>,
    lines: Seq<Seq<char>>,
    timestamp: Seq<char>,
) -> MessageView {
    MessageView {
        id: (app_state::largest(message_ids(messages)) + 1) as u64,
        to,
        from: call,
        subject,
        body: text::joined(lines, "\n"@),
        timestamp,
        read: false,
    }
}

/// The answer to a line of a message: the last one stores it, as long as there is a
/// number left for it.
pub open spec fn body_reply(
    messages: Seq<MessageView>,
    call: Seq<char>,
    to: Seq<char>,
    subject: Seq<char>,
    lines: Seq<Seq<char>>,
    line: Seq<char>,
    timestamp: Seq<char>,
) -> Reply {
    if !ends_message(line) {
        asked(Seq::empty(), StateView::AwaitingBody { to, subject, lines: lines.push(line) })
    } else if app_state::largest(message_ids(messages)) == u64::MAX {
        said("No room for the message.\nCmd: "@)
    } else {
        Reply {
            message: Some(new_message(messages, call, to, subject, lines, timestamp)),
            ..said("Message saved.\nCmd: "@)
        }
    }
}

/// The messages after an answer.
pub open spec fn stored(messages: Seq<MessageView>, reply: Reply) -> Seq<MessageView> {
    match reply.message {
        Some(m) => messages.push(m),
        None => messages,
    }
}

/// The answer to a line of input.
pub open spec fn line_reply(
    state: StateView,
    messages: Seq<MessageView>,
    call: Seq<char>,
    port_id: Seq<char>,
    line: Seq<char>,
    timestamp: Seq<char>,
) -> Reply {
    let line = text::trimmed(line);
    match state {
        StateView::Command => command_reply(messages, call, line),
        StateView::AwaitingQth => contact_reply(call, port_id, line, timestamp),
        StateView::AwaitingSubject { to } => asked(
            "Enter message, end with /EX on its own line.\n"@,
            StateView::AwaitingBody { to, subject: line, lines: Seq::empty() },
        ),
        StateView::AwaitingBody { to, subject, lines } => body_reply(
            messages,
            call,
            to,
            subject,
            lines,
            line,
            timestamp,
        ),
    }
}

fn list_messages(messages: &Vec<MailboxMessage>, call: &str) -> (r: (String, bool))
    ensures
        r.0@ == list_text(own_messages(config::views(messages@), call@)),
        r.1 == (own_messages(config::views(messages@), call@).len() > 0),
{
    let ghost all = config::views(messages@);
    let mut out = String::new();
    let mut any = false;
    let mut i: usize = 0;
    assert(out@ =~= list_text(own_messages(all.take(0), call@)));
    while i < messages.len()
        invariant
            i <= messages.len(),
            all == config::views(messages@),
            out@ == list_text(own_messages(all.take(i as int), call@)),
            any == (own_messages(all.take(i as int), call@).len() > 0),
        decreases messages.len() - i,
    {
        let m = &messages[i];
        proof {
            assert(all.take(i + 1).drop_last() =~= all.take(i as int));
            assert(all.take(i + 1).last() == messages@[i as int]@);
            let own = own_messages(all.take(i as int), call@);
            assert(own.push(messages@[i as int]@).drop_last() =~= own);
        }
        if text::eq_ignore_ascii_case(m.from.as_str(), call) {
            let number = text::padded_decimal(m.id, 4, ' ');
            let ghost before = out@;
            let mut line = number;
            line.append("  ");
            line.append(m.timestamp.as_str());
            line.append("  [");
            line.append(
                if m.read {
                    "R"
                } else {
                    " "
                },
            );
            line.append("]  to ");
            line.append(m.to.as_str());
            line.append("  ");
            line.append(m.subject.as_str());
            line.append("\n");
            assert(line@ == list_line(m@));
            out.append(line.as_str());
            any = true;
        }
        i += 1;
    }
    assert(all.take(i as int) =~= all);
    (out, any)
}

fn find_message(messages: &Vec<MailboxMessage>, call: &str, id: u64) -> (r: Option<usize>)
    ensures
        match r {
            Some(k) => k < messages@.len() && message_with(
                own_messages(config::views(messages@), call@),
                id,
            ) == Some(messages@[k as int]@),
            None => message_with(own_messages(config::views(messages@), call@), id) is None,
        },
{
    let ghost all = config::views(messages@);
    let mut found: Option<usize> = None;
    let mut i: usize = 0;
    assert(own_messages(all.take(0), call@) =~= Seq::<MessageView>::empty());
    while i < messages.len()
        invariant
            i <= messages.len(),
            all == config::views(messages@),
            match found {
                Some(k) => k < messages@.len() && message_with(
                    own_messages(all.take(i as int), call@),
                    id,
                ) == Some(messages@[k as int]@),
                None => message_with(own_messages(all.take(i as int), call@), id) is None,
            },
        decreases messages.len() - i,
    {
        proof {
            assert(all.take(i + 1).drop_last() =~= all.take(i as int));
            assert(all.take(i + 1).last() == messages@[i as int]@);
            let own = own_messages(all.take(i as int), call@);
            assert(own.push(messages@[i as int]@).drop_last() =~= own);
        }
        let own = text::eq_ignore_ascii_case(messages[i].from.as_str(), call);
        if own && found.is_none() && messages[i].id == id {
            found = Some(i);
        }
        i += 1;
    }
    assert(all.take(i as int) =~= all);
    found
}

fn handle_command(messages: &Vec<MailboxMessage>, remote_call: &str, line: &str) -> (r: (
    String,
    bool,
    MailboxState,
))
    ensures
        ({
            let reply = command_reply(config::views(messages@), remote_call@, line@);
            r.0@ == reply.text && r.1 == reply.close && r.2@ == reply.state && reply.contact is None
                && reply.message is None
        }),
{
    let (word, arg) = match text::split_once(line, ' ') {
        Some((a, b)) => (a, text::trim(b.as_str())),
        None => {
            proof {
                text::lemma_char_index(line@, ' ');
                assert(line@.take(line@.len() as int) =~= line@);
            }
            (text::owned(line), String::new())
        },
    };
    assert(arg@ == command_arg(line@));
    let cmd = text::to_uppercase(word.as_str());
    assert(cmd@ == command_word(line@));
    if text::eq_str(cmd.as_str(), "L") || text::eq_str(cmd.as_str(), "LIST") {
        let (mut out, any) = list_messages(messages, remote_call);
        if any {
            out.append("Cmd: ");
            (out, false, MailboxState::Command)
        } else {
            (text::owned("No messages on file from you.\nCmd: "), false, MailboxState::Command)
        }
    } else if text::eq_str(cmd.as_str(), "R") || text::eq_str(cmd.as_str(), "READ") {
        match text::parse_unsigned(arg.as_str(), u64::MAX) {
            None => (text::owned("Usage: R <id>\nCmd: "), false, MailboxState::Command),
            Some(id) => match find_message(messages, remote_call, id) {
                Some(k) => {
                    let m = &messages[k];
                    let mut out = text::owned("To: ");
                    out.append(m.to.as_str());
                    out.append("\nSubject: ");
                    out.append(m.subject.as_str());
                    out.append("\n\n");
                    out.append(m.body.as_str());
                    out.append("\n");
                    out.append("Cmd: ");
                    (out, false, MailboxState::Command)
                },
                None => (text::owned("No such message.\nCmd: "), false, MailboxState::Command),
            },
        }
    } else if text::eq_str(cmd.as_str(), "S") || text::eq_str(cmd.as_str(), "SEND") {
        if arg.as_str().is_empty() {
            (text::owned("Usage: S <call>\nCmd: "), false, MailboxState::Command)
        } else {
            let to = text::to_uppercase(arg.as_str());
            (text::owned("Subject: "), false, MailboxState::AwaitingSubject { to })
        }
    } else if text::eq_str(cmd.as_str(), "CQ") {
        (
            text::owned("QTH (city, state/country or grid locator): "),
            false,
            MailboxState::AwaitingQth,
        )
    } else if text::eq_str(cmd.as_str(), "B") || text::eq_str(cmd.as_str(), "BYE") {
        (text::owned("73, disconnecting...\n"), true, MailboxState::Command)
    } else {
        (text::owned("Unknown command.\nCmd: "), false, MailboxState::Command)
    }
}

pub open spec fn contact_view(o: Option<QsoLogEntry>) -> Option<QsoView> {
    match o {
        Some(e) => Some(e@),
        None => None,
    }
}

/// The largest number of a message, 0 for none.
fn last_message(messages: &Vec<MailboxMessage>) -> (r: u64)
    ensures
        r == app_state::largest(message_ids(config::views(messages@))),
{
    let ghost ids = message_ids(config::views(messages@));
    let mut max: u64 = 0;
    let mut i: usize = 0;
    while i < messages.len()
        invariant
            i <= messages.len(),
            ids == message_ids(config::views(messages@)),
            max == app_state::largest(ids.take(i as int)),
        decreases messages.len() - i,
    {
        let id: u64 = messages[i].id;
        assert(ids.take(i + 1).drop_last() =~= ids.take(i as int));
        assert(ids[i as int] == id);
        if id > max {
            max = id;
        }
        i += 1;
    }
    assert(ids.take(i as int) =~= ids);
    max
}

/// Takes one line of input from the connected station. Gives the answer, whether
/// the connection is to be closed, and the contact to log, if there is one. A
/// message that the line completes is added to the others.
pub fn handle_line(
    state: &mut MailboxState,
    messages: &mut Vec<MailboxMessage>,
    remote_call: &str,
    port_id: &str,
    line: &str,
    timestamp: &str,
) -> (r: (String, bool, Option<QsoLogEntry>))
    ensures
        ({
            let reply = line_reply(
                old(state)@,
                config::views(old(messages)@),
                remote_call@,
                port_id@,
                line@,
                timestamp@,
            );
            &&& r.0@ == reply.text
            &&& r.1 == reply.close
            &&& contact_view(r.2) == reply.contact
            &&& final(state)@ == reply.state
            &&& config::views(final(messages)@) == stored(config::views(old(messages)@), reply)
            &&& reply.message is None ==> *final(messages) == *old(messages)
        }),
{
    let line = text::trim(line);
    let mut before = MailboxState::Command;
    std::mem::swap(&mut before, state);
    match before {
        MailboxState::Command => {
            let (answer, close, next) = handle_command(messages, remote_call, line.as_str());
            *state = next;
            (answer, close, None)
        },
        MailboxState::AwaitingQth => {
            let mut answer = String::new();
            if !line.as_str().is_empty() {
                answer.append("QTH logged: ");
                answer.append(line.as_str());
                answer.append("\n");
                assert(answer@ =~= "QTH logged: "@ + line@ + "\n"@);
            }
            answer.append("Contact logged. 73 de ");
            answer.append(remote_call);
            answer.append("!\n");
            answer.append("Cmd: ");
            let entry = QsoLogEntry {
                callsign: text::owned(remote_call),
                port_id: text::owned(port_id),
                started: text::owned(timestamp),
                ended: None,
                location: text::nonempty(line),
                from_cq: true,
            };
            (answer, false, Some(entry))
        },
        MailboxState::AwaitingSubject { to } => {
            *state = MailboxState::AwaitingBody { to, subject: line, lines: text::no_texts() };
            (text::owned("Enter message, end with /EX on its own line.\n"), false, None)
        },
        MailboxState::AwaitingBody { to, subject, lines } => {
            if !text::eq_ignore_ascii_case(line.as_str(), "/EX") {
                let mut lines = lines;
                text::add_text(&mut lines, line);
                *state = MailboxState::AwaitingBody { to, subject, lines };
                return (String::new(), false, None);
            }
            let last: u64 = last_message(messages);
            if last == u64::MAX {
                return (text::owned("No room for the message.\nCmd: "), false, None);
            }
            let m = MailboxMessage {
                id: last + 1,
                to,
                from: text::owned(remote_call),
                subject,
                body: text::join(&lines, "\n"),
                timestamp: text::owned(timestamp),
                read: false,
            };
            proof {
                config::lemma_views_push(messages@, m);
            }
            messages.push(m);
            (text::owned("Message saved.\nCmd: "), false, None)
        },
    }
}

// ---------------------------------------------------------------------------
// Laws
// ---------------------------------------------------------------------------

proof fn lemma_foreign_message(messages: Seq<MessageView>, k: int, m: MessageView, call: Seq<char>)
    requires
        0 <= k <= messages.len(),
        !same_call(m.from, call),
    ensures
        own_messages(messages.insert(k, m), call) == own_messages(messages, call),
    decreases messages.len(),
{
    let more = messages.insert(k, m);
    if k == messages.len() {
        assert(more.drop_last() =~= messages);
    } else {
        assert(more.drop_last() =~= messages.drop_last().insert(k, m));
        assert(more.last() == messages.last());
        lemma_foreign_message(messages.drop_last(), k, m, call);
    }
}

/// A station never learns of messages that others left: with another station's
/// message anywhere among the messages, every answer is the same. Only the number of
/// a message that it leaves itself may differ, and a message with the last number
/// there is leaves no room for more.
pub proof fn law_others_messages_hidden(
    state: StateView,
    messages: Seq<MessageView>,
    k: int,
    m: MessageView,
    call: Seq<char>,
    port_id: Seq<char>,
    line: Seq<char>,
    timestamp: Seq<char>,
)
    requires
        0 <= k <= messages.len(),
        !same_call(m.from, call),
        m.id < u64::MAX,
    ensures
        ({
            let a = line_reply(state, messages.insert(k, m), call, port_id, line, timestamp);
            let b = line_reply(state, messages, call, port_id, line, timestamp);
            &&& a.text == b.text
            &&& a.close == b.close
            &&& a.contact == b.contact
            &&& a.state == b.state
            &&& a.message is Some == b.message is Some
            &&& b.message is Some ==> a.message == Some(
                MessageView { id: a.message->0.id, ..b.message->0 },
            )
        }),
{
    lemma_foreign_message(messages, k, m, call);
    lemma_largest_of_more(messages, k, m);
}

/// The connection is closed exactly by the command `B`, a position is asked for
/// exactly by `CQ`, and a contact is logged exactly when a position was asked for.
pub proof fn law_closing_and_logging(
    state: StateView,
    messages: Seq<MessageView>,
    call: Seq<char>,
    port_id: Seq<char>,
    line: Seq<char>,
    timestamp: Seq<char>,
)
    ensures
        ({
            let reply = line_reply(state, messages, call, port_id, line, timestamp);
            let word = command_word(text::trimmed(line));
            &&& reply.close <==> state is Command && (word == "B"@ || word == "BYE"@)
            &&& reply.contact is Some <==> state is AwaitingQth
            &&& reply.state is AwaitingQth <==> state is Command && word == "CQ"@
        }),
{
    reveal_strlit("L");
    reveal_strlit("LIST");
    reveal_strlit("R");
    reveal_strlit("READ");
    reveal_strlit("S");
    reveal_strlit("SEND");
    reveal_strlit("CQ");
    reveal_strlit("B");
    reveal_strlit("BYE");
    assert("B"@.len() == 1 && "BYE"@.len() == 3 && "CQ"@.len() == 2);
    assert("B"@[0] == 'B' && "L"@[0] == 'L' && "R"@[0] == 'R' && "S"@[0] == 'S');
}

proof fn lemma_largest_of_more(messages: Seq<MessageView>, k: int, m: MessageView)
    requires
        0 <= k <= messages.len(),
    ensures
        ({
            let before = app_state::largest(message_ids(messages));
            app_state::largest(message_ids(messages.insert(k, m))) == (if m.id > before {
                m.id
            } else {
                before
            })
        }),
    decreases messages.len(),
{
    let more = messages.insert(k, m);
    let ids = message_ids(more);
    assert(ids.drop_last() =~= message_ids(more.drop_last()));
    if k == messages.len() {
        assert(more.drop_last() =~= messages);
    } else {
        assert(more.drop_last() =~= messages.drop_last().insert(k, m));
        assert(message_ids(messages).drop_last() =~= message_ids(messages.drop_last()));
        assert(ids.last() == message_ids(messages).last());
        lemma_largest_of_more(messages.drop_last(), k, m);
    }
}

/// Where some lines leave the dialogue, and the messages with it.
pub open spec fn after_lines(
    state: StateView,
    messages: Seq<MessageView>,
    call: Seq<char>,
    port_id: Seq<char>,
    lines: Seq<Seq<char>>,
    timestamp: Seq<char>,
) -> (StateView, Seq<MessageView>)
    decreases lines.len(),
{
    if lines.len() == 0 {
        (state, messages)
    } else {
        let before = after_lines(state, messages, call, port_id, lines.drop_last(), timestamp);
        let reply = line_reply(before.0, before.1, call, port_id, lines.last(), timestamp);
        (reply.state, stored(before.1, reply))
    }
}

proof fn lemma_body(
    to: Seq<char>,
    subject: Seq<char>,
    messages: Seq<MessageView>,
    call: Seq<char>,
    port_id: Seq<char>,
    lines: Seq<Seq<char>>,
    timestamp: Seq<char>,
)
    requires
        forall|i: int| 0 <= i < lines.len() ==> !ends_message(text::trimmed(#[trigger] lines[i])),
    ensures
        after_lines(
            StateView::AwaitingBody { to, subject, lines: Seq::empty() },
            messages,
            call,
            port_id,
            lines,
            timestamp,
        ) == (
            StateView::AwaitingBody {
                to,
                subject,
                lines: lines.map_values(|l: Seq<char>| text::trimmed(l)),
            },
            messages,
        ),
    decreases lines.len(),
{
    let trim = |l: Seq<char>| text::trimmed(l);
    if lines.len() == 0 {
        assert(lines.map_values(trim) =~= Seq::empty());
    } else {
        assert forall|i: int| 0 <= i < lines.drop_last().len() implies !ends_message(
            text::trimmed(#[trigger] lines.drop_last()[i]),
        ) by {
            assert(lines.drop_last()[i] == lines[i]);
        }
        lemma_body(to, subject, messages, call, port_id, lines.drop_last(), timestamp);
        assert(!ends_message(text::trimmed(lines[lines.len() - 1])));
        assert(lines.map_values(trim) =~= lines.drop_last().map_values(trim).push(
            text::trimmed(lines.last()),
        ));
    }
}

/// A message goes in as it is typed: after `S` with a station, a subject, lines that
/// do not end the message and the line that does, it is stored behind the others,
/// from the connected station, unread, and the dialogue is back at its commands.
pub proof fn law_message_left(
    messages: Seq<MessageView>,
    call: Seq<char>,
    port_id: Seq<char>,
    send: Seq<char>,
    subject: Seq<char>,
    lines: Seq<Seq<char>>,
    end: Seq<char>,
    timestamp: Seq<char>,
)
    requires
        command_word(text::trimmed(send)) == "S"@ || command_word(text::trimmed(send)) == "SEND"@,
        command_arg(text::trimmed(send)).len() > 0,
        forall|i: int| 0 <= i < lines.len() ==> !ends_message(text::trimmed(#[trigger] lines[i])),
        ends_message(text::trimmed(end)),
        app_state::largest(message_ids(messages)) < u64::MAX,
    ensures
        ({
            let s1 = line_reply(StateView::Command, messages, call, port_id, send, timestamp);
            let s2 = line_reply(s1.state, messages, call, port_id, subject, timestamp);
            let s3 = after_lines(s2.state, messages, call, port_id, lines, timestamp);
            let s4 = line_reply(s3.0, s3.1, call, port_id, end, timestamp);
            &&& s4.state is Command
            &&& s3.1 == messages
            &&& stored(s3.1, s4) == messages.push(
                new_message(
                    messages,
                    call,
                    text::upper_text(command_arg(text::trimmed(send))),
                    text::trimmed(subject),
                    lines.map_values(|l: Seq<char>| text::trimmed(l)),
                    timestamp,
                ),
            )
        }),
{
    reveal_strlit("L");
    reveal_strlit("LIST");
    reveal_strlit("R");
    reveal_strlit("READ");
    reveal_strlit("S");
    reveal_strlit("SEND");
    assert("L"@[0] == 'L' && "LIST"@[0] == 'L' && "R"@[0] == 'R' && "READ"@[0] == 'R');
    assert("S"@[0] == 'S' && "SEND"@[0] == 'S');
    lemma_body(
        text::upper_text(command_arg(text::trimmed(send))),
        text::trimmed(subject),
        messages,
        call,
        port_id,
        lines,
        timestamp,
    );
}

proof fn lemma_own_ids(messages: Seq<MessageView>, call: Seq<char>, id: u64)
    requires
        app_state::largest(message_ids(messages)) < id,
    ensures
        message_with(own_messages(messages, call), id) is None,
    decreases messages.len(),
{
    if messages.len() > 0 {
        let ids = message_ids(messages);
        assert(ids.drop_last() =~= message_ids(messages.drop_last()));
        assert(ids.last() == messages.last().id);
        lemma_own_ids(messages.drop_last(), call, id);
        let own = own_messages(messages.drop_last(), call);
        assert(own.push(messages.last()).drop_last() =~= own);
    }
}

/// What a station left it can read: once a line has stored a message, `R` with its
/// number answers with that message.
pub proof fn law_message_can_be_read(
    state: StateView,
    messages: Seq<MessageView>,
    call: Seq<char>,
    port_id: Seq<char>,
    line: Seq<char>,
    timestamp: Seq<char>,
    read: Seq<char>,
)
    requires
        line_reply(state, messages, call, port_id, line, timestamp).message is Some,
        command_word(read) == "R"@ || command_word(read) == "READ"@,
        text::unsigned_value(command_arg(read)) == Some(
            line_reply(state, messages, call, port_id, line, timestamp).message->0.id as nat,
        ),
    ensures
        ({
            let reply = line_reply(state, messages, call, port_id, line, timestamp);
            command_reply(stored(messages, reply), call, read) == said(
                message_text(reply.message->0),
            )
        }),
{
    reveal_strlit("L");
    reveal_strlit("LIST");
    reveal_strlit("R");
    reveal_strlit("READ");
    assert("L"@[0] == 'L' && "LIST"@[0] == 'L' && "R"@[0] == 'R' && "READ"@[0] == 'R');
    let m = line_reply(state, messages, call, port_id, line, timestamp).message->0;
    lemma_own_ids(messages, call, m.id);
    let own = own_messages(messages, call);
    assert(messages.push(m).drop_last() =~= messages);
    assert(own.push(m).drop_last() =~= own);
    assert(own_messages(messages.push(m), call) == own.push(m));
}

/// A line of the list that tells of the message `m`: its number, when it was left, to
/// whom, and its subject, in this order, and a line feed at its end only.
pub open spec fn lists(line: Seq<char>, m: MessageView) -> bool {
    exists|a: Seq<char>, b: Seq<char>, c: Seq<char>, d: Seq<char>| #[trigger]
        lists_between(line, m, a, b, c, d)
}

pub open spec fn lists_between(
    line: Seq<char>,
    m: MessageView,
    a: Seq<char>,
    b: Seq<char>,
    c: Seq<char>,
    d: Seq<char>,
) -> bool {
    &&& line == a + text::decimal(m.id as nat) + b + m.timestamp + c + m.to + d + m.subject + seq![
        '\n',
    ]
    &&& (forall|i: int| 0 <= i < a.len() ==> a[i] == ' ')
    &&& b == seq![' ', ' ']
    &&& c == seq![
        ' ',
        ' ',
        '[',
        (if m.read {
            'R'
        } else {
            ' '
        }),
        ']',
        ' ',
        ' ',
        't',
        'o',
        ' ',
    ]
    &&& d == seq![' ', ' ']
}

/// The answer is made of the given lines, one behind another, and a prompt.
pub open spec fn made_of(t: Seq<char>, lines: Seq<Seq<char>>) -> bool {
    t == lines.flatten() + seq!['C', 'm', 'd', ':', ' ']
}

proof fn lemma_list_line(m: MessageView)
    ensures
        lists(list_line(m), m),
{
    reveal_strlit("  ");
    reveal_strlit("  [");
    reveal_strlit("R");
    reveal_strlit(" ");
    reveal_strlit("]  to ");
    reveal_strlit("\n");
    let n = text::decimal(m.id as nat);
    let a = if n.len() >= 4 {
        Seq::<char>::empty()
    } else {
        Seq::new((4 - n.len()) as nat, |i: int| ' ')
    };
    let mark = if m.read {
        'R'
    } else {
        ' '
    };
    let c = seq![' ', ' ', '[', mark, ']', ' ', ' ', 't', 'o', ' '];
    let gap = seq![' ', ' '];
    assert(text::padded(n, 4, ' ') =~= a + n);
    assert(list_line(m) =~= a + n + gap + m.timestamp + c + m.to + gap + m.subject + seq!['\n']);
    assert(lists_between(list_line(m), m, a, gap, c, gap));
}

proof fn lemma_list_text(own: Seq<MessageView>)
    ensures
        list_text(own) == own.map_values(|m: MessageView| list_line(m)).flatten(),
    decreases own.len(),
{
    let f = |m: MessageView| list_line(m);
    let lines = own.map_values(f);
    if own.len() == 0 {
        assert(lines =~= Seq::<Seq<char>>::empty());
        assert(lines.flatten() =~= Seq::<char>::empty());
    } else {
        lemma_list_text(own.drop_last());
        let less = own.drop_last().map_values(f);
        assert(lines =~= less.push(list_line(own.last())));
        less.lemma_flatten_push(list_line(own.last()));
    }
}

proof fn lemma_own_messages(messages: Seq<MessageView>, call: Seq<char>)
    ensures
        own_messages(messages, call) == messages.filter(|m: MessageView| same_call(m.from, call)),
    decreases messages.len(),
{
    reveal(Seq::filter);
    if messages.len() > 0 {
        lemma_own_messages(messages.drop_last(), call);
    }
}

/// `L` lists what the station left, and nothing else: there is one line for each such
/// message, in their order, and the line of each tells of that message.
pub proof fn law_list_is_complete(messages: Seq<MessageView>, call: Seq<char>, line: Seq<char>)
    requires
        command_word(line) == "L"@ || command_word(line) == "LIST"@,
    ensures
        ({
            let own = messages.filter(|m: MessageView| same_call(m.from, call));
            let reply = command_reply(messages, call, line);
            &&& !reply.close && reply.contact is None && reply.message is None
            &&& reply.state is Command
            &&& own.len() > 0 ==> exists|lines: Seq<Seq<char>>|
                {
                    &&& #[trigger] made_of(reply.text, lines)
                    &&& lines.len() == own.len()
                    &&& forall|k: int| 0 <= k < own.len() ==> lists(#[trigger] lines[k], own[k])
                }
            &&& own.len() == 0 ==> reply.text == "No messages on file from you.\nCmd: "@
        }),
{
    reveal_strlit("Cmd: ");
    lemma_own_messages(messages, call);
    let own = own_messages(messages, call);
    let lines = own.map_values(|m: MessageView| list_line(m));
    lemma_list_text(own);
    let prompt = seq!['C', 'm', 'd', ':', ' '];
    assert("Cmd: "@ =~= prompt);
    assert forall|k: int| 0 <= k < own.len() implies lists(#[trigger] lines[k], own[k]) by {
        lemma_list_line(own[k]);
    }
    if own.len() > 0 {
        assert(made_of(command_reply(messages, call, line).text, lines));
    }
}

/// `R` with a number answers with the first message of that number that the station
/// left: to whom it is, its subject and its text; and says so where there is none.
pub proof fn law_read_answers(messages: Seq<MessageView>, call: Seq<char>, line: Seq<char>, id: u64)
    requires
        command_word(line) == "R"@ || command_word(line) == "READ"@,
        text::unsigned_value(command_arg(line)) == Some(id as nat),
    ensures
        ({
            let own = messages.filter(|m: MessageView| same_call(m.from, call));
            let reply = command_reply(messages, call, line);
            &&& !reply.close && reply.contact is None && reply.message is None
            &&& reply.state is Command
            &&& forall|k: int|
                0 <= k < own.len() && own[k].id == id && (forall|i: int|
                    0 <= i < k ==> (#[trigger] own[i]).id != id) ==> reply.text == "To: "@ + (
                #[trigger] own[k]).to + "\nSubject: "@ + own[k].subject + "\n\n"@ + own[k].body
                    + "\nCmd: "@
            &&& (forall|k: int| 0 <= k < own.len() ==> (#[trigger] own[k]).id != id) ==> reply.text
                == "No such message.\nCmd: "@
        }),
{
    reveal_strlit("L");
    reveal_strlit("LIST");
    reveal_strlit("R");
    reveal_strlit("READ");
    reveal_strlit("\n");
    reveal_strlit("Cmd: ");
    reveal_strlit("\nCmd: ");
    assert("L"@[0] == 'L' && "LIST"@[0] == 'L' && "R"@[0] == 'R' && "READ"@[0] == 'R');
    assert("\n"@ + "Cmd: "@ =~= "\nCmd: "@);
    lemma_own_messages(messages, call);
    let own = own_messages(messages, call);
    let reply = command_reply(messages, call, line);
    assert forall|k: int|
        0 <= k < own.len() && own[k].id == id && (forall|i: int|
            0 <= i < k ==> (#[trigger] own[i]).id != id) implies reply.text == "To: "@ + (
    #[trigger] own[k]).to + "\nSubject: "@ + own[k].subject + "\n\n"@ + own[k].body + "\nCmd: "@ by {
        lemma_message_with(own, id, k);
        let m = own[k];
        assert(message_text(m) =~= "To: "@ + m.to + "\nSubject: "@ + m.subject + "\n\n"@ + m.body
            + "\nCmd: "@);
    }
    if forall|k: int| 0 <= k < own.len() ==> (#[trigger] own[k]).id != id {
        lemma_message_with(own, id, own.len() as int);
    }
}

proof fn lemma_message_with(own: Seq<MessageView>, id: u64, k: int)
    requires
        0 <= k <= own.len(),
        k < own.len() ==> own[k].id == id,
        forall|i: int| 0 <= i < k ==> (#[trigger] own[i]).id != id,
    ensures
        message_with(own, id) == (if k < own.len() {
            Some(own[k])
        } else {
            None
        }),
    decreases own.len(),
{
    if own.len() > 0 {
        let less = own.drop_last();
        assert forall|i: int| 0 <= i < less.len() implies less[i] == #[trigger] own[i] by {}
        if k < own.len() - 1 {
            lemma_message_with(less, id, k);
        } else {
            lemma_message_with(less, id, less.len() as int);
            if k == own.len() {
                assert(own[own.len() - 1].id != id);
            }
        }
    }
}

/// A contact is logged as it was made: with the station, over the port, at the time,
/// from the place that it gave, and as one that answered a call to all.
pub proof fn law_contact_logged(
    messages: Seq<MessageView>,
    call: Seq<char>,
    port_id: Seq<char>,
    line: Seq<char>,
    timestamp: Seq<char>,
)
    ensures
        ({
            let reply = line_reply(
                StateView::AwaitingQth,
                messages,
                call,
                port_id,
                line,
                timestamp,
            );
            &&& reply.contact matches Some(q) && q.callsign == call && q.port_id == port_id
                && q.started == timestamp && q.ended is None && q.from_cq && (
            text::trimmed(line).len() > 0 ==> q.location == Some(text::trimmed(line))) && (
            text::trimmed(line).len() == 0 ==> q.location is None)
            &&& reply.state is Command && !reply.close && reply.message is None
        }),
{
}

/// A message that is stored is for whom it was left, from whom it came, with its
/// subject, its lines and its time, unread, and under a number that none had.
pub proof fn law_message_fields(
    messages: Seq<MessageView>,
    call: Seq<char>,
    to: Seq<char>,
    subject: Seq<char>,
    lines: Seq<Seq<char>>,
    timestamp: Seq<char>,
)
    requires
        app_state::largest(message_ids(messages)) < u64::MAX,
    ensures
        ({
            let m = new_message(messages, call, to, subject, lines, timestamp);
            &&& m.to == to
            &&& m.from == call
            &&& m.subject == subject
            &&& m.body == text::joined(lines, "\n"@)
            &&& m.timestamp == timestamp
            &&& !m.read
            &&& forall|i: int| 0 <= i < messages.len() ==> (#[trigger] messages[i]).id < m.id
        }),
{
    app_state::lemma_largest(message_ids(messages));
    assert forall|i: int| 0 <= i < messages.len() implies (#[trigger] messages[i]).id
        <= app_state::largest(message_ids(messages)) by {
        assert(message_ids(messages)[i] == messages[i].id);
        assert(message_ids(messages).contains(messages[i].id));
    }
}

/// Commands are taken in any case, and what is no command is answered as such.
pub proof fn law_commands_in_any_case(
    messages: Seq<MessageView>,
    call: Seq<char>,
    a: Seq<char>,
    b: Seq<char>,
    rest: Seq<char>,
)
    requires
        !a.contains(' '),
        !b.contains(' '),
        text::upper_text(a) == text::upper_text(b),
    ensures
        command_reply(messages, call, a + seq![' '] + rest) == command_reply(
            messages,
            call,
            b + seq![' '] + rest,
        ),
        command_reply(messages, call, a) == command_reply(messages, call, b),
{
    lemma_command_parts(a, rest);
    lemma_command_parts(b, rest);
}

proof fn lemma_command_parts(w: Seq<char>, rest: Seq<char>)
    requires
        !w.contains(' '),
    ensures
        command_word(w + seq![' '] + rest) == text::upper_text(w),
        command_arg(w + seq![' '] + rest) == text::trimmed(rest),
        command_word(w) == text::upper_text(w),
        command_arg(w) == Seq::<char>::empty(),
{
    let s = w + seq![' '] + rest;
    assert forall|j: int| 0 <= j < w.len() implies s[j] != ' ' by {
        assert(s[j] == w[j]);
        assert(w.contains(w[j]));
    }
    text::lemma_char_index_unique(s, ' ', w.len() as int);
    assert(s.take(w.len() as int) =~= w);
    assert(s.skip(w.len() as int + 1) =~= rest);
    text::lemma_char_index(w, ' ');
    let i = text::char_index(w, ' ');
    if i < w.len() {
        assert(w[i] == ' ');
    }
    assert(w.take(i) =~= w);
}

} // verus!
