//! The list of ports and the forms that edit it.

use vstd::prelude::*;

use crate::config::{
    self, AgwpeLogin, KissArqParams, KissParams, PortConfig, PortConfigView, PortEntry,
    PortView,
};
use crate::identifiers;
use crate::session_tab;
use crate::text;

verus! {

// ---------------------------------------------------------------------------
// Numbers in forms
// ---------------------------------------------------------------------------

/// The number that a text denotes, up to `max`.
pub open spec fn number_in(s: Seq<char>, max: nat) -> Option<nat> {
    match text::unsigned_value(s) {
        Some(n) => if n <= max {
            Some(n)
        } else {
            None
        },
        None => None,
    }
}

pub fn read_number(s: &str, max: u64) -> (r: Option<u64>)
    ensures
        match r {
            Some(n) => number_in(s@, max as nat) == Some(n as nat) && n <= max,
            None => number_in(s@, max as nat) is None,
        },
{
    text::parse_unsigned(s, max)
}

/// A number that may be left out: a blank text stands for none.
pub open spec fn optional_number(s: Seq<char>, max: nat) -> Result<Option<nat>, ()> {
    let t = text::trimmed(s);
    if t.len() == 0 {
        Ok(None)
    } else {
        match number_in(t, max) {
            Some(n) => Ok(Some(n)),
            None => Err(()),
        }
    }
}

fn read_optional(s: &str, max: u64) -> (r: Result<Option<u64>, ()>)
    ensures
        match r {
            Ok(Some(n)) => optional_number(s@, max as nat) == Ok::<Option<nat>, ()>(Some(n as nat))
                && n <= max,
            Ok(None) => optional_number(s@, max as nat) == Ok::<Option<nat>, ()>(None),
            Err(_) => optional_number(s@, max as nat) is Err,
        },
{
    let t = text::trim(s);
    if t.as_str().is_empty() {
        return Ok(None);
    }
    match read_number(t.as_str(), max) {
        Some(n) => Ok(Some(n)),
        None => Err(()),
    }
}

/// A positive number of 32 bits, white space around it disregarded.
pub open spec fn positive_in(s: Seq<char>) -> Option<nat> {
    match number_in(text::trimmed(s), u32::MAX as nat) {
        Some(n) => if n > 0 {
            Some(n)
        } else {
            None
        },
        None => None,
    }
}

pub fn read_positive(s: &str) -> (r: Option<u32>)
    ensures
        match r {
            Some(n) => positive_in(s@) == Some(n as nat),
            None => positive_in(s@) is None,
        },
{
    let t = text::trim(s);
    match read_number(t.as_str(), u32::MAX as u64) {
        Some(n) => if n > 0 {
            Some(n as u32)
        } else {
            None
        },
        None => None,
    }
}

// ---------------------------------------------------------------------------
// The form of a port
// ---------------------------------------------------------------------------

/// The transmit parameters of a KISS port as they are typed.
#[derive(Debug)]
pub struct KissForm {
    pub tx_delay: String,
    pub persistence: String,
    pub slot_time: String,
    pub full_duplex: bool,
}

/// The tuning of the connected mode as it is typed.
#[derive(Debug)]
pub struct KissArqForm {
    pub window: String,
    pub t1_ms: String,
    pub n2: String,
    pub paclen: String,
}

/// The fields of one kind of port as they are typed.
#[derive(Debug)]
#[allow(inconsistent_fields)]
pub enum KindForm {
    Telnet { host: String, port: String },
    Ssh { host: String, port: String, user: String },
    Agwpe {
        host: String,
        port: String,
        radio_port: String,
        my_call: String,
        username: String,
        password: String,
    },
    Ax25RawSocket { device: String },
    KissTcp { host: String, port: String, my_call: String, kiss: KissForm, arq: KissArqForm },
    KissSerial { device: String, baud: String, my_call: String, kiss: KissForm, arq: KissArqForm },
}

/// The form of a port.
#[derive(Debug)]
pub struct PortForm {
    pub name: String,
    pub kind: KindForm,
    pub autoconnect: bool,
    pub favorite: bool,
}

pub open spec fn opt_u8(o: Option<nat>) -> Option<u8> {
    match o {
        Some(n) => Some(n as u8),
        None => None,
    }
}

pub open spec fn opt_u32(o: Option<nat>) -> Option<u32> {
    match o {
        Some(n) => Some(n as u32),
        None => None,
    }
}

pub open spec fn opt_usize(o: Option<nat>) -> Option<usize> {
    match o {
        Some(n) => Some(n as usize),
        None => None,
    }
}

/// What a number field of the transmit parameters gives.
pub open spec fn byte_field(s: Seq<char>, field: Seq<char>) -> Result<Option<u8>, Seq<char>> {
    match optional_number(s, 255) {
        Ok(o) => Ok(opt_u8(o)),
        Err(_) => Err(field + " must be a number 0-255."@),
    }
}

/// What the form of the transmit parameters gives. The first field that is no
/// number is reported.
pub open spec fn kiss_in(f: KissForm) -> Result<KissParams, Seq<char>> {
    match byte_field(f.tx_delay@, "TXDELAY"@) {
        Err(e) => Err(e),
        Ok(tx_delay) => match byte_field(f.persistence@, "Persistence"@) {
            Err(e) => Err(e),
            Ok(persistence) => match byte_field(f.slot_time@, "Slot Time"@) {
                Err(e) => Err(e),
                Ok(slot_time) => Ok(
                    KissParams {
                        tx_delay,
                        persistence,
                        slot_time,
                        full_duplex: if f.full_duplex {
                            Some(true)
                        } else {
                            None
                        },
                    },
                ),
            },
        },
    }
}

pub open spec fn params_result(r: Result<KissParams, String>) -> Result<KissParams, Seq<char>> {
    match r {
        Ok(p) => Ok(p),
        Err(e) => Err(e@),
    }
}

pub open spec fn byte_result(r: Result<Option<u8>, String>) -> Result<Option<u8>, Seq<char>> {
    match r {
        Ok(p) => Ok(p),
        Err(e) => Err(e@),
    }
}

fn read_byte_field(s: &str, field: &str) -> (r: Result<Option<u8>, String>)
    ensures
        byte_result(r) == byte_field(s@, field@),
{
    match read_optional(s, 255) {
        Ok(Some(n)) => Ok(Some(n as u8)),
        Ok(None) => Ok(None),
        Err(_) => {
            let mut e = text::owned(field);
            e.append(" must be a number 0-255.");
            Err(e)
        },
    }
}

/// Reads the form of the transmit parameters.
pub fn parse_kiss_params(f: &KissForm) -> (r: Result<KissParams, String>)
    ensures
        params_result(r) == kiss_in(*f),
{
    let tx_delay = match read_byte_field(f.tx_delay.as_str(), "TXDELAY") {
        Ok(v) => v,
        Err(e) => {
            return Err(e);
        },
    };
    let persistence = match read_byte_field(f.persistence.as_str(), "Persistence") {
        Ok(v) => v,
        Err(e) => {
            return Err(e);
        },
    };
    let slot_time = match read_byte_field(f.slot_time.as_str(), "Slot Time") {
        Ok(v) => v,
        Err(e) => {
            return Err(e);
        },
    };
    Ok(
        KissParams {
            tx_delay,
            persistence,
            slot_time,
            full_duplex: if f.full_duplex {
                Some(true)
            } else {
                None
            },
        },
    )
}

/// What a number field of the tuning gives.
pub open spec fn word_field(s: Seq<char>, field: Seq<char>) -> Result<Option<nat>, Seq<char>> {
    match optional_number(s, u32::MAX as nat) {
        Ok(o) => Ok(o),
        Err(_) => Err(field + " must be a non-negative number."@),
    }
}

pub open spec fn word_result(r: Result<Option<u32>, String>) -> Result<Option<nat>, Seq<char>> {
    match r {
        Ok(Some(n)) => Ok(Some(n as nat)),
        Ok(None) => Ok(None),
        Err(e) => Err(e@),
    }
}

fn read_word_field(s: &str, field: &str) -> (r: Result<Option<u32>, String>)
    ensures
        word_result(r) == word_field(s@, field@),
{
    match read_optional(s, u32::MAX as u64) {
        Ok(Some(n)) => Ok(Some(n as u32)),
        Ok(None) => Ok(None),
        Err(_) => {
            let mut e = text::owned(field);
            e.append(" must be a non-negative number.");
            Err(e)
        },
    }
}

/// The window size: one to seven frames.
pub open spec fn window_in(s: Seq<char>) -> Result<Option<u8>, Seq<char>> {
    match optional_number(s, 255) {
        Ok(None) => Ok(None),
        Ok(Some(n)) => if 1 <= n <= 7 {
            Ok(Some(n as u8))
        } else {
            Err("Window size must be 1-7."@)
        },
        Err(_) => Err("Window size must be a number."@),
    }
}

/// What the form of the tuning gives.
pub open spec fn arq_in(f: KissArqForm) -> Result<KissArqParams, Seq<char>> {
    match window_in(f.window@) {
        Err(e) => Err(e),
        Ok(window) => match word_field(f.t1_ms@, "Ack Timer T1"@) {
            Err(e) => Err(e),
            Ok(t1_ms) => match word_field(f.n2@, "Max Retries (N2)"@) {
                Err(e) => Err(e),
                Ok(n2) => match word_field(f.paclen@, "Max I-Frame Size (N1)"@) {
                    Err(e) => Err(e),
                    Ok(n1) => Ok(
                        KissArqParams {
                            window,
                            t1_ms: opt_u32(t1_ms),
                            n2: opt_u32(n2),
                            n1_bytes: opt_usize(n1),
                        },
                    ),
                },
            },
        },
    }
}

pub open spec fn arq_result(r: Result<KissArqParams, String>) -> Result<KissArqParams, Seq<char>> {
    match r {
        Ok(p) => Ok(p),
        Err(e) => Err(e@),
    }
}

/// Reads the form of the tuning.
pub fn parse_kiss_arq_params(f: &KissArqForm) -> (r: Result<KissArqParams, String>)
    ensures
        arq_result(r) == arq_in(*f),
{
    let window = match read_optional(f.window.as_str(), 255) {
        Ok(None) => None,
        Ok(Some(n)) => {
            if n < 1 || n > 7 {
                return Err(text::owned("Window size must be 1-7."));
            }
            Some(n as u8)
        },
        Err(_) => {
            return Err(text::owned("Window size must be a number."));
        },
    };
    let t1_ms = match read_word_field(f.t1_ms.as_str(), "Ack Timer T1") {
        Ok(v) => v,
        Err(e) => {
            return Err(e);
        },
    };
    let n2 = match read_word_field(f.n2.as_str(), "Max Retries (N2)") {
        Ok(v) => v,
        Err(e) => {
            return Err(e);
        },
    };
    let n1 = match read_word_field(f.paclen.as_str(), "Max I-Frame Size (N1)") {
        Ok(v) => v,
        Err(e) => {
            return Err(e);
        },
    };
    let n1_bytes = match n1 {
        Some(n) => Some(n as usize),
        None => None,
    };
    Ok(KissArqParams { window, t1_ms, n2, n1_bytes })
}

/// What a form gives for a kind of port, or the message that says what is wrong.
pub open spec fn kind_in(f: KindForm) -> Result<PortConfigView, Seq<char>> {
    match f {
        KindForm::Telnet { host, port } => match number_in(port@, 65535) {
            Some(n) => Ok(PortConfigView::Telnet { host: host@, port: n as u16 }),
            None => Err("Telnet port must be a number 0-65535."@),
        },
        KindForm::Ssh { host, port, user } => match number_in(port@, 65535) {
            Some(n) => Ok(PortConfigView::Ssh { host: host@, port: n as u16, user: user@ }),
            None => Err("SSH port must be a number 0-65535."@),
        },
        KindForm::Agwpe { host, port, radio_port, my_call, username, password } => match number_in(
            port@,
            65535,
        ) {
            None => Err("AGWPE TCP port must be a number 0-65535."@),
            Some(n) => match number_in(radio_port@, 255) {
                None => Err("Radio port must be a number 0-255."@),
                Some(radio) => Ok(
                    PortConfigView::Agwpe {
                        host: host@,
                        port: n as u16,
                        radio_port: radio as u8,
                        my_call: my_call@,
                        login: if username@.len() == 0 && password@.len() == 0 {
                            None
                        } else {
                            Some((username@, password@))
                        },
                    },
                ),
            },
        },
        KindForm::Ax25RawSocket { device } => Ok(
            PortConfigView::Ax25RawSocket { device: device@ },
        ),
        KindForm::KissTcp { host, port, my_call, kiss, arq } => match number_in(port@, 65535) {
            None => Err("KISS TCP port must be a number 0-65535."@),
            Some(n) => match kiss_in(kiss) {
                Err(e) => Err(e),
                Ok(kiss_params) => match arq_in(arq) {
                    Err(e) => Err(e),
                    Ok(kiss_arq) => Ok(
                        PortConfigView::KissTcp {
                            host: host@,
                            port: n as u16,
                            my_call: my_call@,
                            kiss_params,
                            kiss_arq,
                        },
                    ),
                },
            },
        },
        KindForm::KissSerial { device, baud, my_call, kiss, arq } => match number_in(
            baud@,
            u32::MAX as nat,
        ) {
            None => Err("Baud rate must be a number."@),
            Some(n) => match kiss_in(kiss) {
                Err(e) => Err(e),
                Ok(kiss_params) => match arq_in(arq) {
                    Err(e) => Err(e),
                    Ok(kiss_arq) => Ok(
                        PortConfigView::KissSerial {
                            device: device@,
                            baud: n as u32,
                            my_call: my_call@,
                            kiss_params,
                            kiss_arq,
                        },
                    ),
                },
            },
        },
    }
}

pub open spec fn kind_result(r: Result<PortConfig, String>) -> Result<PortConfigView, Seq<char>> {
    match r {
        Ok(c) => Ok(c@),
        Err(e) => Err(e@),
    }
}

/// Reads the fields of a kind of port.
pub fn read_kind(f: &KindForm) -> (r: Result<PortConfig, String>)
    ensures
        kind_result(r) == kind_in(*f),
{
    match f {
        KindForm::Telnet { host, port } => match read_number(port.as_str(), 65535) {
            Some(n) => Ok(PortConfig::Telnet { host: host.clone(), port: n as u16 }),
            None => Err(text::owned("Telnet port must be a number 0-65535.")),
        },
        KindForm::Ssh { host, port, user } => match read_number(port.as_str(), 65535) {
            Some(n) => Ok(
                PortConfig::Ssh { host: host.clone(), port: n as u16, user: user.clone() },
            ),
            None => Err(text::owned("SSH port must be a number 0-65535.")),
        },
        KindForm::Agwpe { host, port, radio_port, my_call, username, password } => {
            let n: u64 = match read_number(port.as_str(), 65535) {
                Some(n) => n,
                None => {
                    return Err(text::owned("AGWPE TCP port must be a number 0-65535."));
                },
            };
            let radio: u64 = match read_number(radio_port.as_str(), 255) {
                Some(n) => n,
                None => {
                    return Err(text::owned("Radio port must be a number 0-255."));
                },
            };
            let login = if username.as_str().is_empty() && password.as_str().is_empty() {
                None
            } else {
                Some(AgwpeLogin { username: username.clone(), password: password.clone() })
            };
            Ok(
                PortConfig::Agwpe {
                    host: host.clone(),
                    port: n as u16,
                    radio_port: radio as u8,
                    my_call: my_call.clone(),
                    login,
                },
            )
        },
        KindForm::Ax25RawSocket { device } => Ok(
            PortConfig::Ax25RawSocket { device: device.clone() },
        ),
        KindForm::KissTcp { host, port, my_call, kiss, arq } => {
            let n: u64 = match read_number(port.as_str(), 65535) {
                Some(n) => n,
                None => {
                    return Err(text::owned("KISS TCP port must be a number 0-65535."));
                },
            };
            let kiss_params = match parse_kiss_params(kiss) {
                Ok(p) => p,
                Err(e) => {
                    return Err(e);
                },
            };
            let kiss_arq = match parse_kiss_arq_params(arq) {
                Ok(p) => p,
                Err(e) => {
                    return Err(e);
                },
            };
            Ok(
                PortConfig::KissTcp {
                    host: host.clone(),
                    port: n as u16,
                    my_call: my_call.clone(),
                    kiss_params,
                    kiss_arq,
                },
            )
        },
        KindForm::KissSerial { device, baud, my_call, kiss, arq } => {
            let n: u64 = match read_number(baud.as_str(), u32::MAX as u64) {
                Some(n) => n,
                None => {
                    return Err(text::owned("Baud rate must be a number."));
                },
            };
            let kiss_params = match parse_kiss_params(kiss) {
                Ok(p) => p,
                Err(e) => {
                    return Err(e);
                },
            };
            let kiss_arq = match parse_kiss_arq_params(arq) {
                Ok(p) => p,
                Err(e) => {
                    return Err(e);
                },
            };
            Ok(
                PortConfig::KissSerial {
                    device: device.clone(),
                    baud: n as u32,
                    my_call: my_call.clone(),
                    kiss_params,
                    kiss_arq,
                },
            )
        },
    }
}

pub open spec fn number_shown(o: Option<nat>) -> Seq<char> {
    match o {
        Some(n) => text::decimal(n),
        None => Seq::empty(),
    }
}

pub open spec fn nat_u8(o: Option<u8>) -> Option<nat> {
    match o {
        Some(n) => Some(n as nat),
        None => None,
    }
}

pub open spec fn nat_u32(o: Option<u32>) -> Option<nat> {
    match o {
        Some(n) => Some(n as nat),
        None => None,
    }
}

pub open spec fn nat_usize(o: Option<usize>) -> Option<nat> {
    match o {
        Some(n) => Some(n as nat),
        None => None,
    }
}

/// Fills the form of the transmit parameters; what is unset stays blank.
pub fn load_kiss_params(p: &KissParams) -> (f: KissForm)
    ensures
        f.tx_delay@ == number_shown(nat_u8(p.tx_delay)),
        f.persistence@ == number_shown(nat_u8(p.persistence)),
        f.slot_time@ == number_shown(nat_u8(p.slot_time)),
        f.full_duplex == (p.full_duplex == Some(true)),
{
    KissForm {
        tx_delay: match p.tx_delay {
            Some(n) => text::decimal_text(n as u64),
            None => String::new(),
        },
        persistence: match p.persistence {
            Some(n) => text::decimal_text(n as u64),
            None => String::new(),
        },
        slot_time: match p.slot_time {
            Some(n) => text::decimal_text(n as u64),
            None => String::new(),
        },
        full_duplex: match p.full_duplex {
            Some(b) => b,
            None => false,
        },
    }
}

/// Fills the form of the tuning; what is unset stays blank.
pub fn load_kiss_arq_params(p: &KissArqParams) -> (f: KissArqForm)
    ensures
        f.window@ == number_shown(nat_u8(p.window)),
        f.t1_ms@ == number_shown(nat_u32(p.t1_ms)),
        f.n2@ == number_shown(nat_u32(p.n2)),
        f.paclen@ == number_shown(nat_usize(p.n1_bytes)),
{
    KissArqForm {
        window: match p.window {
            Some(n) => text::decimal_text(n as u64),
            None => String::new(),
        },
        t1_ms: match p.t1_ms {
            Some(n) => text::decimal_text(n as u64),
            None => String::new(),
        },
        n2: match p.n2 {
            Some(n) => text::decimal_text(n as u64),
            None => String::new(),
        },
        paclen: match p.n1_bytes {
            Some(n) => text::decimal_text(n as u64),
            None => String::new(),
        },
    }
}

// ---------------------------------------------------------------------------
// The list
// ---------------------------------------------------------------------------

/// The position of the port `id`, or the length.
pub open spec fn port_index(ports: Seq<PortView>, id: Seq<char>) -> int
    decreases ports.len(),
{
    if ports.len() == 0 || ports[0].id == id {
        0
    } else {
        1 + port_index(ports.skip(1), id)
    }
}

pub fn find_port(ports: &Vec<PortEntry>, id: &str) -> (k: usize)
    ensures
        k == port_index(config::views(ports@), id@),
        k <= ports@.len(),
{
    let ghost all = config::views(ports@);
    let mut i: usize = 0;
    assert(all.skip(0) =~= all);
    while i < ports.len()
        invariant
            i <= ports.len(),
            all == config::views(ports@),
            port_index(all, id@) == i + port_index(all.skip(i as int), id@),
        decreases ports.len() - i,
    {
        assert(all.skip(i as int)[0] == ports@[i as int]@);
        if text::eq_str(ports[i].id.as_str(), id) {
            return i;
        }
        assert(all.skip(i as int).skip(1) =~= all.skip(i + 1));
        i += 1;
    }
    i
}

pub open spec fn port_ids(ports: Seq<PortView>) -> Seq<Seq<char>> {
    ports.map_values(|p: PortView| p.id)
}

fn ids_of(ports: &Vec<PortEntry>) -> (r: Vec<String>)
    ensures
        text::texts(r@) == port_ids(config::views(ports@)),
        r@.len() == ports@.len(),
{
    let ghost all = port_ids(config::views(ports@));
    let mut r = text::no_texts();
    let mut i: usize = 0;
    assert(text::texts(r@) =~= all.take(0));
    while i < ports.len()
        invariant
            i <= ports.len(),
            all == port_ids(config::views(ports@)),
            text::texts(r@) == all.take(i as int),
        decreases ports.len() - i,
    {
        text::add_text(&mut r, ports[i].id.clone());
        assert(config::views(ports@)[i as int] == ports@[i as int]@);
        assert(all.take(i + 1) =~= all.take(i as int).push(ports@[i as int].id@));
        i += 1;
    }
    assert(all.take(i as int) =~= all);
    assert(text::texts(r@).len() == r@.len());
    r
}

/// What saving a form does: the ports after it, or the message that says why
/// nothing is saved. A new port takes the identifier `fresh`.
pub open spec fn after_save(
    ports: Seq<PortView>,
    existing: Option<Seq<char>>,
    form: PortForm,
    fresh: Seq<char>,
) -> Result<Seq<PortView>, Seq<char>> {
    if text::trimmed(form.name@).len() == 0 {
        Err("Name is required."@)
    } else {
        match kind_in(form.kind) {
            Err(e) => Err(e),
            Ok(c) => {
                let entry = |id: Seq<char>|
                    PortView {
                        id,
                        name: form.name@,
                        config: c,
                        autoconnect: form.autoconnect,
                        favorite: form.favorite,
                    };
                match existing {
                    Some(id) => {
                        let k = port_index(ports, id);
                        if k < ports.len() {
                            Ok(ports.update(k, entry(ports[k].id)))
                        } else {
                            Ok(ports)
                        }
                    },
                    None => Ok(ports.push(entry(fresh))),
                }
            },
        }
    }
}

pub open spec fn id_view(o: Option<&str>) -> Option<Seq<char>> {
    match o {
        Some(s) => Some(s@),
        None => None,
    }
}

/// `fresh` is the identifier that the next new port takes.
pub open spec fn next_port_id(ports: Seq<PortView>, fresh: Seq<char>) -> bool {
    exists|n: nat|
        identifiers::first_free(port_ids(ports), "port-"@, n) && fresh
            == #[trigger] identifiers::numbered("port-"@, n)
}

/// Saves the form of a new port, or of the port `existing`.
pub fn save_port(ports: &mut Vec<PortEntry>, existing: Option<&str>, form: &PortForm) -> (r: Result<
    (),
    String,
>)
    requires
        2 * old(ports)@.len() < u64::MAX,
    ensures
        exists|fresh: Seq<char>| #[trigger]
            next_port_id(config::views(old(ports)@), fresh) && match after_save(
                config::views(old(ports)@),
                id_view(existing),
                *form,
                fresh,
            ) {
                Ok(after) => r is Ok && config::views(final(ports)@) == after,
                Err(e) => r matches Err(m) && m@ == e && *final(ports) == *old(ports),
            },
{
    let ghost before = config::views(ports@);
    let ids = ids_of(ports);
    let fresh = identifiers::free_id(&ids, "port-");
    assert(next_port_id(before, fresh@));
    let ghost outcome = after_save(before, id_view(existing), *form, fresh@);
    let name = text::trim(form.name.as_str());
    if name.as_str().is_empty() {
        return Err(text::owned("Name is required."));
    }
    let c = match read_kind(&form.kind) {
        Ok(c) => c,
        Err(e) => {
            return Err(e);
        },
    };
    match existing {
        Some(id) => {
            let k: usize = find_port(ports, id);
            if k < ports.len() {
                let mut e = ports.remove(k);
                assert(e@ == before[k as int]);
                e.name = form.name.clone();
                e.config = c;
                e.autoconnect = form.autoconnect;
                e.favorite = form.favorite;
                ports.insert(k, e);
                assert(config::views(ports@) =~= outcome->Ok_0);
            }
        },
        None => {
            let e = PortEntry {
                id: fresh,
                name: form.name.clone(),
                config: c,
                autoconnect: form.autoconnect,
                favorite: form.favorite,
            };
            proof {
                config::lemma_views_push(ports@, e);
            }
            ports.push(e);
            assert(config::views(ports@) =~= outcome->Ok_0);
        },
    }
    Ok(())
}

/// The ports after one changed places with its neighbor, where it has one.
pub open spec fn after_move(ports: Seq<PortView>, id: Seq<char>, up: bool) -> Seq<PortView> {
    let k = port_index(ports, id);
    let n = if up {
        k - 1
    } else {
        k + 1
    };
    if k < ports.len() && 0 <= n < ports.len() {
        ports.update(k, ports[n]).update(n, ports[k])
    } else {
        ports
    }
}

/// Moves a port one place up or down.
pub fn move_port(ports: &mut Vec<PortEntry>, id: &str, up: bool)
    ensures
        config::views(final(ports)@) == after_move(config::views(old(ports)@), id@, up),
{
    let ghost before = config::views(ports@);
    let k: usize = find_port(ports, id);
    let len: usize = ports.len();
    if k < len {
        if up && k > 0 {
            let e = ports.remove(k);
            ports.insert(k - 1, e);
            assert(config::views(ports@) =~= after_move(before, id@, up));
        } else if !up && k + 1 < len {
            let e = ports.remove(k);
            ports.insert(k + 1, e);
            assert(config::views(ports@) =~= after_move(before, id@, up));
        }
    }
}

pub open spec fn without_port(ports: Seq<PortView>, id: Seq<char>) -> Seq<PortView>
    decreases ports.len(),
{
    if ports.len() == 0 {
        ports
    } else if ports.last().id == id {
        without_port(ports.drop_last(), id)
    } else {
        without_port(ports.drop_last(), id).push(ports.last())
    }
}

/// Removes a port.
pub fn remove_port(ports: &mut Vec<PortEntry>, id: &str)
    ensures
        config::views(final(ports)@) == without_port(config::views(old(ports)@), id@),
{
    let ghost all = config::views(ports@);
    let mut kept: Vec<PortEntry> = Vec::new();
    let mut i: usize = 0;
    assert(config::views(kept@) =~= without_port(all.take(0), id@));
    while i < ports.len()
        invariant
            i <= ports.len(),
            all == config::views(ports@),
            config::views(kept@) == without_port(all.take(i as int), id@),
        decreases ports.len() - i,
    {
        let p = &ports[i];
        proof {
            assert(all.take(i + 1).drop_last() =~= all.take(i as int));
            assert(all.take(i + 1).last() == p@);
            config::lemma_views_push(kept@, *p);
        }
        if !text::eq_str(p.id.as_str(), id) {
            kept.push(p.clone());
        }
        i += 1;
    }
    assert(all.take(i as int) =~= all);
    *ports = kept;
}

/// The row of a port in the list.
pub fn port_label(entry: &PortEntry) -> (r: String)
    ensures
        r@ == entry.name@ + "  \u{2014}  "@ + config::kind_name(entry.config),
{
    let mut r = entry.name.clone();
    r.append("  \u{2014}  ");
    r.append(entry.config.kind_label());
    r
}

// ---------------------------------------------------------------------------
// Listening
// ---------------------------------------------------------------------------

/// A port in the list of ports to listen on, and whether it is chosen.
#[derive(Debug)]
pub struct ListenChoice {
    pub id: String,
    pub active: bool,
}

#[verifier::ext_equal]
pub struct ChoiceView {
    pub id: Seq<char>,
    pub active: bool,
}

impl View for ListenChoice {
    type V = ChoiceView;

    open spec fn view(&self) -> ChoiceView {
        ChoiceView { id: self.id@, active: self.active }
    }
}

/// The ports that can be listened on. No selection stands for all of them.
pub open spec fn choices(ports: Seq<PortView>, selected: Seq<Seq<char>>) -> Seq<ChoiceView>
    decreases ports.len(),
{
    if ports.len() == 0 {
        Seq::empty()
    } else if session_tab::connects(ports.last().config) {
        choices(ports.drop_last(), selected).push(
            ChoiceView {
                id: ports.last().id,
                active: selected.len() == 0 || selected.contains(ports.last().id),
            },
        )
    } else {
        choices(ports.drop_last(), selected)
    }
}

pub fn port_listen_checklist(ports: &Vec<PortEntry>, selected: &Vec<String>) -> (r: Vec<ListenChoice>)
    ensures
        config::views(r@) == choices(config::views(ports@), text::texts(selected@)),
{
    let ghost all = config::views(ports@);
    let ghost sel = text::texts(selected@);
    assert(sel.len() == selected@.len());
    let mut r: Vec<ListenChoice> = Vec::new();
    let mut i: usize = 0;
    assert(config::views(r@) =~= choices(all.take(0), sel));
    while i < ports.len()
        invariant
            i <= ports.len(),
            all == config::views(ports@),
            sel == text::texts(selected@),
            sel.len() == selected@.len(),
            config::views(r@) == choices(all.take(i as int), sel),
        decreases ports.len() - i,
    {
        let p = &ports[i];
        proof {
            assert(all.take(i + 1).drop_last() =~= all.take(i as int));
            assert(all.take(i + 1).last() == p@);
        }
        if session_tab::port_supports_connect(&p.config) {
            let active = selected.len() == 0 || text::list_contains(selected, p.id.as_str());
            let c = ListenChoice { id: p.id.clone(), active };
            proof {
                config::lemma_views_push(r@, c);
            }
            r.push(c);
        }
        i += 1;
    }
    assert(all.take(i as int) =~= all);
    r
}

/// The identifiers of the chosen ports.
pub open spec fn chosen(v: Seq<ChoiceView>) -> Seq<Seq<char>>
    decreases v.len(),
{
    if v.len() == 0 {
        Seq::empty()
    } else if v.last().active {
        chosen(v.drop_last()).push(v.last().id)
    } else {
        chosen(v.drop_last())
    }
}

/// The selection to keep: none where every port is chosen, so that ports added
/// later are listened on too.
pub open spec fn collapsed(v: Seq<ChoiceView>) -> Seq<Seq<char>> {
    if chosen(v).len() == v.len() {
        Seq::empty()
    } else {
        chosen(v)
    }
}

pub fn collapse_listen_ports(v: &Vec<ListenChoice>) -> (r: Vec<String>)
    ensures
        text::texts(r@) == collapsed(config::views(v@)),
{
    let ghost all = config::views(v@);
    let mut r = text::no_texts();
    let mut i: usize = 0;
    assert(text::texts(r@) =~= chosen(all.take(0)));
    while i < v.len()
        invariant
            i <= v.len(),
            all == config::views(v@),
            text::texts(r@) == chosen(all.take(i as int)),
        decreases v.len() - i,
    {
        assert(all.take(i + 1).drop_last() =~= all.take(i as int));
        assert(all.take(i + 1).last() == v@[i as int]@);
        if v[i].active {
            text::add_text(&mut r, v[i].id.clone());
        }
        i += 1;
    }
    assert(all.take(i as int) =~= all);
    assert(text::texts(r@).len() == r@.len());
    if r.len() == v.len() {
        text::no_texts()
    } else {
        r
    }
}

// ---------------------------------------------------------------------------
// Laws
// ---------------------------------------------------------------------------

/// Moving a port down and up again leaves the list as it was.
pub proof fn law_move_back(ports: Seq<PortView>, id: Seq<char>)
    requires
        port_index(ports, id) + 1 < ports.len(),
        forall|i: int, j: int|
            0 <= i < j < ports.len() ==> (#[trigger] ports[i]).id != (#[trigger] ports[j]).id,
    ensures
        after_move(after_move(ports, id, false), id, true) == ports,
{
    lemma_port_index(ports, id);
    let k = port_index(ports, id);
    let moved = after_move(ports, id, false);
    assert(moved[k + 1].id == id);
    assert forall|i: int| 0 <= i < k + 1 implies (#[trigger] moved[i]).id != id by {
        if i < k {
            assert(ports[i].id != ports[k].id);
        } else {
            assert(moved[k] == ports[k + 1]);
            assert(ports[k].id != ports[k + 1].id);
        }
    }
    lemma_port_index_at(moved, id, k + 1);
    assert(after_move(moved, id, true) =~= ports);
}

proof fn lemma_port_index(ports: Seq<PortView>, id: Seq<char>)
    ensures
        0 <= port_index(ports, id) <= ports.len(),
        port_index(ports, id) < ports.len() ==> ports[port_index(ports, id)].id == id,
    decreases ports.len(),
{
    if ports.len() > 0 && ports[0].id != id {
        lemma_port_index(ports.skip(1), id);
    }
}

proof fn lemma_port_index_at(ports: Seq<PortView>, id: Seq<char>, k: int)
    requires
        0 <= k < ports.len(),
        ports[k].id == id,
        forall|i: int| 0 <= i < k ==> (#[trigger] ports[i]).id != id,
    ensures
        port_index(ports, id) == k,
    decreases k,
{
    if k > 0 {
        assert(ports[0].id != id);
        let rest = ports.skip(1);
        assert forall|i: int| 0 <= i < k - 1 implies (#[trigger] rest[i]).id != id by {
            assert(rest[i] == ports[i + 1]);
        }
        lemma_port_index_at(rest, id, k - 1);
    }
}

/// A number that is shown in a form is read back.
pub proof fn lemma_number_kept(n: nat, max: nat)
    requires
        n <= max,
    ensures
        optional_number(text::decimal(n), max) == Ok::<Option<nat>, ()>(Some(n)),
        number_in(text::decimal(n), max) == Some(n),
        text::trimmed(text::decimal(n)) == text::decimal(n),
{
    let d = text::decimal(n);
    identifiers::lemma_decimal(n);
    assert(text::is_digit(d[0]));
    assert(text::is_digit(d[d.len() - 1]));
    assert(text::trim_start_spec(d) == d);
    assert(text::trimmed(d) == d);
}

proof fn lemma_shown_kept(o: Option<nat>, max: nat)
    requires
        o matches Some(n) ==> n <= max,
    ensures
        optional_number(number_shown(o), max) == Ok::<Option<nat>, ()>(o),
{
    match o {
        Some(n) => {
            lemma_number_kept(n, max);
        },
        None => {
            assert(text::trimmed(Seq::<char>::empty()) == Seq::<char>::empty());
        },
    }
}

/// Opening the form of the transmit parameters and saving it unchanged keeps them.
/// A TNC that was told to use half duplex is the exception: the form has no field
/// for that.
pub proof fn law_kiss_form_kept(p: KissParams, f: KissForm)
    requires
        f.tx_delay@ == number_shown(nat_u8(p.tx_delay)),
        f.persistence@ == number_shown(nat_u8(p.persistence)),
        f.slot_time@ == number_shown(nat_u8(p.slot_time)),
        f.full_duplex == (p.full_duplex == Some(true)),
        p.full_duplex != Some(false),
    ensures
        kiss_in(f) == Ok::<KissParams, Seq<char>>(p),
{
    lemma_shown_kept(nat_u8(p.tx_delay), 255);
    lemma_shown_kept(nat_u8(p.persistence), 255);
    lemma_shown_kept(nat_u8(p.slot_time), 255);
    assert(byte_field(f.tx_delay@, "TXDELAY"@) == Ok::<Option<u8>, Seq<char>>(p.tx_delay));
    assert(byte_field(f.persistence@, "Persistence"@) == Ok::<Option<u8>, Seq<char>>(
        p.persistence,
    ));
    assert(byte_field(f.slot_time@, "Slot Time"@) == Ok::<Option<u8>, Seq<char>>(p.slot_time));
    assert(p.full_duplex is None || p.full_duplex == Some(true)) by {
        if let Some(b) = p.full_duplex {
            assert(b == true || b == false);
        }
    }
}

/// Opening the form of the tuning and saving it unchanged keeps it, where the form
/// can hold it: the window is one to seven frames and the frame size fits 32 bits.
pub proof fn law_arq_form_kept(p: KissArqParams, f: KissArqForm)
    requires
        f.window@ == number_shown(nat_u8(p.window)),
        f.t1_ms@ == number_shown(nat_u32(p.t1_ms)),
        f.n2@ == number_shown(nat_u32(p.n2)),
        f.paclen@ == number_shown(nat_usize(p.n1_bytes)),
        p.window matches Some(w) ==> 1 <= w <= 7,
        p.n1_bytes matches Some(n) ==> n <= u32::MAX,
    ensures
        arq_in(f) == Ok::<KissArqParams, Seq<char>>(p),
{
    lemma_shown_kept(nat_u8(p.window), 255);
    lemma_shown_kept(nat_u32(p.t1_ms), u32::MAX as nat);
    lemma_shown_kept(nat_u32(p.n2), u32::MAX as nat);
    lemma_shown_kept(nat_usize(p.n1_bytes), u32::MAX as nat);
}

/// Where nothing is kept every port is chosen, and the other way round.
pub proof fn law_all_chosen(ports: Seq<PortView>)
    ensures
        collapsed(choices(ports, Seq::empty())) == Seq::<Seq<char>>::empty(),
        forall|i: int|
            0 <= i < choices(ports, Seq::empty()).len() ==> (#[trigger] choices(
                ports,
                Seq::empty(),
            )[i]).active,
{
    lemma_choices(ports, Seq::empty());
    lemma_chosen(choices(ports, Seq::empty()));
}

proof fn lemma_choices(ports: Seq<PortView>, selected: Seq<Seq<char>>)
    ensures
        forall|i: int|
            0 <= i < choices(ports, selected).len() ==> (#[trigger] choices(
                ports,
                selected,
            )[i]).active == (selected.len() == 0 || selected.contains(
                choices(ports, selected)[i].id,
            )),
    decreases ports.len(),
{
    if ports.len() > 0 {
        let before = choices(ports.drop_last(), selected);
        lemma_choices(ports.drop_last(), selected);
        assert forall|i: int| 0 <= i < choices(ports, selected).len() implies (#[trigger] choices(
            ports,
            selected,
        )[i]).active == (selected.len() == 0 || selected.contains(
            choices(ports, selected)[i].id,
        )) by {
            if i < before.len() {
                assert(choices(ports, selected)[i] == before[i]);
            }
        }
    }
}

/// What is chosen are the identifiers of active ports, all of them exactly where
/// every port is active.
proof fn lemma_chosen(v: Seq<ChoiceView>)
    ensures
        chosen(v).len() <= v.len(),
        chosen(v).len() == v.len() <==> forall|i: int|
            0 <= i < v.len() ==> (#[trigger] v[i]).active,
        forall|i: int| 0 <= i < v.len() && (#[trigger] v[i]).active ==> chosen(v).contains(v[i].id),
        forall|s: Seq<char>| #[trigger]
            chosen(v).contains(s) ==> exists|i: int|
                0 <= i < v.len() && (#[trigger] v[i]).active && v[i].id == s,
    decreases v.len(),
{
    if v.len() > 0 {
        let rest = v.drop_last();
        lemma_chosen(rest);
        if chosen(v).len() == v.len() {
            assert forall|i: int| 0 <= i < v.len() implies (#[trigger] v[i]).active by {
                if i < rest.len() {
                    assert(rest[i].active);
                }
            }
        }
        if forall|i: int| 0 <= i < v.len() ==> (#[trigger] v[i]).active {
            assert forall|i: int| 0 <= i < rest.len() implies (#[trigger] rest[i]).active by {
                assert(v[i].active);
            }
            assert(v[v.len() - 1].active);
        }
        assert forall|i: int| 0 <= i < v.len() && (#[trigger] v[i]).active implies chosen(
            v,
        ).contains(v[i].id) by {
            if i < rest.len() {
                assert(rest[i].active);
                let j = choose|j: int| 0 <= j < chosen(rest).len() && chosen(rest)[j] == v[i].id;
                assert(chosen(v)[j] == v[i].id);
            } else {
                assert(chosen(v)[chosen(v).len() - 1] == v[i].id);
            }
        }
        assert forall|s: Seq<char>| #[trigger] chosen(v).contains(s) implies exists|i: int|
            0 <= i < v.len() && (#[trigger] v[i]).active && v[i].id == s by {
            let j = choose|j: int| 0 <= j < chosen(v).len() && chosen(v)[j] == s;
            if j < chosen(rest).len() {
                assert(chosen(rest)[j] == s);
                assert(chosen(rest).contains(s));
                let i = choose|i: int|
                    0 <= i < rest.len() && (#[trigger] rest[i]).active && rest[i].id == s;
                assert(v[i].active && v[i].id == s);
            } else {
                assert(v[v.len() - 1].active && v[v.len() - 1].id == s);
            }
        }
    }
}

proof fn lemma_same_ports(ports: Seq<PortView>, a: Seq<Seq<char>>, b: Seq<Seq<char>>)
    ensures
        choices(ports, a).len() == choices(ports, b).len(),
        forall|i: int|
            0 <= i < choices(ports, a).len() ==> (#[trigger] choices(ports, a)[i]).id == choices(
                ports,
                b,
            )[i].id,
    decreases ports.len(),
{
    if ports.len() > 0 {
        lemma_same_ports(ports.drop_last(), a, b);
    }
}

/// Opening the list of ports to listen on and saving it unchanged keeps the choice.
/// A list with nothing chosen is the exception: it is kept as every port.
pub proof fn law_choice_kept(ports: Seq<PortView>, selected: Seq<Seq<char>>)
    requires
        chosen(choices(ports, selected)).len() > 0,
    ensures
        choices(ports, collapsed(choices(ports, selected))) == choices(ports, selected),
{
    let v = choices(ports, selected);
    let kept = collapsed(v);
    let w = choices(ports, kept);
    lemma_choices(ports, selected);
    lemma_choices(ports, kept);
    lemma_chosen(v);
    lemma_same_ports(ports, kept, selected);
    assert forall|i: int| 0 <= i < v.len() implies w[i] == v[i] by {
        assert(w[i].id == v[i].id);
        assert(w[i].active == (kept.len() == 0 || kept.contains(w[i].id)));
        assert(v[i].active == (selected.len() == 0 || selected.contains(v[i].id)));
        if chosen(v).len() == v.len() {
            assert(v[i].active);
        } else if v[i].active {
            assert(kept.contains(v[i].id));
        } else if kept.contains(v[i].id) {
            let j = choose|j: int| 0 <= j < v.len() && (#[trigger] v[j]).active && v[j].id
                == v[i].id;
            assert(v[j].active == (selected.len() == 0 || selected.contains(v[j].id)));
        }
    }
    assert(w =~= v);
}

/// A form is read field by field: the host, the device, the callsign and the user name
/// as they were typed, and the numbers that were typed.
pub proof fn law_kinds_read(
    host: String,
    port: String,
    user: String,
    radio: String,
    call: String,
    password: String,
    n: u16,
    r: u8,
)
    requires
        port@ == text::decimal(n as nat),
        radio@ == text::decimal(r as nat),
    ensures
        kind_in(KindForm::Telnet { host, port }) == Ok::<PortConfigView, Seq<char>>(
            PortConfigView::Telnet { host: host@, port: n },
        ),
        kind_in(KindForm::Ssh { host, port, user }) == Ok::<PortConfigView, Seq<char>>(
            PortConfigView::Ssh { host: host@, port: n, user: user@ },
        ),
        kind_in(KindForm::Ax25RawSocket { device: host }) == Ok::<PortConfigView, Seq<char>>(
            PortConfigView::Ax25RawSocket { device: host@ },
        ),
        user@.len() > 0 ==> kind_in(
            KindForm::Agwpe {
                host,
                port,
                radio_port: radio,
                my_call: call,
                username: user,
                password,
            },
        ) == Ok::<PortConfigView, Seq<char>>(
            PortConfigView::Agwpe {
                host: host@,
                port: n,
                radio_port: r,
                my_call: call@,
                login: Some((user@, password@)),
            },
        ),
{
    lemma_number_kept(n as nat, 65535);
    lemma_number_kept(r as nat, 255);
}

} // verus!
