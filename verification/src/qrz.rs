//! Looking up stations in the QRZ.com database, without the network: the
//! requests to make and what the replies mean.

use vstd::prelude::*;
use vstd::string::*;
use vstd::utf8::*;

use crate::link;
use crate::template_vars;
use crate::text;

verus! {

/// What is known of a station.
#[derive(Debug)]
pub struct QrzInfo {
    pub name: Option<String>,
    pub location: Option<String>,
    pub grid: Option<String>,
}

#[verifier::ext_equal]
pub struct InfoView {
    pub name: Option<Seq<char>>,
    pub location: Option<Seq<char>>,
    pub grid: Option<Seq<char>>,
}

impl View for QrzInfo {
    type V = InfoView;

    open spec fn view(&self) -> InfoView {
        InfoView {
            name: text::opt_view(self.name),
            location: text::opt_view(self.location),
            grid: text::opt_view(self.grid),
        }
    }
}

// ---------------------------------------------------------------------------
// Callsigns
// ---------------------------------------------------------------------------

/// A callsign without the SSID, which is a number after the last hyphen.
pub open spec fn base_call(callsign: Seq<char>) -> Seq<char> {
    let i = text::last_index(callsign, '-');
    if i >= 0 && i + 1 < callsign.len() && text::all_digits(callsign.skip(i + 1)) {
        callsign.take(i)
    } else {
        callsign
    }
}

pub fn strip_ssid(callsign: &str) -> (r: String)
    ensures
        r@ == base_call(callsign@),
{
    match text::rsplit_once(callsign, '-') {
        Some((base, ssid)) => {
            let v = text::chars_of(ssid.as_str());
            let mut i: usize = 0;
            while i < v.len()
                invariant
                    i <= v.len(),
                    v@ == ssid@,
                    0 <= text::last_index(callsign@, '-') < callsign@.len(),
                    ssid@ == callsign@.skip(text::last_index(callsign@, '-') + 1),
                    forall|j: int| 0 <= j < i ==> text::is_digit(#[trigger] ssid@[j]),
                decreases v.len() - i,
            {
                if !('0' <= v[i] && v[i] <= '9') {
                    assert(!text::is_digit(ssid@[i as int]));
                    return text::owned(callsign);
                }
                i += 1;
            }
            if v.len() == 0 {
                text::owned(callsign)
            } else {
                base
            }
        },
        None => text::owned(callsign),
    }
}

// ---------------------------------------------------------------------------
// Replies
// ---------------------------------------------------------------------------

/// Where `p` first stands in `s`.
pub open spec fn first_occurrence(s: Seq<char>, p: Seq<char>) -> Option<int>
    decreases s.len(),
{
    if s.len() < p.len() {
        None
    } else if s.take(p.len() as int) == p {
        Some(0)
    } else if s.len() == 0 {
        None
    } else {
        match first_occurrence(s.skip(1), p) {
            Some(i) => Some(i + 1),
            None => None,
        }
    }
}

proof fn lemma_first_occurrence(s: Seq<char>, p: Seq<char>, k: int)
    requires
        0 <= k <= s.len(),
        forall|j: int| 0 <= j < k ==> !text::occurs_at(s, p, j),
    ensures
        first_occurrence(s, p) == (match first_occurrence(s.skip(k), p) {
            Some(i) => Some(i + k),
            None => None,
        }),
    decreases k,
{
    if k == 0 {
        assert(s.skip(0) =~= s);
    } else {
        assert(!text::occurs_at(s, p, 0));
        if s.len() >= p.len() {
            assert(s.subrange(0, p.len() as int) =~= s.take(p.len() as int));
        } else {
            assert(s.skip(k).len() < p.len());
        }
        let t = s.skip(1);
        assert forall|j: int| 0 <= j < k - 1 implies !text::occurs_at(t, p, j) by {
            assert(!text::occurs_at(s, p, j + 1));
            if text::occurs_at(t, p, j) {
                assert(s.subrange(j + 1, j + 1 + p.len()) =~= t.subrange(j, j + p.len()));
            }
        }
        lemma_first_occurrence(t, p, k - 1);
        assert(t.skip(k - 1) =~= s.skip(k));
    }
}

/// Finds `p` in `v` from `from` on; the position is counted from `from`.
fn find_first(v: &Vec<char>, p: &str, from: usize) -> (r: Option<usize>)
    requires
        from <= v@.len(),
    ensures
        match r {
            Some(i) => first_occurrence(v@.skip(from as int), p@) == Some(i as int) && from + i
                + p@.len() <= v@.len(),
            None => first_occurrence(v@.skip(from as int), p@) is None,
        },
{
    let q = text::chars_of(p);
    let rest = text::tail(v, from);
    match text::find_from(&rest, &q, 0) {
        Some(i) => {
            proof {
                lemma_first_occurrence(rest@, p@, i as int);
                assert(rest@.skip(i as int).take(p@.len() as int) =~= rest@.subrange(
                    i as int,
                    i + p@.len(),
                ));
            }
            Some(i)
        },
        None => {
            proof {
                lemma_first_occurrence(rest@, p@, rest@.len() as int);
                assert(!text::occurs_at(rest@, p@, rest@.len() as int));
                if p@.len() == 0 {
                    assert(rest@.subrange(rest@.len() as int, rest@.len() as int) =~= p@);
                }
            }
            None
        },
    }
}

/// XML's named characters spelled out.
pub open spec fn unescaped(s: Seq<char>) -> Seq<char> {
    let a = text::replaced(s, "&amp;"@, "&"@);
    let b = text::replaced(a, "&lt;"@, "<"@);
    let c = text::replaced(b, "&gt;"@, ">"@);
    let d = text::replaced(c, "&quot;"@, "\""@);
    text::replaced(d, "&apos;"@, "'"@)
}

pub fn unescape_xml(s: &str) -> (r: String)
    ensures
        r@ == unescaped(s@),
{
    proof {
        reveal_strlit("&amp;");
        reveal_strlit("&lt;");
        reveal_strlit("&gt;");
        reveal_strlit("&quot;");
        reveal_strlit("&apos;");
    }
    let a = text::replace(s, "&amp;", "&");
    let b = text::replace(a.as_str(), "&lt;", "<");
    let c = text::replace(b.as_str(), "&gt;", ">");
    let d = text::replace(c.as_str(), "&quot;", "\"");
    text::replace(d.as_str(), "&apos;", "'")
}

/// What stands between the first `<tag>` and the first `</tag>` after it.
pub open spec fn tag_text(xml: Seq<char>, tag: Seq<char>) -> Option<Seq<char>> {
    let open = seq!['<'] + tag + seq!['>'];
    let close = seq!['<', '/'] + tag + seq!['>'];
    match first_occurrence(xml, open) {
        None => None,
        Some(i) => {
            let rest = xml.skip(i + open.len());
            match first_occurrence(rest, close) {
                None => None,
                Some(j) => Some(unescaped(rest.take(j))),
            }
        },
    }
}

pub fn extract_tag(xml: &str, tag: &str) -> (r: Option<String>)
    ensures
        text::opt_view(r) == tag_text(xml@, tag@),
{
    let mut open = String::new();
    open.push('<');
    open.append(tag);
    open.push('>');
    assert(open@ =~= seq!['<'] + tag@ + seq!['>']);
    let mut close = String::new();
    close.push('<');
    close.push('/');
    close.append(tag);
    close.push('>');
    assert(close@ =~= seq!['<', '/'] + tag@ + seq!['>']);
    let v = text::chars_of(xml);
    assert(v@.skip(0) =~= v@);
    let len: usize = v.len();
    let open_len: usize = text::chars_of(open.as_str()).len();
    assert(v@.len() == len);
    match find_first(&v, open.as_str(), 0) {
        None => None,
        Some(i) => {
            let start: usize = i + open_len;
            match find_first(&v, close.as_str(), start) {
                None => None,
                Some(j) => {
                    let inner = text::substring(&v, start, start + j);
                    assert(inner@ =~= v@.skip(start as int).take(j as int));
                    Some(unescape_xml(inner.as_str()))
                },
            }
        },
    }
}

/// What a login reply gives: the session key, or why there is none.
pub open spec fn login_outcome(body: Seq<char>) -> Result<Seq<char>, Seq<char>> {
    match tag_text(body, "Error"@) {
        Some(e) => Err(e),
        None => match tag_text(body, "Key"@) {
            Some(key) => Ok(key),
            None => Err("QRZ login response had no session key"@),
        },
    }
}

pub open spec fn text_result(r: Result<String, String>) -> Result<Seq<char>, Seq<char>> {
    match r {
        Ok(s) => Ok(s@),
        Err(e) => Err(e@),
    }
}

pub fn read_login(body: &str) -> (r: Result<String, String>)
    ensures
        text_result(r) == login_outcome(body@),
{
    match extract_tag(body, "Error") {
        Some(e) => Err(e),
        None => match extract_tag(body, "Key") {
            Some(key) => Ok(key),
            None => Err(text::owned("QRZ login response had no session key")),
        },
    }
}

/// First and last name, as far as they are known.
pub open spec fn full_name(first: Option<Seq<char>>, last: Option<Seq<char>>) -> Option<Seq<char>> {
    match (first, last) {
        (Some(f), Some(l)) => Some(f + " "@ + l),
        (Some(f), None) => Some(f),
        (None, Some(l)) => Some(l),
        (None, None) => None,
    }
}

/// Those of three texts that are there.
pub open spec fn present(a: Option<Seq<char>>, b: Option<Seq<char>>, c: Option<Seq<char>>) -> Seq<
    Seq<char>,
> {
    opt_seq(a) + opt_seq(b) + opt_seq(c)
}

pub open spec fn opt_seq(o: Option<Seq<char>>) -> Seq<Seq<char>> {
    match o {
        Some(s) => seq![s],
        None => Seq::empty(),
    }
}

pub open spec fn place(parts: Seq<Seq<char>>) -> Option<Seq<char>> {
    if parts.len() == 0 {
        None
    } else {
        Some(text::joined(parts, ", "@))
    }
}

/// What a lookup reply gives.
pub open spec fn fetch_outcome(body: Seq<char>) -> Result<InfoView, Seq<char>> {
    match tag_text(body, "Error"@) {
        Some(e) => Err(e),
        None => Ok(
            InfoView {
                name: full_name(tag_text(body, "fname"@), tag_text(body, "name"@)),
                location: place(
                    present(
                        tag_text(body, "addr2"@),
                        tag_text(body, "state"@),
                        tag_text(body, "country"@),
                    ),
                ),
                grid: tag_text(body, "grid"@),
            },
        ),
    }
}

pub open spec fn info_result(r: Result<QrzInfo, String>) -> Result<InfoView, Seq<char>> {
    match r {
        Ok(i) => Ok(i@),
        Err(e) => Err(e@),
    }
}

fn add_part(parts: &mut Vec<String>, o: Option<String>)
    ensures
        text::texts(final(parts)@) == text::texts(old(parts)@) + opt_seq(text::opt_view(o)),
{
    match o {
        Some(s) => {
            text::add_text(parts, s);
            assert(text::texts(parts@) =~= text::texts(old(parts)@) + opt_seq(text::opt_view(o)));
        },
        None => {
            assert(text::texts(parts@) =~= text::texts(old(parts)@) + opt_seq(text::opt_view(o)));
        },
    }
}

pub fn read_info(body: &str) -> (r: Result<QrzInfo, String>)
    ensures
        info_result(r) == fetch_outcome(body@),
{
    if let Some(e) = extract_tag(body, "Error") {
        return Err(e);
    }
    let first = extract_tag(body, "fname");
    let last = extract_tag(body, "name");
    let name = match first {
        Some(f) => match last {
            Some(l) => {
                let mut n = f;
                n.append(" ");
                n.append(l.as_str());
                Some(n)
            },
            None => Some(f),
        },
        None => last,
    };
    let mut parts = text::no_texts();
    let town = extract_tag(body, "addr2");
    let state = extract_tag(body, "state");
    let country = extract_tag(body, "country");
    let ghost all = present(text::opt_view(town), text::opt_view(state), text::opt_view(country));
    add_part(&mut parts, town);
    add_part(&mut parts, state);
    add_part(&mut parts, country);
    assert(text::texts(parts@) =~= all);
    assert(parts@.len() == all.len());
    let location = if parts.len() == 0 {
        None
    } else {
        Some(text::join(&parts, ", "))
    };
    let grid = extract_tag(body, "grid");
    Ok(QrzInfo { name, location, grid })
}

// ---------------------------------------------------------------------------
// Requests
// ---------------------------------------------------------------------------

/// Bytes with every one that is not an ASCII letter or digit as `%` and two
/// hexadecimal digits.
pub open spec fn percent_encoded(bytes: Seq<u8>) -> Seq<char>
    decreases bytes.len(),
{
    if bytes.len() == 0 {
        Seq::empty()
    } else {
        percent_encoded(bytes.drop_last()) + (if bytes.last() < 128 && link::ascii_alphanumeric(
            bytes.last() as char,
        ) {
            seq![bytes.last() as char]
        } else {
            seq!['%'] + text::hex_byte(bytes.last())
        })
    }
}

/// `percent_encoding::utf8_percent_encode` with the set `NON_ALPHANUMERIC`: the
/// UTF-8 bytes of the text, each that is not an ASCII letter or digit as `%` and
/// two upper-case hexadecimal digits.
#[verifier::external_body]
fn percent_encode(s: &str) -> (r: String)
    ensures
        r@ == percent_encoded(encode_utf8(s@)),
{
    percent_encoding::utf8_percent_encode(s, percent_encoding::NON_ALPHANUMERIC).to_string()
}

pub open spec fn login_request(username: Seq<char>, password: Seq<char>) -> Seq<char> {
    "https://xmldata.qrz.com/xml/current/?username="@ + percent_encoded(encode_utf8(username))
        + "&password="@ + percent_encoded(encode_utf8(password))
}

/// The address that logs in.
pub fn login_url(username: &str, password: &str) -> (r: String)
    ensures
        r@ == login_request(username@, password@),
{
    let mut url = text::owned("https://xmldata.qrz.com/xml/current/?username=");
    url.append(percent_encode(username).as_str());
    url.append("&password=");
    url.append(percent_encode(password).as_str());
    url
}

pub open spec fn fetch_request(session: Seq<char>, callsign: Seq<char>) -> Seq<char> {
    "https://xmldata.qrz.com/xml/current/?s="@ + percent_encoded(encode_utf8(session))
        + "&callsign="@ + percent_encoded(encode_utf8(callsign))
}

/// The address that looks a callsign up.
pub fn fetch_url(session: &str, callsign: &str) -> (r: String)
    ensures
        r@ == fetch_request(session@, callsign@),
{
    let mut url = text::owned("https://xmldata.qrz.com/xml/current/?s=");
    url.append(percent_encode(session).as_str());
    url.append("&callsign=");
    url.append(percent_encode(callsign).as_str());
    url
}

// ---------------------------------------------------------------------------
// The lookup
// ---------------------------------------------------------------------------

/// The reply that a lookup waits for.
#[derive(Debug, Clone, Copy, PartialEq, Eq, Structural)]
pub enum Stage {
    /// To the login that a lookup without a session starts with.
    Login,
    /// To the first request for the station.
    Fetch,
    /// To the login after a session that had run out.
    Relogin,
    /// To the second request, which is the last.
    Refetch,
}

/// A lookup under way. `session` is the key to keep for the next lookup.
#[derive(Debug)]
pub struct Lookup {
    pub username: String,
    pub password: String,
    pub callsign: String,
    pub session: Option<String>,
    pub stage: Stage,
}

#[verifier::ext_equal]
pub struct LookupView {
    pub username: Seq<char>,
    pub password: Seq<char>,
    pub callsign: Seq<char>,
    pub session: Option<Seq<char>>,
    pub stage: Stage,
}

impl View for Lookup {
    type V = LookupView;

    open spec fn view(&self) -> LookupView {
        LookupView {
            username: self.username@,
            password: self.password@,
            callsign: self.callsign@,
            session: text::opt_view(self.session),
            stage: self.stage,
        }
    }
}

/// What a lookup does next.
#[derive(Debug)]
pub enum LookupAction {
    /// Get this address and hand in the reply.
    Get(String),
    Finished(Result<QrzInfo, String>),
}

#[verifier::ext_equal]
pub enum LookupActionView {
    Get(Seq<char>),
    Finished(Result<InfoView, Seq<char>>),
}

impl View for LookupAction {
    type V = LookupActionView;

    open spec fn view(&self) -> LookupActionView {
        match *self {
            LookupAction::Get(url) => LookupActionView::Get(url@),
            LookupAction::Finished(r) => LookupActionView::Finished(info_result(r)),
        }
    }
}

/// A lookup at its start: a login where there is no session yet.
pub open spec fn lookup_start(
    username: Seq<char>,
    password: Seq<char>,
    session: Option<Seq<char>>,
    callsign: Seq<char>,
) -> (LookupView, Seq<char>) {
    let call = base_call(callsign);
    match session {
        Some(s) => (
            LookupView { username, password, callsign: call, session, stage: Stage::Fetch },
            fetch_request(s, call),
        ),
        None => (
            LookupView { username, password, callsign: call, session, stage: Stage::Login },
            login_request(username, password),
        ),
    }
}

/// Starts a lookup. Gives the address to get first.
pub fn start_lookup(
    username: &str,
    password: &str,
    session: Option<String>,
    callsign: &str,
) -> (r: (Lookup, String))
    ensures
        (r.0@, r.1@) == lookup_start(username@, password@, text::opt_view(session), callsign@),
{
    let call = strip_ssid(callsign);
    let (url, stage) = match &session {
        Some(s) => (fetch_url(s.as_str(), call.as_str()), Stage::Fetch),
        None => (login_url(username, password), Stage::Login),
    };
    (
        Lookup {
            username: text::owned(username),
            password: text::owned(password),
            callsign: call,
            session,
            stage,
        },
        url,
    )
}

/// What an error says when the session has run out.
pub open spec fn speaks_of_session(e: Seq<char>) -> bool {
    text::contains_text(text::lower_text(e), "session"@)
}

/// What came of a request: the failure of the request itself, else what the reply
/// says.
pub open spec fn login_reply(reply: Result<Seq<char>, Seq<char>>) -> Result<Seq<char>, Seq<char>> {
    match reply {
        Ok(body) => login_outcome(body),
        Err(e) => Err(e),
    }
}

pub open spec fn fetch_reply(reply: Result<Seq<char>, Seq<char>>) -> Result<InfoView, Seq<char>> {
    match reply {
        Ok(body) => fetch_outcome(body),
        Err(e) => Err(e),
    }
}

/// The next step of a lookup. After a login the station is asked for; where the
/// session has run out there is one more login and one more request.
pub open spec fn lookup_step(l: LookupView, reply: Result<Seq<char>, Seq<char>>) -> (
    LookupView,
    LookupActionView,
) {
    match l.stage {
        Stage::Login | Stage::Relogin => match login_reply(reply) {
            Ok(key) => (
                LookupView {
                    session: Some(key),
                    stage: if l.stage == Stage::Login {
                        Stage::Fetch
                    } else {
                        Stage::Refetch
                    },
                    ..l
                },
                LookupActionView::Get(fetch_request(key, l.callsign)),
            ),
            Err(e) => (l, LookupActionView::Finished(Err(e))),
        },
        Stage::Fetch => match fetch_reply(reply) {
            Err(e) => if speaks_of_session(e) {
                (
                    LookupView { stage: Stage::Relogin, ..l },
                    LookupActionView::Get(login_request(l.username, l.password)),
                )
            } else {
                (l, LookupActionView::Finished(Err(e)))
            },
            Ok(info) => (l, LookupActionView::Finished(Ok(info))),
        },
        Stage::Refetch => (l, LookupActionView::Finished(fetch_reply(reply))),
    }
}

/// Takes the reply to the last request: the body, or why there is none.
pub fn lookup(state: &mut Lookup, reply: Result<String, String>) -> (r: LookupAction)
    ensures
        (final(state)@, r@) == lookup_step(old(state)@, text_result(reply)),
{
    match state.stage {
        Stage::Login | Stage::Relogin => {
            let outcome = match reply {
                Ok(body) => read_login(body.as_str()),
                Err(e) => Err(e),
            };
            match outcome {
                Ok(key) => {
                    let url = fetch_url(key.as_str(), state.callsign.as_str());
                    state.session = Some(key);
                    state.stage = if state.stage == Stage::Login {
                        Stage::Fetch
                    } else {
                        Stage::Refetch
                    };
                    LookupAction::Get(url)
                },
                Err(e) => LookupAction::Finished(Err(e)),
            }
        },
        Stage::Fetch => {
            let outcome = match reply {
                Ok(body) => read_info(body.as_str()),
                Err(e) => Err(e),
            };
            match outcome {
                Ok(info) => LookupAction::Finished(Ok(info)),
                Err(e) => {
                    let lower = text::to_lowercase(e.as_str());
                    if text::contains(lower.as_str(), "session") {
                        state.stage = Stage::Relogin;
                        LookupAction::Get(
                            login_url(state.username.as_str(), state.password.as_str()),
                        )
                    } else {
                        LookupAction::Finished(Err(e))
                    }
                },
            }
        },
        Stage::Refetch => {
            let outcome = match reply {
                Ok(body) => read_info(body.as_str()),
                Err(e) => Err(e),
            };
            LookupAction::Finished(outcome)
        },
    }
}

/// How many requests a lookup can still make.
pub open spec fn requests_left(stage: Stage) -> nat {
    match stage {
        Stage::Login => 4,
        Stage::Fetch => 3,
        Stage::Relogin => 2,
        Stage::Refetch => 1,
    }
}

/// A lookup ends: every reply either finishes it or brings it closer to its last
/// request, and it logs in again at most once.
pub proof fn law_lookup_ends(l: LookupView, reply: Result<Seq<char>, Seq<char>>)
    ensures
        ({
            let (next, action) = lookup_step(l, reply);
            &&& action is Get ==> requests_left(next.stage) < requests_left(l.stage)
            &&& l.stage == Stage::Refetch ==> action is Finished
        }),
{
}

/// A callsign without a hyphen is left as it is.
pub proof fn law_bare_call_kept(callsign: Seq<char>)
    requires
        !callsign.contains('-'),
    ensures
        base_call(callsign) == callsign,
{
    text::lemma_last_index(callsign, '-');
}

/// A callsign is known without its SSID: the hyphen and the number behind it go.
pub proof fn law_ssid_stripped(call: Seq<char>, number: Seq<char>)
    requires
        number.len() > 0,
        text::all_digits(number),
    ensures
        base_call(call + seq!['-'] + number) == call,
{
    let s = call + seq!['-'] + number;
    let n = call.len() as int;
    text::lemma_last_index(s, '-');
    assert(s[n] == '-');
    let i = text::last_index(s, '-');
    assert(i == n) by {
        if i > n {
            assert(s[i] == number[i - n - 1]);
            assert(text::is_digit(number[i - n - 1]));
        }
    }
    assert(s.skip(n + 1) =~= number);
    assert(s.take(n) =~= call);
}

proof fn lemma_occurs_first(s: Seq<char>, p: Seq<char>, i: int)
    requires
        p.len() > 0,
        text::occurs_at(s, p, i),
        forall|j: int| 0 <= j < i ==> !text::occurs_at(s, p, j),
    ensures
        first_occurrence(s, p) == Some(i),
    decreases s.len(),
{
    assert(s.take(p.len() as int) =~= s.subrange(0, p.len() as int));
    if i > 0 {
        assert(!text::occurs_at(s, p, 0));
        let rest = s.skip(1);
        assert(rest.subrange(i - 1, i - 1 + p.len()) =~= s.subrange(i, i + p.len()));
        assert forall|j: int| 0 <= j < i - 1 implies !text::occurs_at(rest, p, j) by {
            if text::occurs_at(rest, p, j) {
                assert(rest.subrange(j, j + p.len()) =~= s.subrange(j + 1, j + 1 + p.len()));
                assert(text::occurs_at(s, p, j + 1));
            }
        }
        lemma_occurs_first(rest, p, i - 1);
    }
}

proof fn lemma_no_occurrence(s: Seq<char>, p: Seq<char>)
    requires
        !text::contains_text(s, p),
    ensures
        first_occurrence(s, p) is None,
    decreases s.len(),
{
    if s.len() >= p.len() {
        assert(s.take(p.len() as int) =~= s.subrange(0, p.len() as int));
        assert(!text::occurs_at(s, p, 0));
        if s.len() > 0 {
            let rest = s.skip(1);
            assert forall|j: int| !text::occurs_at(rest, p, j) by {
                if text::occurs_at(rest, p, j) {
                    assert(rest.subrange(j, j + p.len()) =~= s.subrange(j + 1, j + 1 + p.len()));
                    assert(text::occurs_at(s, p, j + 1));
                }
            }
            lemma_no_occurrence(rest, p);
        }
    }
}

/// What stands between the first opening of a tag and its end is the tag's text, and a
/// tag that is not opened has none.
pub proof fn law_tag_read(a: Seq<char>, tag: Seq<char>, v: Seq<char>, b: Seq<char>)
    requires
        !v.contains('<'),
    ensures
        ({
            let open = seq!['<'] + tag + seq!['>'];
            let close = seq!['<', '/'] + tag + seq!['>'];
            let xml = a + open + v + close + b;
            (forall|i: int| 0 <= i < a.len() ==> !text::occurs_at(xml, open, i)) ==> tag_text(
                xml,
                tag,
            ) == Some(unescaped(v))
        }),
        !text::contains_text(a, seq!['<'] + tag + seq!['>']) ==> tag_text(a, tag) is None,
{
    let open = seq!['<'] + tag + seq!['>'];
    let close = seq!['<', '/'] + tag + seq!['>'];
    let xml = a + open + v + close + b;
    if forall|i: int| 0 <= i < a.len() ==> !text::occurs_at(xml, open, i) {
        let n = a.len() as int;
        assert(xml.subrange(n, n + open.len()) =~= open);
        assert(text::occurs_at(xml, open, n));
        lemma_occurs_first(xml, open, n);
        let rest = xml.skip(n + open.len());
        assert(rest =~= v + close + b);
        let m = v.len() as int;
        assert(rest.subrange(m, m + close.len()) =~= close);
        assert(text::occurs_at(rest, close, m));
        assert forall|j: int| 0 <= j < m implies !text::occurs_at(rest, close, j) by {
            if text::occurs_at(rest, close, j) {
                assert(rest.subrange(j, j + close.len())[0] == rest[j]);
                assert(rest[j] == v[j]);
                assert(v.contains(v[j]));
            }
        }
        lemma_occurs_first(rest, close, m);
        assert(rest.take(m) =~= v);
    }
    if !text::contains_text(a, open) {
        lemma_no_occurrence(a, open);
    }
}

proof fn lemma_kept(a: Seq<char>, p: Seq<char>, b: Seq<char>, q: Seq<char>, t: Seq<char>, d: int)
    requires
        0 < d < p.len(),
        d < q.len(),
        p[0] == '&' && q[0] == '&' && p[d] != q[d],
        forall|i: int| 1 <= i < p.len() ==> p[i] != '&',
        !a.contains('&'),
        !b.contains('&'),
    ensures
        text::replaced(a + p + b, q, t) == a + p + b,
{
    let s = a + p + b;
    if text::contains_text(s, q) {
        let i = choose|i: int| text::occurs_at(s, q, i);
        let piece = s.subrange(i, i + q.len());
        assert(piece[0] == s[i]);
        if i < a.len() {
            assert(s[i] == a[i]);
            assert(a.contains(a[i]));
        } else if i >= a.len() + p.len() {
            assert(s[i] == b[i - a.len() - p.len()]);
            assert(b.contains(b[i - a.len() - p.len()]));
        } else if i == a.len() {
            assert(piece[d] == s[i + d]);
            assert(s[i + d] == p[d]);
        } else {
            assert(s[i] == p[i - a.len()]);
        }
    }
    template_vars::lemma_nothing_replaced(s, q, t);
}

proof fn lemma_no_mark(a: Seq<char>, c: char, b: Seq<char>)
    requires
        c != '&',
        !a.contains('&'),
        !b.contains('&'),
    ensures
        !(a + seq![c] + b).contains('&'),
{
    let s = a + seq![c] + b;
    if s.contains('&') {
        let i = s.index_of('&');
        if i < a.len() {
            assert(a[i] == '&');
        } else if i > a.len() {
            assert(b[i - a.len() - 1] == '&');
        }
    }
}

/// Text without marks is as it is; a mark for a character that tags or quotes are made
/// of stands for that character.
#[verifier::rlimit(30)]
pub proof fn law_unescaped(a: Seq<char>, b: Seq<char>)
    requires
        !a.contains('&'),
        !b.contains('&'),
    ensures
        unescaped(a) == a,
        unescaped(a + "&lt;"@ + b) == a + seq!['<'] + b,
        unescaped(a + "&gt;"@ + b) == a + seq!['>'] + b,
        unescaped(a + "&quot;"@ + b) == a + seq!['"'] + b,
        unescaped(a + "&apos;"@ + b) == a + seq!['\''] + b,
{
    reveal_strlit("&amp;");
    reveal_strlit("&lt;");
    reveal_strlit("&gt;");
    reveal_strlit("&quot;");
    reveal_strlit("&apos;");
    reveal_strlit("&");
    reveal_strlit("<");
    reveal_strlit(">");
    reveal_strlit("\"");
    reveal_strlit("'");
    assert("<"@ =~= seq!['<']);
    assert(">"@ =~= seq!['>']);
    assert("\""@ =~= seq!['"']);
    assert("'"@ =~= seq!['\'']);
    let (amp, lt, gt, quot, apos) = ("&amp;"@, "&lt;"@, "&gt;"@, "&quot;"@, "&apos;"@);
    lemma_unmarked(a);
    lemma_no_mark(a, '<', b);
    lemma_no_mark(a, '>', b);
    lemma_no_mark(a, '"', b);
    lemma_no_mark(a, '\'', b);
    assert(unescaped(a + lt + b) == a + seq!['<'] + b) by {
        lemma_kept(a, lt, b, amp, "&"@, 1);
        template_vars::lemma_one(a, lt, b, "<"@);
        lemma_unmarked_rest(a + seq!['<'] + b);
    }
    assert(unescaped(a + gt + b) == a + seq!['>'] + b) by {
        lemma_kept(a, gt, b, amp, "&"@, 1);
        lemma_kept(a, gt, b, lt, "<"@, 1);
        template_vars::lemma_one(a, gt, b, ">"@);
        lemma_unmarked_rest(a + seq!['>'] + b);
    }
    assert(unescaped(a + quot + b) == a + seq!['"'] + b) by {
        lemma_kept(a, quot, b, amp, "&"@, 1);
        lemma_kept(a, quot, b, lt, "<"@, 1);
        lemma_kept(a, quot, b, gt, ">"@, 1);
        template_vars::lemma_one(a, quot, b, "\""@);
        lemma_unmarked_rest(a + seq!['"'] + b);
    }
    assert(unescaped(a + apos + b) == a + seq!['\''] + b) by {
        lemma_kept(a, apos, b, amp, "&"@, 2);
        lemma_kept(a, apos, b, lt, "<"@, 1);
        lemma_kept(a, apos, b, gt, ">"@, 1);
        lemma_kept(a, apos, b, quot, "\""@, 1);
        template_vars::lemma_one(a, apos, b, "'"@);
    }
}

proof fn lemma_unmarked_rest(s: Seq<char>)
    requires
        !s.contains('&'),
    ensures
        text::replaced(s, "&lt;"@, "<"@) == s,
        text::replaced(s, "&gt;"@, ">"@) == s,
        text::replaced(s, "&quot;"@, "\""@) == s,
        text::replaced(s, "&apos;"@, "'"@) == s,
{
    reveal_strlit("&lt;");
    reveal_strlit("&gt;");
    reveal_strlit("&quot;");
    reveal_strlit("&apos;");
    template_vars::lemma_plain(s, "&lt;"@, "<"@);
    template_vars::lemma_plain(s, "&gt;"@, ">"@);
    template_vars::lemma_plain(s, "&quot;"@, "\""@);
    template_vars::lemma_plain(s, "&apos;"@, "'"@);
}

proof fn lemma_unmarked(s: Seq<char>)
    requires
        !s.contains('&'),
    ensures
        unescaped(s) == s,
{
    reveal_strlit("&amp;");
    template_vars::lemma_plain(s, "&amp;"@, "&"@);
    lemma_unmarked_rest(s);
}

/// A lookup asks for the station without its SSID. It logs in first where there is no
/// session, and then asks with the session that it got; where the session is refused it
/// logs in once more. What the answer says is what it ends with.
pub proof fn law_lookup_asks(
    username: Seq<char>,
    password: Seq<char>,
    session: Option<Seq<char>>,
    callsign: Seq<char>,
    reply: Result<Seq<char>, Seq<char>>,
)
    ensures
        ({
            let (l, url) = lookup_start(username, password, session, callsign);
            let call = base_call(callsign);
            let (next, action) = lookup_step(l, reply);
            &&& session matches Some(key) ==> url == fetch_request(key, call)
            &&& session is None ==> url == login_request(username, password)
            &&& session is None && login_reply(reply) is Ok ==> action == LookupActionView::Get(
                fetch_request(login_reply(reply)->Ok_0, call),
            ) && next.session == Some(login_reply(reply)->Ok_0)
            &&& session is None && login_reply(reply) is Err ==> action
                == LookupActionView::Finished(Err(login_reply(reply)->Err_0))
            &&& session is Some && fetch_reply(reply) is Ok ==> action
                == LookupActionView::Finished(fetch_reply(reply))
            &&& session is Some && fetch_reply(reply) is Err && speaks_of_session(
                fetch_reply(reply)->Err_0,
            ) ==> action == LookupActionView::Get(login_request(username, password))
            &&& session is Some && fetch_reply(reply) is Err && !speaks_of_session(
                fetch_reply(reply)->Err_0,
            ) ==> action == LookupActionView::Finished(fetch_reply(reply))
        }),
{
}

/// What is known of a station comes from its tags: the first name before the last, and
/// town, state and country in this order, those that are given.
pub proof fn law_station_described(body: Seq<char>)
    requires
        tag_text(body, "Error"@) is None,
    ensures
        ({
            let i = fetch_outcome(body)->Ok_0;
            let (first, last) = (tag_text(body, "fname"@), tag_text(body, "name"@));
            let (town, state, country) = (
                tag_text(body, "addr2"@),
                tag_text(body, "state"@),
                tag_text(body, "country"@),
            );
            &&& fetch_outcome(body) is Ok
            &&& first is Some && last is Some ==> i.name == Some(first->0 + " "@ + last->0)
            &&& first is None ==> i.name == last
            &&& last is None ==> i.name == first
            &&& town is Some && state is Some && country is Some ==> i.location == Some(
                town->0 + ", "@ + state->0 + ", "@ + country->0,
            )
            &&& town is Some && state is None && country is None ==> i.location == town
            &&& town is None && state is Some && country is None ==> i.location == state
            &&& town is None && state is None ==> i.location == country
            &&& i.grid == tag_text(body, "grid"@)
        }),
{
    let (town, state, country) = (
        tag_text(body, "addr2"@),
        tag_text(body, "state"@),
        tag_text(body, "country"@),
    );
    let parts = present(town, state, country);
    if town is Some && state is Some && country is Some {
        assert(parts =~= seq![town->0, state->0, country->0]);
        assert(parts.drop_last() =~= seq![town->0, state->0]);
        assert(parts.drop_last().drop_last() =~= seq![town->0]);
        reveal_with_fuel(text::joined, 3);
        assert(text::joined(parts.drop_last(), ", "@) == town->0 + ", "@ + state->0);
    }
}

proof fn lemma_percent_plain(bytes: Seq<u8>)
    requires
        forall|i: int|
            0 <= i < bytes.len() ==> #[trigger] bytes[i] < 128 && link::ascii_alphanumeric(
                bytes[i] as char,
            ),
    ensures
        percent_encoded(bytes).len() == bytes.len(),
        forall|i: int|
            0 <= i < bytes.len() ==> #[trigger] percent_encoded(bytes)[i] == bytes[i] as char,
    decreases bytes.len(),
{
    if bytes.len() > 0 {
        let front = bytes.drop_last();
        assert forall|i: int| 0 <= i < front.len() implies #[trigger] front[i] < 128
            && link::ascii_alphanumeric(front[i] as char) by {
            assert(front[i] == bytes[i]);
        }
        lemma_percent_plain(front);
        assert(bytes[bytes.len() - 1] < 128);
        assert forall|i: int| 0 <= i < bytes.len() implies #[trigger] percent_encoded(bytes)[i]
            == bytes[i] as char by {
            if i < front.len() {
                assert(percent_encoded(front)[i] == front[i] as char);
            }
        }
    }
}

/// Letters and digits stand in a request as they are.
pub proof fn law_plain_in_request(bytes: Seq<u8>)
    requires
        forall|i: int|
            0 <= i < bytes.len() ==> #[trigger] bytes[i] < 128 && link::ascii_alphanumeric(
                bytes[i] as char,
            ),
    ensures
        percent_encoded(bytes) == bytes.map_values(|b: u8| b as char),
{
    lemma_percent_plain(bytes);
    assert(percent_encoded(bytes) =~= bytes.map_values(|b: u8| b as char));
}

/// A login that is answered with a key gives that session; an error that the answer
/// reports is what comes of it, and so does an answer with neither.
pub proof fn law_login_answered(body: Seq<char>)
    ensures
        tag_text(body, "Error"@) matches Some(e) ==> login_outcome(body) == Err::<
            Seq<char>,
            Seq<char>,
        >(e),
        tag_text(body, "Error"@) is None && tag_text(body, "Key"@) is Some ==> login_outcome(body)
            == Ok::<Seq<char>, Seq<char>>(tag_text(body, "Key"@)->0),
        tag_text(body, "Error"@) is None && tag_text(body, "Key"@) is None ==> login_outcome(
            body,
        ) is Err,
        tag_text(body, "Error"@) matches Some(e) ==> fetch_outcome(body) == Err::<
            InfoView,
            Seq<char>,
        >(e),
{
}

} // verus!
