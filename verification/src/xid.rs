//! XID (parameter negotiation) frames: encoding, decoding, and the answer to a
//! peer's XID.
//!
//! Only modulus 8 is supported. A peer's XID is answered with one fixed set of
//! parameters whatever it proposes, unless it asks for more than modulus 8 or
//! cannot be decoded: then it is declined.

use ax25::frame::{Address, Ax25Frame, RouteEntry};
use vstd::prelude::*;

use crate::arq::ArqConfig;
use crate::link::{self, AddressView, HopView};
use crate::text;
use crate::wire;

verus! {

const FORMAT_IDENTIFIER: u8 = 0x82;

const GROUP_IDENTIFIER: u8 = 0x80;

pub const PI_CLASSES_OF_PROCEDURES: u8 = 2;

pub const PI_HDLC_OPTIONAL_FUNCTIONS: u8 = 3;

/// The longest information field received, in bits.
pub const PI_N1_BITS: u8 = 6;

/// The window size received.
pub const PI_WINDOW: u8 = 8;

/// The acknowledgement timer, in milliseconds.
pub const PI_T1_MS: u8 = 9;

/// The number of retries.
pub const PI_N2: u8 = 10;

pub const COP_HALF_DUPLEX: u8 = 0b0000_0001;

pub const COP_FULL_DUPLEX: u8 = 0b0000_0010;

pub const HOF_REJ: u8 = 0b0000_0010;

pub const HOF_EXTENDED_ADDRESS: u8 = 0b0100_0000;

pub const HOF2_SREJ: u8 = 0b0000_0001;

pub const HOF2_MODULO_128: u8 = 0b0000_0010;

/// A set of XID parameters.
#[derive(Debug, Clone, Copy, PartialEq, Eq, Structural)]
pub struct XidParams {
    pub window: u8,
    pub t1_ms: u32,
    pub n2: u8,
    pub n1_bits: u16,
    /// The proposal needs more than modulus 8 with REJ, half duplex and basic
    /// addressing.
    pub requests_extended: bool,
}

/// The parameters that this side offers.
pub open spec fn offered(cfg: ArqConfig) -> XidParams {
    XidParams {
        window: if cfg.window < 7 {
            cfg.window
        } else {
            7
        },
        t1_ms: if cfg.t1_ms < u32::MAX {
            cfg.t1_ms as u32
        } else {
            u32::MAX
        },
        n2: if cfg.n2 < 255 {
            cfg.n2 as u8
        } else {
            255
        },
        n1_bits: if cfg.n1_bytes < 8191 {
            (8 * cfg.n1_bytes) as u16
        } else {
            65528
        },
        requests_extended: false,
    }
}

pub fn our_params(cfg: &ArqConfig) -> (r: XidParams)
    ensures
        r == offered(*cfg),
{
    XidParams {
        window: if cfg.window < 7 {
            cfg.window
        } else {
            7
        },
        t1_ms: if cfg.t1_ms < u32::MAX as u64 {
            cfg.t1_ms as u32
        } else {
            u32::MAX
        },
        n2: if cfg.n2 < 255 {
            cfg.n2 as u8
        } else {
            255
        },
        n1_bits: if cfg.n1_bytes < 8191 {
            8 * (cfg.n1_bytes as u16)
        } else {
            65528
        },
        requests_extended: false,
    }
}

// ---------------------------------------------------------------------------
// Decoding
// ---------------------------------------------------------------------------

/// One parameter: its identifier and its value.
pub type Param = (u8, Seq<u8>);

/// The parameters in a list of identifier, length and value, up to one that is
/// cut off.
pub open spec fn params_in(p: Seq<u8>) -> Seq<Param>
    decreases p.len(),
{
    if p.len() < 2 || p.len() < 2 + p[1] {
        Seq::empty()
    } else {
        seq![(p[0], p.subrange(2, 2 + p[1]))] + params_in(p.skip(2 + p[1]))
    }
}

/// The value of the last parameter `pi` that is `len` bytes long.
pub open spec fn last_value(params: Seq<Param>, pi: u8, len: nat) -> Option<Seq<u8>>
    decreases params.len(),
{
    if params.len() == 0 {
        None
    } else if params.last().0 == pi && params.last().1.len() == len {
        Some(params.last().1)
    } else {
        last_value(params.drop_last(), pi, len)
    }
}

/// A parameter that asks for more than modulus 8: full duplex alone, extended
/// addresses, selective reject or modulus 128.
pub open spec fn asks_extended(p: Param) -> bool {
    ||| p.0 == 2 && p.1.len() >= 1 && p.1[0] & 2 != 0 && p.1[0] & 1 == 0
    ||| p.0 == 3 && p.1.len() >= 2 && (p.1[0] & 0x40 != 0 || p.1[1] & 3 != 0)
}

pub open spec fn any_extended(params: Seq<Param>) -> bool {
    exists|i: int| 0 <= i < params.len() && asks_extended(#[trigger] params[i])
}

pub open spec fn be16(s: Seq<u8>) -> nat {
    (s[0] * 256 + s[1]) as nat
}

/// The parameter list of an XID payload: as long as its group length says, as far
/// as it is there.
pub open spec fn param_list(payload: Seq<u8>) -> Seq<u8> {
    let end = 4 + be16(payload.subrange(2, 4));
    payload.subrange(
        4,
        if end < payload.len() {
            end as int
        } else {
            payload.len() as int
        },
    )
}

/// What a list of parameters amounts to. What is not given has its default.
pub open spec fn params_value(params: Seq<Param>) -> XidParams {
    let window = match last_value(params, 8, 1) {
        Some(v) => v[0],
        None => 4,
    };
    XidParams {
        window,
        t1_ms: match last_value(params, 9, 2) {
            Some(v) => be16(v) as u32,
            None => 4000,
        },
        n2: match last_value(params, 10, 1) {
            Some(v) => v[0],
            None => 10,
        },
        n1_bits: match last_value(params, 6, 2) {
            Some(v) => be16(v) as u16,
            None => 2048,
        },
        requests_extended: any_extended(params) || window > 7,
    }
}

/// The parameters of an XID payload, or what is wrong with it.
pub open spec fn decoded(payload: Seq<u8>) -> Result<XidParams, Seq<char>> {
    if payload.len() < 4 {
        Err("XID payload too short for FI/GI/GL"@)
    } else if payload[0] != 0x82 {
        Err("unexpected XID format identifier 0x"@ + text::hex_byte(payload[0]))
    } else if payload[1] != 0x80 {
        Err("unexpected XID group identifier 0x"@ + text::hex_byte(payload[1]))
    } else {
        Ok(params_value(params_in(param_list(payload))))
    }
}

pub fn decode(payload: &[u8]) -> (r: Result<XidParams, String>)
    ensures
        match r {
            Ok(p) => decoded(payload@) == Ok::<XidParams, Seq<char>>(p),
            Err(e) => decoded(payload@) == Err::<XidParams, Seq<char>>(e@),
        },
{
    if payload.len() < 4 {
        return Err(text::owned("XID payload too short for FI/GI/GL"));
    }
    if payload[0] != FORMAT_IDENTIFIER {
        let mut e = text::owned("unexpected XID format identifier 0x");
        let hex = text::hex_text(payload[0]);
        e.append(hex.as_str());
        return Err(e);
    }
    if payload[1] != GROUP_IDENTIFIER {
        let mut e = text::owned("unexpected XID group identifier 0x");
        let hex = text::hex_text(payload[1]);
        e.append(hex.as_str());
        return Err(e);
    }
    let group_len: usize = payload[2] as usize * 256 + payload[3] as usize;
    let end: usize = if group_len < payload.len() - 4 {
        4 + group_len
    } else {
        payload.len()
    };
    let params = &payload[4..end];
    assert(params@ == param_list(payload@));

    let mut window: Option<u8> = None;
    let mut t1_ms: Option<u32> = None;
    let mut n2: Option<u8> = None;
    let mut n1_bits: Option<u16> = None;
    let mut extended = false;
    let ghost mut done: Seq<Param> = Seq::empty();

    let mut i: usize = 0;
    assert(params@.skip(0) =~= params@);
    assert(done + params_in(params@) =~= params_in(params@));
    while params.len() - i >= 2
        invariant
            i <= params@.len(),
            done + params_in(params@.skip(i as int)) == params_in(params@),
            window == (match last_value(done, 8, 1) {
                Some(v) => Some(v[0]),
                None => None,
            }),
            t1_ms == (match last_value(done, 9, 2) {
                Some(v) => Some(be16(v) as u32),
                None => None,
            }),
            n2 == (match last_value(done, 10, 1) {
                Some(v) => Some(v[0]),
                None => None,
            }),
            n1_bits == (match last_value(done, 6, 2) {
                Some(v) => Some(be16(v) as u16),
                None => None,
            }),
            extended == any_extended(done),
        ensures
            params_in(params@.skip(i as int)) == Seq::<Param>::empty(),
        decreases params@.len() - i,
    {
        let ghost rest = params@.skip(i as int);
        let pi: u8 = params[i];
        let pl: usize = params[i + 1] as usize;
        assert(rest[0] == pi && rest[1] == pl);
        if pl > params.len() - i - 2 {
            break;
        }
        let pv = &params[i + 2..i + 2 + pl];
        proof {
            assert(pv@ =~= rest.subrange(2, 2 + pl));
            assert(rest.skip(2 + pl) =~= params@.skip(i + 2 + pl));
        }
        if pi == PI_CLASSES_OF_PROCEDURES {
            if pv.len() >= 1 && pv[0] & COP_FULL_DUPLEX != 0 && pv[0] & COP_HALF_DUPLEX == 0 {
                extended = true;
            }
        } else if pi == PI_HDLC_OPTIONAL_FUNCTIONS {
            if pv.len() >= 2 {
                let b: u8 = pv[1];
                assert(0b0000_0010u8 | 0b0000_0001 == 3) by (bit_vector);
                if pv[0] & HOF_EXTENDED_ADDRESS != 0 || b & (HOF2_MODULO_128 | HOF2_SREJ) != 0 {
                    extended = true;
                }
            }
        } else if pi == PI_N1_BITS {
            if pv.len() == 2 {
                n1_bits = Some(pv[0] as u16 * 256 + pv[1] as u16);
            }
        } else if pi == PI_WINDOW {
            if pv.len() == 1 {
                window = Some(pv[0]);
            }
        } else if pi == PI_T1_MS {
            if pv.len() == 2 {
                t1_ms = Some(pv[0] as u32 * 256 + pv[1] as u32);
            }
        } else if pi == PI_N2 {
            if pv.len() == 1 {
                n2 = Some(pv[0]);
            }
        }
        proof {
            let p: Param = (pi, pv@);
            let next = done.push(p);
            assert(next.drop_last() =~= done);
            lemma_any_extended_push(done, p);
            assert(next + params_in(params@.skip(i + 2 + pl)) =~= done + (seq![p] + params_in(
                rest.skip(2 + pl),
            )));
            done = next;
        }
        i = i + 2 + pl;
    }
    assert(done + Seq::<Param>::empty() =~= done);

    let window: u8 = match window {
        Some(w) => w,
        None => 4,
    };
    Ok(
        XidParams {
            window,
            t1_ms: match t1_ms {
                Some(t) => t,
                None => 4000,
            },
            n2: match n2 {
                Some(n) => n,
                None => 10,
            },
            n1_bits: match n1_bits {
                Some(n) => n,
                None => 2048,
            },
            requests_extended: extended || window > 7,
        },
    )
}

proof fn lemma_any_extended_push(params: Seq<Param>, p: Param)
    ensures
        any_extended(params.push(p)) == (any_extended(params) || asks_extended(p)),
{
    let all = params.push(p);
    if any_extended(params) {
        let i = choose|i: int| 0 <= i < params.len() && asks_extended(#[trigger] params[i]);
        assert(all[i] == params[i]);
    }
    if asks_extended(p) {
        assert(asks_extended(all[params.len() as int]));
    }
    if any_extended(all) {
        let i = choose|i: int| 0 <= i < all.len() && asks_extended(#[trigger] all[i]);
        if i < params.len() {
            assert(asks_extended(params[i]));
        }
    }
}

// ---------------------------------------------------------------------------
// Encoding
// ---------------------------------------------------------------------------

/// The low 16 bits of what fits them.
pub open spec fn be16_bytes(n: nat) -> Seq<u8> {
    seq![(n / 256) as u8, (n % 256) as u8]
}

pub open spec fn capped(n: nat, max: nat) -> nat {
    if n < max {
        n
    } else {
        max
    }
}

/// A set of parameters as an XID payload: half duplex, REJ only, and the values,
/// the window at most 7 and T1 at most what 16 bits hold.
pub open spec fn encoded(p: XidParams) -> Seq<u8> {
    seq![0x82u8, 0x80, 0, 23] + seq![2u8, 2, 1, 0] + seq![3u8, 3, 2, 0, 0] + (seq![6u8, 2]
        + be16_bytes(p.n1_bits as nat)) + seq![8u8, 1, capped(p.window as nat, 7) as u8] + (seq![
        9u8,
        2,
    ] + be16_bytes(capped(p.t1_ms as nat, 65535))) + seq![10u8, 1, p.n2]
}

pub fn encode(params: &XidParams) -> (out: Vec<u8>)
    ensures
        out@ == encoded(*params),
{
    let window: u8 = if params.window < 7 {
        params.window
    } else {
        7
    };
    let t1: u16 = if params.t1_ms < 65535 {
        params.t1_ms as u16
    } else {
        65535
    };
    let mut out: Vec<u8> = Vec::new();
    out.push(FORMAT_IDENTIFIER);
    out.push(GROUP_IDENTIFIER);
    out.push(0);
    out.push(23);

    out.push(PI_CLASSES_OF_PROCEDURES);
    out.push(2);
    out.push(COP_HALF_DUPLEX);
    out.push(0);

    out.push(PI_HDLC_OPTIONAL_FUNCTIONS);
    out.push(3);
    out.push(HOF_REJ);
    out.push(0);
    out.push(0);

    out.push(PI_N1_BITS);
    out.push(2);
    out.push((params.n1_bits / 256) as u8);
    out.push((params.n1_bits % 256) as u8);

    out.push(PI_WINDOW);
    out.push(1);
    out.push(window);

    out.push(PI_T1_MS);
    out.push(2);
    out.push((t1 / 256) as u8);
    out.push((t1 % 256) as u8);

    out.push(PI_N2);
    out.push(1);
    out.push(params.n2);
    assert(out@ =~= encoded(*params));
    out
}

// ---------------------------------------------------------------------------
// Answering
// ---------------------------------------------------------------------------

pub enum XidDecision {
    /// The bytes of the frame to answer with.
    Reply(Vec<u8>),
    /// The frame that declines.
    Decline(Ax25Frame),
}

/// The answer to a peer's XID: an XID response with our parameters, by the way
/// back.
pub open spec fn reply_bytes(
    local: AddressView,
    remote: AddressView,
    route: Seq<HopView>,
    cfg: ArqConfig,
) -> Seq<u8> {
    link::address_header(wire::dm_view(local, remote, wire::reversed_route(route), true)) + seq![
        0xBFu8,
    ] + encoded(offered(cfg))
}

pub fn handle_peer_xid(
    local: &Address,
    remote: &Address,
    route: &Vec<RouteEntry>,
    payload: &[u8],
    cfg: &ArqConfig,
) -> (r: XidDecision)
    ensures
        match r {
            XidDecision::Reply(bytes) => {
                &&& decoded(payload@) matches Ok(p) && !p.requests_extended
                &&& bytes@ == reply_bytes(
                    link::address_view(*local),
                    link::address_view(*remote),
                    link::route_view(route@),
                    *cfg,
                )
            },
            XidDecision::Decline(dm) => {
                &&& !(decoded(payload@) matches Ok(p) && !p.requests_extended)
                &&& link::frame_view(dm) == wire::dm_view(
                    link::address_view(*local),
                    link::address_view(*remote),
                    wire::reversed_route(link::route_view(route@)),
                    true,
                )
            },
        },
{
    let reply_route = wire::reverse_route(route);
    if let Ok(peer) = decode(payload) {
        if !peer.requests_extended {
            return XidDecision::Reply(build_response_frame(local, remote, reply_route, cfg));
        }
    }
    XidDecision::Decline(wire::build_dm(local, remote, reply_route, true))
}

/// An XID response frame. A DM frame lends its address fields; the `ax25` crate
/// has no content of this kind.
fn build_response_frame(
    local: &Address,
    remote: &Address,
    route: Vec<RouteEntry>,
    cfg: &ArqConfig,
) -> (out: Vec<u8>)
    ensures
        out@ == link::address_header(
            wire::dm_view(
                link::address_view(*local),
                link::address_view(*remote),
                link::route_view(route@),
                true,
            ),
        ) + seq![0xBFu8] + encoded(offered(*cfg)),
{
    let scaffold = wire::build_dm(local, remote, route, true);
    let bytes = scaffold.to_bytes();
    let ghost header = link::address_header(link::frame_view(scaffold));
    proof {
        wire::lemma_header_end(
            link::frame_view(scaffold),
            link::content_bytes(link::frame_view(scaffold).content),
        );
    }
    let last: usize = wire::find_odd(bytes.as_slice());
    let mut out = crate::arq::sub_bytes(bytes.as_slice(), 0, last + 1);
    assert(out@ =~= header);
    assert(0b1010_1111u8 | 0b0001_0000 == 0xBF) by (bit_vector);
    out.push(wire::CTRL_XID | 0b0001_0000);
    let mut params = encode(&our_params(cfg));
    out.append(&mut params);
    assert(out@ =~= header + seq![0xBFu8] + encoded(offered(*cfg)));
    out
}

// ---------------------------------------------------------------------------
// Laws
// ---------------------------------------------------------------------------

/// Decoding gives back the parameters that were encoded, the window cut to 7 and
/// T1 to 16 bits, and never finds a request for more than modulus 8 in them.
pub proof fn law_round_trip(p: XidParams)
    ensures
        decoded(encoded(p)) == Ok::<XidParams, Seq<char>>(
            XidParams {
                window: capped(p.window as nat, 7) as u8,
                t1_ms: capped(p.t1_ms as nat, 65535) as u32,
                n2: p.n2,
                n1_bits: p.n1_bits,
                requests_extended: false,
            },
        ),
{
    let bytes = encoded(p);
    let w = capped(p.window as nat, 7) as u8;
    let t1 = capped(p.t1_ms as nat, 65535);
    let p1: Param = (2, seq![1u8, 0]);
    let p2: Param = (3, seq![2u8, 0, 0]);
    let p3: Param = (6, be16_bytes(p.n1_bits as nat));
    let p4: Param = (8, seq![w]);
    let p5: Param = (9, be16_bytes(t1));
    let p6: Param = (10, seq![p.n2]);
    let l6 = seq![10u8, 1, p.n2];
    let l5 = (seq![9u8, 2] + be16_bytes(t1)) + l6;
    let l4 = seq![8u8, 1, w] + l5;
    let l3 = (seq![6u8, 2] + be16_bytes(p.n1_bits as nat)) + l4;
    let l2 = seq![3u8, 3, 2, 0, 0] + l3;
    let l1 = seq![2u8, 2, 1, 0] + l2;
    assert(bytes.subrange(2, 4) =~= seq![0u8, 23]);
    assert(param_list(bytes) =~= l1);
    lemma_param(l6, p6, Seq::empty());
    assert(params_in(Seq::<u8>::empty()) =~= Seq::<Param>::empty());
    lemma_param(l5, p5, l6);
    lemma_param(l4, p4, l5);
    lemma_param(l3, p3, l4);
    lemma_param(l2, p2, l3);
    lemma_param(l1, p1, l2);
    let all = seq![p1, p2, p3, p4, p5, p6];
    assert(params_in(l1) =~= all);
    assert(all.drop_last() =~= seq![p1, p2, p3, p4, p5]);
    assert(all.drop_last().drop_last() =~= seq![p1, p2, p3, p4]);
    assert(all.drop_last().drop_last().drop_last() =~= seq![p1, p2, p3]);
    reveal_with_fuel(last_value, 5);
    assert(last_value(all, 10, 1) == Some(p6.1));
    assert(last_value(all, 9, 2) == Some(p5.1));
    assert(last_value(all, 8, 1) == Some(p4.1));
    assert(last_value(all, 6, 2) == Some(p3.1));
    assert(1u8 & 2 == 0 && 2u8 & 0x40 == 0 && 0u8 & 3 == 0) by (bit_vector);
    assert forall|i: int| 0 <= i < 6 implies !asks_extended(#[trigger] all[i]) by {
        if i == 0 {
            assert(all[i] == p1);
        } else if i == 1 {
            assert(all[i] == p2);
        }
    }
}

proof fn lemma_param(list: Seq<u8>, p: Param, rest: Seq<u8>)
    requires
        p.1.len() < 256,
        list =~= seq![p.0, p.1.len() as u8] + p.1 + rest,
    ensures
        params_in(list) == seq![p] + params_in(rest),
{
    assert(list.subrange(2, 2 + list[1]) =~= p.1);
    assert(list.skip(2 + list[1]) =~= rest);
}

/// An XID payload with the given list of parameters.
pub open spec fn payload_of(list: Seq<u8>) -> Seq<u8> {
    seq![0x82u8, 0x80] + be16_bytes(list.len()) + list
}

/// A parameter as it stands in a list.
pub open spec fn param_bytes(p: Param) -> Seq<u8> {
    seq![p.0, p.1.len() as u8] + p.1
}

/// A list made of parameters none of which is cut off.
pub open spec fn whole(list: Seq<u8>) -> bool
    decreases list.len(),
{
    list.len() == 0 || (list.len() >= 2 && list.len() >= 2 + list[1] && whole(
        list.skip(2 + list[1]),
    ))
}

/// A parameter that means something here.
pub open spec fn is_known(pi: u8) -> bool {
    pi == 2 || pi == 3 || pi == 6 || pi == 8 || pi == 9 || pi == 10
}

/// An unknown parameter is passed over: put between any two parameters, or before or
/// behind them all, it changes nothing of what is decoded.
pub proof fn law_unknown_parameter(before: Seq<u8>, p: Param, after: Seq<u8>)
    requires
        whole(before),
        !is_known(p.0),
        p.1.len() < 256,
        before.len() + 2 + p.1.len() + after.len() <= 65535,
    ensures
        decoded(payload_of(before + param_bytes(p) + after)) == decoded(
            payload_of(before + after),
        ),
{
    let more = before + param_bytes(p) + after;
    let less = before + after;
    lemma_list(more);
    lemma_list(less);
    assert(more =~= before + (param_bytes(p) + after));
    lemma_params_concat(before, param_bytes(p) + after);
    lemma_params_concat(before, after);
    lemma_param(param_bytes(p) + after, p, after);
    let a = params_in(before);
    let b = params_in(after);
    assert(params_in(more) =~= a.push(p) + b);
    lemma_passed_over(a, p, b, 8, 1);
    lemma_passed_over(a, p, b, 9, 2);
    lemma_passed_over(a, p, b, 10, 1);
    lemma_passed_over(a, p, b, 6, 2);
    assert(any_extended(a.push(p) + b) == any_extended(a + b)) by {
        if any_extended(a.push(p) + b) {
            let i = choose|i: int|
                0 <= i < (a.push(p) + b).len() && asks_extended(#[trigger] (a.push(p) + b)[i]);
            if i < a.len() {
                assert(asks_extended((a + b)[i]));
            } else {
                assert(asks_extended((a + b)[i - 1]));
            }
        }
        if any_extended(a + b) {
            let i = choose|i: int| 0 <= i < (a + b).len() && asks_extended(#[trigger] (a + b)[i]);
            if i < a.len() {
                assert(asks_extended((a.push(p) + b)[i]));
            } else {
                assert(asks_extended((a.push(p) + b)[i + 1]));
            }
        }
    }
}

proof fn lemma_list(list: Seq<u8>)
    requires
        list.len() <= 65535,
    ensures
        decoded(payload_of(list)) == Ok::<XidParams, Seq<char>>(params_value(params_in(list))),
{
    let payload = payload_of(list);
    assert(payload.subrange(2, 4) =~= be16_bytes(list.len()));
    assert(param_list(payload) =~= list);
}

proof fn lemma_params_concat(a: Seq<u8>, b: Seq<u8>)
    requires
        whole(a),
    ensures
        params_in(a + b) == params_in(a) + params_in(b),
    decreases a.len(),
{
    if a.len() == 0 {
        assert(a + b =~= b);
        assert(params_in(a) + params_in(b) =~= params_in(b));
    } else {
        let n = 2 + a[1];
        lemma_params_concat(a.skip(n), b);
        assert((a + b).skip(n) =~= a.skip(n) + b);
        assert((a + b).subrange(2, n) =~= a.subrange(2, n));
        assert(params_in(a + b) =~= params_in(a) + params_in(b));
    }
}

proof fn lemma_passed_over(a: Seq<Param>, p: Param, b: Seq<Param>, pi: u8, len: nat)
    requires
        p.0 != pi,
    ensures
        last_value(a.push(p) + b, pi, len) == last_value(a + b, pi, len),
    decreases b.len(),
{
    if b.len() == 0 {
        assert(a.push(p) + b =~= a.push(p));
        assert(a.push(p).drop_last() =~= a);
        assert(a + b =~= a);
    } else {
        lemma_passed_over(a, p, b.drop_last(), pi, len);
        assert((a.push(p) + b).drop_last() =~= a.push(p) + b.drop_last());
        assert((a + b).drop_last() =~= a + b.drop_last());
    }
}

/// Where the parameters stand in what is sent: behind the header the classes of
/// procedures, the optional functions, the frame size in bits, the window, T1 and the
/// retries, each under its own number.
pub proof fn law_layout(p: XidParams)
    ensures
        ({
            let bytes = encoded(p);
            &&& bytes.len() == 27
            &&& bytes[0] == 0x82 && bytes[1] == 0x80 && 256 * bytes[2] + bytes[3] == bytes.len() - 4
            &&& bytes[4] == 2 && bytes[5] == 2
            &&& bytes[8] == 3 && bytes[9] == 3
            &&& bytes[13] == 6 && bytes[14] == 2 && 256 * bytes[15] + bytes[16] == p.n1_bits
            &&& bytes[17] == 8 && bytes[18] == 1 && (p.window <= 7 ==> bytes[19] == p.window)
            &&& bytes[20] == 9 && bytes[21] == 2 && (p.t1_ms <= 65535 ==> 256 * bytes[22] + bytes[23]
                == p.t1_ms)
            &&& bytes[24] == 10 && bytes[25] == 1 && bytes[26] == p.n2
        }),
{
}

/// A peer is offered what this side is set to, as far as the parameters can say it.
pub proof fn law_offer(cfg: ArqConfig)
    requires
        cfg.window <= 7,
        cfg.t1_ms <= 65535,
        cfg.n2 <= 255,
        cfg.n1_bytes <= 8191,
    ensures
        decoded(encoded(offered(cfg))) matches Ok(p) && p.window == cfg.window && p.t1_ms
            == cfg.t1_ms && p.n2 == cfg.n2 && p.n1_bits == 8 * cfg.n1_bytes
            && !p.requests_extended,
{
    law_round_trip(offered(cfg));
}

} // verus!
