//! NET/ROM routing broadcasts.
//!
//! A node sends its list as unnumbered information to `NODES`: a signature byte,
//! its own alias (six bytes), then 21 bytes per destination: callsign (seven),
//! alias (six), best neighbour (seven) and quality (one).

use vstd::prelude::*;

use crate::link;
use crate::text;
use crate::wire;

verus! {

pub const NODES_SIGNATURE: u8 = 0xFF;

const HEADER_LEN: usize = 7;

const ENTRY_LEN: usize = 21;

#[derive(Debug, Clone, PartialEq, Eq)]
pub struct NetRomNodeEntry {
    pub alias: String,
    pub callsign: String,
}

#[derive(Debug, Clone, PartialEq, Eq)]
pub struct NetRomNodesBroadcast {
    pub sender_alias: String,
    pub entries: Vec<NetRomNodeEntry>,
}

#[verifier::ext_equal]
pub struct EntryView {
    pub alias: Seq<char>,
    pub callsign: Seq<char>,
}

#[verifier::ext_equal]
pub struct BroadcastView {
    pub sender_alias: Seq<char>,
    pub entries: Seq<EntryView>,
}

pub open spec fn entry_view(e: NetRomNodeEntry) -> EntryView {
    EntryView { alias: e.alias@, callsign: e.callsign@ }
}

pub open spec fn entries_view(v: Seq<NetRomNodeEntry>) -> Seq<EntryView> {
    v.map_values(|e: NetRomNodeEntry| entry_view(e))
}

pub open spec fn broadcast_view(b: NetRomNodesBroadcast) -> BroadcastView {
    BroadcastView { sender_alias: b.sender_alias@, entries: entries_view(b.entries@) }
}

/// The text of an alias field, white space around it aside.
pub open spec fn mnemonic(bytes: Seq<u8>) -> Seq<char> {
    text::trimmed(text::shown_text(bytes))
}

fn decode_mnemonic(bytes: &[u8]) -> (r: String)
    ensures
        r@ == mnemonic(bytes@),
{
    let shown = text::from_utf8_lossy(bytes);
    text::trim(shown.as_str())
}

/// The first `k` entries of a broadcast, less those whose callsign field holds no
/// address.
pub open spec fn entries_in(payload: Seq<u8>, k: int) -> Seq<EntryView>
    decreases k,
{
    if k <= 0 {
        Seq::empty()
    } else {
        let at = 7 + 21 * (k - 1);
        let before = entries_in(payload, k - 1);
        match wire::decoded_field(payload.subrange(at, at + 7)) {
            Some((a, _)) => before.push(
                EntryView {
                    alias: mnemonic(payload.subrange(at + 7, at + 13)),
                    callsign: link::address_text(a),
                },
            ),
            None => before,
        }
    }
}

/// The broadcast in an information field: it begins with the signature and an
/// alias, and holds as many whole entries as fit.
pub open spec fn broadcast_in(payload: Seq<u8>) -> Option<BroadcastView> {
    if payload.len() < 7 || payload[0] != 0xFF {
        None
    } else {
        Some(
            BroadcastView {
                sender_alias: mnemonic(payload.subrange(1, 7)),
                entries: entries_in(payload, (payload.len() - 7) / 21),
            },
        )
    }
}

pub fn parse_nodes_broadcast(payload: &[u8]) -> (r: Option<NetRomNodesBroadcast>)
    ensures
        match r {
            Some(b) => broadcast_in(payload@) == Some(broadcast_view(b)),
            None => broadcast_in(payload@) is None,
        },
{
    if payload.len() < HEADER_LEN || payload[0] != NODES_SIGNATURE {
        return None;
    }
    let sender_alias = decode_mnemonic(&payload[1..HEADER_LEN]);
    let mut entries: Vec<NetRomNodeEntry> = Vec::new();
    let mut offset: usize = HEADER_LEN;
    let ghost mut k: int = 0;
    assert(entries_view(entries@) =~= entries_in(payload@, 0));
    while payload.len() - offset >= ENTRY_LEN
        invariant
            offset == 7 + 21 * k,
            0 <= k,
            offset <= payload@.len(),
            entries_view(entries@) == entries_in(payload@, k),
        decreases payload@.len() - offset,
    {
        let ghost before = entries@;
        match wire::decode_call_field(&payload[offset..offset + 7]) {
            Some(callsign) => {
                let alias = decode_mnemonic(&payload[offset + 7..offset + 13]);
                entries.push(NetRomNodeEntry { alias, callsign: link::address_string(&callsign) });
                assert(entries_view(entries@) =~= entries_view(before).push(
                    entry_view(entries@.last()),
                ));
            },
            None => {},
        }
        offset += ENTRY_LEN;
        proof {
            k = k + 1;
        }
    }
    assert(k == (payload@.len() - 7) / 21);
    Some(NetRomNodesBroadcast { sender_alias, entries })
}

/// A part of an entry at the end of the field changes nothing.
pub proof fn law_trailing_part_ignored(payload: Seq<u8>, extra: Seq<u8>)
    requires
        payload.len() >= 7,
        (payload.len() - 7) % 21 + extra.len() < 21,
    ensures
        broadcast_in(payload + extra) == broadcast_in(payload),
{
    let k = (payload.len() - 7) / 21;
    assert((payload + extra).subrange(1, 7) =~= payload.subrange(1, 7));
    assert(((payload + extra).len() - 7) / 21 == k);
    lemma_entries_prefix(payload, extra, k);
}

proof fn lemma_entries_prefix(payload: Seq<u8>, extra: Seq<u8>, k: int)
    requires
        0 <= k,
        7 + 21 * k <= payload.len(),
    ensures
        entries_in(payload + extra, k) == entries_in(payload, k),
    decreases k,
{
    if k > 0 {
        lemma_entries_prefix(payload, extra, k - 1);
        let at = 7 + 21 * (k - 1);
        assert((payload + extra).subrange(at, at + 7) =~= payload.subrange(at, at + 7));
        assert((payload + extra).subrange(at + 7, at + 13) =~= payload.subrange(at + 7, at + 13));
    }
}

/// The address in the part of a broadcast with number `i`.
pub open spec fn station_at(payload: Seq<u8>, i: int) -> link::AddressView {
    match wire::decoded_field(payload.subrange(7 + 21 * i, 14 + 21 * i)) {
        Some((a, _)) => a,
        None => arbitrary(),
    }
}

/// Every station that a broadcast lists comes out, in order: the address in the first
/// seven bytes of its part under its alias in the next six.
pub proof fn law_stations_listed(payload: Seq<u8>, k: int)
    requires
        k >= 0,
        7 + 21 * k <= payload.len() < 28 + 21 * k,
        payload[0] == 0xFF,
        forall|i: int|
            0 <= i < k ==> wire::decoded_field(
                #[trigger] payload.subrange(7 + 21 * i, 14 + 21 * i),
            ) is Some,
    ensures
        broadcast_in(payload) matches Some(b) && b.sender_alias == text::trimmed(
            text::shown_text(payload.subrange(1, 7)),
        ) && b.entries.len() == k && forall|i: int|
            0 <= i < k ==> (#[trigger] b.entries[i]).callsign == link::address_text(
                station_at(payload, i),
            ) && b.entries[i].alias == text::trimmed(
                text::shown_text(payload.subrange(14 + 21 * i, 20 + 21 * i)),
            ),
{
    assert((payload.len() - 7) / 21 == k);
    lemma_stations_listed(payload, k);
}

proof fn lemma_stations_listed(payload: Seq<u8>, k: int)
    requires
        k >= 0,
        forall|i: int|
            0 <= i < k ==> wire::decoded_field(
                #[trigger] payload.subrange(7 + 21 * i, 14 + 21 * i),
            ) is Some,
    ensures
        entries_in(payload, k).len() == k,
        forall|i: int|
            0 <= i < k ==> (#[trigger] entries_in(payload, k)[i]).callsign == link::address_text(
                station_at(payload, i),
            ) && entries_in(payload, k)[i].alias == text::trimmed(
                text::shown_text(payload.subrange(14 + 21 * i, 20 + 21 * i)),
            ),
    decreases k,
{
    if k > 0 {
        lemma_stations_listed(payload, k - 1);
        let at = 7 + 21 * (k - 1);
        assert(wire::decoded_field(payload.subrange(7 + 21 * (k - 1), 14 + 21 * (k - 1))) is Some);
        assert(at + 7 == 14 + 21 * (k - 1));
        let before = entries_in(payload, k - 1);
        let all = entries_in(payload, k);
        assert(forall|i: int| 0 <= i < k - 1 ==> #[trigger] all[i] == before[i]);
    }
}

} // verus!
