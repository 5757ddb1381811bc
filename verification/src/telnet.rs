//! A telnet filter: it takes the negotiation out of a byte stream and refuses
//! every option.

use vstd::prelude::*;

verus! {

pub const IAC: u8 = 255;

pub const WILL: u8 = 251;

pub const WONT: u8 = 252;

pub const DO: u8 = 253;

pub const DONT: u8 = 254;

pub const SB: u8 = 250;

pub const SE: u8 = 240;

#[derive(Debug, Clone, Copy, PartialEq, Eq, Structural)]
pub enum TelnetState {
    Data,
    Iac,
    Neg(u8),
    Sub,
    SubIac,
}

pub struct TelnetFilter {
    pub state: TelnetState,
}

/// The state after one byte.
pub open spec fn next_state(s: TelnetState, b: u8) -> TelnetState {
    match s {
        TelnetState::Data => if b == IAC {
            TelnetState::Iac
        } else {
            TelnetState::Data
        },
        TelnetState::Iac => if b == WILL || b == WONT || b == DO || b == DONT {
            TelnetState::Neg(b)
        } else if b == SB {
            TelnetState::Sub
        } else {
            TelnetState::Data
        },
        TelnetState::Neg(_) => TelnetState::Data,
        TelnetState::Sub => if b == IAC {
            TelnetState::SubIac
        } else {
            TelnetState::Sub
        },
        TelnetState::SubIac => if b == SE {
            TelnetState::Data
        } else {
            TelnetState::Sub
        },
    }
}

/// What one byte adds to the data: itself in plain text, and `IAC` where it is
/// doubled.
pub open spec fn data_of(s: TelnetState, b: u8) -> Seq<u8> {
    if (s == TelnetState::Data && b != IAC) || (s == TelnetState::Iac && b == IAC) {
        seq![b]
    } else {
        Seq::empty()
    }
}

/// The answer that refuses: DONT to an offer, WONT to a request.
pub open spec fn refusal(command: u8) -> u8 {
    if command == WILL || command == WONT {
        DONT
    } else {
        WONT
    }
}

/// What one byte adds to the replies: it ends a negotiation, and the option it
/// names is refused.
pub open spec fn reply_of(s: TelnetState, b: u8) -> Seq<u8> {
    match s {
        TelnetState::Neg(command) => seq![IAC, refusal(command), b],
        _ => Seq::empty(),
    }
}

pub open spec fn state_after(s: TelnetState, input: Seq<u8>) -> TelnetState
    decreases input.len(),
{
    if input.len() == 0 {
        s
    } else {
        next_state(state_after(s, input.drop_last()), input.last())
    }
}

/// The data in `input`.
pub open spec fn data_in(s: TelnetState, input: Seq<u8>) -> Seq<u8>
    decreases input.len(),
{
    if input.len() == 0 {
        Seq::empty()
    } else {
        data_in(s, input.drop_last()) + data_of(state_after(s, input.drop_last()), input.last())
    }
}

/// The replies that `input` calls for.
pub open spec fn replies_to(s: TelnetState, input: Seq<u8>) -> Seq<u8>
    decreases input.len(),
{
    if input.len() == 0 {
        Seq::empty()
    } else {
        replies_to(s, input.drop_last()) + reply_of(state_after(s, input.drop_last()), input.last())
    }
}

impl TelnetFilter {
    pub fn new() -> (r: Self)
        ensures
            r.state == TelnetState::Data,
    {
        TelnetFilter { state: TelnetState::Data }
    }

    /// Appends the data in `input` to `out_data`, and the replies it calls for to
    /// `replies`.
    pub fn process(&mut self, input: &[u8], out_data: &mut Vec<u8>, replies: &mut Vec<u8>)
        ensures
            final(self).state == state_after(old(self).state, input@),
            final(out_data)@ == old(out_data)@ + data_in(old(self).state, input@),
            final(replies)@ == old(replies)@ + replies_to(old(self).state, input@),
    {
        let ghost s = self.state;
        let ghost data = out_data@;
        let ghost sent = replies@;
        let mut i: usize = 0;
        assert(data + data_in(s, input@.take(0)) =~= data);
        assert(sent + replies_to(s, input@.take(0)) =~= sent);
        while i < input.len()
            invariant
                i <= input@.len(),
                self.state == state_after(s, input@.take(i as int)),
                out_data@ == data + data_in(s, input@.take(i as int)),
                replies@ == sent + replies_to(s, input@.take(i as int)),
            decreases input@.len() - i,
        {
            let b: u8 = input[i];
            let ghost at = self.state;
            let ghost data_before = out_data@;
            let ghost sent_before = replies@;
            assert(input@.take(i + 1).drop_last() =~= input@.take(i as int));
            match self.state {
                TelnetState::Data => {
                    if b == IAC {
                        self.state = TelnetState::Iac;
                    } else {
                        out_data.push(b);
                    }
                },
                TelnetState::Iac => {
                    if b == IAC {
                        out_data.push(IAC);
                        self.state = TelnetState::Data;
                    } else if b == WILL || b == WONT || b == DO || b == DONT {
                        self.state = TelnetState::Neg(b);
                    } else if b == SB {
                        self.state = TelnetState::Sub;
                    } else {
                        self.state = TelnetState::Data;
                    }
                },
                TelnetState::Neg(command) => {
                    let reply: u8 = if command == WILL || command == WONT {
                        DONT
                    } else {
                        WONT
                    };
                    replies.push(IAC);
                    replies.push(reply);
                    replies.push(b);
                    self.state = TelnetState::Data;
                },
                TelnetState::Sub => {
                    if b == IAC {
                        self.state = TelnetState::SubIac;
                    }
                },
                TelnetState::SubIac => {
                    self.state = if b == SE {
                        TelnetState::Data
                    } else {
                        TelnetState::Sub
                    };
                },
            }
            proof {
                assert(out_data@ =~= data_before + data_of(at, b));
                assert(replies@ =~= sent_before + reply_of(at, b));
                assert(out_data@ =~= data + data_in(s, input@.take(i + 1)));
                assert(replies@ =~= sent + replies_to(s, input@.take(i + 1)));
            }
            i += 1;
        }
        assert(input@.take(i as int) =~= input@);
    }
}

// ---------------------------------------------------------------------------
// Laws
// ---------------------------------------------------------------------------

/// How the stream is cut into reads makes no difference.
pub proof fn law_processing_in_pieces(s: TelnetState, a: Seq<u8>, b: Seq<u8>)
    ensures
        state_after(s, a + b) == state_after(state_after(s, a), b),
        data_in(s, a + b) == data_in(s, a) + data_in(state_after(s, a), b),
        replies_to(s, a + b) == replies_to(s, a) + replies_to(state_after(s, a), b),
    decreases b.len(),
{
    if b.len() == 0 {
        assert(a + b =~= a);
        assert(data_in(s, a) + Seq::<u8>::empty() =~= data_in(s, a));
        assert(replies_to(s, a) + Seq::<u8>::empty() =~= replies_to(s, a));
    } else {
        law_processing_in_pieces(s, a, b.drop_last());
        assert((a + b).drop_last() =~= a + b.drop_last());
        assert(data_in(s, a + b) =~= data_in(s, a) + data_in(state_after(s, a), b));
        assert(replies_to(s, a + b) =~= replies_to(s, a) + replies_to(state_after(s, a), b));
    }
}

/// Text without `IAC` passes unchanged and calls for no reply.
pub proof fn law_plain_text_passes(input: Seq<u8>)
    requires
        !input.contains(IAC),
    ensures
        state_after(TelnetState::Data, input) == TelnetState::Data,
        data_in(TelnetState::Data, input) == input,
        replies_to(TelnetState::Data, input) == Seq::<u8>::empty(),
    decreases input.len(),
{
    if input.len() > 0 {
        let front = input.drop_last();
        assert(input[input.len() - 1] != IAC);
        assert forall|i: int| 0 <= i < front.len() implies front[i] != IAC by {
            assert(input[i] != IAC);
        }
        law_plain_text_passes(front);
        assert(data_in(TelnetState::Data, input) =~= input);
    } else {
        assert(data_in(TelnetState::Data, input) =~= input);
    }
}

/// Nothing is ever agreed to: the replies are refusals of three bytes each.
pub proof fn law_every_option_refused(s: TelnetState, input: Seq<u8>, k: int)
    requires
        0 <= k,
        3 * k < replies_to(s, input).len(),
    ensures
        replies_to(s, input).len() % 3 == 0,
        replies_to(s, input)[3 * k] == IAC,
        replies_to(s, input)[3 * k + 1] == WONT || replies_to(s, input)[3 * k + 1] == DONT,
    decreases input.len(),
{
    let front = input.drop_last();
    let before = replies_to(s, front);
    if before.len() > 0 {
        law_every_option_refused(s, front, 0);
    }
    if 3 * k < before.len() {
        law_every_option_refused(s, front, k);
    }
}

/// An option that the server offers is refused with DONT, and one that it asks for with
/// WONT, each by its own number. A doubled mark is one byte of data, and what stands in
/// a subnegotiation is none.
pub proof fn law_commands_taken_out(option: u8, x: Seq<u8>, rest: Seq<u8>)
    requires
        !x.contains(IAC),
    ensures
        replies_to(TelnetState::Data, seq![IAC, WILL, option] + rest) == seq![IAC, DONT, option]
            + replies_to(TelnetState::Data, rest),
        replies_to(TelnetState::Data, seq![IAC, DO, option] + rest) == seq![IAC, WONT, option]
            + replies_to(TelnetState::Data, rest),
        data_in(TelnetState::Data, seq![IAC, WILL, option] + rest) == data_in(
            TelnetState::Data,
            rest,
        ),
        data_in(TelnetState::Data, seq![IAC, DO, option] + rest) == data_in(TelnetState::Data, rest),
        data_in(TelnetState::Data, seq![IAC, IAC] + rest) == seq![IAC] + data_in(
            TelnetState::Data,
            rest,
        ),
        data_in(TelnetState::Data, seq![IAC, SB] + x + seq![IAC, SE] + rest) == data_in(
            TelnetState::Data,
            rest,
        ),
{
    let d = TelnetState::Data;
    let none = Seq::<u8>::empty();
    lemma_three(IAC, WILL, option);
    lemma_three(IAC, DO, option);
    law_processing_in_pieces(d, seq![IAC, WILL, option], rest);
    law_processing_in_pieces(d, seq![IAC, DO, option], rest);
    assert(none + data_in(d, rest) =~= data_in(d, rest));
    lemma_two(d, IAC, IAC);
    law_processing_in_pieces(d, seq![IAC, IAC], rest);
    let open = seq![IAC, SB];
    let close = seq![IAC, SE];
    lemma_two(d, IAC, SB);
    lemma_skipped(x);
    lemma_two(TelnetState::Sub, IAC, SE);
    law_processing_in_pieces(d, open, x);
    law_processing_in_pieces(d, open + x, close);
    law_processing_in_pieces(d, open + x + close, rest);
    assert(data_in(d, open) + data_in(TelnetState::Sub, x) =~= none);
    assert(data_in(d, open + x) + data_in(TelnetState::Sub, close) =~= none);
}

proof fn lemma_one(s: TelnetState, b: u8)
    ensures
        state_after(s, seq![b]) == next_state(s, b),
        data_in(s, seq![b]) == data_of(s, b),
        replies_to(s, seq![b]) == reply_of(s, b),
{
    let none = Seq::<u8>::empty();
    assert(seq![b].drop_last() =~= none);
    assert(state_after(s, none) == s);
    assert(seq![b].last() == b);
    assert(data_in(s, none) =~= none);
    assert(replies_to(s, none) =~= none);
    assert(none + data_of(s, b) =~= data_of(s, b));
    assert(none + reply_of(s, b) =~= reply_of(s, b));
}

proof fn lemma_two(s: TelnetState, a: u8, b: u8)
    ensures
        state_after(s, seq![a, b]) == next_state(next_state(s, a), b),
        data_in(s, seq![a, b]) == data_of(s, a) + data_of(next_state(s, a), b),
        replies_to(s, seq![a, b]) == reply_of(s, a) + reply_of(next_state(s, a), b),
{
    lemma_one(s, a);
    lemma_one(next_state(s, a), b);
    law_processing_in_pieces(s, seq![a], seq![b]);
    assert(seq![a] + seq![b] =~= seq![a, b]);
}

proof fn lemma_three(a: u8, b: u8, c: u8)
    ensures
        ({
            let s = TelnetState::Data;
            let t = next_state(next_state(s, a), b);
            &&& state_after(s, seq![a, b, c]) == next_state(t, c)
            &&& data_in(s, seq![a, b, c]) == data_of(s, a) + data_of(next_state(s, a), b) + data_of(
                t,
                c,
            )
            &&& replies_to(s, seq![a, b, c]) == reply_of(s, a) + reply_of(next_state(s, a), b)
                + reply_of(t, c)
        }),
{
    let s = TelnetState::Data;
    lemma_two(s, a, b);
    lemma_one(next_state(next_state(s, a), b), c);
    law_processing_in_pieces(s, seq![a, b], seq![c]);
    assert(seq![a, b] + seq![c] =~= seq![a, b, c]);
}

proof fn lemma_skipped(x: Seq<u8>)
    requires
        !x.contains(IAC),
    ensures
        state_after(TelnetState::Sub, x) == TelnetState::Sub,
        data_in(TelnetState::Sub, x) == Seq::<u8>::empty(),
    decreases x.len(),
{
    if x.len() > 0 {
        let front = x.drop_last();
        assert(x[x.len() - 1] != IAC) by {
            assert(x.contains(x[x.len() - 1]));
        }
        if front.contains(IAC) {
            let i = front.index_of(IAC);
            assert(x[i] == IAC);
        }
        lemma_skipped(front);
        assert(data_in(TelnetState::Sub, x) =~= Seq::<u8>::empty());
    }
}

} // verus!
