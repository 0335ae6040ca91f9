use vstd::prelude::*;

use crate::codec::{encodable, encodes, encoding, lemma_round_trip_parts};
use crate::errors::RaffleError;
use crate::identity::Identity;
use crate::instructions::{
    bought, buy_error, claim_error, drawn_index, prize, settle_error, settled,
};
use crate::state::{space_for, RaffleView, RandomnessHandle};
use crate::vrf::oracle_identity_key;

verus! {

/// One purchase attempt: who buys, how many tickets, and when.
pub type BuyCall = (Identity, u32, i64);

/// The record after one purchase attempt: bought if it succeeds, unchanged if refused.
pub open spec fn after_buy(s: RaffleView, call: BuyCall) -> RaffleView {
    if buy_error(s, call.1, call.2) is None {
        bought(s, call.0, call.1)
    } else {
        s
    }
}

/// The record after a sequence of purchase attempts.
pub open spec fn after_buys(s: RaffleView, calls: Seq<BuyCall>) -> RaffleView
    decreases calls.len(),
{
    if calls.len() == 0 {
        s
    } else {
        after_buy(after_buys(s, calls.drop_last()), calls.last())
    }
}

/// Tickets sold by the successful attempts of a sequence.
pub open spec fn tickets_sold(s: RaffleView, calls: Seq<BuyCall>) -> int
    decreases calls.len(),
{
    if calls.len() == 0 {
        0
    } else {
        let before = after_buys(s, calls.drop_last());
        let c = calls.last();
        tickets_sold(s, calls.drop_last()) + if buy_error(before, c.1, c.2) is None {
            c.1 as int
        } else {
            0
        }
    }
}

/// Amount credited to the raffle by a sequence: what each successful
/// purchase returned as owed, `ticket_price * count`.
pub open spec fn credited(s: RaffleView, calls: Seq<BuyCall>) -> int
    decreases calls.len(),
{
    if calls.len() == 0 {
        0
    } else {
        let before = after_buys(s, calls.drop_last());
        let c = calls.last();
        credited(s, calls.drop_last()) + if buy_error(before, c.1, c.2) is None {
            before.ticket_price * c.1
        } else {
            0
        }
    }
}

/// A valid record stays valid through any purchase attempt, and its price and
/// capacity never change.
pub proof fn lemma_buy_keeps_wf(s: RaffleView, call: BuyCall)
    requires
        s.wf(),
    ensures
        after_buy(s, call).wf(),
        after_buy(s, call).ticket_price == s.ticket_price,
        after_buy(s, call).max_tickets == s.max_tickets,
{
}

/// Whatever purchases are attempted, the entrants never outnumber the
/// capacity; every ticket sold adds one entrant; and the amount credited is
/// the ticket price times the number of tickets sold. On a raffle that had
/// sold nothing, the prize is exactly what the purchases credited.
pub proof fn lemma_buys_respect_capacity(s: RaffleView, calls: Seq<BuyCall>)
    requires
        s.wf(),
    ensures
        after_buys(s, calls).wf(),
        after_buys(s, calls).ticket_price == s.ticket_price,
        after_buys(s, calls).max_tickets == s.max_tickets,
        after_buys(s, calls).entrants.len() <= s.max_tickets,
        after_buys(s, calls).entrants.len() == s.entrants.len() + tickets_sold(s, calls),
        credited(s, calls) == s.ticket_price * tickets_sold(s, calls),
        s.entrants.len() == 0 ==> prize(after_buys(s, calls)) == credited(s, calls),
    decreases calls.len(),
{
    if calls.len() > 0 {
        let p = calls.drop_last();
        lemma_buys_respect_capacity(s, p);
        let before = after_buys(s, p);
        lemma_buy_keeps_wf(before, calls.last());
        let k = tickets_sold(s, p);
        let c = calls.last().1 as int;
        assert(s.ticket_price * (k + c) == s.ticket_price * k + s.ticket_price * c)
            by (nonlinear_arith);
    }
}

/// Once a draw has settled, no later settlement succeeds: the oracle's
/// further deliveries are refused with `WinnerAlreadyDrawn`, anyone else's
/// with `Unauthorized`, and the winner stays where it was drawn.
pub proof fn lemma_settle_once(
    s: RaffleView,
    caller: Identity,
    presented: RandomnessHandle,
    randomness: Seq<u8>,
    later_caller: Identity,
    later_presented: RandomnessHandle,
)
    requires
        s.wf(),
        settle_error(s, caller, presented) is None,
    ensures
        settled(s, drawn_index(s, randomness)).wf(),
        drawn_index(s, randomness) < s.entrants.len(),
        settle_error(settled(s, drawn_index(s, randomness)), later_caller, later_presented) is Some,
        later_caller.key() == oracle_identity_key() ==> settle_error(
            settled(s, drawn_index(s, randomness)),
            later_caller,
            later_presented,
        ) == Some(RaffleError::WinnerAlreadyDrawn),
{
}

/// The prize is paid once: a successful claim pays `ticket_price` times the
/// number of tickets sold, which fits in 64 bits, and every later claim is
/// refused, the winner's own with `PrizeAlreadyClaimed`.
pub proof fn lemma_claim_once(s: RaffleView, winner: Identity, later: Identity)
    requires
        s.wf(),
        claim_error(s, winner) is None,
    ensures
        (RaffleView { claimed: true, ..s }).wf(),
        prize(s) == s.ticket_price * s.entrants.len(),
        0 <= prize(s) <= u64::MAX,
        claim_error(RaffleView { claimed: true, ..s }, later) is Some,
        claim_error(RaffleView { claimed: true, ..s }, winner) == Some(
            RaffleError::PrizeAlreadyClaimed,
        ),
{
    assert(s.ticket_price * s.entrants.len() <= s.ticket_price * s.max_tickets) by (nonlinear_arith)
        requires
            s.entrants.len() <= s.max_tickets,
    ;
}

/// A valid record fits the storage sized for its capacity, and storing it then
/// reading it back gives the same record: its stored form, followed by any
/// padding, holds that record and no other valid one.
pub proof fn lemma_round_trip(s: RaffleView, padding: Seq<u8>)
    requires
        s.wf(),
        encodable(s),
    ensures
        encoding(s).len() <= space_for(s.max_tickets as nat),
        encodes(encoding(s) + padding, s),
        forall|t: RaffleView| t.wf() && encodes(encoding(s) + padding, t) ==> t == s,
{
    lemma_round_trip_parts(s, padding);
}

} // verus!
