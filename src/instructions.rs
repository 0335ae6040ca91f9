use vstd::prelude::*;

use crate::errors::RaffleError;
use crate::identity::Identity;
use crate::state::{RaffleState, RaffleView, RandomnessHandle, MIN_TICKET_PRICE_LAMPORTS, THIRTY_DAYS_IN_SECS};
use crate::vrf::{derive_uint, oracle_identity, oracle_identity_key, random_u64};

verus! {

/// What opening a raffle reads from its surroundings.
#[derive(Clone, Copy, Debug)]
pub struct CreateRaffle {
    /// The participant opening the raffle; becomes its manager.
    pub raffle_owner: Identity,
    /// Current time, in seconds since the epoch.
    pub now: i64,
}

/// What buying tickets reads from its surroundings.
#[derive(Clone, Copy, Debug)]
pub struct BuyTickets {
    /// The participant paying for the tickets.
    pub buyer: Identity,
    /// Current time, in seconds since the epoch.
    pub now: i64,
}

/// What requesting a draw reads from its surroundings.
#[derive(Clone, Copy, Debug)]
pub struct DrawWinner {
    /// The participant asking for the draw.
    pub signer: Identity,
    /// The oracle account the randomness request goes to.
    pub oracle_queue: Identity,
    /// Current time, in seconds since the epoch.
    pub now: i64,
    /// Current ledger slot; marks how fresh the request is.
    pub slot: u64,
}

/// What settling a draw reads from its surroundings.
#[derive(Clone, Copy, Debug)]
pub struct DrawWinnerCallback {
    /// The identity that signed the callback.
    pub vrf_program_identity: Identity,
    /// Address of the raffle record, reported in the notification.
    pub raffle_state: Identity,
    /// The request that the delivered randomness answers.
    pub randomness_handle: RandomnessHandle,
}

/// What claiming the prize reads from its surroundings.
#[derive(Clone, Copy, Debug)]
pub struct ClaimPrize {
    /// The account that receives the prize.
    pub winner: Identity,
}

/// What closing a raffle reads from its surroundings.
#[derive(Clone, Copy, Debug)]
pub struct CloseRaffle {
    /// The participant asking to close the raffle.
    pub signer: Identity,
    /// The program's upgrade authority, if it has one.
    pub upgrade_authority: Option<Identity>,
}

/// Notification for off-ledger observers that a winner was selected.
#[derive(Clone, Copy, Debug, PartialEq, Eq)]
pub struct WinnerDrawnEvent {
    /// Address of the raffle record.
    pub raffle_state: Identity,
    /// Position of the winning ticket.
    pub winner_index: u32,
    /// Holder of the winning ticket.
    pub winner: Identity,
}

/// Why opening a raffle with these parameters at time `now` fails, if it does.
pub open spec fn create_error(now: i64, ticket_price: u64, max_tickets: u32, end_time: i64) -> Option<
    RaffleError,
> {
    if end_time <= now {
        Some(RaffleError::EndTimeInPast)
    } else if end_time > now + THIRTY_DAYS_IN_SECS {
        Some(RaffleError::DurationTooLong)
    } else if max_tickets == 0 {
        Some(RaffleError::ZeroCapacity)
    } else if ticket_price < MIN_TICKET_PRICE_LAMPORTS {
        Some(RaffleError::PriceTooLow)
    } else if ticket_price * max_tickets > u64::MAX {
        Some(RaffleError::CapacityOverflow)
    } else {
        None
    }
}

/// A freshly opened raffle: no tickets sold, no draw, nothing claimed.
pub open spec fn opened(manager: Identity, ticket_price: u64, max_tickets: u32, end_time: i64) -> RaffleView {
    RaffleView {
        raffle_manager: manager,
        ticket_price,
        max_tickets,
        end_time,
        winner_index: None,
        draw_winner_started: false,
        claimed: false,
        randomness_handle: None,
        entrants: Seq::empty(),
    }
}

/// Why buying `count` tickets at time `now` fails, if it does.
pub open spec fn buy_error(s: RaffleView, count: u32, now: i64) -> Option<RaffleError> {
    if s.is_over(now) {
        Some(RaffleError::RaffleEnded)
    } else if s.entrants.len() + count > s.max_tickets {
        Some(RaffleError::InsufficientCapacity)
    } else if s.ticket_price * count > u64::MAX {
        Some(RaffleError::PriceOverflow)
    } else {
        None
    }
}

/// The record after `buyer` bought `count` tickets.
pub open spec fn bought(s: RaffleView, buyer: Identity, count: u32) -> RaffleView {
    s.with_entrants(s.entrants + Seq::new(count as nat, |_i: int| buyer))
}

/// Why `signer` cannot request a draw at time `now`, if it cannot.
pub open spec fn draw_error(s: RaffleView, signer: Identity, now: i64) -> Option<RaffleError> {
    if signer != s.raffle_manager {
        Some(RaffleError::Unauthorized)
    } else if !s.is_over(now) {
        Some(RaffleError::RaffleNotOver)
    } else if s.entrants.len() == 0 {
        Some(RaffleError::NoEntrants)
    } else if s.winner_index is Some {
        Some(RaffleError::WinnerAlreadyDrawn)
    } else {
        None
    }
}

/// The record once a draw was requested under `handle`.
pub open spec fn draw_requested(s: RaffleView, handle: RandomnessHandle) -> RaffleView {
    RaffleView { draw_winner_started: true, randomness_handle: Some(handle), ..s }
}

/// Why randomness delivered by `caller` for `presented` cannot settle the draw, if it cannot.
pub open spec fn settle_error(s: RaffleView, caller: Identity, presented: RandomnessHandle) -> Option<
    RaffleError,
> {
    if caller.key() != oracle_identity_key() {
        Some(RaffleError::Unauthorized)
    } else if !s.draw_winner_started {
        Some(RaffleError::DrawNotStarted)
    } else if s.winner_index is Some {
        Some(RaffleError::WinnerAlreadyDrawn)
    } else if s.randomness_handle != Some(presented) {
        Some(RaffleError::RandomnessExpired)
    } else {
        None
    }
}

/// The winning position that `randomness` selects among the entrants.
pub open spec fn drawn_index(s: RaffleView, randomness: Seq<u8>) -> u32 {
    (derive_uint(randomness) as int % s.entrants.len() as int) as u32
}

/// The record once the ticket at `index` has won.
pub open spec fn settled(s: RaffleView, index: u32) -> RaffleView {
    RaffleView { winner_index: Some(index), randomness_handle: None, ..s }
}

/// Why `winner` cannot collect the prize, if it cannot.
pub open spec fn claim_error(s: RaffleView, winner: Identity) -> Option<RaffleError> {
    match s.winner_index {
        None => Some(RaffleError::WinnerNotYetDrawn),
        Some(i) => if s.entrants[i as int] != winner {
            Some(RaffleError::NotWinner)
        } else if s.claimed {
            Some(RaffleError::PrizeAlreadyClaimed)
        } else {
            None
        },
    }
}

/// The prize: every ticket's price.
pub open spec fn prize(s: RaffleView) -> int {
    s.ticket_price * s.entrants.len()
}

/// Why `signer` cannot close the raffle, if it cannot.
pub open spec fn close_error(s: RaffleView, signer: Identity, upgrade_authority: Option<Identity>) -> Option<
    RaffleError,
> {
    if signer != s.raffle_manager && upgrade_authority != Some(signer) {
        Some(RaffleError::OnlyManagerOrUpgradeAuthority)
    } else if !s.claimed && s.entrants.len() > 0 {
        Some(RaffleError::CannotCloseActive)
    } else {
        None
    }
}

/// Requests the randomness that will pick the winner. On success the draw is
/// marked as started and bound to a request on `ctx.oracle_queue` at
/// `ctx.slot`; the caller then sends that request to the oracle.
pub fn draw_winner(ctx: &DrawWinner, raffle_state: &mut RaffleState) -> (r: Result<(), RaffleError>)
    requires
        old(raffle_state)@.wf(),
    ensures
        final(raffle_state)@.wf(),
        match r {
            Ok(()) => {
                &&& draw_error(old(raffle_state)@, ctx.signer, ctx.now) is None
                &&& final(raffle_state)@ == draw_requested(
                    old(raffle_state)@,
                    RandomnessHandle { account: ctx.oracle_queue, slot: ctx.slot },
                )
            },
            Err(e) => {
                &&& draw_error(old(raffle_state)@, ctx.signer, ctx.now) == Some(e)
                &&& final(raffle_state)@ == old(raffle_state)@
            },
        },
{
    if !ctx.signer.same(&raffle_state.raffle_manager) {
        return Err(RaffleError::Unauthorized);
    }
    if !raffle_state.is_raffle_over(ctx.now) {
        return Err(RaffleError::RaffleNotOver);
    }
    if raffle_state.entrants.len() == 0 {
        return Err(RaffleError::NoEntrants);
    }
    if raffle_state.winner_index.is_some() {
        return Err(RaffleError::WinnerAlreadyDrawn);
    }
    raffle_state.draw_winner_started = true;
    raffle_state.randomness_handle = Some(RandomnessHandle { account: ctx.oracle_queue, slot: ctx.slot });
    Ok(())
}

/// Settles the draw with the randomness the oracle delivered: the winner is
/// the entrant at `derive_uint(randomness) % entrants.len()`.
pub fn draw_winner_callback(
    ctx: &DrawWinnerCallback,
    raffle_state: &mut RaffleState,
    randomness: &[u8; 32],
) -> (r: Result<WinnerDrawnEvent, RaffleError>)
    requires
        old(raffle_state)@.wf(),
    ensures
        final(raffle_state)@.wf(),
        match r {
            Ok(event) => {
                let s = old(raffle_state)@;
                let index = drawn_index(s, randomness@);
                &&& settle_error(s, ctx.vrf_program_identity, ctx.randomness_handle) is None
                &&& final(raffle_state)@ == settled(s, index)
                &&& event == (WinnerDrawnEvent {
                    raffle_state: ctx.raffle_state,
                    winner_index: index,
                    winner: s.entrants[index as int],
                })
            },
            Err(e) => {
                &&& settle_error(old(raffle_state)@, ctx.vrf_program_identity, ctx.randomness_handle)
                    == Some(e)
                &&& final(raffle_state)@ == old(raffle_state)@
            },
        },
{
    let oracle = oracle_identity();
    if !ctx.vrf_program_identity.same(&oracle) {
        proof {
            Identity::lemma_key_injective(ctx.vrf_program_identity, oracle);
        }
        return Err(RaffleError::Unauthorized);
    }
    proof {
        Identity::lemma_key_injective(ctx.vrf_program_identity, oracle);
    }
    if !raffle_state.draw_winner_started {
        return Err(RaffleError::DrawNotStarted);
    }
    if raffle_state.winner_index.is_some() {
        return Err(RaffleError::WinnerAlreadyDrawn);
    }
    let presented = ctx.randomness_handle;
    let matches_request = match raffle_state.randomness_handle {
        Some(h) => h.account.same(&presented.account) && h.slot == presented.slot,
        None => false,
    };
    if !matches_request {
        return Err(RaffleError::RandomnessExpired);
    }
    let value = random_u64(randomness);
    let count = raffle_state.entrants.len();
    let index = (value % (count as u64)) as u32;
    raffle_state.winner_index = Some(index);
    raffle_state.randomness_handle = None;
    let winner = raffle_state.entrants[index as usize];
    Ok(WinnerDrawnEvent { raffle_state: ctx.raffle_state, winner_index: index, winner })
}

/// Opens a raffle managed by `ctx.raffle_owner`, with tickets at
/// `ticket_price`, at most `max_tickets` of them, sold until `end_time`.
pub fn create_raffle(ctx: &CreateRaffle, ticket_price: u64, max_tickets: u32, end_time: i64) -> (r:
    Result<RaffleState, RaffleError>)
    ensures
        match r {
            Ok(state) => {
                &&& create_error(ctx.now, ticket_price, max_tickets, end_time) is None
                &&& state@ == opened(ctx.raffle_owner, ticket_price, max_tickets, end_time)
                &&& state@.wf()
            },
            Err(e) => create_error(ctx.now, ticket_price, max_tickets, end_time) == Some(e),
        },
{
    if end_time <= ctx.now {
        return Err(RaffleError::EndTimeInPast);
    }
    if (end_time as i128) > (ctx.now as i128) + (THIRTY_DAYS_IN_SECS as i128) {
        return Err(RaffleError::DurationTooLong);
    }
    if max_tickets == 0 {
        return Err(RaffleError::ZeroCapacity);
    }
    if ticket_price < MIN_TICKET_PRICE_LAMPORTS {
        return Err(RaffleError::PriceTooLow);
    }
    if ticket_price.checked_mul(max_tickets as u64).is_none() {
        return Err(RaffleError::CapacityOverflow);
    }
    let state = RaffleState {
        raffle_manager: ctx.raffle_owner,
        ticket_price,
        max_tickets,
        end_time,
        winner_index: None,
        draw_winner_started: false,
        claimed: false,
        randomness_handle: None,
        entrants: Vec::new(),
    };
    assert(state@.entrants =~= Seq::<Identity>::empty());
    Ok(state)
}

/// Sells `number_of_tickets` tickets to `ctx.buyer` and returns the amount
/// that the buyer owes the raffle. The caller moves that amount; the checks
/// all come before, so nothing is owed when the purchase is refused.
pub fn buy_tickets(ctx: &BuyTickets, raffle_state: &mut RaffleState, number_of_tickets: u32) -> (r:
    Result<u64, RaffleError>)
    requires
        old(raffle_state)@.wf(),
    ensures
        final(raffle_state)@.wf(),
        match r {
            Ok(total) => {
                &&& buy_error(old(raffle_state)@, number_of_tickets, ctx.now) is None
                &&& total == old(raffle_state).ticket_price * number_of_tickets
                &&& final(raffle_state)@ == bought(old(raffle_state)@, ctx.buyer, number_of_tickets)
            },
            Err(e) => {
                &&& buy_error(old(raffle_state)@, number_of_tickets, ctx.now) == Some(e)
                &&& final(raffle_state)@ == old(raffle_state)@
            },
        },
{
    if raffle_state.is_raffle_over(ctx.now) {
        return Err(RaffleError::RaffleEnded);
    }
    let sold = raffle_state.entrants.len() as u64;
    match sold.checked_add(number_of_tickets as u64) {
        Some(after) => {
            if after > raffle_state.max_tickets as u64 {
                return Err(RaffleError::InsufficientCapacity);
            }
        },
        None => {
            return Err(RaffleError::InsufficientCapacity);
        },
    }
    let total = match raffle_state.ticket_price.checked_mul(number_of_tickets as u64) {
        Some(t) => t,
        None => {
            return Err(RaffleError::PriceOverflow);
        },
    };
    let ghost before = raffle_state.entrants@;
    let buyer = ctx.buyer;
    let mut k: u32 = 0;
    while k < number_of_tickets
        invariant
            k <= number_of_tickets,
            raffle_state.entrants@ == before + Seq::new(k as nat, |_i: int| buyer),
            before.len() + number_of_tickets <= raffle_state.max_tickets,
            raffle_state@ == old(raffle_state)@.with_entrants(raffle_state.entrants@),
        decreases number_of_tickets - k,
    {
        raffle_state.entrants.push(buyer);
        k = k + 1;
        assert(raffle_state.entrants@ =~= before + Seq::new(k as nat, |_i: int| buyer));
    }
    Ok(total)
}

/// Pays the prize to `ctx.winner`, who must hold the winning ticket, and
/// returns its amount: the price of every ticket sold. The caller moves that
/// amount from the raffle to the winner.
pub fn claim_prize(ctx: &ClaimPrize, raffle_state: &mut RaffleState) -> (r: Result<u64, RaffleError>)
    requires
        old(raffle_state)@.wf(),
    ensures
        final(raffle_state)@.wf(),
        match r {
            Ok(amount) => {
                &&& claim_error(old(raffle_state)@, ctx.winner) is None
                &&& amount == prize(old(raffle_state)@)
                &&& final(raffle_state)@ == (RaffleView { claimed: true, ..old(raffle_state)@ })
            },
            Err(e) => {
                &&& claim_error(old(raffle_state)@, ctx.winner) == Some(e)
                &&& final(raffle_state)@ == old(raffle_state)@
            },
        },
{
    let index = match raffle_state.winner_index {
        Some(i) => i,
        None => {
            return Err(RaffleError::WinnerNotYetDrawn);
        },
    };
    if !raffle_state.entrants[index as usize].same(&ctx.winner) {
        return Err(RaffleError::NotWinner);
    }
    if raffle_state.claimed {
        return Err(RaffleError::PrizeAlreadyClaimed);
    }
    let sold = raffle_state.entrants.len() as u64;
    proof {
        let s = raffle_state@;
        assert(s.ticket_price * s.entrants.len() <= s.ticket_price * s.max_tickets) by (nonlinear_arith)
            requires
                s.entrants.len() <= s.max_tickets,
        ;
    }
    let amount = raffle_state.ticket_price * sold;
    raffle_state.claimed = true;
    Ok(amount)
}

/// Checks that `ctx.signer` may tear the raffle down now, and returns the
/// account that receives the record's storage: the manager.
pub fn close_raffle(ctx: &CloseRaffle, raffle_state: &RaffleState) -> (r: Result<Identity, RaffleError>)
    ensures
        match r {
            Ok(recipient) => {
                &&& close_error(raffle_state@, ctx.signer, ctx.upgrade_authority) is None
                &&& recipient == raffle_state.raffle_manager
            },
            Err(e) => close_error(raffle_state@, ctx.signer, ctx.upgrade_authority) == Some(e),
        },
{
    let is_manager = ctx.signer.same(&raffle_state.raffle_manager);
    let is_authority = match ctx.upgrade_authority {
        Some(a) => a.same(&ctx.signer),
        None => false,
    };
    if !is_manager && !is_authority {
        return Err(RaffleError::OnlyManagerOrUpgradeAuthority);
    }
    if !raffle_state.claimed && raffle_state.entrants.len() > 0 {
        return Err(RaffleError::CannotCloseActive);
    }
    Ok(raffle_state.raffle_manager)
}

} // verus!
