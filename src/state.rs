use vstd::prelude::*;

use crate::identity::Identity;

verus! {

/// Longest span, in seconds, between opening a raffle and its end time.
pub const THIRTY_DAYS_IN_SECS: i64 = 30 * 24 * 60 * 60;

/// Lowest allowed ticket price, in the ledger's smallest currency unit.
pub const MIN_TICKET_PRICE_LAMPORTS: u64 = 100_000;

/// Bytes of storage that do not depend on the capacity: the length prefix,
/// the type tag, the scalar fields and the entrant count.
pub const FIXED_HEADER_SIZE: usize = 116;

/// Bytes that one entrant takes in storage.
pub const ENTRANT_SIZE: usize = 32;

/// The oracle request that a draw waits on: the account the randomness is
/// bound to, and the slot at which it was asked for.
#[derive(Clone, Copy, Debug, PartialEq, Eq)]
pub struct RandomnessHandle {
    pub account: Identity,
    pub slot: u64,
}

/// The persistent record of one raffle.
#[derive(Clone, Debug, PartialEq, Eq)]
pub struct RaffleState {
    /// Creator of the raffle; receives the storage back when it is closed.
    pub raffle_manager: Identity,
    /// Price of one ticket.
    pub ticket_price: u64,
    /// Largest number of tickets that can be sold.
    pub max_tickets: u32,
    /// Seconds since the epoch; from this time on no ticket is sold.
    pub end_time: i64,
    /// Position of the winning ticket in `entrants`, once drawn.
    pub winner_index: Option<u32>,
    /// Set when randomness was first requested; never unset.
    pub draw_winner_started: bool,
    /// Set when the winner has collected the prize.
    pub claimed: bool,
    /// The request in flight, between requesting and settling a draw.
    pub randomness_handle: Option<RandomnessHandle>,
    /// One entry per ticket sold, in order of sale.
    pub entrants: Vec<Identity>,
}

/// The mathematical value of a `RaffleState`.
pub ghost struct RaffleView {
    pub raffle_manager: Identity,
    pub ticket_price: u64,
    pub max_tickets: u32,
    pub end_time: i64,
    pub winner_index: Option<u32>,
    pub draw_winner_started: bool,
    pub claimed: bool,
    pub randomness_handle: Option<RandomnessHandle>,
    pub entrants: Seq<Identity>,
}

impl View for RaffleState {
    type V = RaffleView;

    open spec fn view(&self) -> RaffleView {
        RaffleView {
            raffle_manager: self.raffle_manager,
            ticket_price: self.ticket_price,
            max_tickets: self.max_tickets,
            end_time: self.end_time,
            winner_index: self.winner_index,
            draw_winner_started: self.draw_winner_started,
            claimed: self.claimed,
            randomness_handle: self.randomness_handle,
            entrants: self.entrants@,
        }
    }
}

/// Storage, in bytes, for a record that holds up to `max_tickets` entrants.
pub open spec fn space_for(max_tickets: nat) -> nat {
    FIXED_HEADER_SIZE as nat + ENTRANT_SIZE as nat * max_tickets
}

impl RaffleView {
    /// The invariant of every stored record.
    pub open spec fn wf(self) -> bool {
        &&& self.entrants.len() <= self.max_tickets
        &&& self.ticket_price * self.max_tickets <= u64::MAX
        &&& self.winner_index matches Some(i) ==> i < self.entrants.len()
        &&& self.winner_index is Some ==> self.draw_winner_started
        &&& self.draw_winner_started ==> self.entrants.len() > 0
        &&& self.claimed ==> self.winner_index is Some
        &&& (self.randomness_handle is Some) == (self.draw_winner_started
            && self.winner_index is None)
    }

    /// The raffle is over: sold out, or its end time has come.
    pub open spec fn is_over(self, now: i64) -> bool {
        self.entrants.len() >= self.max_tickets || now >= self.end_time
    }

    /// The same record with a different entrant list.
    pub open spec fn with_entrants(self, entrants: Seq<Identity>) -> RaffleView {
        RaffleView { entrants, ..self }
    }
}

impl RaffleState {
    /// Exact storage size, in bytes, of a record whose capacity is `max_tickets`.
    pub fn account_space(max_tickets: u32) -> (r: usize)
        requires
            space_for(max_tickets as nat) <= usize::MAX,
        ensures
            r == space_for(max_tickets as nat),
    {
        FIXED_HEADER_SIZE + ENTRANT_SIZE * (max_tickets as usize)
    }

    /// Whether the raffle is over at time `now`.
    pub fn is_raffle_over(&self, now: i64) -> (r: bool)
        ensures
            r == self@.is_over(now),
    {
        self.entrants.len() >= self.max_tickets as usize || now >= self.end_time
    }

    /// Whether the record satisfies the invariant of stored records.
    pub fn is_valid(&self) -> (r: bool)
        ensures
            r == self@.wf(),
    {
        let n = self.entrants.len();
        if n > self.max_tickets as usize {
            return false;
        }
        if self.ticket_price.checked_mul(self.max_tickets as u64).is_none() {
            return false;
        }
        match self.winner_index {
            Some(i) => {
                if i as usize >= n || !self.draw_winner_started {
                    return false;
                }
            },
            None => {},
        }
        if self.draw_winner_started && n == 0 {
            return false;
        }
        if self.claimed && self.winner_index.is_none() {
            return false;
        }
        self.randomness_handle.is_some() == (self.draw_winner_started && self.winner_index.is_none())
    }
}

} // verus!
