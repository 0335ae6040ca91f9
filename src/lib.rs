//! A single-raffle lifecycle: opening a raffle, selling tickets, drawing a
//! winner from oracle randomness, paying the prize and tearing the record down.
//!
//! Each operation is a function from the record and the values it reads from
//! its surroundings to the new record and what the surroundings must do next
//! (move an amount, send a request, publish a notification). The record is
//! stored behind a four-byte length prefix in storage sized for its capacity.

pub mod codec;
pub mod errors;
pub mod identity;
pub mod instructions;
pub mod laws;
pub mod state;
pub mod vrf;

pub use errors::RaffleError;
pub use identity::Identity;
pub use instructions::{
    buy_tickets, claim_prize, close_raffle, create_raffle, draw_winner, draw_winner_callback,
    BuyTickets, ClaimPrize, CloseRaffle, CreateRaffle, DrawWinner, DrawWinnerCallback,
    WinnerDrawnEvent,
};
pub use state::{
    RaffleState, RaffleView, RandomnessHandle, ENTRANT_SIZE, FIXED_HEADER_SIZE,
    MIN_TICKET_PRICE_LAMPORTS, THIRTY_DAYS_IN_SECS,
};
