use vstd::prelude::*;

verus! {

/// Why a raffle operation was rejected. A rejected operation changes nothing.
#[derive(Clone, Copy, Debug, PartialEq, Eq, Structural)]
pub enum RaffleError {
    /// Opening: the end time is not after the current time.
    EndTimeInPast,
    /// Opening: the end time lies beyond the longest allowed raffle span.
    DurationTooLong,
    /// Opening: a raffle must offer at least one ticket.
    ZeroCapacity,
    /// Opening: the ticket price is below the minimum price.
    PriceTooLow,
    /// Opening: the full prize pool `ticket_price * capacity` does not fit in 64 bits.
    CapacityOverflow,
    /// Buying: the total price of the requested tickets does not fit in 64 bits.
    PriceOverflow,
    /// Buying: the raffle is over (sold out or past its end time).
    RaffleEnded,
    /// Drawing: the raffle is still running.
    RaffleNotOver,
    /// Buying: fewer tickets are left than were requested.
    InsufficientCapacity,
    /// Drawing: nobody bought a ticket.
    NoEntrants,
    /// Drawing or settling: a winner has already been selected.
    WinnerAlreadyDrawn,
    /// Settling: no randomness was requested for this raffle.
    DrawNotStarted,
    /// Claiming: no winner has been selected yet.
    WinnerNotYetDrawn,
    /// Claiming: the prize was already paid out.
    PrizeAlreadyClaimed,
    /// Closing: tickets were sold and the prize has not been claimed.
    CannotCloseActive,
    /// Drawing or settling: the caller is not the party allowed to act.
    Unauthorized,
    /// Claiming: the account is not the selected winner.
    NotWinner,
    /// Closing: the caller is neither the manager nor the upgrade authority.
    OnlyManagerOrUpgradeAuthority,
    /// Decoding: the stored bytes are not a valid raffle record.
    RecordInvalid,
    /// Settling: the randomness does not belong to the request on record.
    RandomnessExpired,
}

} // verus!
