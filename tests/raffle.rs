use raffle::codec::RECORD_HEADER_SIZE;
use raffle::{
    buy_tickets, claim_prize, close_raffle, create_raffle, draw_winner, draw_winner_callback,
    BuyTickets, ClaimPrize, CloseRaffle, CreateRaffle, DrawWinner, DrawWinnerCallback, Identity,
    RaffleError, RaffleState, RandomnessHandle, FIXED_HEADER_SIZE, MIN_TICKET_PRICE_LAMPORTS,
    THIRTY_DAYS_IN_SECS,
};

const NOW: i64 = 1_700_000_000;

const ORACLE_BYTES: [u8; 32] = [
    129, 149, 237, 71, 27, 236, 243, 116, 219, 84, 34, 221, 119, 231, 249, 254, 170, 194, 114,
    165, 249, 93, 38, 97, 146, 155, 47, 105, 113, 22, 94, 252,
];

fn id(n: u8) -> Identity {
    Identity::new([n; 32])
}

fn oracle() -> Identity {
    Identity::new(ephemeral_vrf_sdk::consts::VRF_PROGRAM_IDENTITY.to_bytes())
}

fn manager() -> Identity {
    id(200)
}

fn queue() -> Identity {
    id(201)
}

fn raffle_key() -> Identity {
    id(202)
}

fn open(price: u64, capacity: u32) -> RaffleState {
    let ctx = CreateRaffle { raffle_owner: manager(), now: NOW };
    create_raffle(&ctx, price, capacity, NOW + 3600).unwrap()
}

fn buy(state: &mut RaffleState, buyer: Identity, count: u32, now: i64) -> Result<u64, RaffleError> {
    buy_tickets(&BuyTickets { buyer, now }, state, count)
}

fn request(state: &mut RaffleState, now: i64, slot: u64) -> Result<(), RaffleError> {
    let ctx = DrawWinner { signer: manager(), oracle_queue: queue(), now, slot };
    draw_winner(&ctx, state)
}

fn settle_ctx(caller: Identity, slot: u64) -> DrawWinnerCallback {
    DrawWinnerCallback {
        vrf_program_identity: caller,
        raffle_state: raffle_key(),
        randomness_handle: RandomnessHandle { account: queue(), slot },
    }
}

fn randomness_for(value: u64) -> [u8; 32] {
    let mut r = [0u8; 32];
    for (k, b) in value.to_le_bytes().iter().enumerate() {
        r[4 * k] = *b;
    }
    r
}

/// A raffle sold out to ten distinct buyers, with a draw requested at slot 77.
fn sold_out_and_requested() -> RaffleState {
    let mut state = open(100_000, 10);
    for k in 0..10u8 {
        assert_eq!(buy(&mut state, id(k), 1, NOW + 1), Ok(100_000));
    }
    request(&mut state, NOW + 2, 77).unwrap();
    state
}

#[test]
fn test_raffle_state_account_space() {
    const MAX_TICKETS: usize = 10;
    let state = RaffleState {
        raffle_manager: id(1),
        ticket_price: 1,
        end_time: 1,
        winner_index: Some(1),
        max_tickets: MAX_TICKETS as u32,
        claimed: false,
        draw_winner_started: false,
        randomness_handle: None,
        entrants: vec![id(2); MAX_TICKETS],
    };

    let serialized_data = state.encode();
    let expected_size = RaffleState::account_space(MAX_TICKETS as u32);
    assert_eq!(serialized_data.len(), expected_size);
}

#[test]
fn account_space_is_header_plus_entrants() {
    assert_eq!(FIXED_HEADER_SIZE, 116);
    assert_eq!(RaffleState::account_space(0), 116);
    assert_eq!(RaffleState::account_space(1), 148);
    assert_eq!(RaffleState::account_space(10), 116 + 320);
    assert_eq!(RaffleState::account_space(u32::MAX), 116 + 32 * (u32::MAX as usize));
}

#[test]
fn full_lifecycle() {
    let mut state = open(100_000, 10);
    assert_eq!(state.entrants.len(), 0);
    let mut balance: u64 = 0;
    for k in 0..10u8 {
        balance += buy(&mut state, id(k), 1, NOW + 1).unwrap();
    }
    assert_eq!(state.entrants.len(), 10);
    assert_eq!(balance, 1_000_000);
    assert!(state.is_raffle_over(NOW + 1));

    request(&mut state, NOW + 2, 77).unwrap();
    assert!(state.draw_winner_started);
    assert_eq!(state.randomness_handle, Some(RandomnessHandle { account: queue(), slot: 77 }));

    let randomness = randomness_for(14);
    let event = draw_winner_callback(&settle_ctx(oracle(), 77), &mut state, &randomness).unwrap();
    assert_eq!(state.winner_index, Some(4));
    assert_eq!(state.randomness_handle, None);
    assert_eq!(event.raffle_state, raffle_key());
    assert_eq!(event.winner_index, 4);
    assert_eq!(event.winner, id(4));

    let prize = claim_prize(&ClaimPrize { winner: state.entrants[4] }, &mut state).unwrap();
    assert_eq!(prize, 1_000_000);
    assert!(state.claimed);

    let ctx = CloseRaffle { signer: manager(), upgrade_authority: None };
    assert_eq!(close_raffle(&ctx, &state), Ok(manager()));
}

#[test]
fn buying_more_than_capacity_is_refused() {
    let mut state = RaffleState {
        raffle_manager: manager(),
        ticket_price: 50,
        max_tickets: 5,
        end_time: NOW + 3600,
        winner_index: None,
        draw_winner_started: false,
        claimed: false,
        randomness_handle: None,
        entrants: Vec::new(),
    };
    assert_eq!(buy(&mut state, id(1), 6, NOW), Err(RaffleError::InsufficientCapacity));
    assert_eq!(state.entrants.len(), 0);
    assert_eq!(buy(&mut state, id(1), 5, NOW), Ok(250));
    assert_eq!(state.entrants, vec![id(1); 5]);
}

#[test]
fn creation_refuses_overflowing_pool() {
    let ctx = CreateRaffle { raffle_owner: manager(), now: NOW };
    assert_eq!(
        create_raffle(&ctx, u64::MAX, 2, NOW + 3600),
        Err(RaffleError::CapacityOverflow)
    );
    assert_eq!(create_raffle(&ctx, u64::MAX, 1, NOW + 3600).map(|s| s.max_tickets), Ok(1));
}

#[test]
fn closing_an_active_raffle_is_refused() {
    let mut state = open(100_000, 10);
    buy(&mut state, id(1), 3, NOW).unwrap();
    let ctx = CloseRaffle { signer: manager(), upgrade_authority: None };
    assert_eq!(close_raffle(&ctx, &state), Err(RaffleError::CannotCloseActive));
}

#[test]
fn creation_checks_in_order() {
    let ctx = CreateRaffle { raffle_owner: manager(), now: NOW };
    assert_eq!(create_raffle(&ctx, 100_000, 10, NOW), Err(RaffleError::EndTimeInPast));
    assert_eq!(create_raffle(&ctx, 100_000, 10, NOW - 5), Err(RaffleError::EndTimeInPast));
    assert_eq!(
        create_raffle(&ctx, 100_000, 10, NOW + THIRTY_DAYS_IN_SECS + 1),
        Err(RaffleError::DurationTooLong)
    );
    assert!(create_raffle(&ctx, 100_000, 10, NOW + THIRTY_DAYS_IN_SECS).is_ok());
    assert_eq!(create_raffle(&ctx, 100_000, 0, NOW + 10), Err(RaffleError::ZeroCapacity));
    assert_eq!(
        create_raffle(&ctx, MIN_TICKET_PRICE_LAMPORTS - 1, 10, NOW + 10),
        Err(RaffleError::PriceTooLow)
    );
    let late = CreateRaffle { raffle_owner: manager(), now: i64::MAX - 10 };
    assert_eq!(create_raffle(&late, 100_000, 10, i64::MAX), Ok(RaffleState {
        raffle_manager: manager(),
        ticket_price: 100_000,
        max_tickets: 10,
        end_time: i64::MAX,
        winner_index: None,
        draw_winner_started: false,
        claimed: false,
        randomness_handle: None,
        entrants: Vec::new(),
    }));
}

#[test]
fn buying_after_the_end_is_refused() {
    let mut state = open(100_000, 3);
    assert_eq!(buy(&mut state, id(1), 1, NOW + 3600), Err(RaffleError::RaffleEnded));
    assert_eq!(buy(&mut state, id(1), 3, NOW), Ok(300_000));
    assert_eq!(buy(&mut state, id(2), 1, NOW), Err(RaffleError::RaffleEnded));
    assert_eq!(buy(&mut state, id(2), u32::MAX, NOW), Err(RaffleError::RaffleEnded));
}

#[test]
fn buying_zero_or_huge_counts() {
    let mut state = open(100_000, 3);
    assert_eq!(buy(&mut state, id(1), 0, NOW), Ok(0));
    assert_eq!(state.entrants.len(), 0);
    assert_eq!(buy(&mut state, id(1), u32::MAX, NOW), Err(RaffleError::InsufficientCapacity));
    assert_eq!(state.entrants.len(), 0);
}

#[test]
fn credited_amount_matches_tickets_sold() {
    let mut state = open(123_457, 20);
    let calls: [(u8, u32); 6] = [(1, 3), (2, 30), (3, 0), (1, 7), (4, 11), (5, 10)];
    let mut credited: u64 = 0;
    let mut sold: u64 = 0;
    for (buyer, count) in calls {
        if let Ok(total) = buy(&mut state, id(buyer), count, NOW) {
            credited += total;
            sold += count as u64;
        }
        assert!(state.entrants.len() <= 20);
    }
    assert_eq!(sold, 20);
    assert_eq!(state.entrants.len(), 20);
    assert_eq!(credited, 123_457 * 20);
    assert_eq!(state.entrants[0..3], vec![id(1); 3][..]);
    assert_eq!(state.entrants[3..10], vec![id(1); 7][..]);
    assert_eq!(state.entrants[10..20], vec![id(5); 10][..]);
}

#[test]
fn draw_request_checks() {
    let mut state = open(100_000, 3);
    let stranger = DrawWinner { signer: id(9), oracle_queue: queue(), now: NOW + 4000, slot: 1 };
    assert_eq!(draw_winner(&stranger, &mut state), Err(RaffleError::Unauthorized));
    assert_eq!(request(&mut state, NOW + 10, 1), Err(RaffleError::RaffleNotOver));
    assert_eq!(request(&mut state, NOW + 4000, 1), Err(RaffleError::NoEntrants));
    buy(&mut state, id(1), 1, NOW).unwrap();
    assert_eq!(request(&mut state, NOW + 10, 1), Err(RaffleError::RaffleNotOver));
    assert!(!state.draw_winner_started);
    assert_eq!(request(&mut state, NOW + 3600, 5), Ok(()));
    assert_eq!(state.randomness_handle, Some(RandomnessHandle { account: queue(), slot: 5 }));
}

#[test]
fn settle_checks() {
    let mut state = open(100_000, 2);
    buy(&mut state, id(1), 2, NOW).unwrap();
    let r = randomness_for(1);
    assert_eq!(
        draw_winner_callback(&settle_ctx(oracle(), 0), &mut state, &r),
        Err(RaffleError::DrawNotStarted)
    );
    request(&mut state, NOW, 9).unwrap();
    assert_eq!(
        draw_winner_callback(&settle_ctx(id(9), 9), &mut state, &r),
        Err(RaffleError::Unauthorized)
    );
    assert_eq!(
        draw_winner_callback(&settle_ctx(oracle(), 8), &mut state, &r),
        Err(RaffleError::RandomnessExpired)
    );
    assert_eq!(state.winner_index, None);
    assert!(draw_winner_callback(&settle_ctx(oracle(), 9), &mut state, &r).is_ok());
    assert_eq!(state.winner_index, Some(1));
}

#[test]
fn settle_succeeds_once() {
    let mut state = sold_out_and_requested();
    let r = randomness_for(3);
    assert!(draw_winner_callback(&settle_ctx(oracle(), 77), &mut state, &r).is_ok());
    assert_eq!(state.winner_index, Some(3));
    let again = randomness_for(5);
    assert_eq!(
        draw_winner_callback(&settle_ctx(oracle(), 77), &mut state, &again),
        Err(RaffleError::WinnerAlreadyDrawn)
    );
    assert_eq!(
        draw_winner_callback(&settle_ctx(id(9), 77), &mut state, &again),
        Err(RaffleError::Unauthorized)
    );
    assert_eq!(request(&mut state, NOW + 5, 90), Err(RaffleError::WinnerAlreadyDrawn));
    assert_eq!(state.winner_index, Some(3));
}

#[test]
fn rerequest_makes_old_randomness_stale() {
    let mut state = sold_out_and_requested();
    request(&mut state, NOW + 5, 90).unwrap();
    let r = randomness_for(2);
    assert_eq!(
        draw_winner_callback(&settle_ctx(oracle(), 77), &mut state, &r),
        Err(RaffleError::RandomnessExpired)
    );
    assert!(draw_winner_callback(&settle_ctx(oracle(), 90), &mut state, &r).is_ok());
    assert_eq!(state.winner_index, Some(2));
}

#[test]
fn winner_uses_every_fourth_byte() {
    let mut state = sold_out_and_requested();
    let mut r = [0u8; 32];
    r[4] = 1;
    r[1] = 0xff;
    r[31] = 0xff;
    draw_winner_callback(&settle_ctx(oracle(), 77), &mut state, &r).unwrap();
    assert_eq!(state.winner_index, Some(6));

    let mut state = sold_out_and_requested();
    let r = [0xffu8; 32];
    draw_winner_callback(&settle_ctx(oracle(), 77), &mut state, &r).unwrap();
    assert_eq!(state.winner_index, Some((u64::MAX % 10) as u32));
}

#[test]
fn oracle_identity_is_the_sdk_constant() {
    assert_eq!(oracle(), Identity::new(ORACLE_BYTES));
    let mut state = sold_out_and_requested();
    let r = randomness_for(0);
    let ctx = settle_ctx(Identity::new(ORACLE_BYTES), 77);
    assert!(draw_winner_callback(&ctx, &mut state, &r).is_ok());
}

#[test]
fn claim_checks_and_pays_once() {
    let mut state = sold_out_and_requested();
    assert_eq!(
        claim_prize(&ClaimPrize { winner: id(4) }, &mut state),
        Err(RaffleError::WinnerNotYetDrawn)
    );
    draw_winner_callback(&settle_ctx(oracle(), 77), &mut state, &randomness_for(24)).unwrap();
    assert_eq!(state.winner_index, Some(4));
    assert_eq!(claim_prize(&ClaimPrize { winner: id(5) }, &mut state), Err(RaffleError::NotWinner));
    assert!(!state.claimed);
    assert_eq!(claim_prize(&ClaimPrize { winner: id(4) }, &mut state), Ok(1_000_000));
    assert_eq!(
        claim_prize(&ClaimPrize { winner: id(4) }, &mut state),
        Err(RaffleError::PrizeAlreadyClaimed)
    );
    assert_eq!(claim_prize(&ClaimPrize { winner: id(5) }, &mut state), Err(RaffleError::NotWinner));
}

#[test]
fn close_authorization() {
    let state = open(100_000, 10);
    let stranger = CloseRaffle { signer: id(9), upgrade_authority: Some(id(8)) };
    assert_eq!(close_raffle(&stranger, &state), Err(RaffleError::OnlyManagerOrUpgradeAuthority));
    let no_authority = CloseRaffle { signer: id(9), upgrade_authority: None };
    assert_eq!(
        close_raffle(&no_authority, &state),
        Err(RaffleError::OnlyManagerOrUpgradeAuthority)
    );
    let authority = CloseRaffle { signer: id(8), upgrade_authority: Some(id(8)) };
    assert_eq!(close_raffle(&authority, &state), Ok(manager()));
    let mut sold = state.clone();
    buy(&mut sold, id(1), 1, NOW).unwrap();
    assert_eq!(close_raffle(&authority, &sold), Err(RaffleError::CannotCloseActive));
    assert_eq!(close_raffle(&stranger, &sold), Err(RaffleError::OnlyManagerOrUpgradeAuthority));
}

#[test]
fn raffle_is_over_when_sold_out_or_expired() {
    let mut state = open(100_000, 2);
    assert!(!state.is_raffle_over(NOW));
    assert!(state.is_raffle_over(NOW + 3600));
    buy(&mut state, id(1), 2, NOW).unwrap();
    assert!(state.is_raffle_over(NOW));
}

#[test]
fn encode_layout() {
    let mut state = sold_out_and_requested();
    draw_winner_callback(&settle_ctx(oracle(), 77), &mut state, &randomness_for(7)).unwrap();
    let bytes = state.encode();
    assert_eq!(bytes.len(), RaffleState::account_space(10));
    assert_eq!(bytes[0..4], (RECORD_HEADER_SIZE + 320).to_le_bytes());
    assert_eq!(&bytes[4..12], b"RAFFLEv1");
    assert_eq!(bytes[12..44], [200u8; 32]);
    assert_eq!(bytes[44..52], 100_000u64.to_le_bytes());
    assert_eq!(bytes[52..56], 10u32.to_le_bytes());
    assert_eq!(bytes[56..64], (NOW + 3600).to_le_bytes());
    assert_eq!(bytes[64..69], [1, 7, 0, 0, 0]);
    assert_eq!(bytes[69..71], [1, 0]);
    assert_eq!(bytes[71..112], [0u8; 41]);
    assert_eq!(bytes[112..116], 10u32.to_le_bytes());
    assert_eq!(bytes[116..148], [0u8; 32]);
    assert_eq!(bytes[148..180], [1u8; 32]);
}

#[test]
fn round_trip_with_padding() {
    let mut state = open(100_000, 10);
    buy(&mut state, id(3), 4, NOW).unwrap();
    let mut storage = state.encode();
    storage.resize(RaffleState::account_space(10), 0);
    assert_eq!(RaffleState::decode(&storage), Ok(state.clone()));

    let requested = sold_out_and_requested();
    let mut storage = requested.encode();
    storage.extend_from_slice(&[0u8; 7]);
    assert_eq!(RaffleState::decode(&storage), Ok(requested));

    let mut full = sold_out_and_requested();
    draw_winner_callback(&settle_ctx(oracle(), 77), &mut full, &randomness_for(9)).unwrap();
    claim_prize(&ClaimPrize { winner: id(9) }, &mut full).unwrap();
    assert_eq!(RaffleState::decode(&full.encode()), Ok(full));
}

#[test]
fn decode_rejects_bad_records() {
    let state = sold_out_and_requested();
    let good = state.encode();

    assert_eq!(RaffleState::decode(&[]), Err(RaffleError::RecordInvalid));
    assert_eq!(RaffleState::decode(&good[..good.len() - 1]), Err(RaffleError::RecordInvalid));
    assert_eq!(RaffleState::decode(&vec![0u8; 500]), Err(RaffleError::RecordInvalid));

    let mut bad_tag = good.clone();
    bad_tag[4] ^= 1;
    assert_eq!(RaffleState::decode(&bad_tag), Err(RaffleError::RecordInvalid));

    let mut bad_flag = good.clone();
    bad_flag[69] = 2;
    assert_eq!(RaffleState::decode(&bad_flag), Err(RaffleError::RecordInvalid));

    let mut bad_len = good.clone();
    bad_len[0] = bad_len[0].wrapping_add(1);
    bad_len.push(0);
    assert_eq!(RaffleState::decode(&bad_len), Err(RaffleError::RecordInvalid));

    let mut too_many = state.clone();
    too_many.max_tickets = 9;
    assert_eq!(RaffleState::decode(&too_many.encode()), Err(RaffleError::RecordInvalid));

    let mut no_winner_but_claimed = state.clone();
    no_winner_but_claimed.claimed = true;
    assert_eq!(
        RaffleState::decode(&no_winner_but_claimed.encode()),
        Err(RaffleError::RecordInvalid)
    );
}

#[test]
fn validity_check() {
    let state = sold_out_and_requested();
    assert!(state.is_valid());
    let mut bad = state.clone();
    bad.winner_index = Some(10);
    assert!(!bad.is_valid());
    let mut bad = state.clone();
    bad.randomness_handle = None;
    assert!(!bad.is_valid());
    let mut bad = state;
    bad.ticket_price = u64::MAX;
    assert!(!bad.is_valid());
}
