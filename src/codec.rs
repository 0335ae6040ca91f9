use vstd::bytes::{
    lemma_auto_spec_u32_to_from_le_bytes, lemma_auto_spec_u64_to_from_le_bytes,
    spec_u32_from_le_bytes, spec_u32_to_le_bytes, spec_u64_from_le_bytes, spec_u64_to_le_bytes,
    u32_from_le_bytes, u32_to_le_bytes, u64_from_le_bytes, u64_to_le_bytes,
};
use vstd::prelude::*;
use vstd::slice::slice_subrange;

use crate::errors::RaffleError;
use crate::identity::Identity;
use crate::state::{RaffleState, RaffleView, RandomnessHandle};

verus! {

/// Marks the bytes of a raffle record; its little-endian bytes spell `RAFFLEv1`.
pub const RECORD_TAG: u64 = 0x3176_454c_4646_4152;

/// Bytes of a record before its entrants: the tag, the scalar fields and the
/// entrant count.
pub const RECORD_HEADER_SIZE: u32 = 112;

/// The byte that stands for a flag.
pub open spec fn flag_byte(b: bool) -> u8 {
    if b {
        1
    } else {
        0
    }
}

/// Thirty-two zero bytes.
pub open spec fn zero_key() -> Seq<u8> {
    Seq::new(32, |_i: int| 0u8)
}

/// Five bytes: a presence byte, then the index (zero when absent).
pub open spec fn winner_bytes(w: Option<u32>) -> Seq<u8> {
    match w {
        Some(i) => seq![1u8] + spec_u32_to_le_bytes(i),
        None => seq![0u8] + spec_u32_to_le_bytes(0),
    }
}

/// Forty-one bytes: a presence byte, the account and the slot (zeros when absent).
pub open spec fn handle_bytes(h: Option<RandomnessHandle>) -> Seq<u8> {
    match h {
        Some(h) => seq![1u8] + h.account.key() + spec_u64_to_le_bytes(h.slot),
        None => seq![0u8] + zero_key() + spec_u64_to_le_bytes(0),
    }
}

/// The entrants one after another, 32 bytes each.
pub open spec fn entrant_bytes(e: Seq<Identity>) -> Seq<u8>
    decreases e.len(),
{
    if e.len() == 0 {
        Seq::empty()
    } else {
        entrant_bytes(e.drop_last()) + e.last().key()
    }
}

/// The fixed-size part of a record.
pub open spec fn header_bytes(s: RaffleView) -> Seq<u8> {
    spec_u64_to_le_bytes(RECORD_TAG) + s.raffle_manager.key() + spec_u64_to_le_bytes(s.ticket_price)
        + spec_u32_to_le_bytes(s.max_tickets) + spec_u64_to_le_bytes(s.end_time as u64)
        + winner_bytes(s.winner_index) + seq![flag_byte(s.draw_winner_started), flag_byte(s.claimed)]
        + handle_bytes(s.randomness_handle) + spec_u32_to_le_bytes(s.entrants.len() as u32)
}

/// Length of the serialized record (without its length prefix).
pub open spec fn record_len(s: RaffleView) -> int {
    RECORD_HEADER_SIZE + 32 * s.entrants.len()
}

/// The record fits behind a four-byte length prefix.
pub open spec fn encodable(s: RaffleView) -> bool {
    record_len(s) <= u32::MAX
}

/// The stored form of a record: its length as four little-endian bytes, then
/// the header, then the entrants.
pub open spec fn encoding(s: RaffleView) -> Seq<u8> {
    spec_u32_to_le_bytes(record_len(s) as u32) + header_bytes(s) + entrant_bytes(s.entrants)
}

/// `data` begins with the stored form of `s`; what follows is padding.
pub open spec fn encodes(data: Seq<u8>, s: RaffleView) -> bool {
    &&& encodable(s)
    &&& encoding(s).len() <= data.len()
    &&& data.subrange(0, encoding(s).len() as int) == encoding(s)
}

proof fn lemma_entrant_bytes(e: Seq<Identity>)
    ensures
        entrant_bytes(e).len() == 32 * e.len(),
        forall|j: int|
            0 <= j < e.len() ==> entrant_bytes(e).subrange(32 * j, 32 * j + 32) == #[trigger] e[j].key(),
    decreases e.len(),
{
    if e.len() > 0 {
        let p = e.drop_last();
        lemma_entrant_bytes(p);
        assert forall|j: int| 0 <= j < e.len() implies entrant_bytes(e).subrange(32 * j, 32 * j + 32)
            == #[trigger] e[j].key() by {
            if j < p.len() {
                assert(p[j] == e[j]);
                assert(entrant_bytes(e).subrange(32 * j, 32 * j + 32) =~= entrant_bytes(p).subrange(
                    32 * j,
                    32 * j + 32,
                ));
            } else {
                assert(entrant_bytes(e).subrange(32 * j, 32 * j + 32) =~= e.last().key());
            }
        }
    }
}

/// A byte string cut into 32-byte chunks, one per identifier, is their encoding.
proof fn lemma_chunks_are_entrant_bytes(b: Seq<u8>, e: Seq<Identity>)
    requires
        b.len() == 32 * e.len(),
        forall|j: int| 0 <= j < e.len() ==> b.subrange(32 * j, 32 * j + 32) == #[trigger] e[j].key(),
    ensures
        b == entrant_bytes(e),
    decreases e.len(),
{
    if e.len() > 0 {
        let p = e.drop_last();
        let n = e.len() - 1;
        let front = b.subrange(0, 32 * n);
        assert forall|j: int| 0 <= j < p.len() implies front.subrange(32 * j, 32 * j + 32)
            == #[trigger] p[j].key() by {
            assert(e[j] == p[j]);
            assert(front.subrange(32 * j, 32 * j + 32) =~= b.subrange(32 * j, 32 * j + 32));
        }
        lemma_chunks_are_entrant_bytes(front, p);
        assert(e[n] == e.last());
        assert(b =~= front + b.subrange(32 * n, 32 * n + 32));
    } else {
        assert(b =~= Seq::<u8>::empty());
    }
}

/// Each field of `s` stands at its place in `data`.
spec fn fields_match(data: Seq<u8>, s: RaffleView) -> bool {
    &&& data.subrange(0, 4) == spec_u32_to_le_bytes(record_len(s) as u32)
    &&& data.subrange(4, 12) == spec_u64_to_le_bytes(RECORD_TAG)
    &&& data.subrange(12, 44) == s.raffle_manager.key()
    &&& data.subrange(44, 52) == spec_u64_to_le_bytes(s.ticket_price)
    &&& data.subrange(52, 56) == spec_u32_to_le_bytes(s.max_tickets)
    &&& data.subrange(56, 64) == spec_u64_to_le_bytes(s.end_time as u64)
    &&& data.subrange(64, 69) == winner_bytes(s.winner_index)
    &&& data.subrange(69, 71) == seq![flag_byte(s.draw_winner_started), flag_byte(s.claimed)]
    &&& data.subrange(71, 112) == handle_bytes(s.randomness_handle)
    &&& data.subrange(112, 116) == spec_u32_to_le_bytes(s.entrants.len() as u32)
    &&& data.subrange(116, 4 + record_len(s)) == entrant_bytes(s.entrants)
}

/// Where each field of a record stands in its stored form.
proof fn lemma_layout(data: Seq<u8>, s: RaffleView)
    requires
        data.len() >= 4 + record_len(s),
    ensures
        encoding(s).len() == 4 + record_len(s),
        (data.subrange(0, 4 + record_len(s)) == encoding(s)) == fields_match(data, s),
{
    lemma_auto_spec_u32_to_from_le_bytes();
    lemma_auto_spec_u64_to_from_le_bytes();
    lemma_entrant_bytes(s.entrants);
    let l = 4 + record_len(s);
    let enc = encoding(s);
    let d = data.subrange(0, l);
    assert(enc.len() == l);
    let pieces = data.subrange(0, 4) + (data.subrange(4, 12) + data.subrange(12, 44) + data.subrange(
        44,
        52,
    ) + data.subrange(52, 56) + data.subrange(56, 64) + data.subrange(64, 69) + data.subrange(69, 71)
        + data.subrange(71, 112) + data.subrange(112, 116)) + data.subrange(116, l);
    assert(d =~= pieces);
    if d == enc {
        assert(data.subrange(0, 4) =~= enc.subrange(0, 4));
        assert(data.subrange(4, 12) =~= enc.subrange(4, 12));
        assert(data.subrange(12, 44) =~= enc.subrange(12, 44));
        assert(data.subrange(44, 52) =~= enc.subrange(44, 52));
        assert(data.subrange(52, 56) =~= enc.subrange(52, 56));
        assert(data.subrange(56, 64) =~= enc.subrange(56, 64));
        assert(data.subrange(64, 69) =~= enc.subrange(64, 69));
        assert(data.subrange(69, 71) =~= enc.subrange(69, 71));
        assert(data.subrange(71, 112) =~= enc.subrange(71, 112));
        assert(data.subrange(112, 116) =~= enc.subrange(112, 116));
        assert(data.subrange(116, l) =~= enc.subrange(116, l));
        assert(enc.subrange(0, 4) =~= spec_u32_to_le_bytes(record_len(s) as u32));
        assert(enc.subrange(4, 12) =~= spec_u64_to_le_bytes(RECORD_TAG));
        assert(enc.subrange(12, 44) =~= s.raffle_manager.key());
        assert(enc.subrange(44, 52) =~= spec_u64_to_le_bytes(s.ticket_price));
        assert(enc.subrange(52, 56) =~= spec_u32_to_le_bytes(s.max_tickets));
        assert(enc.subrange(56, 64) =~= spec_u64_to_le_bytes(s.end_time as u64));
        assert(enc.subrange(64, 69) =~= winner_bytes(s.winner_index));
        assert(enc.subrange(69, 71) =~= seq![flag_byte(s.draw_winner_started), flag_byte(s.claimed)]);
        assert(enc.subrange(71, 112) =~= handle_bytes(s.randomness_handle));
        assert(enc.subrange(112, 116) =~= spec_u32_to_le_bytes(s.entrants.len() as u32));
        assert(enc.subrange(116, l) =~= entrant_bytes(s.entrants));
    }
    if fields_match(data, s) {
        assert(d =~= enc);
    }
}

/// Each field of `s` reads back from its place in `data`.
spec fn reads_as(data: Seq<u8>, s: RaffleView) -> bool {
    &&& spec_u32_from_le_bytes(data.subrange(0, 4)) == record_len(s)
    &&& spec_u64_from_le_bytes(data.subrange(4, 12)) == RECORD_TAG
    &&& data.subrange(12, 44) == s.raffle_manager.key()
    &&& spec_u64_from_le_bytes(data.subrange(44, 52)) == s.ticket_price
    &&& spec_u32_from_le_bytes(data.subrange(52, 56)) == s.max_tickets
    &&& spec_u64_from_le_bytes(data.subrange(56, 64)) == s.end_time as u64
    &&& data[64] == flag_byte(s.winner_index is Some)
    &&& spec_u32_from_le_bytes(data.subrange(65, 69)) == match s.winner_index {
        Some(i) => i,
        None => 0u32,
    }
    &&& data[69] == flag_byte(s.draw_winner_started)
    &&& data[70] == flag_byte(s.claimed)
    &&& data[71] == flag_byte(s.randomness_handle is Some)
    &&& data.subrange(72, 104) == match s.randomness_handle {
        Some(h) => h.account.key(),
        None => zero_key(),
    }
    &&& spec_u64_from_le_bytes(data.subrange(104, 112)) == match s.randomness_handle {
        Some(h) => h.slot,
        None => 0u64,
    }
    &&& spec_u32_from_le_bytes(data.subrange(112, 116)) == s.entrants.len()
    &&& forall|j: int|
        0 <= j < s.entrants.len() ==> data.subrange(116 + 32 * j, 148 + 32 * j)
            == #[trigger] s.entrants[j].key()
}

/// A record is stored in `data` exactly when each of its fields reads back from it.
proof fn lemma_encodes_iff_reads_as(data: Seq<u8>, s: RaffleView)
    requires
        encodable(s),
        data.len() >= 4 + record_len(s),
    ensures
        encodes(data, s) == reads_as(data, s),
{
    lemma_auto_spec_u32_to_from_le_bytes();
    lemma_auto_spec_u64_to_from_le_bytes();
    lemma_layout(data, s);
    lemma_entrant_bytes(s.entrants);
    let l = 4 + record_len(s);
    let n = s.entrants.len();
    let body = data.subrange(116, l);
    let wv: u32 = match s.winner_index {
        Some(i) => i,
        None => 0u32,
    };
    let hk = match s.randomness_handle {
        Some(h) => h.account.key(),
        None => zero_key(),
    };
    let hs: u64 = match s.randomness_handle {
        Some(h) => h.slot,
        None => 0u64,
    };
    assert(winner_bytes(s.winner_index) =~= seq![flag_byte(s.winner_index is Some)]
        + spec_u32_to_le_bytes(wv));
    assert(handle_bytes(s.randomness_handle) =~= seq![flag_byte(s.randomness_handle is Some)] + hk
        + spec_u64_to_le_bytes(hs));
    assert(data.subrange(64, 69) =~= seq![data[64]] + data.subrange(65, 69));
    assert(data.subrange(69, 71) =~= seq![data[69], data[70]]);
    assert(data.subrange(71, 112) =~= seq![data[71]] + data.subrange(72, 104) + data.subrange(
        104,
        112,
    ));
    assert forall|j: int| 0 <= j < n implies #[trigger] body.subrange(32 * j, 32 * j + 32)
        == data.subrange(116 + 32 * j, 148 + 32 * j) by {
        assert(body.subrange(32 * j, 32 * j + 32) =~= data.subrange(116 + 32 * j, 148 + 32 * j));
    }
    if encodes(data, s) {
        assert(fields_match(data, s));
        assert(spec_u32_from_le_bytes(data.subrange(0, 4)) == record_len(s));
        assert(spec_u64_from_le_bytes(data.subrange(4, 12)) == RECORD_TAG);
        assert(data.subrange(12, 44) == s.raffle_manager.key());
        assert(data.subrange(65, 69) =~= data.subrange(64, 69).subrange(1, 5));
        assert(data.subrange(72, 104) =~= data.subrange(71, 112).subrange(1, 33));
        assert(data.subrange(104, 112) =~= data.subrange(71, 112).subrange(33, 41));
        assert((seq![flag_byte(s.winner_index is Some)] + spec_u32_to_le_bytes(wv)).subrange(1, 5)
            =~= spec_u32_to_le_bytes(wv));
        assert(data.subrange(65, 69) == spec_u32_to_le_bytes(wv));
        let hb = seq![flag_byte(s.randomness_handle is Some)] + hk + spec_u64_to_le_bytes(hs);
        assert(hb.subrange(1, 33) =~= hk);
        assert(hb.subrange(33, 41) =~= spec_u64_to_le_bytes(hs));
        assert(data.subrange(104, 112) == spec_u64_to_le_bytes(hs));
        assert(data[64] == data.subrange(64, 69)[0]);
        assert(data[71] == data.subrange(71, 112)[0]);
        assert forall|j: int| 0 <= j < n implies data.subrange(116 + 32 * j, 148 + 32 * j)
            == #[trigger] s.entrants[j].key() by {
            assert(body.subrange(32 * j, 32 * j + 32) == data.subrange(116 + 32 * j, 148 + 32 * j));
        }
        assert(reads_as(data, s));
    }
    if reads_as(data, s) {
        assert(data.subrange(0, 4) == spec_u32_to_le_bytes(
            spec_u32_from_le_bytes(data.subrange(0, 4)),
        ));
        assert(data.subrange(52, 56) == spec_u32_to_le_bytes(
            spec_u32_from_le_bytes(data.subrange(52, 56)),
        ));
        assert(data.subrange(65, 69) == spec_u32_to_le_bytes(
            spec_u32_from_le_bytes(data.subrange(65, 69)),
        ));
        assert(data.subrange(112, 116) == spec_u32_to_le_bytes(
            spec_u32_from_le_bytes(data.subrange(112, 116)),
        ));
        assert(data.subrange(4, 12) == spec_u64_to_le_bytes(
            spec_u64_from_le_bytes(data.subrange(4, 12)),
        ));
        assert(data.subrange(44, 52) == spec_u64_to_le_bytes(
            spec_u64_from_le_bytes(data.subrange(44, 52)),
        ));
        assert(data.subrange(56, 64) == spec_u64_to_le_bytes(
            spec_u64_from_le_bytes(data.subrange(56, 64)),
        ));
        assert(data.subrange(104, 112) == spec_u64_to_le_bytes(
            spec_u64_from_le_bytes(data.subrange(104, 112)),
        ));
        assert forall|j: int| 0 <= j < n implies body.subrange(32 * j, 32 * j + 32)
            == #[trigger] s.entrants[j].key() by {
            assert(body.subrange(32 * j, 32 * j + 32) == data.subrange(116 + 32 * j, 148 + 32 * j));
        }
        lemma_chunks_are_entrant_bytes(body, s.entrants);
        assert(fields_match(data, s));
        assert(encodes(data, s));
    }
}

fn push_key(out: &mut Vec<u8>, id: &Identity)
    ensures
        final(out)@ == old(out)@ + id.key(),
{
    let ghost start = out@;
    let mut i: usize = 0;
    while i < 32
        invariant
            0 <= i <= 32,
            out@ == start + id.key().subrange(0, i as int),
        decreases 32 - i,
    {
        out.push(id.bytes[i]);
        i = i + 1;
        assert(out@ =~= start + id.key().subrange(0, i as int));
    }
    assert(id.key().subrange(0, 32) =~= id.key());
}

fn push_u32(out: &mut Vec<u8>, v: u32)
    ensures
        final(out)@ == old(out)@ + spec_u32_to_le_bytes(v),
{
    let mut b = u32_to_le_bytes(v);
    out.append(&mut b);
}

fn push_u64(out: &mut Vec<u8>, v: u64)
    ensures
        final(out)@ == old(out)@ + spec_u64_to_le_bytes(v),
{
    let mut b = u64_to_le_bytes(v);
    out.append(&mut b);
}

fn flag(b: bool) -> (r: u8)
    ensures
        r == flag_byte(b),
{
    if b {
        1
    } else {
        0
    }
}

/// The fixed-size part of the record's stored form.
fn header(s: &RaffleState) -> (r: Vec<u8>)
    ensures
        r@ == header_bytes(s@),
{
    let mut out: Vec<u8> = Vec::new();
    push_u64(&mut out, RECORD_TAG);
    assert(out@ =~= spec_u64_to_le_bytes(RECORD_TAG));
    push_key(&mut out, &s.raffle_manager);
    push_u64(&mut out, s.ticket_price);
    push_u32(&mut out, s.max_tickets);
    push_u64(&mut out, s.end_time as u64);
    let ghost scalars = out@;
    let mut w: Vec<u8> = Vec::new();
    match s.winner_index {
        Some(i) => {
            w.push(1);
            push_u32(&mut w, i);
        },
        None => {
            w.push(0);
            push_u32(&mut w, 0);
        },
    }
    assert(w@ =~= winner_bytes(s.winner_index));
    out.append(&mut w);
    out.push(flag(s.draw_winner_started));
    out.push(flag(s.claimed));
    assert(out@ =~= scalars + winner_bytes(s.winner_index) + seq![
        flag_byte(s.draw_winner_started),
        flag_byte(s.claimed),
    ]);
    let zero = Identity { bytes: [0u8; 32] };
    let mut h: Vec<u8> = Vec::new();
    match s.randomness_handle {
        Some(handle) => {
            h.push(1);
            push_key(&mut h, &handle.account);
            push_u64(&mut h, handle.slot);
        },
        None => {
            h.push(0);
            push_key(&mut h, &zero);
            push_u64(&mut h, 0);
            assert(zero.key() =~= zero_key());
        },
    }
    assert(h@ =~= handle_bytes(s.randomness_handle));
    out.append(&mut h);
    push_u32(&mut out, s.entrants.len() as u32);
    out
}

impl RaffleState {
    /// The stored form of the record: a four-byte little-endian length, then
    /// the record itself. Storage sized by `account_space` for the record's
    /// capacity holds it, with zero padding after it.
    pub fn encode(&self) -> (r: Vec<u8>)
        requires
            encodable(self@),
        ensures
            r@ == encoding(self@),
    {
        let n = self.entrants.len();
        let mut out: Vec<u8> = Vec::new();
        push_u32(&mut out, RECORD_HEADER_SIZE + 32 * (n as u32));
        assert(out@ =~= spec_u32_to_le_bytes(record_len(self@) as u32));
        let mut h = header(self);
        out.append(&mut h);
        let ghost head = out@;
        let mut k: usize = 0;
        assert(self.entrants@.subrange(0, 0) =~= Seq::<Identity>::empty());
        assert(out@ =~= head + entrant_bytes(self.entrants@.subrange(0, 0)));
        while k < n
            invariant
                0 <= k <= n,
                n == self.entrants@.len(),
                out@ == head + entrant_bytes(self.entrants@.subrange(0, k as int)),
            decreases n - k,
        {
            let ghost before = self.entrants@.subrange(0, k as int);
            push_key(&mut out, &self.entrants[k]);
            k = k + 1;
            assert(self.entrants@.subrange(0, k as int).drop_last() =~= before);
            assert(out@ =~= head + entrant_bytes(self.entrants@.subrange(0, k as int)));
        }
        assert(self.entrants@.subrange(0, n as int) =~= self.entrants@);
        out
    }
}

/// Two records that read back from the same bytes are the same record.
proof fn lemma_reads_as_unique(data: Seq<u8>, s: RaffleView, t: RaffleView)
    requires
        reads_as(data, s),
        reads_as(data, t),
    ensures
        s == t,
{
    Identity::lemma_key_injective(s.raffle_manager, t.raffle_manager);
    let a = s.end_time;
    let b = t.end_time;
    assert((a as u64) == (b as u64) ==> a == b) by (bit_vector);
    assert(s.entrants.len() == t.entrants.len());
    assert forall|j: int| 0 <= j < s.entrants.len() implies s.entrants[j] == t.entrants[j] by {
        assert(s.entrants[j].key() == data.subrange(116 + 32 * j, 148 + 32 * j));
        assert(t.entrants[j].key() == data.subrange(116 + 32 * j, 148 + 32 * j));
        Identity::lemma_key_injective(s.entrants[j], t.entrants[j]);
    }
    assert(s.entrants =~= t.entrants);
    if s.randomness_handle is Some {
        Identity::lemma_key_injective(
            s.randomness_handle->0.account,
            t.randomness_handle->0.account,
        );
    }
}

/// A record stored in `data` reads back from it.
proof fn lemma_stored_reads_as(data: Seq<u8>, s: RaffleView)
    requires
        encodes(data, s),
    ensures
        reads_as(data, s),
        data.len() >= 4 + record_len(s),
{
    lemma_encoding_len(s);
    lemma_layout(data, s);
    lemma_encodes_iff_reads_as(data, s);
}

proof fn lemma_encoding_len(s: RaffleView)
    ensures
        encoding(s).len() == 4 + record_len(s),
{
    lemma_auto_spec_u32_to_from_le_bytes();
    lemma_auto_spec_u64_to_from_le_bytes();
    lemma_entrant_bytes(s.entrants);
}

fn read_key(data: &[u8], pos: usize) -> (r: Identity)
    requires
        pos + 32 <= data@.len(),
    ensures
        r.key() == data@.subrange(pos as int, pos + 32),
{
    let len = data.len();
    let mut bytes = [0u8; 32];
    let mut i: usize = 0;
    while i < 32
        invariant
            0 <= i <= 32,
            pos + 32 <= data@.len(),
            len == data@.len(),
            forall|j: int| 0 <= j < i ==> bytes@[j] == data@[pos + j],
        decreases 32 - i,
    {
        bytes[i] = data[pos + i];
        i = i + 1;
    }
    let r = Identity { bytes };
    assert(r.key() =~= data@.subrange(pos as int, pos + 32));
    r
}

fn read_u32(data: &[u8], pos: usize) -> (r: u32)
    requires
        pos + 4 <= data@.len(),
    ensures
        r == spec_u32_from_le_bytes(data@.subrange(pos as int, pos + 4)),
{
    let len = data.len();
    u32_from_le_bytes(slice_subrange(data, pos, pos + 4))
}

fn read_u64(data: &[u8], pos: usize) -> (r: u64)
    requires
        pos + 8 <= data@.len(),
    ensures
        r == spec_u64_from_le_bytes(data@.subrange(pos as int, pos + 8)),
{
    let len = data.len();
    u64_from_le_bytes(slice_subrange(data, pos, pos + 8))
}

fn read_flag(b: u8) -> (r: Option<bool>)
    ensures
        match r {
            Some(f) => b == flag_byte(f),
            None => b != 0 && b != 1,
        },
{
    if b == 0 {
        Some(false)
    } else if b == 1 {
        Some(true)
    } else {
        None
    }
}

fn is_zero_key(id: &Identity) -> (r: bool)
    ensures
        r == (id.key() == zero_key()),
{
    let mut i: usize = 0;
    while i < 32
        invariant
            0 <= i <= 32,
            forall|j: int| 0 <= j < i ==> id.bytes@[j] == 0,
        decreases 32 - i,
    {
        if id.bytes[i] != 0 {
            assert(id.key()[i as int] != zero_key()[i as int]);
            return false;
        }
        i = i + 1;
    }
    assert(id.key() =~= zero_key());
    true
}

impl RaffleState {
    /// Reads a record back from storage: a four-byte little-endian length,
    /// then that many bytes of record; whatever follows is ignored. Fails with
    /// `RecordInvalid` unless the bytes hold the stored form of a valid record.
    pub fn decode(data: &[u8]) -> (r: Result<RaffleState, RaffleError>)
        ensures
            match r {
                Ok(state) => state@.wf() && encodes(data@, state@),
                Err(e) => {
                    &&& e == RaffleError::RecordInvalid
                    &&& forall|s: RaffleView| s.wf() ==> !encodes(data@, s)
                },
            },
    {
        let ghost stored = exists|s: RaffleView| s.wf() && encodes(data@, s);
        let ghost w = choose|s: RaffleView| s.wf() && encodes(data@, s);
        proof {
            if stored {
                lemma_stored_reads_as(data@, w);
            }
        }
        if data.len() < 116 {
            return Err(RaffleError::RecordInvalid);
        }
        let len = read_u32(data, 0);
        let count = read_u32(data, 112);
        if len as usize > data.len() - 4 || len as u64 != 112 + 32 * (count as u64) {
            return Err(RaffleError::RecordInvalid);
        }
        if read_u64(data, 4) != RECORD_TAG {
            return Err(RaffleError::RecordInvalid);
        }
        let raffle_manager = read_key(data, 12);
        let ticket_price = read_u64(data, 44);
        let max_tickets = read_u32(data, 52);
        let end_bits = read_u64(data, 56);
        let end_time = end_bits as i64;
        proof {
            assert(((end_bits as i64) as u64) == end_bits) by (bit_vector);
        }
        let index = read_u32(data, 65);
        let winner_index = match read_flag(data[64]) {
            Some(true) => Some(index),
            Some(false) => {
                if index != 0 {
                    return Err(RaffleError::RecordInvalid);
                }
                None
            },
            None => {
                return Err(RaffleError::RecordInvalid);
            },
        };
        let draw_winner_started = match read_flag(data[69]) {
            Some(f) => f,
            None => {
                return Err(RaffleError::RecordInvalid);
            },
        };
        let claimed = match read_flag(data[70]) {
            Some(f) => f,
            None => {
                return Err(RaffleError::RecordInvalid);
            },
        };
        let account = read_key(data, 72);
        let slot = read_u64(data, 104);
        let randomness_handle = match read_flag(data[71]) {
            Some(true) => Some(RandomnessHandle { account, slot }),
            Some(false) => {
                if !is_zero_key(&account) || slot != 0 {
                    return Err(RaffleError::RecordInvalid);
                }
                None
            },
            None => {
                return Err(RaffleError::RecordInvalid);
            },
        };
        let n = count as usize;
        let data_len = data.len();
        let mut entrants: Vec<Identity> = Vec::new();
        let mut k: usize = 0;
        while k < n
            invariant
                0 <= k <= n,
                116 + 32 * n <= data@.len(),
                data_len == data@.len(),
                entrants@.len() == k,
                forall|j: int|
                    0 <= j < k ==> data@.subrange(116 + 32 * j, 148 + 32 * j)
                        == #[trigger] entrants@[j].key(),
            decreases n - k,
        {
            let id = read_key(data, 116 + 32 * k);
            entrants.push(id);
            k = k + 1;
        }
        let state = RaffleState {
            raffle_manager,
            ticket_price,
            max_tickets,
            end_time,
            winner_index,
            draw_winner_started,
            claimed,
            randomness_handle,
            entrants,
        };
        assert(reads_as(data@, state@));
        proof {
            if stored {
                lemma_reads_as_unique(data@, w, state@);
            }
        }
        if !state.is_valid() {
            return Err(RaffleError::RecordInvalid);
        }
        proof {
            lemma_encodes_iff_reads_as(data@, state@);
        }
        Ok(state)
    }
}

/// The stored form of `s`, followed by padding, holds `s` and no other record.
pub(crate) proof fn lemma_round_trip_parts(s: RaffleView, padding: Seq<u8>)
    requires
        encodable(s),
    ensures
        encoding(s).len() == 4 + record_len(s),
        encodes(encoding(s) + padding, s),
        forall|t: RaffleView| encodes(encoding(s) + padding, t) ==> t == s,
{
    let data = encoding(s) + padding;
    lemma_encoding_len(s);
    assert(data.subrange(0, encoding(s).len() as int) =~= encoding(s));
    lemma_stored_reads_as(data, s);
    assert forall|t: RaffleView| encodes(data, t) implies t == s by {
        lemma_stored_reads_as(data, t);
        lemma_reads_as_unique(data, s, t);
    }
}

} // verus!
