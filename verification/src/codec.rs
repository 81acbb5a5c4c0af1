//! The event codec: a compact self-describing binary encoding of the wire
//! envelope, written and checked byte by byte.
//!
//! Integers are big-endian. An `Option` is a presence byte followed by the
//! value; an enum is a tag byte followed by the variant's fields; the hand
//! is a count followed by that many three-byte cards. Decoding accepts
//! exactly the byte strings this module produces: anything else is rejected
//! as malformed, and a malformed payload never halts the processing of the
//! rest of a batch.

use vstd::prelude::*;

use crate::cards::{Card, Rank, Suit};
use crate::events::{event_wf, events_view, AddressedEvent, AddressedEventV, Event, EventV};
use crate::ids::PeerId;
use crate::player::{Player, PlayerV, RoomState};
use crate::room::{room_wf, Room, RoomPlayer, RoomPlayerV, RoomV};

verus! {

/// A payload that is not a well-formed encoding of an `AddressedEvent`.
/// Such payloads are dropped one by one; they never halt a batch.
#[derive(Clone, Copy, Debug, PartialEq, Eq, Structural)]
pub struct DecodeError;

// ---------------------------------------------------------------------
// Byte strings produced for each primitive value.
// ---------------------------------------------------------------------

/// The eight big-endian bytes of a 64-bit integer.
pub open spec fn enc_u64(x: u64) -> Seq<u8> {
    seq![
        (x >> 56) as u8,
        (x >> 48) as u8,
        (x >> 40) as u8,
        (x >> 32) as u8,
        (x >> 24) as u8,
        (x >> 16) as u8,
        (x >> 8) as u8,
        x as u8,
    ]
}

/// The four big-endian bytes of a 32-bit integer, two's complement.
pub open spec fn enc_i32(x: i32) -> Seq<u8> {
    let u = x as u32;
    seq![(u >> 24) as u8, (u >> 16) as u8, (u >> 8) as u8, u as u8]
}

/// One byte: 1 for true, 0 for false.
pub open spec fn enc_bool(b: bool) -> Seq<u8> {
    if b {
        seq![1u8]
    } else {
        seq![0u8]
    }
}

/// The byte standing for a suit.
pub open spec fn suit_byte(s: Suit) -> u8 {
    match s {
        Suit::Club => 0,
        Suit::Diamond => 1,
        Suit::Heart => 2,
        Suit::Spade => 3,
        Suit::Joker => 4,
    }
}

/// The suit a byte stands for, if any.
pub open spec fn suit_from_byte(b: u8) -> Option<Suit> {
    if b == 0 {
        Some(Suit::Club)
    } else if b == 1 {
        Some(Suit::Diamond)
    } else if b == 2 {
        Some(Suit::Heart)
    } else if b == 3 {
        Some(Suit::Spade)
    } else if b == 4 {
        Some(Suit::Joker)
    } else {
        None
    }
}

/// The byte standing for a rank.
pub open spec fn rank_byte(r: Rank) -> u8 {
    match r {
        Rank::Two => 0,
        Rank::Three => 1,
        Rank::Four => 2,
        Rank::Five => 3,
        Rank::Six => 4,
        Rank::Seven => 5,
        Rank::Eight => 6,
        Rank::Nine => 7,
        Rank::Ten => 8,
        Rank::Jack => 9,
        Rank::Queen => 10,
        Rank::King => 11,
        Rank::Ace => 12,
        Rank::LittleJoker => 13,
        Rank::BigJoker => 14,
    }
}

/// The rank a byte stands for, if any.
pub open spec fn rank_from_byte(b: u8) -> Option<Rank> {
    if b == 0 {
        Some(Rank::Two)
    } else if b == 1 {
        Some(Rank::Three)
    } else if b == 2 {
        Some(Rank::Four)
    } else if b == 3 {
        Some(Rank::Five)
    } else if b == 4 {
        Some(Rank::Six)
    } else if b == 5 {
        Some(Rank::Seven)
    } else if b == 6 {
        Some(Rank::Eight)
    } else if b == 7 {
        Some(Rank::Nine)
    } else if b == 8 {
        Some(Rank::Ten)
    } else if b == 9 {
        Some(Rank::Jack)
    } else if b == 10 {
        Some(Rank::Queen)
    } else if b == 11 {
        Some(Rank::King)
    } else if b == 12 {
        Some(Rank::Ace)
    } else if b == 13 {
        Some(Rank::LittleJoker)
    } else if b == 14 {
        Some(Rank::BigJoker)
    } else {
        None
    }
}

/// Three bytes: suit, rank, face-down flag.
pub open spec fn enc_card(c: Card) -> Seq<u8> {
    seq![suit_byte(c.suit), rank_byte(c.rank)] + enc_bool(c.hide)
}

/// A card count followed by that many cards.
pub open spec fn enc_cards(cs: Seq<Card>) -> Seq<u8>
    decreases cs.len(),
{
    if cs.len() == 0 {
        enc_u64(0)
    } else {
        enc_u64(cs.len() as u64).add(enc_cards_body(cs))
    }
}

/// The concatenated encodings of a run of cards.
pub open spec fn enc_cards_body(cs: Seq<Card>) -> Seq<u8>
    decreases cs.len(),
{
    if cs.len() == 0 {
        Seq::<u8>::empty()
    } else {
        enc_card(cs.first()) + enc_cards_body(cs.drop_first())
    }
}

// ---------------------------------------------------------------------
// What a byte string decodes to, one step at a time. A step reads at
// position `i` of `s` and yields the value with the next position.
// ---------------------------------------------------------------------

/// Reads one byte.
pub open spec fn dec_u8(s: Seq<u8>, i: int) -> Option<(u8, int)> {
    if 0 <= i && i < s.len() {
        Some((s[i], i + 1))
    } else {
        None
    }
}

/// The value of eight big-endian bytes.
pub open spec fn u64_from_bytes(
    b0: u8,
    b1: u8,
    b2: u8,
    b3: u8,
    b4: u8,
    b5: u8,
    b6: u8,
    b7: u8,
) -> u64 {
    ((b0 as u64) << 56) | ((b1 as u64) << 48) | ((b2 as u64) << 40) | ((b3 as u64) << 32) | ((
    b4 as u64) << 24) | ((b5 as u64) << 16) | ((b6 as u64) << 8) | (b7 as u64)
}

/// Reads a 64-bit big-endian integer.
pub open spec fn dec_u64(s: Seq<u8>, i: int) -> Option<(u64, int)> {
    if 0 <= i && i + 8 <= s.len() {
        Some(
            (
                u64_from_bytes(
                    s[i],
                    s[i + 1],
                    s[i + 2],
                    s[i + 3],
                    s[i + 4],
                    s[i + 5],
                    s[i + 6],
                    s[i + 7],
                ),
                i + 8,
            ),
        )
    } else {
        None
    }
}

/// The value of four big-endian bytes, two's complement.
pub open spec fn i32_from_bytes(b0: u8, b1: u8, b2: u8, b3: u8) -> i32 {
    ((((b0 as u32) << 24) | ((b1 as u32) << 16) | ((b2 as u32) << 8) | (b3 as u32)) as i32)
}

/// Reads a 32-bit big-endian integer.
pub open spec fn dec_i32(s: Seq<u8>, i: int) -> Option<(i32, int)> {
    if 0 <= i && i + 4 <= s.len() {
        Some((i32_from_bytes(s[i], s[i + 1], s[i + 2], s[i + 3]), i + 4))
    } else {
        None
    }
}

/// Reads a boolean byte; only 0 and 1 are accepted.
pub open spec fn dec_bool(s: Seq<u8>, i: int) -> Option<(bool, int)> {
    match dec_u8(s, i) {
        Some((b, j)) => if b == 1 {
            Some((true, j))
        } else if b == 0 {
            Some((false, j))
        } else {
            None
        },
        None => None,
    }
}

/// Reads a suit byte.
pub open spec fn dec_suit(s: Seq<u8>, i: int) -> Option<(Suit, int)> {
    match dec_u8(s, i) {
        Some((b, j)) => match suit_from_byte(b) {
            Some(suit) => Some((suit, j)),
            None => None,
        },
        None => None,
    }
}

/// Reads a rank byte.
pub open spec fn dec_rank(s: Seq<u8>, i: int) -> Option<(Rank, int)> {
    match dec_u8(s, i) {
        Some((b, j)) => match rank_from_byte(b) {
            Some(rank) => Some((rank, j)),
            None => None,
        },
        None => None,
    }
}

/// Reads one card: suit, rank, face-down flag.
pub open spec fn dec_card(s: Seq<u8>, i: int) -> Option<(Card, int)> {
    match dec_suit(s, i) {
        Some((suit, j)) => match dec_rank(s, j) {
            Some((rank, k)) => match dec_bool(s, k) {
                Some((hide, m)) => Some((Card { suit, rank, hide }, m)),
                None => None,
            },
            None => None,
        },
        None => None,
    }
}

/// Reads a run of `n` cards.
pub open spec fn dec_cards_n(s: Seq<u8>, i: int, n: int) -> Option<(Seq<Card>, int)>
    decreases n,
{
    if n <= 0 {
        Some((Seq::<Card>::empty(), i))
    } else {
        match dec_card(s, i) {
            Some((c, j)) => match dec_cards_n(s, j, n - 1) {
                Some((cs, k)) => Some((seq![c] + cs, k)),
                None => None,
            },
            None => None,
        }
    }
}

/// Reads a card count followed by that many cards.
pub open spec fn dec_cards(s: Seq<u8>, i: int) -> Option<(Seq<Card>, int)> {
    match dec_u64(s, i) {
        Some((n, j)) => dec_cards_n(s, j, n as int),
        None => None,
    }
}

// ---------------------------------------------------------------------
// Executable writers: each appends exactly the byte string above.
// ---------------------------------------------------------------------

fn put_u64(out: &mut Vec<u8>, x: u64)
    ensures
        final(out)@ == old(out)@ + enc_u64(x),
{
    let ghost before = out@;
    out.push(#[verifier::truncate] ((x >> 56) as u8));
    out.push(#[verifier::truncate] ((x >> 48) as u8));
    out.push(#[verifier::truncate] ((x >> 40) as u8));
    out.push(#[verifier::truncate] ((x >> 32) as u8));
    out.push(#[verifier::truncate] ((x >> 24) as u8));
    out.push(#[verifier::truncate] ((x >> 16) as u8));
    out.push(#[verifier::truncate] ((x >> 8) as u8));
    out.push(#[verifier::truncate] (x as u8));
    proof {
        assert(out@ =~= before + enc_u64(x));
    }
}

fn put_i32(out: &mut Vec<u8>, x: i32)
    ensures
        final(out)@ == old(out)@ + enc_i32(x),
{
    let ghost before = out@;
    let u = #[verifier::truncate] (x as u32);
    out.push(#[verifier::truncate] ((u >> 24) as u8));
    out.push(#[verifier::truncate] ((u >> 16) as u8));
    out.push(#[verifier::truncate] ((u >> 8) as u8));
    out.push(#[verifier::truncate] (u as u8));
    proof {
        assert(out@ =~= before + enc_i32(x));
    }
}

fn put_bool(out: &mut Vec<u8>, b: bool)
    ensures
        final(out)@ == old(out)@ + enc_bool(b),
{
    let ghost before = out@;
    if b {
        out.push(1u8);
    } else {
        out.push(0u8);
    }
    proof {
        assert(out@ =~= before + enc_bool(b));
    }
}

fn put_card(out: &mut Vec<u8>, c: &Card)
    ensures
        final(out)@ == old(out)@ + enc_card(*c),
{
    let ghost before = out@;
    let sb: u8 = match c.suit {
        Suit::Club => 0,
        Suit::Diamond => 1,
        Suit::Heart => 2,
        Suit::Spade => 3,
        Suit::Joker => 4,
    };
    let rb: u8 = match c.rank {
        Rank::Two => 0,
        Rank::Three => 1,
        Rank::Four => 2,
        Rank::Five => 3,
        Rank::Six => 4,
        Rank::Seven => 5,
        Rank::Eight => 6,
        Rank::Nine => 7,
        Rank::Ten => 8,
        Rank::Jack => 9,
        Rank::Queen => 10,
        Rank::King => 11,
        Rank::Ace => 12,
        Rank::LittleJoker => 13,
        Rank::BigJoker => 14,
    };
    out.push(sb);
    out.push(rb);
    put_bool(out, c.hide);
    proof {
        assert(out@ =~= before + enc_card(*c));
    }
}

#[verifier::loop_isolation(false)]
fn put_cards(out: &mut Vec<u8>, cs: &Vec<Card>)
    ensures
        final(out)@ == old(out)@ + enc_cards(cs@),
{
    put_u64(out, cs.len() as u64);
    let ghost after_len = out@;
    let n = cs.len();
    let mut k: usize = 0;
    while k < n
        invariant
            n == cs.len(),
            k <= n,
            out@ == after_len + enc_cards_body(cs@.take(k as int)),
        decreases n - k,
    {
        proof {
            lemma_enc_cards_body_snoc(cs@.take(k as int), cs@[k as int]);
            assert(cs@.take(k + 1).drop_last() =~= cs@.take(k as int));
            assert(cs@.take(k + 1) =~= cs@.take(k as int).push(cs@[k as int]));
        }
        put_card(out, &cs[k]);
        k = k + 1;
    }
    proof {
        assert(cs@.take(n as int) =~= cs@);
        if cs@.len() == 0 {
            assert(enc_cards_body(cs@) =~= Seq::<u8>::empty());
            assert(out@ =~= old(out)@ + enc_cards(cs@));
        }
    }
}

/// Appending one card to a run appends its three bytes.
proof fn lemma_enc_cards_body_snoc(cs: Seq<Card>, c: Card)
    ensures
        enc_cards_body(cs.push(c)) == enc_cards_body(cs) + enc_card(c),
    decreases cs.len(),
{
    if cs.len() == 0 {
        assert(cs.push(c).drop_first() =~= Seq::<Card>::empty());
        assert(cs.push(c).first() == c);
        assert(enc_cards_body(cs.push(c)) == enc_card(c) + enc_cards_body(
            Seq::<Card>::empty(),
        ));
        assert(enc_cards_body(Seq::<Card>::empty()) =~= Seq::<u8>::empty());
        assert(enc_cards_body(cs.push(c)) =~= enc_card(c));
        assert(enc_cards_body(cs) + enc_card(c) =~= enc_card(c));
    } else {
        assert(cs.push(c).drop_first() =~= cs.drop_first().push(c));
        lemma_enc_cards_body_snoc(cs.drop_first(), c);
        assert(enc_cards_body(cs.push(c)) =~= enc_cards_body(cs) + enc_card(c));
    }
}

// ---------------------------------------------------------------------
// Executable readers: each returns exactly what the step above yields.
// ---------------------------------------------------------------------

fn read_u8(bytes: &Vec<u8>, pos: usize) -> (r: Option<(u8, usize)>)
    ensures
        r is Some <==> dec_u8(bytes@, pos as int) is Some,
        r matches Some((v, np)) ==> dec_u8(bytes@, pos as int) == Some((v, np as int)) && pos
            < np <= bytes@.len(),
{
    if pos < bytes.len() {
        Some((bytes[pos], pos + 1))
    } else {
        None
    }
}

fn read_u64(bytes: &Vec<u8>, pos: usize) -> (r: Option<(u64, usize)>)
    ensures
        r is Some <==> dec_u64(bytes@, pos as int) is Some,
        r matches Some((v, np)) ==> dec_u64(bytes@, pos as int) == Some((v, np as int)) && pos
            < np <= bytes@.len(),
{
    if pos <= bytes.len() && bytes.len() - pos >= 8 {
        let b0 = bytes[pos];
        let b1 = bytes[pos + 1];
        let b2 = bytes[pos + 2];
        let b3 = bytes[pos + 3];
        let b4 = bytes[pos + 4];
        let b5 = bytes[pos + 5];
        let b6 = bytes[pos + 6];
        let b7 = bytes[pos + 7];
        let v = ((b0 as u64) << 56) | ((b1 as u64) << 48) | ((b2 as u64) << 40) | ((b3 as u64)
            << 32) | ((b4 as u64) << 24) | ((b5 as u64) << 16) | ((b6 as u64) << 8) | (b7 as u64);
        Some((v, pos + 8))
    } else {
        None
    }
}

fn read_i32(bytes: &Vec<u8>, pos: usize) -> (r: Option<(i32, usize)>)
    ensures
        r is Some <==> dec_i32(bytes@, pos as int) is Some,
        r matches Some((v, np)) ==> dec_i32(bytes@, pos as int) == Some((v, np as int)) && pos
            < np <= bytes@.len(),
{
    if pos <= bytes.len() && bytes.len() - pos >= 4 {
        let b0 = bytes[pos];
        let b1 = bytes[pos + 1];
        let b2 = bytes[pos + 2];
        let b3 = bytes[pos + 3];
        let u = ((b0 as u32) << 24) | ((b1 as u32) << 16) | ((b2 as u32) << 8) | (b3 as u32);
        let v = #[verifier::truncate] (u as i32);
        Some((v, pos + 4))
    } else {
        None
    }
}

fn read_bool(bytes: &Vec<u8>, pos: usize) -> (r: Option<(bool, usize)>)
    ensures
        r is Some <==> dec_bool(bytes@, pos as int) is Some,
        r matches Some((v, np)) ==> dec_bool(bytes@, pos as int) == Some((v, np as int)) && pos
            < np <= bytes@.len(),
{
    match read_u8(bytes, pos) {
        Some((b, np)) => {
            if b == 1 {
                Some((true, np))
            } else if b == 0 {
                Some((false, np))
            } else {
                None
            }
        },
        None => None,
    }
}

fn read_card(bytes: &Vec<u8>, pos: usize) -> (r: Option<(Card, usize)>)
    ensures
        r is Some <==> dec_card(bytes@, pos as int) is Some,
        r matches Some((v, np)) ==> dec_card(bytes@, pos as int) == Some((v, np as int)) && pos
            < np <= bytes@.len(),
{
    let (sb, p1) = match read_u8(bytes, pos) {
        Some(x) => x,
        None => {
            return None;
        },
    };
    let suit = if sb == 0 {
        Suit::Club
    } else if sb == 1 {
        Suit::Diamond
    } else if sb == 2 {
        Suit::Heart
    } else if sb == 3 {
        Suit::Spade
    } else if sb == 4 {
        Suit::Joker
    } else {
        return None;
    };
    let (rb, p2) = match read_u8(bytes, p1) {
        Some(x) => x,
        None => {
            return None;
        },
    };
    let rank = if rb == 0 {
        Rank::Two
    } else if rb == 1 {
        Rank::Three
    } else if rb == 2 {
        Rank::Four
    } else if rb == 3 {
        Rank::Five
    } else if rb == 4 {
        Rank::Six
    } else if rb == 5 {
        Rank::Seven
    } else if rb == 6 {
        Rank::Eight
    } else if rb == 7 {
        Rank::Nine
    } else if rb == 8 {
        Rank::Ten
    } else if rb == 9 {
        Rank::Jack
    } else if rb == 10 {
        Rank::Queen
    } else if rb == 11 {
        Rank::King
    } else if rb == 12 {
        Rank::Ace
    } else if rb == 13 {
        Rank::LittleJoker
    } else if rb == 14 {
        Rank::BigJoker
    } else {
        return None;
    };
    let (hide, p3) = match read_bool(bytes, p2) {
        Some(x) => x,
        None => {
            return None;
        },
    };
    Some((Card { suit, rank, hide }, p3))
}

#[verifier::loop_isolation(false)]
fn read_cards(bytes: &Vec<u8>, pos: usize) -> (r: Option<(Vec<Card>, usize)>)
    ensures
        r is Some <==> dec_cards(bytes@, pos as int) is Some,
        r matches Some((v, np)) ==> dec_cards(bytes@, pos as int) == Some((v@, np as int)) && pos
            < np <= bytes@.len(),
{
    let (n, mut p) = match read_u64(bytes, pos) {
        Some(x) => x,
        None => {
            return None;
        },
    };
    let ghost start = p as int;
    let mut cards: Vec<Card> = Vec::new();
    let mut k: u64 = 0;
    while k < n
        invariant
            k <= n,
            pos < p <= bytes@.len(),
            dec_cards_n(bytes@, start, n as int) == (match dec_cards_n(
                bytes@,
                p as int,
                n as int - k as int,
            ) {
                Some((cs, e)) => Some((cards@ + cs, e)),
                None => None::<(Seq<Card>, int)>,
            }),
        decreases n - k,
    {
        let (c, np) = match read_card(bytes, p) {
            Some(x) => x,
            None => {
                proof {
                    assert(dec_cards_n(bytes@, p as int, n as int - k as int) is None);
                }
                return None;
            },
        };
        cards.push(c);
        proof {
            assert(cards@ =~= cards@.drop_last().push(c));
        }
        let ghost rem = n as int - k as int - 1;
        proof {
            let prev = cards@.drop_last();
            match dec_cards_n(bytes@, np as int, rem) {
                Some((cs, e)) => {
                    assert(prev + (seq![c] + cs) =~= cards@ + cs);
                },
                None => {},
            }
        }
        p = np;
        k = k + 1;
    }
    proof {
        assert(dec_cards_n(bytes@, p as int, 0) == Some((Seq::<Card>::empty(), p as int)));
        assert(cards@ + Seq::<Card>::empty() =~= cards@);
    }
    Some((cards, p))
}

// ---------------------------------------------------------------------
// Composite values: identifiers, players, seats, rooms, events.
// ---------------------------------------------------------------------

/// Sixteen bytes: the two big-endian halves of the identifier.
pub open spec fn enc_peer(p: PeerId) -> Seq<u8> {
    enc_u64(p.hi) + enc_u64(p.lo)
}

/// The byte standing for a room state.
pub open spec fn room_state_byte(rs: RoomState) -> u8 {
    match rs {
        RoomState::Free => 0,
        RoomState::Waiting => 1,
        RoomState::Gaming => 2,
    }
}

/// The room state a byte stands for, if any.
pub open spec fn room_state_from_byte(b: u8) -> Option<RoomState> {
    if b == 0 {
        Some(RoomState::Free)
    } else if b == 1 {
        Some(RoomState::Waiting)
    } else if b == 2 {
        Some(RoomState::Gaming)
    } else {
        None
    }
}

/// A presence byte, then the room state if present.
pub open spec fn enc_opt_room_state(o: Option<RoomState>) -> Seq<u8> {
    match o {
        None => seq![0u8],
        Some(rs) => seq![1u8, room_state_byte(rs)],
    }
}

/// A presence byte, then the integer if present.
pub open spec fn enc_opt_i32(o: Option<i32>) -> Seq<u8> {
    match o {
        None => seq![0u8],
        Some(x) => seq![1u8] + enc_i32(x),
    }
}

/// Identifier, room state, room index, turn flag, hand.
pub open spec fn enc_player(p: PlayerV) -> Seq<u8> {
    enc_peer(p.id) + enc_opt_room_state(p.room_state) + enc_opt_i32(p.room_index) + enc_bool(
        p.current_round,
    ) + enc_cards(p.hand_cards)
}

/// A player followed by its seat index.
pub open spec fn enc_room_player(rp: RoomPlayerV) -> Seq<u8> {
    enc_player(rp.player) + seq![rp.room_position as u8]
}

/// A presence byte, then the seated player if the seat is occupied.
pub open spec fn enc_seat(s: Option<RoomPlayerV>) -> Seq<u8> {
    match s {
        None => seq![0u8],
        Some(rp) => seq![1u8] + enc_room_player(rp),
    }
}

/// The three seats, the owner, the dirty flag.
pub open spec fn enc_room(r: RoomV) -> Seq<u8>
    recommends
        room_wf(r),
{
    enc_seat(r.players[0]) + enc_seat(r.players[1]) + enc_seat(r.players[2]) + enc_room_player(
        r.owner,
    ) + enc_bool(r.changed)
}

/// A tag byte, then the variant's fields.
pub open spec fn enc_event(e: EventV) -> Seq<u8>
    recommends
        event_wf(e),
{
    match e {
        EventV::SyncRoom(room) => seq![0u8] + enc_room(room),
        EventV::JoinRoom => seq![1u8],
        EventV::JoinRoomSuccess(room) => seq![2u8] + enc_room(room),
        EventV::Test(x) => seq![3u8] + enc_i32(x),
    }
}

/// The sender, then the event.
pub open spec fn enc_addressed(a: AddressedEventV) -> Seq<u8>
    recommends
        event_wf(a.event),
{
    enc_player(a.src) + enc_event(a.event)
}

/// Reads a peer identifier.
pub open spec fn dec_peer(s: Seq<u8>, i: int) -> Option<(PeerId, int)> {
    match dec_u64(s, i) {
        Some((hi, j)) => match dec_u64(s, j) {
            Some((lo, k)) => Some((PeerId { hi, lo }, k)),
            None => None,
        },
        None => None,
    }
}

/// Reads an optional room state.
pub open spec fn dec_opt_room_state(s: Seq<u8>, i: int) -> Option<(Option<RoomState>, int)> {
    match dec_u8(s, i) {
        Some((tag, j)) => if tag == 0 {
            Some((None, j))
        } else if tag == 1 {
            match dec_u8(s, j) {
                Some((b, k)) => match room_state_from_byte(b) {
                    Some(rs) => Some((Some(rs), k)),
                    None => None,
                },
                None => None,
            }
        } else {
            None
        },
        None => None,
    }
}

/// Reads an optional 32-bit integer.
pub open spec fn dec_opt_i32(s: Seq<u8>, i: int) -> Option<(Option<i32>, int)> {
    match dec_u8(s, i) {
        Some((tag, j)) => if tag == 0 {
            Some((None, j))
        } else if tag == 1 {
            match dec_i32(s, j) {
                Some((x, k)) => Some((Some(x), k)),
                None => None,
            }
        } else {
            None
        },
        None => None,
    }
}

/// Reads a player.
pub open spec fn dec_player(s: Seq<u8>, i: int) -> Option<(PlayerV, int)> {
    match dec_peer(s, i) {
        Some((id, j1)) => match dec_opt_room_state(s, j1) {
            Some((room_state, j2)) => match dec_opt_i32(s, j2) {
                Some((room_index, j3)) => match dec_bool(s, j3) {
                    Some((current_round, j4)) => match dec_cards(s, j4) {
                        Some((hand_cards, j5)) => Some(
                            (
                                PlayerV {
                                    id,
                                    room_state,
                                    room_index,
                                    current_round,
                                    hand_cards,
                                },
                                j5,
                            ),
                        ),
                        None => None,
                    },
                    None => None,
                },
                None => None,
            },
            None => None,
        },
        None => None,
    }
}

/// Reads a seated player.
pub open spec fn dec_room_player(s: Seq<u8>, i: int) -> Option<(RoomPlayerV, int)> {
    match dec_player(s, i) {
        Some((player, j)) => match dec_u8(s, j) {
            Some((b, k)) => Some((RoomPlayerV { player, room_position: b as i8 }, k)),
            None => None,
        },
        None => None,
    }
}

/// Reads one seat.
pub open spec fn dec_seat(s: Seq<u8>, i: int) -> Option<(Option<RoomPlayerV>, int)> {
    match dec_u8(s, i) {
        Some((tag, j)) => if tag == 0 {
            Some((None, j))
        } else if tag == 1 {
            match dec_room_player(s, j) {
                Some((rp, k)) => Some((Some(rp), k)),
                None => None,
            }
        } else {
            None
        },
        None => None,
    }
}

/// Reads a room; the result always has its three seats.
pub open spec fn dec_room(s: Seq<u8>, i: int) -> Option<(RoomV, int)> {
    match dec_seat(s, i) {
        Some((s0, j1)) => match dec_seat(s, j1) {
            Some((s1, j2)) => match dec_seat(s, j2) {
                Some((s2, j3)) => match dec_room_player(s, j3) {
                    Some((owner, j4)) => match dec_bool(s, j4) {
                        Some((changed, j5)) => Some(
                            (RoomV { players: seq![s0, s1, s2], owner, changed }, j5),
                        ),
                        None => None,
                    },
                    None => None,
                },
                None => None,
            },
            None => None,
        },
        None => None,
    }
}

/// Reads an event.
pub open spec fn dec_event(s: Seq<u8>, i: int) -> Option<(EventV, int)> {
    match dec_u8(s, i) {
        Some((tag, j)) => if tag == 0 {
            match dec_room(s, j) {
                Some((room, k)) => Some((EventV::SyncRoom(room), k)),
                None => None,
            }
        } else if tag == 1 {
            Some((EventV::JoinRoom, j))
        } else if tag == 2 {
            match dec_room(s, j) {
                Some((room, k)) => Some((EventV::JoinRoomSuccess(room), k)),
                None => None,
            }
        } else if tag == 3 {
            match dec_i32(s, j) {
                Some((x, k)) => Some((EventV::Test(x), k)),
                None => None,
            }
        } else {
            None
        },
        None => None,
    }
}

/// Reads a wire envelope.
pub open spec fn dec_addressed(s: Seq<u8>, i: int) -> Option<(AddressedEventV, int)> {
    match dec_player(s, i) {
        Some((src, j)) => match dec_event(s, j) {
            Some((event, k)) => Some((AddressedEventV { src, event }, k)),
            None => None,
        },
        None => None,
    }
}

/// What a whole payload decodes to: one envelope, consuming every byte.
pub open spec fn spec_decode(s: Seq<u8>) -> Option<AddressedEventV> {
    match dec_addressed(s, 0) {
        Some((a, i)) => if i == s.len() {
            Some(a)
        } else {
            None
        },
        None => None,
    }
}

// ---------------------------------------------------------------------
// Executable writers for the composite values.
// ---------------------------------------------------------------------

fn put_peer(out: &mut Vec<u8>, p: &PeerId)
    ensures
        final(out)@ == old(out)@ + enc_peer(*p),
{
    put_u64(out, p.hi);
    put_u64(out, p.lo);
    proof {
        assert(out@ =~= old(out)@ + enc_peer(*p));
    }
}

fn put_opt_room_state(out: &mut Vec<u8>, o: &Option<RoomState>)
    ensures
        final(out)@ == old(out)@ + enc_opt_room_state(*o),
{
    let ghost before = out@;
    match o {
        None => {
            out.push(0u8);
        },
        Some(rs) => {
            out.push(1u8);
            let b: u8 = match rs {
                RoomState::Free => 0,
                RoomState::Waiting => 1,
                RoomState::Gaming => 2,
            };
            out.push(b);
        },
    }
    proof {
        assert(out@ =~= before + enc_opt_room_state(*o));
    }
}

fn put_opt_i32(out: &mut Vec<u8>, o: &Option<i32>)
    ensures
        final(out)@ == old(out)@ + enc_opt_i32(*o),
{
    let ghost before = out@;
    match o {
        None => {
            out.push(0u8);
        },
        Some(x) => {
            out.push(1u8);
            put_i32(out, *x);
        },
    }
    proof {
        assert(out@ =~= before + enc_opt_i32(*o));
    }
}

fn put_player(out: &mut Vec<u8>, p: &Player)
    ensures
        final(out)@ == old(out)@ + enc_player(p@),
{
    let ghost before = out@;
    put_peer(out, &p.id);
    put_opt_room_state(out, &p.room_state);
    put_opt_i32(out, &p.room_index);
    put_bool(out, p.current_round);
    put_cards(out, &p.hand_cards);
    proof {
        assert(out@ =~= before + enc_player(p@));
    }
}

fn put_room_player(out: &mut Vec<u8>, rp: &RoomPlayer)
    ensures
        final(out)@ == old(out)@ + enc_room_player(rp@),
{
    let ghost before = out@;
    put_player(out, &rp.player);
    out.push(#[verifier::truncate] (rp.room_position as u8));
    proof {
        assert(out@ =~= before + enc_room_player(rp@));
    }
}

fn put_seat(out: &mut Vec<u8>, s: &Option<RoomPlayer>)
    ensures
        final(out)@ == old(out)@ + enc_seat(crate::room::seat_view(*s)),
{
    let ghost before = out@;
    match s {
        None => {
            out.push(0u8);
        },
        Some(rp) => {
            out.push(1u8);
            put_room_player(out, rp);
        },
    }
    proof {
        assert(out@ =~= before + enc_seat(crate::room::seat_view(*s)));
    }
}

#[verifier::rlimit(30)]
fn put_room(out: &mut Vec<u8>, room: &Room)
    requires
        room_wf(room@),
    ensures
        final(out)@ == old(out)@ + enc_room(room@),
{
    let ghost before = out@;
    proof {
        assert(crate::room::seat_view(room.players@[0]) == room@.players[0]);
        assert(crate::room::seat_view(room.players@[1]) == room@.players[1]);
        assert(crate::room::seat_view(room.players@[2]) == room@.players[2]);
    }
    put_seat(out, &room.players[0]);
    let ghost a0 = out@;
    put_seat(out, &room.players[1]);
    let ghost a1 = out@;
    proof {
        assert(a1 =~= before + (enc_seat(room@.players[0]) + enc_seat(room@.players[1])));
    }
    put_seat(out, &room.players[2]);
    let ghost a2 = out@;
    proof {
        assert(a2 =~= before + (enc_seat(room@.players[0]) + enc_seat(room@.players[1])
            + enc_seat(room@.players[2])));
    }
    put_room_player(out, &room.owner);
    let ghost a3 = out@;
    proof {
        assert(a3 =~= before + (enc_seat(room@.players[0]) + enc_seat(room@.players[1])
            + enc_seat(room@.players[2]) + enc_room_player(room@.owner)));
    }
    put_bool(out, room.changed);
    proof {
        assert(out@ =~= before + enc_room(room@));
    }
}

/// Turns one wire envelope into its payload bytes. Any room carried by the
/// event must have its three seats; nothing else is unrepresentable.
pub fn encode(ev: &AddressedEvent) -> (out: Vec<u8>)
    requires
        event_wf(ev@.event),
    ensures
        out@ == enc_addressed(ev@),
{
    let mut out: Vec<u8> = Vec::new();
    put_player(&mut out, &ev.src);
    let ghost after_src = out@;
    match &ev.event {
        Event::SyncRoom(room) => {
            out.push(0u8);
            put_room(&mut out, room);
        },
        Event::JoinRoom => {
            out.push(1u8);
        },
        Event::JoinRoomSuccess(room) => {
            out.push(2u8);
            put_room(&mut out, room);
        },
        Event::Test(x) => {
            out.push(3u8);
            put_i32(&mut out, *x);
        },
    }
    proof {
        assert(after_src =~= Seq::<u8>::empty() + enc_player(ev@.src));
        assert(out@ =~= enc_player(ev@.src) + enc_event(ev@.event));
    }
    out
}

// ---------------------------------------------------------------------
// Executable readers for the composite values.
// ---------------------------------------------------------------------

fn read_peer(bytes: &Vec<u8>, pos: usize) -> (r: Option<(PeerId, usize)>)
    ensures
        r is Some <==> dec_peer(bytes@, pos as int) is Some,
        r matches Some((v, np)) ==> dec_peer(bytes@, pos as int) == Some((v, np as int)) && pos
            < np <= bytes@.len(),
{
    let (hi, p1) = match read_u64(bytes, pos) {
        Some(x) => x,
        None => {
            return None;
        },
    };
    let (lo, p2) = match read_u64(bytes, p1) {
        Some(x) => x,
        None => {
            return None;
        },
    };
    Some((PeerId { hi, lo }, p2))
}

fn read_opt_room_state(bytes: &Vec<u8>, pos: usize) -> (r: Option<(Option<RoomState>, usize)>)
    ensures
        r is Some <==> dec_opt_room_state(bytes@, pos as int) is Some,
        r matches Some((v, np)) ==> dec_opt_room_state(bytes@, pos as int) == Some(
            (v, np as int),
        ) && pos < np <= bytes@.len(),
{
    let (tag, p1) = match read_u8(bytes, pos) {
        Some(x) => x,
        None => {
            return None;
        },
    };
    if tag == 0 {
        Some((None, p1))
    } else if tag == 1 {
        let (b, p2) = match read_u8(bytes, p1) {
            Some(x) => x,
            None => {
                return None;
            },
        };
        let rs = if b == 0 {
            RoomState::Free
        } else if b == 1 {
            RoomState::Waiting
        } else if b == 2 {
            RoomState::Gaming
        } else {
            return None;
        };
        Some((Some(rs), p2))
    } else {
        None
    }
}

fn read_opt_i32(bytes: &Vec<u8>, pos: usize) -> (r: Option<(Option<i32>, usize)>)
    ensures
        r is Some <==> dec_opt_i32(bytes@, pos as int) is Some,
        r matches Some((v, np)) ==> dec_opt_i32(bytes@, pos as int) == Some((v, np as int)) && pos
            < np <= bytes@.len(),
{
    let (tag, p1) = match read_u8(bytes, pos) {
        Some(x) => x,
        None => {
            return None;
        },
    };
    if tag == 0 {
        Some((None, p1))
    } else if tag == 1 {
        let (x, p2) = match read_i32(bytes, p1) {
            Some(x) => x,
            None => {
                return None;
            },
        };
        Some((Some(x), p2))
    } else {
        None
    }
}

fn read_player(bytes: &Vec<u8>, pos: usize) -> (r: Option<(Player, usize)>)
    ensures
        r is Some <==> dec_player(bytes@, pos as int) is Some,
        r matches Some((v, np)) ==> dec_player(bytes@, pos as int) == Some((v@, np as int)) && pos
            < np <= bytes@.len(),
{
    let (id, p1) = match read_peer(bytes, pos) {
        Some(x) => x,
        None => {
            return None;
        },
    };
    let (room_state, p2) = match read_opt_room_state(bytes, p1) {
        Some(x) => x,
        None => {
            return None;
        },
    };
    let (room_index, p3) = match read_opt_i32(bytes, p2) {
        Some(x) => x,
        None => {
            return None;
        },
    };
    let (current_round, p4) = match read_bool(bytes, p3) {
        Some(x) => x,
        None => {
            return None;
        },
    };
    let (hand_cards, p5) = match read_cards(bytes, p4) {
        Some(x) => x,
        None => {
            return None;
        },
    };
    Some((Player { id, room_state, room_index, current_round, hand_cards }, p5))
}

fn read_room_player(bytes: &Vec<u8>, pos: usize) -> (r: Option<(RoomPlayer, usize)>)
    ensures
        r is Some <==> dec_room_player(bytes@, pos as int) is Some,
        r matches Some((v, np)) ==> dec_room_player(bytes@, pos as int) == Some((v@, np as int))
            && pos < np <= bytes@.len(),
{
    let (player, p1) = match read_player(bytes, pos) {
        Some(x) => x,
        None => {
            return None;
        },
    };
    let (b, p2) = match read_u8(bytes, p1) {
        Some(x) => x,
        None => {
            return None;
        },
    };
    Some((RoomPlayer { player, room_position: #[verifier::truncate] (b as i8) }, p2))
}

fn read_seat(bytes: &Vec<u8>, pos: usize) -> (r: Option<(Option<RoomPlayer>, usize)>)
    ensures
        r is Some <==> dec_seat(bytes@, pos as int) is Some,
        r matches Some((v, np)) ==> dec_seat(bytes@, pos as int) == Some(
            (crate::room::seat_view(v), np as int),
        ) && pos < np <= bytes@.len(),
{
    let (tag, p1) = match read_u8(bytes, pos) {
        Some(x) => x,
        None => {
            return None;
        },
    };
    if tag == 0 {
        Some((None, p1))
    } else if tag == 1 {
        let (rp, p2) = match read_room_player(bytes, p1) {
            Some(x) => x,
            None => {
                return None;
            },
        };
        Some((Some(rp), p2))
    } else {
        None
    }
}

fn read_room(bytes: &Vec<u8>, pos: usize) -> (r: Option<(Room, usize)>)
    ensures
        r is Some <==> dec_room(bytes@, pos as int) is Some,
        r matches Some((v, np)) ==> dec_room(bytes@, pos as int) == Some((v@, np as int)) && pos
            < np <= bytes@.len() && room_wf(v@),
{
    let (s0, p1) = match read_seat(bytes, pos) {
        Some(x) => x,
        None => {
            return None;
        },
    };
    let (s1, p2) = match read_seat(bytes, p1) {
        Some(x) => x,
        None => {
            return None;
        },
    };
    let (s2, p3) = match read_seat(bytes, p2) {
        Some(x) => x,
        None => {
            return None;
        },
    };
    let (owner, p4) = match read_room_player(bytes, p3) {
        Some(x) => x,
        None => {
            return None;
        },
    };
    let (changed, p5) = match read_bool(bytes, p4) {
        Some(x) => x,
        None => {
            return None;
        },
    };
    let room = Room { players: vec![s0, s1, s2], owner, changed };
    proof {
        assert(room@.players =~= seq![
            crate::room::seat_view(room.players@[0]),
            crate::room::seat_view(room.players@[1]),
            crate::room::seat_view(room.players@[2]),
        ]);
    }
    Some((room, p5))
}

fn read_event(bytes: &Vec<u8>, pos: usize) -> (r: Option<(Event, usize)>)
    ensures
        r is Some <==> dec_event(bytes@, pos as int) is Some,
        r matches Some((v, np)) ==> dec_event(bytes@, pos as int) == Some((v@, np as int)) && pos
            < np <= bytes@.len() && event_wf(v@),
{
    let (tag, p1) = match read_u8(bytes, pos) {
        Some(x) => x,
        None => {
            return None;
        },
    };
    if tag == 0 {
        let (room, p2) = match read_room(bytes, p1) {
            Some(x) => x,
            None => {
                return None;
            },
        };
        Some((Event::SyncRoom(room), p2))
    } else if tag == 1 {
        Some((Event::JoinRoom, p1))
    } else if tag == 2 {
        let (room, p2) = match read_room(bytes, p1) {
            Some(x) => x,
            None => {
                return None;
            },
        };
        Some((Event::JoinRoomSuccess(room), p2))
    } else if tag == 3 {
        let (x, p2) = match read_i32(bytes, p1) {
            Some(x) => x,
            None => {
                return None;
            },
        };
        Some((Event::Test(x), p2))
    } else {
        None
    }
}

/// Turns a payload back into a wire envelope. Exactly the payloads this
/// module produces are accepted: decoding succeeds if and only if the bytes
/// are one whole well-formed encoding, and a decoded event always carries
/// three-seat rooms.
pub fn decode(bytes: &Vec<u8>) -> (r: Result<AddressedEvent, DecodeError>)
    ensures
        r is Ok <==> spec_decode(bytes@) is Some,
        r matches Ok(e) ==> spec_decode(bytes@) == Some(e@) && event_wf(e@.event),
{
    let (src, p1) = match read_player(bytes, 0) {
        Some(x) => x,
        None => {
            return Err(DecodeError);
        },
    };
    let (event, p2) = match read_event(bytes, p1) {
        Some(x) => x,
        None => {
            return Err(DecodeError);
        },
    };
    if p2 == bytes.len() {
        Ok(AddressedEvent { src, event })
    } else {
        Err(DecodeError)
    }
}

/// The events of the payloads that decode, in order; malformed payloads
/// contribute nothing.
pub open spec fn spec_decode_batch(payloads: Seq<Seq<u8>>) -> Seq<AddressedEventV>
    decreases payloads.len(),
{
    if payloads.len() == 0 {
        Seq::<AddressedEventV>::empty()
    } else {
        spec_decode_batch(payloads.drop_last()) + (match spec_decode(payloads.last()) {
            Some(e) => seq![e],
            None => Seq::<AddressedEventV>::empty(),
        })
    }
}

/// The byte strings of a batch of payloads.
pub open spec fn payloads_view(ps: Seq<Vec<u8>>) -> Seq<Seq<u8>> {
    ps.map_values(|p: Vec<u8>| p@)
}

/// Decodes a whole batch of received payloads, silently dropping each
/// malformed one: a bad payload never halts the processing of the rest.
/// Every decoded event carries three-seat rooms.
#[verifier::loop_isolation(false)]
pub fn decode_batch(payloads: &Vec<Vec<u8>>) -> (evs: Vec<AddressedEvent>)
    ensures
        events_view(evs@) == spec_decode_batch(payloads_view(payloads@)),
        forall|i: int| 0 <= i < evs@.len() ==> event_wf(#[trigger] evs@[i]@.event),
{
    let ghost ps = payloads_view(payloads@);
    let mut evs: Vec<AddressedEvent> = Vec::new();
    let n = payloads.len();
    let mut i: usize = 0;
    while i < n
        invariant
            n == payloads.len(),
            i <= n,
            events_view(evs@) == spec_decode_batch(ps.take(i as int)),
            forall|k: int| 0 <= k < evs@.len() ==> event_wf(#[trigger] evs@[k]@.event),
        decreases n - i,
    {
        proof {
            assert(ps.take(i + 1).drop_last() =~= ps.take(i as int));
            assert(ps.take(i + 1).last() == ps[i as int]);
        }
        let ghost evs_before = events_view(evs@);
        match decode(&payloads[i]) {
            Ok(e) => {
                evs.push(e);
                proof {
                    assert(events_view(evs@) =~= evs_before.push(e@));
                    assert(events_view(evs@) =~= spec_decode_batch(ps.take(i + 1)));
                }
            },
            Err(_) => {
                proof {
                    assert(events_view(evs@) =~= spec_decode_batch(ps.take(i + 1)));
                }
            },
        }
        i = i + 1;
    }
    proof {
        assert(ps.take(n as int) =~= ps);
    }
    evs
}

// ---------------------------------------------------------------------
// The codec's law: every payload this module produces decodes back to
// the value it was produced from.
// ---------------------------------------------------------------------

/// A player value the codec can represent: the hand count fits its field.
pub open spec fn player_enc_wf(p: PlayerV) -> bool {
    p.hand_cards.len() <= u64::MAX
}

/// A seat value the codec can represent.
pub open spec fn seat_enc_wf(s: Option<RoomPlayerV>) -> bool {
    match s {
        Some(rp) => player_enc_wf(rp.player),
        None => true,
    }
}

/// A room value the codec can represent: three seats, every carried hand
/// count in range.
pub open spec fn room_enc_wf(r: RoomV) -> bool {
    &&& room_wf(r)
    &&& seat_enc_wf(r.players[0])
    &&& seat_enc_wf(r.players[1])
    &&& seat_enc_wf(r.players[2])
    &&& player_enc_wf(r.owner.player)
}

/// An event value the codec can represent.
pub open spec fn event_enc_wf(e: EventV) -> bool {
    match e {
        EventV::SyncRoom(room) => room_enc_wf(room),
        EventV::JoinRoomSuccess(room) => room_enc_wf(room),
        _ => true,
    }
}

/// An envelope value the codec can represent.
pub open spec fn addressed_enc_wf(a: AddressedEventV) -> bool {
    player_enc_wf(a.src) && event_enc_wf(a.event)
}

proof fn lemma_subrange_concat(s: Seq<u8>, i: int, e1: Seq<u8>, e2: Seq<u8>)
    requires
        0 <= i,
        i + e1.len() + e2.len() <= s.len(),
        s.subrange(i, i + e1.len() + e2.len()) == e1 + e2,
    ensures
        s.subrange(i, i + e1.len()) == e1,
        s.subrange(i + e1.len(), i + e1.len() + e2.len()) == e2,
{
    assert(s.subrange(i, i + e1.len()) =~= e1) by {
        assert forall|k: int| 0 <= k < e1.len() implies s.subrange(i, i + e1.len())[k] == e1[k] by {
            assert(s.subrange(i, i + e1.len() + e2.len())[k] == (e1 + e2)[k]);
        }
    }
    assert(s.subrange(i + e1.len(), i + e1.len() + e2.len()) =~= e2) by {
        assert forall|k: int| 0 <= k < e2.len() implies s.subrange(
            i + e1.len(),
            i + e1.len() + e2.len(),
        )[k] == e2[k] by {
            assert(s.subrange(i + e1.len(), i + e1.len() + e2.len())[k] == s[i + e1.len() + k]);
            assert(s.subrange(i, i + e1.len() + e2.len())[e1.len() + k] == s[i + e1.len() + k]);
            assert(s.subrange(i, i + e1.len() + e2.len())[e1.len() + k] == (e1 + e2)[e1.len()
                + k]);
        }
    }
}

proof fn lemma_u64_roundtrip(x: u64)
    ensures
        u64_from_bytes(
            (x >> 56) as u8,
            (x >> 48) as u8,
            (x >> 40) as u8,
            (x >> 32) as u8,
            (x >> 24) as u8,
            (x >> 16) as u8,
            (x >> 8) as u8,
            x as u8,
        ) == x,
{
    assert(((((x >> 56) as u8) as u64) << 56) | ((((x >> 48) as u8) as u64) << 48) | ((((x >> 40)
        as u8) as u64) << 40) | ((((x >> 32) as u8) as u64) << 32) | ((((x >> 24) as u8) as u64)
        << 24) | ((((x >> 16) as u8) as u64) << 16) | ((((x >> 8) as u8) as u64) << 8) | ((
    x as u8) as u64) == x) by (bit_vector);
}

proof fn lemma_dec_u64_enc(s: Seq<u8>, i: int, x: u64)
    requires
        0 <= i,
        i + 8 <= s.len(),
        s.subrange(i, i + 8) == enc_u64(x),
    ensures
        dec_u64(s, i) == Some((x, i + 8)),
{
    assert(s[i] == enc_u64(x)[0]) by {
        assert(s.subrange(i, i + 8)[0] == s[i]);
    }
    assert(s[i + 1] == enc_u64(x)[1]) by {
        assert(s.subrange(i, i + 8)[1] == s[i + 1]);
    }
    assert(s[i + 2] == enc_u64(x)[2]) by {
        assert(s.subrange(i, i + 8)[2] == s[i + 2]);
    }
    assert(s[i + 3] == enc_u64(x)[3]) by {
        assert(s.subrange(i, i + 8)[3] == s[i + 3]);
    }
    assert(s[i + 4] == enc_u64(x)[4]) by {
        assert(s.subrange(i, i + 8)[4] == s[i + 4]);
    }
    assert(s[i + 5] == enc_u64(x)[5]) by {
        assert(s.subrange(i, i + 8)[5] == s[i + 5]);
    }
    assert(s[i + 6] == enc_u64(x)[6]) by {
        assert(s.subrange(i, i + 8)[6] == s[i + 6]);
    }
    assert(s[i + 7] == enc_u64(x)[7]) by {
        assert(s.subrange(i, i + 8)[7] == s[i + 7]);
    }
    lemma_u64_roundtrip(x);
}

proof fn lemma_dec_i32_enc(s: Seq<u8>, i: int, x: i32)
    requires
        0 <= i,
        i + 4 <= s.len(),
        s.subrange(i, i + 4) == enc_i32(x),
    ensures
        dec_i32(s, i) == Some((x, i + 4)),
{
    assert(s[i] == enc_i32(x)[0]) by {
        assert(s.subrange(i, i + 4)[0] == s[i]);
    }
    assert(s[i + 1] == enc_i32(x)[1]) by {
        assert(s.subrange(i, i + 4)[1] == s[i + 1]);
    }
    assert(s[i + 2] == enc_i32(x)[2]) by {
        assert(s.subrange(i, i + 4)[2] == s[i + 2]);
    }
    assert(s[i + 3] == enc_i32(x)[3]) by {
        assert(s.subrange(i, i + 4)[3] == s[i + 3]);
    }
    assert((((((((x as u32) >> 24) as u8) as u32) << 24) | (((((x as u32) >> 16) as u8) as u32)
        << 16) | (((((x as u32) >> 8) as u8) as u32) << 8) | (((x as u32) as u8) as u32))
        as i32) == x) by (bit_vector);
}

proof fn lemma_dec_bool_enc(s: Seq<u8>, i: int, b: bool)
    requires
        0 <= i,
        i + 1 <= s.len(),
        s.subrange(i, i + 1) == enc_bool(b),
    ensures
        dec_bool(s, i) == Some((b, i + 1)),
{
    assert(s[i] == enc_bool(b)[0]) by {
        assert(s.subrange(i, i + 1)[0] == s[i]);
    }
}

proof fn lemma_dec_card_enc(s: Seq<u8>, i: int, c: Card)
    requires
        0 <= i,
        i + 3 <= s.len(),
        s.subrange(i, i + 3) == enc_card(c),
    ensures
        dec_card(s, i) == Some((c, i + 3)),
{
    assert(s[i] == suit_byte(c.suit)) by {
        assert(s.subrange(i, i + 3)[0] == s[i]);
    }
    assert(s[i + 1] == rank_byte(c.rank)) by {
        assert(s.subrange(i, i + 3)[1] == s[i + 1]);
    }
    assert(s[i + 2] == enc_bool(c.hide)[0]) by {
        assert(s.subrange(i, i + 3)[2] == s[i + 2]);
    }
}

proof fn lemma_enc_cards_body_len(cs: Seq<Card>)
    ensures
        enc_cards_body(cs).len() == 3 * cs.len(),
    decreases cs.len(),
{
    if cs.len() > 0 {
        lemma_enc_cards_body_len(cs.drop_first());
    }
}

proof fn lemma_dec_cards_n_enc(s: Seq<u8>, i: int, cs: Seq<Card>)
    requires
        0 <= i,
        i + enc_cards_body(cs).len() <= s.len(),
        s.subrange(i, i + enc_cards_body(cs).len()) == enc_cards_body(cs),
    ensures
        dec_cards_n(s, i, cs.len() as int) == Some((cs, i + enc_cards_body(cs).len())),
    decreases cs.len(),
{
    if cs.len() == 0 {
        assert(cs =~= Seq::<Card>::empty());
    } else {
        let e1 = enc_card(cs.first());
        let e2 = enc_cards_body(cs.drop_first());
        assert(enc_cards_body(cs) == e1 + e2);
        lemma_subrange_concat(s, i, e1, e2);
        lemma_dec_card_enc(s, i, cs.first());
        lemma_dec_cards_n_enc(s, i + 3, cs.drop_first());
        assert(seq![cs.first()] + cs.drop_first() =~= cs);
    }
}

proof fn lemma_dec_cards_enc(s: Seq<u8>, i: int, cs: Seq<Card>)
    requires
        0 <= i,
        cs.len() <= u64::MAX,
        i + enc_cards(cs).len() <= s.len(),
        s.subrange(i, i + enc_cards(cs).len()) == enc_cards(cs),
    ensures
        dec_cards(s, i) == Some((cs, i + enc_cards(cs).len())),
{
    if cs.len() == 0 {
        lemma_dec_u64_enc(s, i, 0);
        assert(cs =~= Seq::<Card>::empty());
    } else {
        let e1 = enc_u64(cs.len() as u64);
        let e2 = enc_cards_body(cs);
        assert(enc_cards(cs) == e1 + e2);
        lemma_subrange_concat(s, i, e1, e2);
        lemma_dec_u64_enc(s, i, cs.len() as u64);
        lemma_dec_cards_n_enc(s, i + 8, cs);
        assert((cs.len() as u64) as int == cs.len());
    }
}

proof fn lemma_dec_peer_enc(s: Seq<u8>, i: int, p: PeerId)
    requires
        0 <= i,
        i + 16 <= s.len(),
        s.subrange(i, i + 16) == enc_peer(p),
    ensures
        dec_peer(s, i) == Some((p, i + 16)),
{
    lemma_subrange_concat(s, i, enc_u64(p.hi), enc_u64(p.lo));
    lemma_dec_u64_enc(s, i, p.hi);
    lemma_dec_u64_enc(s, i + 8, p.lo);
}

proof fn lemma_dec_opt_room_state_enc(s: Seq<u8>, i: int, o: Option<RoomState>)
    requires
        0 <= i,
        i + enc_opt_room_state(o).len() <= s.len(),
        s.subrange(i, i + enc_opt_room_state(o).len()) == enc_opt_room_state(o),
    ensures
        dec_opt_room_state(s, i) == Some((o, i + enc_opt_room_state(o).len())),
{
    match o {
        None => {
            assert(s[i] == 0u8) by {
                assert(s.subrange(i, i + 1)[0] == s[i]);
            }
        },
        Some(rs) => {
            assert(s[i] == 1u8 && s[i + 1] == room_state_byte(rs)) by {
                assert(s.subrange(i, i + 2)[0] == s[i]);
                assert(s.subrange(i, i + 2)[1] == s[i + 1]);
            }
        },
    }
}

proof fn lemma_dec_opt_i32_enc(s: Seq<u8>, i: int, o: Option<i32>)
    requires
        0 <= i,
        i + enc_opt_i32(o).len() <= s.len(),
        s.subrange(i, i + enc_opt_i32(o).len()) == enc_opt_i32(o),
    ensures
        dec_opt_i32(s, i) == Some((o, i + enc_opt_i32(o).len())),
{
    match o {
        None => {
            assert(s[i] == 0u8) by {
                assert(s.subrange(i, i + 1)[0] == s[i]);
            }
        },
        Some(x) => {
            lemma_subrange_concat(s, i, seq![1u8], enc_i32(x));
            assert(s[i] == 1u8) by {
                assert(s.subrange(i, i + 1)[0] == s[i]);
            }
            lemma_dec_i32_enc(s, i + 1, x);
        },
    }
}

proof fn lemma_dec_player_enc(s: Seq<u8>, i: int, p: PlayerV)
    requires
        0 <= i,
        player_enc_wf(p),
        i + enc_player(p).len() <= s.len(),
        s.subrange(i, i + enc_player(p).len()) == enc_player(p),
    ensures
        dec_player(s, i) == Some((p, i + enc_player(p).len())),
{
    let e1 = enc_peer(p.id);
    let e2 = enc_opt_room_state(p.room_state);
    let e3 = enc_opt_i32(p.room_index);
    let e4 = enc_bool(p.current_round);
    let e5 = enc_cards(p.hand_cards);
    assert(enc_player(p) == (((e1 + e2) + e3) + e4) + e5);
    lemma_subrange_concat(s, i, ((e1 + e2) + e3) + e4, e5);
    lemma_subrange_concat(s, i, (e1 + e2) + e3, e4);
    lemma_subrange_concat(s, i, e1 + e2, e3);
    lemma_subrange_concat(s, i, e1, e2);
    lemma_dec_peer_enc(s, i, p.id);
    lemma_dec_opt_room_state_enc(s, i + e1.len(), p.room_state);
    lemma_dec_opt_i32_enc(s, i + e1.len() + e2.len(), p.room_index);
    lemma_dec_bool_enc(s, i + e1.len() + e2.len() + e3.len(), p.current_round);
    lemma_dec_cards_enc(s, i + e1.len() + e2.len() + e3.len() + e4.len(), p.hand_cards);
}

proof fn lemma_dec_room_player_enc(s: Seq<u8>, i: int, rp: RoomPlayerV)
    requires
        0 <= i,
        player_enc_wf(rp.player),
        i + enc_room_player(rp).len() <= s.len(),
        s.subrange(i, i + enc_room_player(rp).len()) == enc_room_player(rp),
    ensures
        dec_room_player(s, i) == Some((rp, i + enc_room_player(rp).len())),
{
    let e1 = enc_player(rp.player);
    let e2 = seq![rp.room_position as u8];
    lemma_subrange_concat(s, i, e1, e2);
    lemma_dec_player_enc(s, i, rp.player);
    assert(s[i + e1.len()] == rp.room_position as u8) by {
        assert(s.subrange(i + e1.len(), i + e1.len() + 1)[0] == s[i + e1.len()]);
    }
    let q: i8 = rp.room_position;
    assert(((q as u8) as i8) == q) by (bit_vector);
}

proof fn lemma_dec_seat_enc(s: Seq<u8>, i: int, seat: Option<RoomPlayerV>)
    requires
        0 <= i,
        seat_enc_wf(seat),
        i + enc_seat(seat).len() <= s.len(),
        s.subrange(i, i + enc_seat(seat).len()) == enc_seat(seat),
    ensures
        dec_seat(s, i) == Some((seat, i + enc_seat(seat).len())),
{
    match seat {
        None => {
            assert(s[i] == 0u8) by {
                assert(s.subrange(i, i + 1)[0] == s[i]);
            }
        },
        Some(rp) => {
            lemma_subrange_concat(s, i, seq![1u8], enc_room_player(rp));
            assert(s[i] == 1u8) by {
                assert(s.subrange(i, i + 1)[0] == s[i]);
            }
            lemma_dec_room_player_enc(s, i + 1, rp);
        },
    }
}

#[verifier::rlimit(30)]
proof fn lemma_dec_room_enc(s: Seq<u8>, i: int, r: RoomV)
    requires
        0 <= i,
        room_enc_wf(r),
        i + enc_room(r).len() <= s.len(),
        s.subrange(i, i + enc_room(r).len()) == enc_room(r),
    ensures
        dec_room(s, i) == Some((r, i + enc_room(r).len())),
{
    let e1 = enc_seat(r.players[0]);
    let e2 = enc_seat(r.players[1]);
    let e3 = enc_seat(r.players[2]);
    let e4 = enc_room_player(r.owner);
    let e5 = enc_bool(r.changed);
    assert(enc_room(r) == (((e1 + e2) + e3) + e4) + e5);
    lemma_subrange_concat(s, i, ((e1 + e2) + e3) + e4, e5);
    lemma_subrange_concat(s, i, (e1 + e2) + e3, e4);
    lemma_subrange_concat(s, i, e1 + e2, e3);
    lemma_subrange_concat(s, i, e1, e2);
    lemma_dec_seat_enc(s, i, r.players[0]);
    lemma_dec_seat_enc(s, i + e1.len(), r.players[1]);
    lemma_dec_seat_enc(s, i + e1.len() + e2.len(), r.players[2]);
    lemma_dec_room_player_enc(s, i + e1.len() + e2.len() + e3.len(), r.owner);
    lemma_dec_bool_enc(s, i + e1.len() + e2.len() + e3.len() + e4.len(), r.changed);
    assert(seq![r.players[0], r.players[1], r.players[2]] =~= r.players);
}

proof fn lemma_dec_event_enc(s: Seq<u8>, i: int, e: EventV)
    requires
        0 <= i,
        event_enc_wf(e),
        i + enc_event(e).len() <= s.len(),
        s.subrange(i, i + enc_event(e).len()) == enc_event(e),
    ensures
        dec_event(s, i) == Some((e, i + enc_event(e).len())),
{
    match e {
        EventV::SyncRoom(room) => {
            lemma_subrange_concat(s, i, seq![0u8], enc_room(room));
            assert(s[i] == 0u8) by {
                assert(s.subrange(i, i + 1)[0] == s[i]);
            }
            lemma_dec_room_enc(s, i + 1, room);
        },
        EventV::JoinRoom => {
            assert(s[i] == 1u8) by {
                assert(s.subrange(i, i + 1)[0] == s[i]);
            }
        },
        EventV::JoinRoomSuccess(room) => {
            lemma_subrange_concat(s, i, seq![2u8], enc_room(room));
            assert(s[i] == 2u8) by {
                assert(s.subrange(i, i + 1)[0] == s[i]);
            }
            lemma_dec_room_enc(s, i + 1, room);
        },
        EventV::Test(x) => {
            lemma_subrange_concat(s, i, seq![3u8], enc_i32(x));
            assert(s[i] == 3u8) by {
                assert(s.subrange(i, i + 1)[0] == s[i]);
            }
            lemma_dec_i32_enc(s, i + 1, x);
        },
    }
}

/// Decoding inverts encoding: every representable envelope value decodes
/// back, from its own bytes, to exactly itself.
pub proof fn lemma_codec_round_trip(a: AddressedEventV)
    requires
        addressed_enc_wf(a),
    ensures
        spec_decode(enc_addressed(a)) == Some(a),
{
    let s = enc_addressed(a);
    let e1 = enc_player(a.src);
    let e2 = enc_event(a.event);
    assert(s.subrange(0, s.len() as int) =~= s);
    lemma_subrange_concat(s, 0, e1, e2);
    lemma_dec_player_enc(s, 0, a.src);
    lemma_dec_event_enc(s, e1.len() as int, a.event);
    assert(a == (AddressedEventV { src: a.src, event: a.event }));
}

} // verus!
