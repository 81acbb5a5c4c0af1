use poker_lobby::cards::{get_sprite_index, new_deck, shuffle_deck, Card, CardDeck, Rank, Suit};
use poker_lobby::ids::PeerId;
use poker_lobby::player::{Player, RoomState};
use poker_lobby::state::AppState;

#[test]
fn new_deck_has_54_cards_in_order() {
    let deck = new_deck();
    assert_eq!(deck.len(), 54);
    assert_eq!(deck[0], Card::new(Suit::Club, Rank::Two));
    assert_eq!(deck[12], Card::new(Suit::Club, Rank::Ace));
    assert_eq!(deck[13], Card::new(Suit::Diamond, Rank::Two));
    assert_eq!(deck[51], Card::new(Suit::Spade, Rank::Ace));
    assert_eq!(deck[52], Card::new(Suit::Joker, Rank::LittleJoker));
    assert_eq!(deck[53], Card::new(Suit::Joker, Rank::BigJoker));
    // All cards start face up and distinct.
    let mut sorted = deck.clone();
    sorted.sort_by(|a, b| a.partial_cmp(b).unwrap());
    sorted.dedup();
    assert_eq!(sorted.len(), 54);
    assert!(deck.iter().all(|c| !c.hide));
}

#[test]
fn card_deck_matches_new_deck() {
    let deck = CardDeck::new();
    assert_eq!(deck.cards(), &new_deck());
}

#[test]
fn shuffle_keeps_exactly_the_same_cards() {
    let deck = new_deck();
    let shuffled = shuffle_deck(deck.clone());
    assert_eq!(shuffled.len(), 54);
    let mut a = deck;
    let mut b = shuffled;
    a.sort_by(|x, y| x.partial_cmp(y).unwrap());
    b.sort_by(|x, y| x.partial_cmp(y).unwrap());
    assert_eq!(a, b);
}

#[test]
fn flip_toggles_the_face() {
    let mut card = Card::new(Suit::Heart, Rank::Ten);
    assert!(!card.hide);
    card.flip();
    assert!(card.hide);
    card.flip();
    assert!(!card.hide);
}

#[test]
fn sprite_index_of_a_face_up_card_is_the_back_cell() {
    let card = Card::new(Suit::Heart, Rank::Ten);
    assert_eq!(get_sprite_index(&card), 54);
}

#[test]
fn sprite_index_of_hidden_cards() {
    let mut club_ace = Card::new(Suit::Club, Rank::Ace);
    club_ace.flip();
    assert_eq!(get_sprite_index(&club_ace), 390);

    let mut heart_two = Card::new(Suit::Heart, Rank::Two);
    heart_two.flip();
    assert_eq!(get_sprite_index(&heart_two), 1);

    let mut spade_king = Card::new(Suit::Spade, Rank::King);
    spade_king.flip();
    assert_eq!(get_sprite_index(&spade_king), 38);

    let mut big_joker = Card::new(Suit::Joker, Rank::BigJoker);
    big_joker.flip();
    assert_eq!(get_sprite_index(&big_joker), 52);

    let mut little_joker = Card::new(Suit::Joker, Rank::LittleJoker);
    little_joker.flip();
    assert_eq!(get_sprite_index(&little_joker), 53);
}

#[test]
fn cards_order_by_rank_then_suit() {
    let low = Card::new(Suit::Spade, Rank::Two);
    let high = Card::new(Suit::Club, Rank::Three);
    assert!(low < high);

    let club_ten = Card::new(Suit::Club, Rank::Ten);
    let heart_ten = Card::new(Suit::Heart, Rank::Ten);
    assert!(club_ten < heart_ten);

    let big = Card::new(Suit::Joker, Rank::BigJoker);
    let little = Card::new(Suit::Joker, Rank::LittleJoker);
    assert!(little < big);
    assert_eq!(big.partial_cmp(&big), Some(std::cmp::Ordering::Equal));
}

#[test]
fn room_state_defaults_to_free() {
    assert_eq!(RoomState::default(), RoomState::Free);
}

#[test]
fn players_compare_by_id_alone() {
    let mut a = Player::new(PeerId::new(1, 2));
    let b = Player::new(PeerId::new(1, 2));
    let c = Player::new(PeerId::new(1, 3));
    a.current_round = true;
    a.hand_cards.push(Card::new(Suit::Club, Rank::Two));
    assert_eq!(a, b);
    assert!(a != c);
}

#[test]
fn new_player_starts_outside_any_room() {
    let p = Player::new(PeerId::new(4, 5));
    assert_eq!(p.id, PeerId::new(4, 5));
    assert!(p.room_state.is_none());
    assert!(p.room_index.is_none());
    assert!(!p.current_round);
    assert!(p.hand_cards.is_empty());
}

#[test]
fn app_state_starts_loading_and_advances_on_full_room() {
    assert_eq!(AppState::default(), AppState::Loading);
    assert_eq!(AppState::Lobby.on_room_ready(), AppState::DealCard);
    assert_eq!(AppState::InRoom.on_room_ready(), AppState::DealCard);
    assert_eq!(AppState::Playing.on_room_ready(), AppState::Playing);
    assert_eq!(AppState::StartMenu.on_room_ready(), AppState::StartMenu);
}
