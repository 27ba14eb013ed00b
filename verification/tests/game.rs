use rand::SeedableRng;
use wizard::game::{
    EndRoundError, EndTrickError, GameState, PlayCardError, PlayerState, TrickState,
};
use wizard::{Card, Rank, Suit};

fn seeded(seed: u64) -> rand::rngs::StdRng {
    rand::rngs::StdRng::seed_from_u64(seed)
}

fn player(bid: Option<u32>, tricks_won: u32, score: i32) -> PlayerState {
    PlayerState { hand: Vec::new(), bid, tricks_won, score }
}

fn card_of(suit: Suit, rank: Rank) -> Card {
    Card::Standard { suit, rank }
}

#[test]
fn new_game_has_expected_shape() {
    let game = GameState::new(4);
    assert_eq!(game.players.len(), 4);
    assert_eq!(game.current_round, 0);
    assert_eq!(game.dealer_index, 0);
    assert_eq!(game.player_index, 1);
    assert!(game.trump_suit.is_none());
    assert!(game.current_trick.is_none());
    for p in &game.players {
        assert!(p.hand.is_empty());
        assert!(p.bid.is_none());
        assert_eq!(p.tricks_won, 0);
        assert_eq!(p.score, 0);
    }
}

#[test]
fn first_round_deals_one_card_each() {
    let mut game = GameState::new(4);
    let mut rng = seeded(11);
    assert!(game.start_round(&mut rng));
    assert_eq!(game.current_round, 1);
    assert_eq!(game.dealer_index, 1);
    assert_eq!(game.player_index, 2);
    for p in &game.players {
        assert_eq!(p.hand.len(), 1);
        assert!(p.bid.is_none());
    }
    assert!(game.trump_suit.is_some());
    // 4 hands of 1 card plus the trump reveal leave 51 of 56 cards.
    assert_eq!(game.deck.len(), 51);
}

#[test]
fn each_round_deals_round_number_of_cards() {
    let mut game = GameState::new(3);
    let mut rng = seeded(5);
    for round in 1u32..=5 {
        assert!(game.start_round(&mut rng));
        assert_eq!(game.current_round, round);
        for p in &game.players {
            assert_eq!(p.hand.len(), round as usize);
        }
        assert_eq!(game.deck.len(), 56 - 3 * round as usize - 1);
    }
}

#[test]
fn dealt_hands_are_consecutive_blocks_without_overlap() {
    let mut game = GameState::new(4);
    let mut rng = seeded(17);
    assert!(game.start_round(&mut rng));
    assert!(game.start_round(&mut rng));
    let mut seen: Vec<String> = Vec::new();
    for p in &game.players {
        for c in &p.hand {
            seen.push(c.format());
        }
    }
    for c in &game.deck {
        seen.push(c.format());
    }
    let before = seen.len();
    seen.sort();
    seen.dedup();
    // Hands and the retained deck never hold the same physical card twice
    // (the four jokers are distinguishable only by text, so up to three
    // duplicates of "joker" may be dropped by dedup).
    assert!(before - seen.len() <= 3);
    assert_eq!(before, 4 * 2 + 56 - 4 * 2 - 1);
}

#[test]
fn place_bid_records_and_rotates() {
    let mut game = GameState::new(4);
    let mut rng = seeded(2);
    assert!(game.start_round(&mut rng));
    let first = game.player_index;
    game.place_bid(1);
    assert_eq!(game.players[first].bid, Some(1));
    assert_eq!(game.player_index, (first + 1) % 4);
}

#[test]
fn place_bid_out_of_range_cursor_does_nothing() {
    // A fresh one-player game starts with the cursor one past the only
    // player, so a bid before any round is silently ignored.
    let mut game = GameState::new(1);
    game.place_bid(3);
    assert!(game.players[0].bid.is_none());
    assert_eq!(game.player_index, 1);
}

#[test]
fn play_card_requires_existing_player() {
    let mut game = GameState::new(1);
    game.start_trick();
    let e = game.play_card(Card::Joker).unwrap_err();
    assert_eq!(e, PlayCardError::PlayerDoesNotExist);
}

#[test]
fn play_card_requires_card_in_hand() {
    let mut game = GameState::new(2);
    game.players[0].hand = vec![card_of(Suit::Spade, Rank::Two)];
    game.player_index = 0;
    game.start_trick();
    let e = game.play_card(card_of(Suit::Spade, Rank::Three)).unwrap_err();
    assert_eq!(e, PlayCardError::PlayerDoesNotHaveCard);
}

#[test]
fn play_card_requires_active_trick() {
    let mut game = GameState::new(2);
    game.players[0].hand = vec![card_of(Suit::Spade, Rank::Two)];
    game.player_index = 0;
    let e = game.play_card(card_of(Suit::Spade, Rank::Two)).unwrap_err();
    assert_eq!(e, PlayCardError::NoCurrentTrick);
}

#[test]
fn play_card_moves_card_and_sets_led_suit() {
    let mut game = GameState::new(2);
    game.players[0].hand = vec![card_of(Suit::Club, Rank::Nine), card_of(Suit::Spade, Rank::Two)];
    game.players[1].hand = vec![card_of(Suit::Heart, Rank::King)];
    game.player_index = 0;
    game.start_trick();
    game.play_card(card_of(Suit::Spade, Rank::Two)).unwrap();
    assert_eq!(game.players[0].hand, vec![card_of(Suit::Club, Rank::Nine)]);
    assert_eq!(game.player_index, 1);
    let trick = game.current_trick.as_ref().unwrap();
    assert_eq!(trick.trick_trump, Some(Suit::Spade));
    assert_eq!(trick.cards_played, vec![(0, card_of(Suit::Spade, Rank::Two))]);
    // The second play does not change the led suit.
    game.play_card(card_of(Suit::Heart, Rank::King)).unwrap();
    let trick = game.current_trick.as_ref().unwrap();
    assert_eq!(trick.trick_trump, Some(Suit::Spade));
    assert_eq!(trick.cards_played.len(), 2);
}

#[test]
fn leading_joker_defaults_led_suit_to_heart() {
    let mut game = GameState::new(2);
    game.players[0].hand = vec![Card::Joker];
    game.player_index = 0;
    game.start_trick();
    game.play_card(Card::Joker).unwrap();
    let trick = game.current_trick.as_ref().unwrap();
    assert_eq!(trick.trick_trump, Some(Suit::Heart));
}

#[test]
fn wildcard_wins_outright() {
    let mut game = GameState::new(2);
    game.trump_suit = Some(Suit::Spade);
    game.current_trick = Some(TrickState {
        trick_trump: Some(Suit::Heart),
        cards_played: vec![(0, Card::Joker), (1, card_of(Suit::Heart, Rank::King))],
    });
    game.end_trick().unwrap();
    assert_eq!(game.players[0].tricks_won, 1);
    assert_eq!(game.players[1].tricks_won, 0);
    assert_eq!(game.player_index, 0);
    assert!(game.current_trick.is_none());
}

#[test]
fn earliest_of_two_wildcards_wins() {
    let mut game = GameState::new(3);
    game.trump_suit = Some(Suit::Spade);
    game.current_trick = Some(TrickState {
        trick_trump: Some(Suit::Heart),
        cards_played: vec![
            (0, card_of(Suit::Heart, Rank::King)),
            (1, Card::Joker),
            (2, Card::Joker),
        ],
    });
    game.end_trick().unwrap();
    assert_eq!(game.players[1].tricks_won, 1);
    assert_eq!(game.players[2].tricks_won, 0);
    assert_eq!(game.player_index, 1);
}

#[test]
fn round_trump_beats_higher_led_suit_cards() {
    let mut game = GameState::new(3);
    game.trump_suit = Some(Suit::Heart);
    game.current_trick = Some(TrickState {
        trick_trump: Some(Suit::Spade),
        cards_played: vec![
            (0, card_of(Suit::Spade, Rank::Two)),
            (1, card_of(Suit::Spade, Rank::Ace)),
            (2, card_of(Suit::Heart, Rank::King)),
        ],
    });
    game.end_trick().unwrap();
    assert_eq!(game.players[2].tricks_won, 1);
    assert_eq!(game.player_index, 2);
}

#[test]
fn highest_of_led_suit_wins_without_trump_cards() {
    let mut game = GameState::new(3);
    game.trump_suit = Some(Suit::Diamond);
    game.current_trick = Some(TrickState {
        trick_trump: Some(Suit::Spade),
        cards_played: vec![
            (0, card_of(Suit::Spade, Rank::Ten)),
            (1, card_of(Suit::Spade, Rank::Queen)),
            (2, card_of(Suit::Club, Rank::Ace)),
        ],
    });
    game.end_trick().unwrap();
    assert_eq!(game.players[1].tricks_won, 1);
    assert_eq!(game.player_index, 1);
}

#[test]
fn end_trick_requires_started_trick() {
    let mut game = GameState::new(2);
    let e = game.end_trick().unwrap_err();
    assert_eq!(e, EndTrickError::TrickNotStarted);
}

#[test]
fn end_trick_requires_led_suit() {
    let mut game = GameState::new(2);
    game.start_trick();
    let e = game.end_trick().unwrap_err();
    assert_eq!(e, EndTrickError::NoTrickTrumpSet);
    assert!(game.current_trick.is_none());
}

#[test]
fn end_trick_requires_all_players_played() {
    let mut game = GameState::new(2);
    game.trump_suit = Some(Suit::Spade);
    game.current_trick = Some(TrickState {
        trick_trump: Some(Suit::Heart),
        cards_played: vec![(0, card_of(Suit::Heart, Rank::King))],
    });
    let e = game.end_trick().unwrap_err();
    assert_eq!(e, EndTrickError::NotAllPlayersHavePlayed);
}

#[test]
fn end_trick_requires_round_trump() {
    let mut game = GameState::new(2);
    game.current_trick = Some(TrickState {
        trick_trump: Some(Suit::Heart),
        cards_played: vec![
            (0, card_of(Suit::Heart, Rank::King)),
            (1, card_of(Suit::Heart, Rank::Two)),
        ],
    });
    let e = game.end_trick().unwrap_err();
    assert_eq!(e, EndTrickError::TrumpSuitNotSelected);
}

#[test]
fn end_trick_rejects_unknown_winner_index() {
    let mut game = GameState::new(2);
    game.trump_suit = Some(Suit::Spade);
    game.current_trick = Some(TrickState {
        trick_trump: Some(Suit::Heart),
        cards_played: vec![(9, Card::Joker), (1, card_of(Suit::Heart, Rank::King))],
    });
    let e = game.end_trick().unwrap_err();
    assert_eq!(e, EndTrickError::PlayerDoesNotExist);
}

#[test]
fn end_trick_with_no_qualifying_card_finds_no_winner() {
    let mut game = GameState::new(2);
    game.trump_suit = Some(Suit::Diamond);
    game.current_trick = Some(TrickState {
        trick_trump: Some(Suit::Spade),
        cards_played: vec![
            (0, card_of(Suit::Heart, Rank::King)),
            (1, card_of(Suit::Club, Rank::Ace)),
        ],
    });
    let e = game.end_trick().unwrap_err();
    assert_eq!(e, EndTrickError::NoWinnerFound);
}

#[test]
fn scoring_rewards_exact_bids_and_penalizes_misses() {
    let mut game = GameState::new(3);
    game.trump_suit = Some(Suit::Spade);
    game.players[0] = player(Some(2), 2, 0);
    game.players[1] = player(Some(2), 0, 0);
    game.players[2] = player(Some(0), 0, 0);
    game.end_round().unwrap();
    assert_eq!(game.players[0].score, 40);
    assert_eq!(game.players[1].score, -20);
    assert_eq!(game.players[2].score, 20);
}

#[test]
fn scoring_penalty_scales_with_miss_size() {
    let mut game = GameState::new(2);
    game.players[0] = player(Some(1), 4, 10);
    game.players[1] = player(Some(3), 0, -5);
    game.end_round().unwrap();
    assert_eq!(game.players[0].score, 10 - 30);
    assert_eq!(game.players[1].score, -5 - 30);
}

#[test]
fn end_round_resets_tricks_and_trump() {
    let mut game = GameState::new(2);
    game.trump_suit = Some(Suit::Club);
    game.players[0] = player(Some(1), 1, 0);
    game.players[1] = player(Some(0), 0, 0);
    game.end_round().unwrap();
    assert!(game.trump_suit.is_none());
    assert_eq!(game.players[0].tricks_won, 0);
    assert_eq!(game.players[1].tricks_won, 0);
    // Bids are cleared by the next round start, not by scoring.
    assert_eq!(game.players[0].bid, Some(1));
}

#[test]
fn end_round_requires_all_bids() {
    let mut game = GameState::new(3);
    game.trump_suit = Some(Suit::Club);
    game.players[0] = player(Some(1), 1, 0);
    game.players[1] = player(None, 2, 0);
    game.players[2] = player(Some(1), 0, 0);
    let e = game.end_round().unwrap_err();
    assert_eq!(e, EndRoundError::PlayerDoesNotExist);
    // The scan stops at the first missing bid: earlier players are already
    // scored, later ones and the round trump are untouched.
    assert_eq!(game.players[0].score, 30);
    assert_eq!(game.players[0].tricks_won, 0);
    assert_eq!(game.players[1].tricks_won, 2);
    assert_eq!(game.players[2].score, 0);
    assert_eq!(game.trump_suit, Some(Suit::Club));
}

#[test]
fn full_round_lifecycle_for_two_players() {
    let mut game = GameState::new(2);
    let mut rng = seeded(23);
    assert!(game.start_round(&mut rng));
    game.place_bid(0);
    game.place_bid(1);
    game.start_trick();
    for _ in 0..2 {
        let card = game.current_player_info().unwrap().hand[0];
        game.play_card(card).unwrap();
    }
    game.end_trick().unwrap();
    assert_eq!(
        game.players[0].tricks_won + game.players[1].tricks_won,
        1,
        "exactly one player takes the trick"
    );
    game.end_round().unwrap();
    assert!(game.trump_suit.is_none());
    let scores: Vec<i32> = game.players.iter().map(|p| p.score).collect();
    // One player bid 0, the other 1; whoever matches gains, the other loses.
    assert!(scores == vec![20, 30] || scores == vec![-10, -10] || scores == vec![20, -10] || scores == vec![-10, 30]);
}

#[test]
fn start_round_fails_once_deck_is_too_small() {
    let mut game = GameState::new(19);
    let mut rng = seeded(31);
    assert!(game.start_round(&mut rng)); // 19 cards needed
    assert!(game.start_round(&mut rng)); // 38 cards needed
    assert!(!game.start_round(&mut rng)); // 57 cards needed: refused
    // The counter advances even on failure, as documented.
    assert_eq!(game.current_round, 3);
    // Hands and deck are untouched by the failed start.
    for p in &game.players {
        assert_eq!(p.hand.len(), 2);
    }
}

#[test]
fn round_info_reports_bids_and_tricks() {
    let mut game = GameState::new(2);
    assert!(game.round_info().is_none());
    game.trump_suit = Some(Suit::Diamond);
    game.players[0] = player(Some(2), 1, 0);
    let info = game.round_info().unwrap();
    assert_eq!(info.trump, Suit::Diamond);
    assert_eq!(info.players.len(), 2);
    assert_eq!(info.players[0].bid, Some(2));
    assert_eq!(info.players[0].tricks_won, 1);
    assert_eq!(info.players[1].bid, None);
}

#[test]
fn trick_info_reports_led_suit() {
    let mut game = GameState::new(2);
    assert!(game.trick_info().is_none());
    game.start_trick();
    assert_eq!(game.trick_info().unwrap().trump, None);
    game.players[0].hand = vec![card_of(Suit::Club, Rank::Four)];
    game.player_index = 0;
    game.play_card(card_of(Suit::Club, Rank::Four)).unwrap();
    assert_eq!(game.trick_info().unwrap().trump, Some(Suit::Club));
}

#[test]
fn current_player_info_snapshots_the_actor() {
    let mut game = GameState::new(2);
    game.player_index = 1;
    game.players[1] = PlayerState {
        hand: vec![Card::Joker],
        bid: Some(1),
        tricks_won: 1,
        score: -10,
    };
    let info = game.current_player_info().unwrap();
    assert_eq!(info.hand, vec![Card::Joker]);
    assert_eq!(info.bid, Some(1));
    assert_eq!(info.tricks_won, 1);
    assert_eq!(info.score, -10);
    // A one-player game starts with the cursor out of range: no snapshot.
    let empty = GameState::new(1);
    assert!(empty.current_player_info().is_none());
}

#[test]
fn trick_winner_leads_next_trick() {
    let mut game = GameState::new(3);
    game.trump_suit = Some(Suit::Spade);
    game.current_trick = Some(TrickState {
        trick_trump: Some(Suit::Heart),
        cards_played: vec![
            (0, card_of(Suit::Heart, Rank::Two)),
            (1, card_of(Suit::Heart, Rank::Ace)),
            (2, card_of(Suit::Club, Rank::King)),
        ],
    });
    game.player_index = 0;
    game.end_trick().unwrap();
    assert_eq!(game.player_index, 1);
}
