use blackjack::deck::{Card, Deck, Rank, Suit};
use blackjack::player::{round_outcome, Action, BetError, BetResult, Player, PlayerList, Role};

#[test]
fn create_player() {
    let mut player = Player::new(20, 1);
    assert_eq!(player.chips(), Some(20));
    assert_eq!(String::from("Player 1"), player.label());
    if let Some(chips) = player.chips() {
        player.role = Role::Bettor { chips: chips * 2, pot: 0 };
    }
    assert_eq!(player.chips(), Some(40));
}

#[test]
fn deal_player_cards() {
    let mut player = Player::new(20, 0);
    let mut deck = Deck::new();
    player.get_cards(&mut deck, 3);
    assert_eq!(player.hand.len(), 3);
    assert_eq!(player.hand[0].label(), "2 of Diamonds");
    assert_eq!(player.hand_total(), 9);
    let hard_hands = vec![
        vec![
            Card::new(Suit::Spades, Rank::Ten),
            Card::new(Suit::Hearts, Rank::Seven),
        ],
        vec![
            Card::new(Suit::Spades, Rank::Ace),
            Card::new(Suit::Clubs, Rank::Ace),
            Card::new(Suit::Hearts, Rank::Nine),
        ],
        vec![
            Card::new(Suit::Diamonds, Rank::Ace),
            Card::new(Suit::Spades, Rank::Seven),
        ],
        vec![
            Card::new(Suit::Spades, Rank::Ace),
            Card::new(Suit::Clubs, Rank::Ace),
            Card::new(Suit::Hearts, Rank::Ace),
            Card::new(Suit::Diamonds, Rank::Ace),
            Card::new(Suit::Spades, Rank::King),
            Card::new(Suit::Clubs, Rank::Queen),
            Card::new(Suit::Hearts, Rank::Two),
        ],
        vec![
            Card::new(Suit::Clubs, Rank::Ten),
            Card::new(Suit::Diamonds, Rank::Nine),
            Card::new(Suit::Clubs, Rank::Eight),
        ],
    ];
    let test_vals: [u32; 5] = [17, 21, 18, 26, 27];
    for (n, hard_hand) in hard_hands.into_iter().enumerate() {
        player.hand = hard_hand;
        assert_eq!(player.hand_total(), test_vals[n]);
    }
    assert_eq!(player.latest_card(), &Card::new(Suit::Clubs, Rank::Eight));
}

#[test]
fn check_valid_moves() {
    let mut player = Player::new(500, 0);
    let mut deck = Deck::new();
    let _ = deck.deal(2);
    player.get_cards(&mut deck, 2);
    assert!(player.valid_moves().contains(&Action::Hit));
    assert!(player.valid_moves().contains(&Action::Stand));
    assert!(player.valid_moves().contains(&Action::Surrender));
    assert!(player.valid_moves().contains(&Action::DoubleDown));
    let _ = player.bet(240);
    assert!(player.valid_moves().contains(&Action::DoubleDown));
    let _ = player.bet(80);
    assert!(!player.valid_moves().contains(&Action::DoubleDown));
    player.get_cards(&mut deck, 1);
    assert!(!player.valid_moves().contains(&Action::Surrender));
}

#[test]
fn make_bet() {
    let mut player = Player::new(20, 0);
    let overbet_result = player.bet(30);
    assert_eq!(overbet_result, Err(BetError::InsufficientChips));
    let mut dealer = Player::new(0, 0);
    let dealer_bet_result = dealer.bet(30);
    assert_eq!(dealer_bet_result, Err(BetError::NotABettor));
    let legal_bet_result = player.bet(10);
    assert_eq!(legal_bet_result, Ok(10));
    assert_eq!(player.pot(), Some(10));
    assert_eq!(player.chips(), Some(10));
    assert_ne!(player.is_broke(), true);
    let _ = player.bet(10);
    assert_eq!(player.chips(), Some(0));
    assert_eq!(player.is_broke(), true);
    let _ = player.resolve_bet(BetResult::Lose);
    player.role = Role::Bettor { chips: 50, pot: 0 };
    let _ = player.bet(10);
    player.double_down();
    assert_eq!(player.pot(), Some(20));
}

#[test]
fn resolve_bet() {
    let mut player = Player::new(100, 0);
    let no_bet_result = player.resolve_bet(BetResult::StandOff);
    assert_eq!(no_bet_result, Err(BetError::NoActiveBet));
    let _ = player.bet(30);
    let normal_bet_result = player.resolve_bet(BetResult::StandOff);
    assert_eq!(normal_bet_result, Ok(30));
    assert_eq!(player.chips(), Some(100));
    assert_eq!(player.pot(), Some(0));
    let _ = player.bet(50);
    let _ = player.resolve_bet(BetResult::Win);
    assert_eq!(player.chips(), Some(150));
    assert_eq!(player.pot(), Some(0));
    let _ = player.bet(100);
    let _ = player.resolve_bet(BetResult::Surrender);
    assert_eq!(player.chips(), Some(100));
    let _ = player.bet(10);
    let _ = player.resolve_bet(BetResult::Blackjack);
    assert_eq!(player.chips(), Some(115));
    let mut dealer = Player::new(0, 0);
    let dealer_resolve_bet_result = dealer.resolve_bet(BetResult::Lose);
    assert_eq!(dealer_resolve_bet_result, Err(BetError::NotABettor));
}

#[test]
fn create_player_list() {
    let mut player_list = PlayerList::new(5, 100);
    for (i, player) in player_list.iter_mut().iter_mut().enumerate() {
        assert_eq!(player.label(), format!("Player {}", i + 1));
        assert_eq!(player.chips(), Some(100));
    }
    assert_eq!(true, player_list.players_left());
}

#[test]
fn hand_total_is_idempotent() {
    let mut player = Player::new(100, 1);
    player.hand = vec![
        Card::new(Suit::Spades, Rank::Ace),
        Card::new(Suit::Hearts, Rank::Nine),
        Card::new(Suit::Clubs, Rank::Five),
    ];
    let first = player.hand_total();
    let second = player.hand_total();
    assert_eq!(first, second);
    assert_eq!(first, 15);
}

#[test]
fn soft_ace_hands() {
    let mut player = Player::new(100, 1);
    player.hand = vec![
        Card::new(Suit::Spades, Rank::Ace),
        Card::new(Suit::Hearts, Rank::King),
    ];
    assert_eq!(player.hand_total(), 21);
    assert!(player.has_blackjack());
    player.hand = vec![
        Card::new(Suit::Hearts, Rank::Ten),
        Card::new(Suit::Spades, Rank::Ace),
    ];
    assert_eq!(player.hand_total(), 21);
    assert!(player.has_blackjack());
    player.hand = vec![
        Card::new(Suit::Spades, Rank::Ace),
        Card::new(Suit::Clubs, Rank::Ace),
        Card::new(Suit::Hearts, Rank::Nine),
    ];
    assert_eq!(player.hand_total(), 21);
    assert!(!player.has_blackjack());
    player.hand = Vec::new();
    assert_eq!(player.hand_total(), 0);
}

#[test]
fn whole_deck_totals_340() {
    let mut player = Player::new(100, 1);
    let mut deck = Deck::new();
    player.get_cards(&mut deck, 52);
    assert_eq!(player.hand_total(), 340);
}

#[test]
fn standoff_and_win_round_trips() {
    let mut player = Player::new(100, 1);
    assert_eq!(player.bet(30), Ok(30));
    assert_eq!(player.resolve_bet(BetResult::StandOff), Ok(30));
    assert_eq!(player.chips(), Some(100));
    assert_eq!(player.bet(50), Ok(50));
    assert_eq!(player.resolve_bet(BetResult::Win), Ok(100));
    assert_eq!(player.chips(), Some(150));
}

#[test]
fn surrender_halves_the_pot_rounding_down() {
    let mut player = Player::new(200, 1);
    assert_eq!(player.bet(101), Ok(101));
    assert_eq!(player.resolve_bet(BetResult::Surrender), Ok(50));
    assert_eq!(player.chips(), Some(149));
    assert_eq!(player.pot(), Some(0));
}

#[test]
fn double_down_then_blackjack_pays_fifty() {
    let mut player = Player::new(20, 1);
    assert_eq!(player.bet(10), Ok(10));
    assert_eq!(player.chips(), Some(10));
    assert_eq!(player.pot(), Some(10));
    player.double_down();
    assert_eq!(player.chips(), Some(0));
    assert_eq!(player.pot(), Some(20));
    assert_eq!(player.resolve_bet(BetResult::Blackjack), Ok(50));
    assert_eq!(player.chips(), Some(50));
    assert_eq!(player.pot(), Some(0));
}

#[test]
fn dealer_is_never_a_bettor() {
    let mut dealer = Player::new(0, 0);
    assert_eq!(dealer.chips(), None);
    assert_eq!(dealer.pot(), None);
    for amount in [0, 1, 10, 1000] {
        assert_eq!(dealer.bet(amount), Err(BetError::NotABettor));
    }
    for outcome in [
        BetResult::Win,
        BetResult::Lose,
        BetResult::Surrender,
        BetResult::StandOff,
        BetResult::Blackjack,
    ] {
        assert_eq!(dealer.resolve_bet(outcome), Err(BetError::NotABettor));
    }
}

#[test]
fn double_down_window_closes_after_third_card() {
    let mut player = Player::new(500, 1);
    player.hand = vec![
        Card::new(Suit::Spades, Rank::Six),
        Card::new(Suit::Hearts, Rank::Five),
    ];
    let moves = player.valid_moves();
    assert_eq!(
        moves,
        vec![Action::Hit, Action::Stand, Action::Surrender, Action::DoubleDown]
    );
    player.hand.push(Card::new(Suit::Clubs, Rank::Five));
    let moves = player.valid_moves();
    assert_eq!(moves, vec![Action::Hit, Action::Stand]);
    assert!(!moves.contains(&Action::DoubleDown));
    assert!(!moves.contains(&Action::Surrender));
}

#[test]
fn double_down_needs_totals_nine_to_eleven() {
    let mut player = Player::new(500, 1);
    player.hand = vec![
        Card::new(Suit::Spades, Rank::Six),
        Card::new(Suit::Hearts, Rank::Two),
    ];
    assert!(!player.valid_moves().contains(&Action::DoubleDown));
    player.hand = vec![
        Card::new(Suit::Spades, Rank::Six),
        Card::new(Suit::Hearts, Rank::Six),
    ];
    assert!(!player.valid_moves().contains(&Action::DoubleDown));
    player.hand = vec![
        Card::new(Suit::Spades, Rank::Six),
        Card::new(Suit::Hearts, Rank::Three),
    ];
    assert!(player.valid_moves().contains(&Action::DoubleDown));
}

#[test]
fn players_left_goes_false_on_elimination() {
    let mut player_list = PlayerList::new(2, 10);
    assert!(player_list.players_left());
    for player in player_list.iter_mut().iter_mut() {
        assert_eq!(player.bet(10), Ok(10));
        assert_eq!(player.resolve_bet(BetResult::Lose), Ok(0));
        assert!(player.is_broke());
    }
    assert!(!player_list.players_left());
}

#[test]
fn clear_cards_empties_every_hand() {
    let mut player_list = PlayerList::new(3, 100);
    let mut deck = Deck::new();
    for player in player_list.iter_mut().iter_mut() {
        player.get_cards(&mut deck, 2);
        assert_eq!(player.hand.len(), 2);
    }
    player_list.clear_cards();
    for player in player_list.iter_mut().iter_mut() {
        assert_eq!(player.hand.len(), 0);
        assert_eq!(player.chips(), Some(100));
    }
}

#[test]
fn round_outcomes_follow_the_table() {
    assert_eq!(round_outcome(21, true, 19, false), BetResult::Blackjack);
    assert_eq!(round_outcome(18, false, 22, false), BetResult::Win);
    assert_eq!(round_outcome(20, false, 18, false), BetResult::Win);
    assert_eq!(round_outcome(18, false, 18, false), BetResult::StandOff);
    assert_eq!(round_outcome(21, true, 21, true), BetResult::StandOff);
    assert_eq!(round_outcome(18, false, 20, false), BetResult::Lose);
}

#[test]
fn labels_render_multi_digit_numbers() {
    assert_eq!(Player::new(100, 7).label(), "Player 7");
    assert_eq!(Player::new(100, 10).label(), "Player 10");
    assert_eq!(Player::new(100, 42).label(), "Player 42");
    assert_eq!(Player::new(100, 255).label(), "Player 255");
    assert_eq!(
        Card::new(Suit::Diamonds, Rank::Queen).label(),
        "Queen of Diamonds"
    );
}

#[test]
fn latest_card_is_the_newest_deal() {
    let mut player = Player::new(100, 1);
    let mut deck = Deck::new();
    player.get_cards(&mut deck, 2);
    assert_eq!(player.latest_card(), &Card::new(Suit::Diamonds, Rank::Three));
    player.get_cards(&mut deck, 1);
    assert_eq!(player.latest_card(), &Card::new(Suit::Diamonds, Rank::Four));
}

#[test]
fn is_in_pot_tracks_the_wager() {
    let mut player = Player::new(100, 1);
    assert!(!player.is_in_pot());
    assert_eq!(player.bet(40), Ok(40));
    assert!(player.is_in_pot());
    assert_eq!(player.resolve_bet(BetResult::Lose), Ok(0));
    assert!(!player.is_in_pot());
}
