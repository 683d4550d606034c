use pbn_to_pdf::model::analysis::{find_length_winners, find_promotable_winners, find_sure_winners};
use pbn_to_pdf::model::{Card, Hand, Holding, Rank, Suit};

#[test]
fn test_ace_only() {
    let mut dummy = Hand::new();
    dummy.spades = Holding::from_ranks([Rank::Ace]);

    let declarer = Hand::new();

    let winners = find_sure_winners(&dummy, &declarer);
    assert_eq!(winners.len(), 1);
    assert!(winners.contains(&Card::new(Suit::Spades, Rank::Ace)));
}

#[test]
fn test_ak_same_hand() {
    let mut dummy = Hand::new();
    dummy.spades = Holding::from_ranks([Rank::Ace, Rank::King]);

    let declarer = Hand::new();

    let winners = find_sure_winners(&dummy, &declarer);
    assert_eq!(winners.len(), 2);
    assert!(winners.contains(&Card::new(Suit::Spades, Rank::Ace)));
    assert!(winners.contains(&Card::new(Suit::Spades, Rank::King)));
}

#[test]
fn test_ak_split_hands_singleton_each() {
    // Dummy has singleton A, declarer has singleton K
    // On trick 1: Play A from dummy, K must follow from declarer
    // Result: only 1 trick can be taken, the Ace wins
    let mut dummy = Hand::new();
    dummy.spades = Holding::from_ranks([Rank::Ace]);

    let mut declarer = Hand::new();
    declarer.spades = Holding::from_ranks([Rank::King]);

    let winners = find_sure_winners(&dummy, &declarer);
    assert_eq!(winners.len(), 1);
    assert!(winners.contains(&Card::new(Suit::Spades, Rank::Ace)));
    // King is played on the same trick as Ace, doesn't win separately
    assert!(!winners.contains(&Card::new(Suit::Spades, Rank::King)));
}

#[test]
fn test_ak_split_hands_with_length() {
    // Dummy has A and a small card, declarer has K and a small card
    // Now we can take 2 tricks: A wins trick 1, K wins trick 2
    let mut dummy = Hand::new();
    dummy.spades = Holding::from_ranks([Rank::Ace, Rank::Three]);

    let mut declarer = Hand::new();
    declarer.spades = Holding::from_ranks([Rank::King, Rank::Two]);

    let winners = find_sure_winners(&dummy, &declarer);
    assert_eq!(winners.len(), 2);
    assert!(winners.contains(&Card::new(Suit::Spades, Rank::Ace)));
    assert!(winners.contains(&Card::new(Suit::Spades, Rank::King)));
}

#[test]
fn test_akqjt_combined_limited_by_hand_length() {
    // Dummy has 3 spades (AQT), declarer has 2 spades (KJ)
    // Combined sequence: AKQJT (5 cards continuous from Ace)
    // But max tricks = max(3, 2) = 3
    // So only top 3 cards (AKQ) are sure winners
    let mut dummy = Hand::new();
    dummy.spades = Holding::from_ranks([Rank::Ace, Rank::Queen, Rank::Ten]);

    let mut declarer = Hand::new();
    declarer.spades = Holding::from_ranks([Rank::King, Rank::Jack]);

    let winners = find_sure_winners(&dummy, &declarer);
    assert_eq!(winners.len(), 3);
    assert!(winners.contains(&Card::new(Suit::Spades, Rank::Ace)));
    assert!(winners.contains(&Card::new(Suit::Spades, Rank::King)));
    assert!(winners.contains(&Card::new(Suit::Spades, Rank::Queen)));
    // Jack and Ten are NOT sure winners - they get played when AKQ win
    assert!(!winners.contains(&Card::new(Suit::Spades, Rank::Jack)));
    assert!(!winners.contains(&Card::new(Suit::Spades, Rank::Ten)));
}

#[test]
fn test_long_sequence_same_hand() {
    // All 5 cards in one hand - can take 5 tricks
    let mut dummy = Hand::new();
    dummy.spades = Holding::from_ranks([
        Rank::Ace,
        Rank::King,
        Rank::Queen,
        Rank::Jack,
        Rank::Ten,
    ]);

    let declarer = Hand::new();

    let winners = find_sure_winners(&dummy, &declarer);
    assert_eq!(winners.len(), 5);
}

#[test]
fn test_trick_limit_with_equal_lengths() {
    // Dummy has AKQ (3 cards), declarer has JT9 (3 cards)
    // Combined sequence: AKQJT9 (6 cards continuous)
    // Max tricks = max(3, 3) = 3
    // Sure winners: AKQ (the top 3 that win)
    let mut dummy = Hand::new();
    dummy.spades = Holding::from_ranks([Rank::Ace, Rank::King, Rank::Queen]);

    let mut declarer = Hand::new();
    declarer.spades = Holding::from_ranks([Rank::Jack, Rank::Ten, Rank::Nine]);

    let winners = find_sure_winners(&dummy, &declarer);
    assert_eq!(winners.len(), 3);
    assert!(winners.contains(&Card::new(Suit::Spades, Rank::Ace)));
    assert!(winners.contains(&Card::new(Suit::Spades, Rank::King)));
    assert!(winners.contains(&Card::new(Suit::Spades, Rank::Queen)));
    // JT9 are played but don't win
    assert!(!winners.contains(&Card::new(Suit::Spades, Rank::Jack)));
}

#[test]
fn test_gap_in_sequence() {
    // A-K with gap (missing Q), so only A-K are sure winners
    let mut dummy = Hand::new();
    dummy.spades = Holding::from_ranks([Rank::Ace, Rank::King, Rank::Jack]);

    let declarer = Hand::new();

    let winners = find_sure_winners(&dummy, &declarer);
    assert_eq!(winners.len(), 2);
    assert!(winners.contains(&Card::new(Suit::Spades, Rank::Ace)));
    assert!(winners.contains(&Card::new(Suit::Spades, Rank::King)));
    // Jack is NOT a sure winner because Queen is missing
    assert!(!winners.contains(&Card::new(Suit::Spades, Rank::Jack)));
}

#[test]
fn test_no_ace_no_winners() {
    // K-Q-J but no Ace - no sure winners
    let mut dummy = Hand::new();
    dummy.spades = Holding::from_ranks([Rank::King, Rank::Queen, Rank::Jack]);

    let declarer = Hand::new();

    let winners = find_sure_winners(&dummy, &declarer);
    assert_eq!(winners.len(), 0);
}

#[test]
fn test_multiple_suits() {
    let mut dummy = Hand::new();
    dummy.spades = Holding::from_ranks([Rank::Ace, Rank::King]);
    dummy.hearts = Holding::from_ranks([Rank::Queen]); // No Ace, no winners

    let mut declarer = Hand::new();
    declarer.diamonds = Holding::from_ranks([Rank::Ace, Rank::King, Rank::Queen]);
    declarer.clubs = Holding::from_ranks([Rank::Ace]);

    let winners = find_sure_winners(&dummy, &declarer);
    assert_eq!(winners.len(), 6); // 2 spades + 0 hearts + 3 diamonds + 1 club

    // Verify specific cards
    assert!(winners.contains(&Card::new(Suit::Spades, Rank::Ace)));
    assert!(winners.contains(&Card::new(Suit::Spades, Rank::King)));
    assert!(winners.contains(&Card::new(Suit::Diamonds, Rank::Ace)));
    assert!(winners.contains(&Card::new(Suit::Diamonds, Rank::King)));
    assert!(winners.contains(&Card::new(Suit::Diamonds, Rank::Queen)));
    assert!(winners.contains(&Card::new(Suit::Clubs, Rank::Ace)));

    // Hearts should not be included
    assert!(!winners.contains(&Card::new(Suit::Hearts, Rank::Queen)));
}

#[test]
fn test_empty_hands() {
    let dummy = Hand::new();
    let declarer = Hand::new();

    let winners = find_sure_winners(&dummy, &declarer);
    assert_eq!(winners.len(), 0);
}

// Tests for find_promotable_winners

#[test]
fn test_promotable_kqj() {
    // KQJ missing only Ace = 2 promotable winners (Q and J)
    // K is used to drive out Ace
    let mut dummy = Hand::new();
    dummy.spades = Holding::from_ranks([Rank::King, Rank::Queen, Rank::Jack]);

    let declarer = Hand::new();

    let result = find_promotable_winners(&dummy, &declarer);
    // K is spent to drive out Ace
    assert_eq!(result.spent.len(), 1);
    assert!(result.spent.contains(&Card::new(Suit::Spades, Rank::King)));
    // QJ become winners
    assert_eq!(result.winners.len(), 2);
    assert!(result.winners.contains(&Card::new(Suit::Spades, Rank::Queen)));
    assert!(result.winners.contains(&Card::new(Suit::Spades, Rank::Jack)));
}

#[test]
fn test_promotable_qjt98() {
    // QJT98: 5 touching honors, missing A and K = 3 promotable winners
    // Q drives out A, J drives out K, then T98 are winners
    let mut dummy = Hand::new();
    dummy.spades = Holding::from_ranks([
        Rank::Queen,
        Rank::Jack,
        Rank::Ten,
        Rank::Nine,
        Rank::Eight,
    ]);

    let declarer = Hand::new();

    let result = find_promotable_winners(&dummy, &declarer);
    // Q and J are spent to drive out A and K
    assert_eq!(result.spent.len(), 2);
    assert!(result.spent.contains(&Card::new(Suit::Spades, Rank::Queen)));
    assert!(result.spent.contains(&Card::new(Suit::Spades, Rank::Jack)));
    // T98 become winners
    assert_eq!(result.winners.len(), 3);
    assert!(result.winners.contains(&Card::new(Suit::Spades, Rank::Ten)));
    assert!(result.winners.contains(&Card::new(Suit::Spades, Rank::Nine)));
    assert!(result.winners.contains(&Card::new(Suit::Spades, Rank::Eight)));
}

#[test]
fn test_promotable_qjt() {
    // QJT: 3 touching honors, missing A and K = 1 promotable winner
    let mut dummy = Hand::new();
    dummy.spades = Holding::from_ranks([Rank::Queen, Rank::Jack, Rank::Ten]);

    let declarer = Hand::new();

    let result = find_promotable_winners(&dummy, &declarer);
    // Q and J are spent to drive out A and K
    assert_eq!(result.spent.len(), 2);
    assert!(result.spent.contains(&Card::new(Suit::Spades, Rank::Queen)));
    assert!(result.spent.contains(&Card::new(Suit::Spades, Rank::Jack)));
    // T becomes winner
    assert_eq!(result.winners.len(), 1);
    assert!(result.winners.contains(&Card::new(Suit::Spades, Rank::Ten)));
}

#[test]
fn test_promotable_qj_not_enough() {
    // QJ: 2 touching honors, missing A and K = 0 promotable winners
    // (sequence length equals missing higher, so no net gain)
    let mut dummy = Hand::new();
    dummy.spades = Holding::from_ranks([Rank::Queen, Rank::Jack]);

    let declarer = Hand::new();

    let result = find_promotable_winners(&dummy, &declarer);
    // No promotion possible - would need all cards just to drive out higher honors
    assert_eq!(result.spent.len(), 0);
    assert_eq!(result.winners.len(), 0);
    assert!(!result.has_promotion());
}

#[test]
fn test_promotable_with_ace_no_promotable() {
    // AKQ - these are sure winners, not promotable
    let mut dummy = Hand::new();
    dummy.spades = Holding::from_ranks([Rank::Ace, Rank::King, Rank::Queen]);

    let declarer = Hand::new();

    let result = find_promotable_winners(&dummy, &declarer);
    assert_eq!(result.spent.len(), 0);
    assert_eq!(result.winners.len(), 0);
    assert!(!result.has_promotion());
}

#[test]
fn test_promotable_split_hands_equal_length() {
    // Dummy has KQ (2 cards), declarer has JT (2 cards) - equal length
    // Combined: KQJT, missing A = 3 promotable winners possible (QJT)
    // But max tricks = max(2, 2) = 2
    // With equal length, K is spent (highest), only 2 promotable winners (QJ)
    let mut dummy = Hand::new();
    dummy.spades = Holding::from_ranks([Rank::King, Rank::Queen]);

    let mut declarer = Hand::new();
    declarer.spades = Holding::from_ranks([Rank::Jack, Rank::Ten]);

    let result = find_promotable_winners(&dummy, &declarer);
    // K is spent to drive out Ace (equal length, so take highest)
    assert_eq!(result.spent.len(), 1);
    assert!(result.spent.contains(&Card::new(Suit::Spades, Rank::King)));
    // QJ become winners (limited to 2 by max tricks)
    assert_eq!(result.winners.len(), 2);
    assert!(result.winners.contains(&Card::new(Suit::Spades, Rank::Queen)));
    assert!(result.winners.contains(&Card::new(Suit::Spades, Rank::Jack)));
    // Ten doesn't win because we can only take 2 tricks total
    assert!(!result.winners.contains(&Card::new(Suit::Spades, Rank::Ten)));
}

#[test]
fn test_promotable_limited_by_hand_length() {
    // Dummy has KQJ (3 cards), declarer has T9 (2 cards)
    // Combined: KQJT9, missing A = 4 promotable winners possible
    // But max tricks = max(3, 2) = 3
    // Declarer is shorter but has no honors in sequence (T9 are in sequence)
    // So T is spent from shorter hand, then K from longer if needed
    // Actually T is in sequence, so spend T first, gives KQJT9 - T = KQJ9
    // Wait, T is part of the sequence KQJT9, so we need 1 card to spend
    // Shorter hand (declarer) has T and 9 in the sequence
    // Spend T from declarer, winners are KQJ9 but limited to 3
    let mut dummy = Hand::new();
    dummy.spades = Holding::from_ranks([Rank::King, Rank::Queen, Rank::Jack]);

    let mut declarer = Hand::new();
    declarer.spades = Holding::from_ranks([Rank::Ten, Rank::Nine]);

    let result = find_promotable_winners(&dummy, &declarer);
    // T is spent (from shorter hand - declarer)
    assert_eq!(result.spent.len(), 1);
    assert!(result.spent.contains(&Card::new(Suit::Spades, Rank::Ten)));
    // KQJ become winners (9 is after the spent T, limited to 3 by max tricks)
    assert_eq!(result.winners.len(), 3);
    assert!(result.winners.contains(&Card::new(Suit::Spades, Rank::King)));
    assert!(result.winners.contains(&Card::new(Suit::Spades, Rank::Queen)));
    assert!(result.winners.contains(&Card::new(Suit::Spades, Rank::Jack)));
    // Nine is in sequence but we already have 3 winners
    assert!(!result.winners.contains(&Card::new(Suit::Spades, Rank::Nine)));
}

#[test]
fn test_promotable_gap_in_sequence() {
    // KQT - gap at J, so only KQ sequence (2 cards), missing A = 1 promotable
    let mut dummy = Hand::new();
    dummy.spades = Holding::from_ranks([Rank::King, Rank::Queen, Rank::Ten]);

    let declarer = Hand::new();

    let result = find_promotable_winners(&dummy, &declarer);
    // K is spent to drive out Ace
    assert_eq!(result.spent.len(), 1);
    assert!(result.spent.contains(&Card::new(Suit::Spades, Rank::King)));
    // Q becomes winner (only card in sequence after K)
    assert_eq!(result.winners.len(), 1);
    assert!(result.winners.contains(&Card::new(Suit::Spades, Rank::Queen)));
    // Ten is not part of the continuous sequence
    assert!(!result.winners.contains(&Card::new(Suit::Spades, Rank::Ten)));
}

#[test]
fn test_promotable_multiple_suits() {
    let mut dummy = Hand::new();
    dummy.spades = Holding::from_ranks([Rank::King, Rank::Queen, Rank::Jack]); // K spent, QJ winners
    dummy.hearts = Holding::from_ranks([Rank::Queen, Rank::Jack, Rank::Ten]); // QJ spent, T winner

    let mut declarer = Hand::new();
    declarer.diamonds = Holding::from_ranks([Rank::Ace, Rank::King]); // 0 promotable (sure winners)
    declarer.clubs = Holding::from_ranks([Rank::Jack, Rank::Ten]); // 0 promotable (missing AKQ)

    let result = find_promotable_winners(&dummy, &declarer);
    // Spades: K spent, Hearts: QJ spent
    assert_eq!(result.spent.len(), 3);
    // Spades: QJ winners, Hearts: T winner
    assert_eq!(result.winners.len(), 3);
}

#[test]
fn test_promotable_singleton_sequence() {
    // Just K - missing A, sequence of 1 - missing 1 = 0 promotable
    let mut dummy = Hand::new();
    dummy.spades = Holding::from_ranks([Rank::King]);

    let declarer = Hand::new();

    let result = find_promotable_winners(&dummy, &declarer);
    assert_eq!(result.spent.len(), 0);
    assert_eq!(result.winners.len(), 0);
    assert!(!result.has_promotion());
}

#[test]
fn test_promotable_spend_from_shorter_hand() {
    // Dummy has KQT3 (4 cards), declarer has J4 (2 cards)
    // Combined sequence: KQJT (4 cards), missing A = 3 promotable winners
    // Should spend J from shorter hand (declarer), not K from longer hand
    let mut dummy = Hand::new();
    dummy.hearts = Holding::from_ranks([Rank::King, Rank::Queen, Rank::Ten, Rank::Three]);

    let mut declarer = Hand::new();
    declarer.hearts = Holding::from_ranks([Rank::Jack, Rank::Four]);

    let result = find_promotable_winners(&dummy, &declarer);
    // J should be spent (from shorter hand), not K
    assert_eq!(result.spent.len(), 1);
    assert!(result.spent.contains(&Card::new(Suit::Hearts, Rank::Jack)));
    assert!(!result.spent.contains(&Card::new(Suit::Hearts, Rank::King)));
    // KQT become winners (max tricks = 4, but only 3 in sequence after spending J)
    assert_eq!(result.winners.len(), 3);
    assert!(result.winners.contains(&Card::new(Suit::Hearts, Rank::King)));
    assert!(result.winners.contains(&Card::new(Suit::Hearts, Rank::Queen)));
    assert!(result.winners.contains(&Card::new(Suit::Hearts, Rank::Ten)));
}

#[test]
fn test_promotable_equal_length_take_highest() {
    // Dummy has KT3 (3 cards), declarer has QJ4 (3 cards) - equal length
    // Combined sequence: KQJT (4 cards), missing A = 3 promotable winners
    // With equal lengths, should just take highest cards to spend
    let mut dummy = Hand::new();
    dummy.hearts = Holding::from_ranks([Rank::King, Rank::Ten, Rank::Three]);

    let mut declarer = Hand::new();
    declarer.hearts = Holding::from_ranks([Rank::Queen, Rank::Jack, Rank::Four]);

    let result = find_promotable_winners(&dummy, &declarer);
    // K should be spent (highest in sequence, equal length so no preference)
    assert_eq!(result.spent.len(), 1);
    assert!(result.spent.contains(&Card::new(Suit::Hearts, Rank::King)));
    // QJT become winners
    assert_eq!(result.winners.len(), 3);
    assert!(result.winners.contains(&Card::new(Suit::Hearts, Rank::Queen)));
    assert!(result.winners.contains(&Card::new(Suit::Hearts, Rank::Jack)));
    assert!(result.winners.contains(&Card::new(Suit::Hearts, Rank::Ten)));
}

#[test]
fn test_promotable_spend_multiple_from_shorter() {
    // Dummy has K32 (3 cards), declarer has QJT98 (5 cards)
    // Combined sequence: KQJT98 (6 cards), missing A = 5 promotable winners
    // Dummy is shorter, should spend K first, then from declarer
    // Max tricks = 5, so up to 5 winners possible
    let mut dummy = Hand::new();
    dummy.spades = Holding::from_ranks([Rank::King, Rank::Three, Rank::Two]);

    let mut declarer = Hand::new();
    declarer.spades = Holding::from_ranks([
        Rank::Queen,
        Rank::Jack,
        Rank::Ten,
        Rank::Nine,
        Rank::Eight,
    ]);

    let result = find_promotable_winners(&dummy, &declarer);
    // K should be spent (from shorter hand)
    assert_eq!(result.spent.len(), 1);
    assert!(result.spent.contains(&Card::new(Suit::Spades, Rank::King)));
    // QJJT98 become winners, but limited to 5 by max tricks
    assert_eq!(result.winners.len(), 5);
    assert!(result.winners.contains(&Card::new(Suit::Spades, Rank::Queen)));
    assert!(result.winners.contains(&Card::new(Suit::Spades, Rank::Jack)));
    assert!(result.winners.contains(&Card::new(Suit::Spades, Rank::Ten)));
    assert!(result.winners.contains(&Card::new(Suit::Spades, Rank::Nine)));
    assert!(result.winners.contains(&Card::new(Suit::Spades, Rank::Eight)));
}

// Tests for find_length_winners
//
// These tests verify that length winners excludes:
// 1. Sure winners (like Aces)
// 2. Companion cards (played from shorter hand alongside sure winners)

#[test]
fn test_length_winners_4_3_fit_with_ace() {
    // Dummy has T52 (3 cards), declarer has A764 (4 cards)
    // Combined: 7 cards, defenders have 6 cards (3-3 optimal split)
    // A is a sure winner (excluded from length analysis)
    // 2 is companion (played with A from shorter hand, excluded)
    // Remaining: T5 + 764 = 5 cards (2 dummy, 3 declarer)
    // Max tricks = 4, defenders need 3 rounds to exhaust
    // Length winners = 4 - 3 = 1
    // Length winner = highest in longer remaining hand (declarer: 7)
    let mut dummy = Hand::new();
    dummy.diamonds = Holding::from_ranks([Rank::Ten, Rank::Five, Rank::Two]);

    let mut declarer = Hand::new();
    declarer.diamonds =
        Holding::from_ranks([Rank::Ace, Rank::Seven, Rank::Six, Rank::Four]);

    let result = find_length_winners(&dummy, &declarer);

    // 1 length winner - the 7 (highest in remaining longer hand after excluding A and companion)
    assert_eq!(result.winners.len(), 1);
    assert!(result.winners.contains(&Card::new(Suit::Diamonds, Rank::Seven)));

    // Ducks: T5 from dummy + 64 from declarer (A excluded as sure winner, 2 as companion)
    assert_eq!(result.ducks.len(), 4);
}

#[test]
fn test_length_winners_4_3_fit_no_sure_winners() {
    // Dummy has T52 (3 cards), declarer has 9764 (4 cards) - no Ace
    // Combined: 7 cards, defenders have 6 cards (3-3 optimal split)
    // No sure winners, so all cards participate in length play
    // Max tricks = 4, tricks to exhaust = 3
    // Length winners = 4 - 3 = 1
    // Length winner = highest in longer hand (declarer: 9)
    let mut dummy = Hand::new();
    dummy.diamonds = Holding::from_ranks([Rank::Ten, Rank::Five, Rank::Two]);

    let mut declarer = Hand::new();
    declarer.diamonds =
        Holding::from_ranks([Rank::Nine, Rank::Seven, Rank::Six, Rank::Four]);

    let result = find_length_winners(&dummy, &declarer);

    // 1 length winner - the 9 (highest in longer hand)
    assert_eq!(result.winners.len(), 1);
    assert!(result.winners.contains(&Card::new(Suit::Diamonds, Rank::Nine)));

    // Ducks: all other cards (T52 from dummy, 764 from declarer)
    assert_eq!(result.ducks.len(), 6);
    assert!(result.ducks.contains(&Card::new(Suit::Diamonds, Rank::Ten)));
    assert!(result.ducks.contains(&Card::new(Suit::Diamonds, Rank::Five)));
    assert!(result.ducks.contains(&Card::new(Suit::Diamonds, Rank::Two)));
    assert!(result.ducks.contains(&Card::new(Suit::Diamonds, Rank::Seven)));
    assert!(result.ducks.contains(&Card::new(Suit::Diamonds, Rank::Six)));
    assert!(result.ducks.contains(&Card::new(Suit::Diamonds, Rank::Four)));
}

#[test]
fn test_length_winners_board1_clubs() {
    // Board 1 clubs: dummy (South after rotation) has 642, declarer (North) has A983
    // This matches the user's example
    // A is a sure winner (excluded)
    // 2 is played with A (companion, excluded)
    // Remaining: 64 + 983 = 5 cards
    // Duck tricks: 3+4, 8+6
    // Length winner: 9
    let mut dummy = Hand::new();
    dummy.clubs = Holding::from_ranks([Rank::Six, Rank::Four, Rank::Two]);

    let mut declarer = Hand::new();
    declarer.clubs =
        Holding::from_ranks([Rank::Ace, Rank::Nine, Rank::Eight, Rank::Three]);

    let result = find_length_winners(&dummy, &declarer);

    // 1 length winner - the 9 (lowest remaining in longer hand after excluding Ace)
    assert_eq!(result.winners.len(), 1);
    assert!(result.winners.contains(&Card::new(Suit::Clubs, Rank::Nine)));

    // Ducks: 3,8 from declarer + 6,4 from dummy (2 was companion to Ace)
    assert_eq!(result.ducks.len(), 4);
    assert!(result.ducks.contains(&Card::new(Suit::Clubs, Rank::Eight)));
    assert!(result.ducks.contains(&Card::new(Suit::Clubs, Rank::Three)));
    assert!(result.ducks.contains(&Card::new(Suit::Clubs, Rank::Six)));
    assert!(result.ducks.contains(&Card::new(Suit::Clubs, Rank::Four)));
}

#[test]
fn test_length_winners_5_2_fit_with_ak() {
    // Dummy has 52 (2 cards), declarer has AK764 (5 cards)
    // Combined: 7 cards, defenders have 6 cards (3-3 optimal split)
    // AK are sure winners (2 tricks), uses companions 5 and 2 from dummy
    // Remaining: none in dummy + 764 in declarer = 3 cards
    // Max tricks = 5, defenders need 3 rounds to exhaust
    // Length winners = 5 - 3 = 2
    // Length winners = highest 2 in declarer after excluding AK = 7, 6
    let mut dummy = Hand::new();
    dummy.diamonds = Holding::from_ranks([Rank::Five, Rank::Two]);

    let mut declarer = Hand::new();
    declarer.diamonds = Holding::from_ranks([
        Rank::Ace,
        Rank::King,
        Rank::Seven,
        Rank::Six,
        Rank::Four,
    ]);

    let result = find_length_winners(&dummy, &declarer);

    // 2 length winners - the 7 and 6 (highest remaining after AK excluded)
    assert_eq!(result.winners.len(), 2);
    assert!(result.winners.contains(&Card::new(Suit::Diamonds, Rank::Seven)));
    assert!(result.winners.contains(&Card::new(Suit::Diamonds, Rank::Six)));

    // Ducks: 4 from declarer (52 from dummy are companions to AK)
    assert_eq!(result.ducks.len(), 1);
    assert!(result.ducks.contains(&Card::new(Suit::Diamonds, Rank::Four)));
}

#[test]
fn test_length_winners_5_3_fit_with_ak() {
    // Dummy has 532 (3 cards), declarer has AK764 (5 cards)
    // Combined: 8 cards, defenders have 5 cards (3-2 optimal split)
    // AK are sure winners (2 tricks), uses 2 companions from dummy (2, 3)
    // Remaining: 5 from dummy + 764 from declarer = 4 cards
    // Max tricks = 5, defenders need 3 rounds to exhaust
    // Length winners = 5 - 3 = 2
    // Length winners = highest 2 in declarer after excluding AK = 7, 6
    let mut dummy = Hand::new();
    dummy.diamonds = Holding::from_ranks([Rank::Five, Rank::Three, Rank::Two]);

    let mut declarer = Hand::new();
    declarer.diamonds = Holding::from_ranks([
        Rank::Ace,
        Rank::King,
        Rank::Seven,
        Rank::Six,
        Rank::Four,
    ]);

    let result = find_length_winners(&dummy, &declarer);

    // 2 length winners - the 7 and 6 (highest remaining)
    assert_eq!(result.winners.len(), 2);
    assert!(result.winners.contains(&Card::new(Suit::Diamonds, Rank::Seven)));
    assert!(result.winners.contains(&Card::new(Suit::Diamonds, Rank::Six)));
}

#[test]
fn test_length_winners_5_4_fit_with_ak() {
    // Dummy has 5432 (4 cards), declarer has AK876 (5 cards)
    // Combined: 9 cards, defenders have 4 cards (2-2 optimal split)
    // AK are sure winners (2 tricks), uses 2 companions from dummy (2, 3)
    // Remaining: 54 from dummy + 876 from declarer = 5 cards
    // Max tricks = 5, defenders need 2 rounds to exhaust
    // Length winners = 5 - 2 = 3
    // Length winners = highest 3 in declarer after excluding AK = 8, 7, 6
    let mut dummy = Hand::new();
    dummy.diamonds = Holding::from_ranks([Rank::Five, Rank::Four, Rank::Three, Rank::Two]);

    let mut declarer = Hand::new();
    declarer.diamonds = Holding::from_ranks([
        Rank::Ace,
        Rank::King,
        Rank::Eight,
        Rank::Seven,
        Rank::Six,
    ]);

    let result = find_length_winners(&dummy, &declarer);

    // 3 length winners - the 8, 7, 6 (highest remaining)
    assert_eq!(result.winners.len(), 3);
    assert!(result.winners.contains(&Card::new(Suit::Diamonds, Rank::Eight)));
    assert!(result.winners.contains(&Card::new(Suit::Diamonds, Rank::Seven)));
    assert!(result.winners.contains(&Card::new(Suit::Diamonds, Rank::Six)));
}

#[test]
fn test_length_winners_not_enough_cards() {
    // Dummy has 52 (2 cards), declarer has 976 (3 cards) - no sure winners
    // Combined: 5 cards - not enough for length winners (need 7+)
    let mut dummy = Hand::new();
    dummy.diamonds = Holding::from_ranks([Rank::Five, Rank::Two]);

    let mut declarer = Hand::new();
    declarer.diamonds = Holding::from_ranks([Rank::Nine, Rank::Seven, Rank::Six]);

    let result = find_length_winners(&dummy, &declarer);

    assert_eq!(result.winners.len(), 0);
    assert_eq!(result.ducks.len(), 0);
    assert!(!result.has_length_winners());
}

#[test]
fn test_length_winners_6_cards_not_enough() {
    // Dummy has 52 (2 cards), declarer has 9764 (4 cards) - no sure winners
    // Combined: 6 cards - not enough for length winners (need 7+)
    let mut dummy = Hand::new();
    dummy.diamonds = Holding::from_ranks([Rank::Five, Rank::Two]);

    let mut declarer = Hand::new();
    declarer.diamonds =
        Holding::from_ranks([Rank::Nine, Rank::Seven, Rank::Six, Rank::Four]);

    let result = find_length_winners(&dummy, &declarer);

    assert_eq!(result.winners.len(), 0);
    assert!(!result.has_length_winners());
}

#[test]
fn test_length_winners_equal_length_no_sure_winners() {
    // Dummy has T954 (4 cards), declarer has 763 (3 cards) - no sure winners
    // Combined: 7 cards, defenders have 6 (3-3 split)
    // Max tricks = 4, tricks to exhaust = 3
    // Length winners = 4 - 3 = 1
    // Dummy is longer, so length winner is in dummy (the highest = T)
    let mut dummy = Hand::new();
    dummy.diamonds =
        Holding::from_ranks([Rank::Ten, Rank::Nine, Rank::Five, Rank::Four]);

    let mut declarer = Hand::new();
    declarer.diamonds = Holding::from_ranks([Rank::Seven, Rank::Six, Rank::Three]);

    let result = find_length_winners(&dummy, &declarer);

    // 1 length winner in dummy (longer hand) - the T (highest)
    assert_eq!(result.winners.len(), 1);
    assert!(result.winners.contains(&Card::new(Suit::Diamonds, Rank::Ten)));
}

#[test]
fn test_length_winners_multiple_suits_with_promotable() {
    // Test with multiple suits - diamonds has length winners, clubs has promotable
    let mut dummy = Hand::new();
    dummy.diamonds = Holding::from_ranks([Rank::Ten, Rank::Five, Rank::Two]);
    dummy.clubs = Holding::from_ranks([Rank::Nine, Rank::Eight]);

    let mut declarer = Hand::new();
    declarer.diamonds =
        Holding::from_ranks([Rank::Nine, Rank::Seven, Rank::Six, Rank::Four]);
    declarer.clubs = Holding::from_ranks([
        Rank::Ten,
        Rank::Seven,
        Rank::Six,
        Rank::Four,
        Rank::Three,
    ]);

    let result = find_length_winners(&dummy, &declarer);

    // Diamonds: 7 cards (4-3 fit), no promotable = 1 length winner (highest = 9)
    // Clubs: promotable winners consume most cards, leaving only 43 for length play
    // After T9876 are accounted for as promotable, only 43 remain
    // With 2 length winners expected (5-3=2), both 4 and 3 become length winners
    assert_eq!(result.winners.len(), 3);
    assert!(result.has_length_winners());
    assert!(result.winners.contains(&Card::new(Suit::Diamonds, Rank::Nine)));
    // Clubs 4 and 3 are the remaining length winners after promotable cards excluded
    assert!(result.winners.contains(&Card::new(Suit::Clubs, Rank::Four)));
    assert!(result.winners.contains(&Card::new(Suit::Clubs, Rank::Three)));
}

#[test]
fn test_length_winners_multiple_suits_no_promotable() {
    // Test with multiple suits having length winners, no promotable sequences
    let mut dummy = Hand::new();
    dummy.diamonds = Holding::from_ranks([Rank::Ten, Rank::Five, Rank::Two]);
    dummy.clubs = Holding::from_ranks([Rank::Nine, Rank::Five]); // Non-touching, no promotion

    let mut declarer = Hand::new();
    declarer.diamonds =
        Holding::from_ranks([Rank::Nine, Rank::Seven, Rank::Six, Rank::Four]);
    declarer.clubs = Holding::from_ranks([
        Rank::Eight,
        Rank::Seven,
        Rank::Four,
        Rank::Three,
        Rank::Two,
    ]); // 87 touches but missing too many higher cards

    let result = find_length_winners(&dummy, &declarer);

    // Diamonds: 7 cards (4-3 fit) = 1 length winner (highest = 9)
    // Clubs: 7 cards (5-2 fit), no promotable = 2 length winners (highest = 8, 7)
    assert_eq!(result.winners.len(), 3);
    assert!(result.has_length_winners());
    assert!(result.winners.contains(&Card::new(Suit::Diamonds, Rank::Nine)));
    assert!(result.winners.contains(&Card::new(Suit::Clubs, Rank::Eight)));
    assert!(result.winners.contains(&Card::new(Suit::Clubs, Rank::Seven)));
}

#[test]
fn length_play_uses_held_cards_once() {
    let mut dummy = Hand::new();
    dummy.spades = Holding::from_ranks([Rank::Ace, Rank::King, Rank::Five, Rank::Four, Rank::Three]);
    dummy.hearts = Holding::from_ranks([Rank::King, Rank::Queen, Rank::Jack, Rank::Ten, Rank::Two]);
    let mut declarer = Hand::new();
    declarer.spades = Holding::from_ranks([Rank::Queen, Rank::Six, Rank::Two]);
    declarer.hearts = Holding::from_ranks([Rank::Nine, Rank::Eight]);
    let sure = find_sure_winners(&dummy, &declarer);
    let promo = find_promotable_winners(&dummy, &declarer);
    let length = find_length_winners(&dummy, &declarer);
    assert!(!length.winners.is_empty());
    for card in length.winners.iter().chain(length.ducks.iter()) {
        let holds = |h: &Hand| h.holding(card.suit).contains(card.rank);
        assert!(holds(&dummy) || holds(&declarer));
        assert!(!sure.contains(card));
        assert!(!promo.spent.contains(card));
        assert!(!promo.winners.contains(card));
    }
    for card in &length.winners {
        assert!(!length.ducks.contains(card));
    }
}
