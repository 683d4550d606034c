use std::cmp::Ordering;
use pbn_to_pdf::model::auction::Contract;
use pbn_to_pdf::model::card::RANKS_DISPLAY_ORDER;
use pbn_to_pdf::model::card::SUITS_DISPLAY_ORDER;
use pbn_to_pdf::model::play::Trick;
use pbn_to_pdf::model::rank_display_cmp;
use pbn_to_pdf::model::{
    BidSuit, Board, Call, Card, Deal, Direction, FormattedText, Hand, Holding, PlaySequence, Rank,
    Strain, Suit, TextSpan, Vulnerability,
};

// ------------------------------------------------------------------ board

#[test]
fn test_vulnerability_parsing() {
    assert_eq!(Vulnerability::from_pbn("None"), Some(Vulnerability::Neither));
    assert_eq!(
        Vulnerability::from_pbn("NS"),
        Some(Vulnerability::NorthSouth)
    );
    assert_eq!(
        Vulnerability::from_pbn("E-W"),
        Some(Vulnerability::EastWest)
    );
    assert_eq!(Vulnerability::from_pbn("Both"), Some(Vulnerability::Both));
}

#[test]
fn test_vulnerability_check() {
    assert!(!Vulnerability::Neither.is_vulnerable(Direction::North));
    assert!(Vulnerability::Both.is_vulnerable(Direction::North));
    assert!(Vulnerability::NorthSouth.is_vulnerable(Direction::South));
    assert!(!Vulnerability::NorthSouth.is_vulnerable(Direction::East));
}

#[test]
fn test_board_title() {
    let board = Board::new()
        .with_number(1)
        .with_dealer(Direction::North)
        .with_vulnerability(Vulnerability::Neither);

    assert_eq!(board.title(), "Board 1 • North Deals • None Vul");
}

#[test]
fn board_title_without_number_or_dealer() {
    let board = Board::new().with_vulnerability(Vulnerability::EastWest);
    assert_eq!(board.title(), "E-W Vul");
}

#[test]
fn vulnerability_other_spellings() {
    assert_eq!(Vulnerability::from_pbn("love"), Some(Vulnerability::Neither));
    assert_eq!(Vulnerability::from_pbn("-"), Some(Vulnerability::Neither));
    assert_eq!(Vulnerability::from_pbn("n-s"), Some(Vulnerability::NorthSouth));
    assert_eq!(Vulnerability::from_pbn("All"), Some(Vulnerability::Both));
    assert_eq!(Vulnerability::from_pbn("Some"), None);
}

#[test]
fn partners_share_vulnerability() {
    for v in [
        Vulnerability::Neither,
        Vulnerability::NorthSouth,
        Vulnerability::EastWest,
        Vulnerability::Both,
    ] {
        for d in Direction::all() {
            assert_eq!(v.is_vulnerable(d), v.is_vulnerable(d.partner()));
        }
    }
}

#[test]
fn opening_lead_is_left_of_declarer() {
    let mut board = Board::new();
    assert_eq!(board.opening_lead_direction(), None);
    board.declarer = Some(Direction::South);
    assert_eq!(board.opening_lead_direction(), Some(Direction::West));
}

// ------------------------------------------------------------------- card

#[test]
fn card_test_suit_symbols() {
    assert_eq!(Suit::Spades.symbol(), '♠');
    assert_eq!(Suit::Hearts.symbol(), '♥');
    assert_eq!(Suit::Diamonds.symbol(), '♦');
    assert_eq!(Suit::Clubs.symbol(), '♣');
}

#[test]
fn test_suit_colors() {
    assert!(!Suit::Spades.is_red());
    assert!(Suit::Hearts.is_red());
    assert!(Suit::Diamonds.is_red());
    assert!(!Suit::Clubs.is_red());
}

#[test]
fn test_rank_parsing() {
    assert_eq!(Rank::from_pbn_char('A'), Some(Rank::Ace));
    assert_eq!(Rank::from_pbn_char('T'), Some(Rank::Ten));
    assert_eq!(Rank::from_pbn_char('2'), Some(Rank::Two));
    assert_eq!(Rank::from_pbn_char('X'), None);
}

#[test]
fn test_hcp_values() {
    assert_eq!(Rank::Ace.hcp_value(), 4);
    assert_eq!(Rank::King.hcp_value(), 3);
    assert_eq!(Rank::Queen.hcp_value(), 2);
    assert_eq!(Rank::Jack.hcp_value(), 1);
    assert_eq!(Rank::Ten.hcp_value(), 0);
}

#[test]
fn test_display_order() {
    // First suit in display order should be Spades
    assert_eq!(SUITS_DISPLAY_ORDER[0], Suit::Spades);
    // First rank in display order should be Ace
    assert_eq!(RANKS_DISPLAY_ORDER[0], Rank::Ace);
    // Last rank should be Two
    assert_eq!(RANKS_DISPLAY_ORDER[12], Rank::Two);
}

#[test]
fn test_rank_display_ordering() {
    assert_eq!(rank_display_cmp(&Rank::Ace, &Rank::King), Ordering::Less); // Ace sorts before King in display
    assert_eq!(
        rank_display_cmp(&Rank::Two, &Rank::Three),
        Ordering::Greater
    ); // Two sorts after Three
    assert_eq!(rank_display_cmp(&Rank::Ten, &Rank::Ten), Ordering::Equal);
}

#[test]
fn rank_characters_read_back() {
    for r in RANKS_DISPLAY_ORDER {
        assert_eq!(Rank::from_char(r.to_char()), Some(r));
    }
    assert_eq!(Rank::from_char('q'), Some(Rank::Queen));
}

// ---------------------------------------------------------------- auction

#[test]
fn test_bid_parsing() {
    assert_eq!(
        Call::from_pbn("1C"),
        Some(Call::Bid {
            level: 1,
            strain: Strain::Clubs
        })
    );
    assert_eq!(
        Call::from_pbn("3NT"),
        Some(Call::Bid {
            level: 3,
            strain: Strain::NoTrump
        })
    );
    assert_eq!(Call::from_pbn("Pass"), Some(Call::Pass));
    assert_eq!(Call::from_pbn("X"), Some(Call::Double));
    assert_eq!(Call::from_pbn("XX"), Some(Call::Redouble));
    assert_eq!(Call::from_pbn("+"), Some(Call::Continue));
}

#[test]
fn test_bid_display() {
    assert_eq!(
        Call::Bid {
            level: 1,
            strain: Strain::NoTrump
        }
        .to_string(),
        "1NT"
    );
}

#[test]
fn test_contract_display() {
    let contract = Contract {
        level: 4,
        suit: Strain::Spades,
        doubled: true,
        redoubled: false,
        declarer: Direction::South,
    };
    assert_eq!(contract.to_string(), "4♠X by South");
}

#[test]
fn test_bidsuit_alias() {
    // BidSuit is now an alias for Strain
    let suit: BidSuit = Strain::Hearts;
    assert!(suit.is_red());
    assert_eq!(suit.symbol(), "♥");
}

#[test]
fn call_parsing_rejects_nonsense() {
    assert_eq!(Call::from_pbn("8C"), None);
    assert_eq!(Call::from_pbn("1Z"), None);
    assert_eq!(Call::from_pbn(""), None);
    assert_eq!(Call::from_pbn("p"), Some(Call::Pass));
    assert_eq!(Call::from_pbn("-"), Some(Call::Blank));
}

#[test]
fn redoubled_contract_display() {
    let contract = Contract {
        level: 1,
        suit: Strain::NoTrump,
        doubled: false,
        redoubled: true,
        declarer: Direction::West,
    };
    assert_eq!(contract.to_string(), "1NTXX by West");
}

// ------------------------------------------------------------- commentary

#[test]
fn test_formatted_text_to_plain() {
    let mut text = FormattedText::new();
    text.push(TextSpan::Bold("Bidding.".to_string()));
    text.push(TextSpan::Plain(" Open 1".to_string()));
    text.push(TextSpan::SuitSymbol(Suit::Spades));

    assert_eq!(text.to_plain_text(), "Bidding. Open 1♠");
}

#[test]
fn plain_text_of_card_reference_and_line_break() {
    let mut text = FormattedText::new();
    text.push(TextSpan::CardRef {
        suit: Suit::Hearts,
        rank: Rank::King,
    });
    text.push(TextSpan::LineBreak);
    text.push(TextSpan::italic("end"));
    assert_eq!(text.to_plain_text(), "♥K\nend");
}

// ------------------------------------------------------------------- deal

#[test]
fn test_direction_from_char() {
    assert_eq!(Direction::from_char('N'), Some(Direction::North));
    assert_eq!(Direction::from_char('e'), Some(Direction::East));
    assert_eq!(Direction::from_char('X'), None);
}

#[test]
fn test_direction_next() {
    assert_eq!(Direction::North.next(), Direction::East);
    assert_eq!(Direction::East.next(), Direction::South);
    assert_eq!(Direction::South.next(), Direction::West);
    assert_eq!(Direction::West.next(), Direction::North);
}

#[test]
fn test_direction_partner() {
    assert_eq!(Direction::North.partner(), Direction::South);
    assert_eq!(Direction::East.partner(), Direction::West);
}

#[test]
fn test_table_position() {
    assert_eq!(Direction::West.table_position(), 0);
    assert_eq!(Direction::North.table_position(), 1);
    assert_eq!(Direction::East.table_position(), 2);
    assert_eq!(Direction::South.table_position(), 3);
}

#[test]
fn four_steps_come_back() {
    for d in Direction::all() {
        assert_eq!(d.next().next().next().next(), d);
        assert_eq!(d.partner().partner(), d);
        assert_ne!(d.partner(), d);
    }
}

#[test]
fn test_suits_present_full_deal() {
    let mut deal = Deal::new();
    deal.north.spades = Holding::from_ranks([Rank::Ace, Rank::King]);
    deal.north.hearts = Holding::from_ranks([Rank::Ace]);
    deal.south.diamonds = Holding::from_ranks([Rank::Ace]);
    deal.west.clubs = Holding::from_ranks([Rank::Ace]);

    let suits = deal.suits_present();
    assert_eq!(suits.len(), 4);
    assert!(!deal.is_fragment());
}

#[test]
fn test_suits_present_spades_only() {
    let mut deal = Deal::new();
    deal.north.spades = Holding::from_ranks([Rank::King, Rank::Queen, Rank::Jack, Rank::Ten]);
    deal.east.spades = Holding::from_ranks([Rank::Seven, Rank::Six, Rank::Four, Rank::Two]);

    let suits = deal.suits_present();
    assert_eq!(suits.len(), 1);
    assert_eq!(suits[0], Suit::Spades);
    assert!(deal.is_fragment());
}

#[test]
fn test_suits_present_empty_deal() {
    let deal = Deal::new();
    let suits = deal.suits_present();
    assert_eq!(suits.len(), 0);
    assert!(deal.is_fragment());
    assert!(deal.is_empty());
}

#[test]
fn test_is_empty_with_cards() {
    let mut deal = Deal::new();
    deal.north.spades = Holding::from_ranks([Rank::Ace]);

    assert!(!deal.is_empty());
}

#[test]
fn deal_hand_access() {
    let mut deal = Deal::new();
    let mut hand = Hand::new();
    hand.clubs = Holding::from_ranks([Rank::Two]);
    deal.set_hand(Direction::East, hand);
    assert_eq!(deal.hand(Direction::East).clubs.len(), 1);
    assert_eq!(deal.hand(Direction::West).clubs.len(), 0);
    deal.hand_mut(Direction::West).spades.add(Rank::Nine);
    assert!(deal.west.spades.contains(Rank::Nine));
}

// ------------------------------------------------------------------- hand

#[test]
fn test_holding_hcp() {
    let holding = Holding::from_ranks([Rank::Ace, Rank::King, Rank::Queen]);
    assert_eq!(holding.hcp(), 9);
}

#[test]
fn test_empty_holding() {
    let holding = Holding::new();
    assert!(holding.is_void());
    assert_eq!(holding.to_string(), "-");
}

#[test]
fn test_hand_shape() {
    let mut hand = Hand::new();
    hand.spades =
        Holding::from_ranks([Rank::Ace, Rank::King, Rank::Queen, Rank::Jack, Rank::Ten]);
    hand.hearts = Holding::from_ranks([Rank::Ace, Rank::King, Rank::Queen]);
    hand.diamonds = Holding::from_ranks([Rank::Ace, Rank::King]);
    hand.clubs = Holding::from_ranks([Rank::Ace, Rank::King, Rank::Queen]);

    assert_eq!(hand.shape(), [5, 3, 2, 3]);
    assert_eq!(hand.card_count(), 13);
}

#[test]
fn holding_text_and_duplicates() {
    let holding = Holding::from_ranks([Rank::Two, Rank::Ace, Rank::Ten, Rank::Ace]);
    assert_eq!(holding.len(), 3);
    assert_eq!(holding.to_string(), "AT2");
    assert_eq!(holding.ranks(), vec![Rank::Ace, Rank::Ten, Rank::Two]);
}

#[test]
fn full_hand_points() {
    let mut hand = Hand::new();
    for suit in SUITS_DISPLAY_ORDER {
        *hand.holding_mut(suit) = Holding::from_ranks([Rank::Ace, Rank::King, Rank::Queen, Rank::Jack]);
    }
    assert_eq!(hand.total_hcp(), 40);
    assert_eq!(hand.card_count(), 16);
}

// ------------------------------------------------------------------- play

#[test]
fn test_trick_complete() {
    let mut trick = Trick::new(Direction::West);
    assert!(!trick.is_complete());

    trick.set_card(0, Card::new(Suit::Spades, Rank::Ace));
    trick.set_card(1, Card::new(Suit::Spades, Rank::King));
    trick.set_card(2, Card::new(Suit::Spades, Rank::Queen));
    trick.set_card(3, Card::new(Suit::Spades, Rank::Jack));
    assert!(trick.is_complete());
}

#[test]
fn trick_ignores_fifth_position() {
    let mut trick = Trick::new(Direction::North);
    trick.set_card(4, Card::new(Suit::Clubs, Rank::Two));
    assert_eq!(trick.cards, [None, None, None, None]);
}

#[test]
fn play_sequence_counts_complete_tricks() {
    let mut play = PlaySequence::new(Direction::East);
    let mut full = Trick::new(Direction::East);
    for i in 0..4 {
        full.set_card(i, Card::new(Suit::Hearts, Rank::Two));
    }
    play.add_trick(full);
    play.add_trick(Trick::new(Direction::East));
    assert_eq!(play.tricks_played(), 1);
    assert!(!play.is_complete());
}
