use pbn_to_pdf::model::auction::Auction;
use pbn_to_pdf::model::card::AnnotatedCall;
use pbn_to_pdf::model::commentary::CommentaryBlock;
use pbn_to_pdf::model::metadata::{ColorSettings, PaperSize};
use pbn_to_pdf::model::{Board, Call, Deal, Direction, FormattedText, Hand, Holding, Rank, Strain, Suit, TextSpan};
use pbn_to_pdf::render::card_assets::{get_card_svg, CardLoadError};
use pbn_to_pdf::render::commentary::{
    is_card_char, is_rank_char, is_rank_char_standalone, suit_from_symbol, tokenize_spans,
    RenderFragment, RenderToken, TextStyle, WordGroup,
};
use pbn_to_pdf::render::fonts::{suit_char, suit_text, FontFamily};
use pbn_to_pdf::render::glyph_collector::{GlyphCollector, GlyphSets};
use pbn_to_pdf::model::auction::Contract;
use pbn_to_pdf::render::bidding_table::{auction_header, auction_table, AuctionCell, CellText};
use pbn_to_pdf::model::play::{PlaySequence, Trick};
use pbn_to_pdf::model::Card;
use pbn_to_pdf::render::layouts::{
    dummy_suit_order, format_opposition_bidding, prepare_board, rotate_deal_for_declarer,
    who_bids_first, BoardVisibility, MixedText, TextSegment,
};

fn text(s: &str, style: TextStyle) -> RenderFragment {
    RenderFragment::Text {
        text: s.to_string(),
        style,
    }
}

fn group(fragments: Vec<RenderFragment>) -> RenderToken {
    RenderToken::WordGroup(WordGroup { fragments })
}

#[test]
fn font_family_from_name() {
    assert_eq!(FontFamily::from_name("Times New Roman"), FontFamily::Serif);
    assert_eq!(FontFamily::from_name("DejaVu SERIF"), FontFamily::Serif);
    assert_eq!(FontFamily::from_name("Palatino Linotype"), FontFamily::Serif);
    assert_eq!(FontFamily::from_name("Arial"), FontFamily::SansSerif);
    assert_eq!(FontFamily::from_name("Sans-Serif"), FontFamily::Serif);
    assert_eq!(FontFamily::from_name(""), FontFamily::SansSerif);
}

#[test]
fn suit_glyphs() {
    assert_eq!(suit_char(&Suit::Hearts), '♥');
    assert_eq!(suit_text(&Suit::Clubs), "C");
    assert_eq!(suit_from_symbol('♦'), Some(Suit::Diamonds));
    assert_eq!(suit_from_symbol('D'), None);
    for s in [Suit::Spades, Suit::Hearts, Suit::Diamonds, Suit::Clubs] {
        assert_eq!(suit_from_symbol(suit_char(&s)), Some(s));
    }
}

#[test]
fn card_characters() {
    assert!(is_card_char('K'));
    assert!(is_card_char('x'));
    assert!(is_card_char('9'));
    assert!(!is_card_char('k'));
    assert!(!is_card_char('1'));
    assert!(is_rank_char('T'));
    assert!(is_rank_char_standalone('J', &[' ', '1', '0']));
    assert!(!is_rank_char_standalone('J', &['o', 'k', 'e', 'r']));
    assert!(is_rank_char_standalone('A', &[' ', ' ', 'K']));
    assert!(is_rank_char_standalone('Q', &[]));
}

#[test]
fn tokenize_card_list_stays_together() {
    let spans = vec![TextSpan::Plain("Hold ♣K J 9, then".to_string())];
    let tokens = tokenize_spans(&spans);
    assert_eq!(
        tokens,
        vec![
            group(vec![text("Hold", TextStyle::Plain)]),
            RenderToken::Space,
            group(vec![
                RenderFragment::SuitSymbol(Suit::Clubs),
                text("K", TextStyle::Plain),
                text(" ", TextStyle::Plain),
                text("J", TextStyle::Plain),
                text(" ", TextStyle::Plain),
                text("9,", TextStyle::Plain),
            ]),
            RenderToken::Space,
            group(vec![text("then", TextStyle::Plain)]),
        ]
    );
}

#[test]
fn tokenize_card_list_ends_before_a_word() {
    let spans = vec![TextSpan::Plain("♣K J 9 then".to_string())];
    let tokens = tokenize_spans(&spans);
    assert_eq!(
        tokens,
        vec![
            group(vec![
                RenderFragment::SuitSymbol(Suit::Clubs),
                text("K", TextStyle::Plain),
                text(" ", TextStyle::Plain),
                text("J", TextStyle::Plain),
            ]),
            RenderToken::Space,
            group(vec![text("9", TextStyle::Plain)]),
            RenderToken::Space,
            group(vec![text("then", TextStyle::Plain)]),
        ]
    );
}

#[test]
fn tokenize_joker_is_not_a_card() {
    let spans = vec![
        TextSpan::SuitSymbol(Suit::Spades),
        TextSpan::Bold("A Joker".to_string()),
        TextSpan::LineBreak,
        TextSpan::CardRef {
            suit: Suit::Hearts,
            rank: Rank::Two,
        },
    ];
    let tokens = tokenize_spans(&spans);
    assert_eq!(
        tokens,
        vec![
            group(vec![
                RenderFragment::SuitSymbol(Suit::Spades),
                text("A", TextStyle::Bold),
            ]),
            RenderToken::Space,
            group(vec![text("Joker", TextStyle::Bold)]),
            RenderToken::LineBreak,
            group(vec![RenderFragment::CardRef {
                suit: Suit::Hearts,
                rank: Rank::Two
            }]),
        ]
    );
}

#[test]
fn glyphs_of_boards() {
    let sets = GlyphSets::with_fixed_glyphs();
    assert_eq!(sets.sans_bold, vec!['N', 'E', 'S', 'W']);
    assert!(sets.serif_italic.is_empty());

    let mut board = Board::new().with_number(907);
    let mut content = FormattedText::new();
    content.push(TextSpan::Italic("zé".to_string()));
    content.push(TextSpan::CardRef {
        suit: Suit::Spades,
        rank: Rank::Nine,
    });
    content.push(TextSpan::BoldItalic("ß".to_string()));
    board.commentary.push(CommentaryBlock::new(content));
    let mut auction = Auction::new(Direction::North);
    auction.add_annotated_call(Call::Pass, Some("Ω".to_string()));
    board.auction = Some(auction);

    let mut collector = GlyphCollector::new();
    collector.collect_from_boards(&[board]);
    let sets = collector.into_sets();
    assert!(sets.serif_italic.contains(&'z') && sets.serif_italic.contains(&'é'));
    assert!(sets.serif_regular.contains(&'9'));
    assert!(sets.serif_regular.contains(&'Ω'));
    assert!(sets.serif_bold_italic.contains(&'ß'));
    assert!(sets.serif_bold_italic.contains(&'7'));
    let mut seen = sets.serif_regular.clone();
    seen.sort();
    seen.dedup();
    assert_eq!(seen.len(), sets.serif_regular.len());
    let strings = GlyphCollector::new().into_strings();
    assert_eq!(strings.sans_regular, "♠♥♦♣");
}

#[test]
fn card_svg_files() {
    assert_eq!(get_card_svg(Suit::Spades, Rank::Ace), "ace_of_spades.svg");
    assert_eq!(get_card_svg(Suit::Hearts, Rank::Ten), "10_of_hearts.svg");
    assert_eq!(get_card_svg(Suit::Clubs, Rank::Two), "2_of_clubs.svg");
    let e = CardLoadError::MissingCard {
        suit: Suit::Diamonds,
        rank: Rank::Queen,
    };
    assert_eq!(e.message(), "Missing card SVG: Q of Diamonds");
    let e = CardLoadError::SvgParseError {
        suit: Suit::Spades,
        rank: Rank::Ten,
        message: "bad".to_string(),
    };
    assert_eq!(e.message(), "Failed to parse SVG for T of Spades: bad");
}

#[test]
fn declarer_rotation() {
    let mut deal = Deal::new();
    let mut north = Hand::new();
    north.spades = Holding::from_ranks([Rank::Ace]);
    deal.north = north;
    let mut east = Hand::new();
    east.hearts = Holding::from_ranks([Rank::King]);
    deal.east = east;
    assert_eq!(rotate_deal_for_declarer(&deal, Direction::South), (north, deal.south));
    assert_eq!(rotate_deal_for_declarer(&deal, Direction::West), (east, deal.west));
}

#[test]
fn who_bids_first_on_sheets() {
    let board = Board::new().with_dealer(Direction::West);
    assert_eq!(who_bids_first(&board, Direction::North), "You bid first.");
    assert_eq!(who_bids_first(&board, Direction::South), "Partner bids first.");
    let board = Board::new();
    assert_eq!(who_bids_first(&board, Direction::North), "");
}

#[test]
fn opposition_bidding_lines() {
    let mut board = Board::new();
    assert_eq!(
        format_opposition_bidding(&board),
        vec![MixedText::plain("The opponents are silent.")]
    );
    let mut auction = Auction::new(Direction::North);
    auction.add_call(Call::Bid {
        level: 1,
        strain: Strain::Clubs,
    });
    auction.add_call(Call::Double);
    auction.add_call(Call::Bid {
        level: 2,
        strain: Strain::Hearts,
    });
    auction.add_call(Call::Bid {
        level: 3,
        strain: Strain::Spades,
    });
    auction.add_call(Call::Pass);
    auction.add_call(Call::Redouble);
    board.auction = Some(auction);
    let lines = format_opposition_bidding(&board);
    assert_eq!(
        lines,
        vec![
            MixedText {
                segments: vec![
                    TextSegment::Plain("East Doubles 1".to_string()),
                    TextSegment::Suit(Strain::Clubs),
                    TextSegment::Plain(" if possible.".to_string()),
                ]
            },
            MixedText {
                segments: vec![
                    TextSegment::Plain("West Bids 3".to_string()),
                    TextSegment::Suit(Strain::Spades),
                    TextSegment::Plain(".".to_string()),
                ]
            },
            MixedText {
                segments: vec![TextSegment::Plain("East Redoubles if possible.".to_string())]
            },
        ]
    );
    let quiet: Vec<AnnotatedCall> = vec![AnnotatedCall::new(Call::Pass)];
    let mut a = Auction::new(Direction::East);
    a.calls = quiet;
    board.auction = Some(a);
    assert_eq!(
        format_opposition_bidding(&board),
        vec![MixedText::plain("The opponents are silent.")]
    );
}

#[test]
fn board_visibility() {
    let board = Board::new();
    let v = BoardVisibility::from_board(&board, true, true);
    assert!(!v.show_diagram);
    assert!(v.show_auction);
    assert!(!v.show_commentary);
    assert!(!v.has_content());
    let mut deal = Deal::new();
    deal.north.spades = Holding::from_ranks([Rank::Ace]);
    let board = Board::new().with_deal(deal);
    let v = BoardVisibility::from_board(&board, false, true);
    assert!(v.show_board && v.show_diagram && !v.show_auction);
    assert!(v.has_content());
}

#[test]
fn settings_defaults() {
    assert_eq!(PaperSize::default(), PaperSize::Letter);
    let c = ColorSettings::default();
    assert_eq!(c.hearts, (255, 0, 0));
    assert_eq!(c.spades, (0, 0, 0));
}

#[test]
fn prepared_board_for_declarer() {
    let mut deal = Deal::new();
    deal.north.spades = Holding::from_ranks([Rank::Ace, Rank::King]);
    deal.south.hearts = Holding::from_ranks([Rank::Queen]);
    deal.east.clubs = Holding::from_ranks([Rank::Two]);
    let mut board = Board::new().with_number(7).with_deal(deal);
    board.contract = Some(Contract {
        level: 4,
        suit: Strain::Spades,
        doubled: false,
        redoubled: false,
        declarer: Direction::North,
    });
    let mut play = PlaySequence::new(Direction::East);
    let mut trick = Trick::new(Direction::East);
    trick.set_card(0, Card::new(Suit::Clubs, Rank::Two));
    play.add_trick(trick);
    board.play = Some(play);
    let p = prepare_board(&board);
    assert_eq!(p.dummy_hand, deal.south);
    assert_eq!(p.declarer_hand, deal.north);
    assert!(!p.is_nt);
    assert_eq!(p.opening_lead, Some(Card::new(Suit::Clubs, Rank::Two)));
    assert_eq!(p.deal_number, Some(7));
    assert_eq!(p.contract_str, Some("4\u{2660}".to_string()));
    assert_eq!(p.trump, Some(Strain::Spades));
}

#[test]
fn prepared_board_without_contract() {
    let mut deal = Deal::new();
    deal.north.spades = Holding::from_ranks([Rank::Ace]);
    deal.south.hearts = Holding::from_ranks([Rank::Queen]);
    let board = Board::new().with_deal(deal);
    let p = prepare_board(&board);
    assert_eq!(p.declarer_hand, deal.south);
    assert_eq!(p.dummy_hand, deal.north);
    assert!(!p.is_nt);
    assert_eq!(p.opening_lead, None);
    assert_eq!(p.deal_number, None);
    assert_eq!(p.contract_str, None);
    assert_eq!(p.trump, None);
    let mut board = board;
    board.contract = Some(Contract {
        level: 3,
        suit: Strain::NoTrump,
        doubled: false,
        redoubled: false,
        declarer: Direction::South,
    });
    let p = prepare_board(&board);
    assert!(p.is_nt);
    assert_eq!(p.contract_str, Some("3NT".to_string()));
}

#[test]
fn dummy_suit_orders() {
    assert_eq!(
        dummy_suit_order(Suit::Spades, false),
        [Suit::Spades, Suit::Hearts, Suit::Diamonds, Suit::Clubs]
    );
    assert_eq!(
        dummy_suit_order(Suit::Diamonds, false),
        [Suit::Diamonds, Suit::Clubs, Suit::Spades, Suit::Hearts]
    );
    assert_eq!(
        dummy_suit_order(Suit::Hearts, true),
        [Suit::Hearts, Suit::Clubs, Suit::Diamonds, Suit::Spades]
    );
    assert_eq!(
        dummy_suit_order(Suit::Diamonds, true),
        [Suit::Diamonds, Suit::Spades, Suit::Hearts, Suit::Clubs]
    );
}

#[test]
fn mixed_text_lines() {
    assert_eq!(
        MixedText::plain("Pass."),
        MixedText { segments: vec![TextSegment::Plain("Pass.".to_string())] }
    );
    assert_eq!(
        MixedText::bid_action(Direction::West, "Overcalls", 2, Strain::Hearts),
        MixedText {
            segments: vec![
                TextSegment::Plain("West Overcalls 2".to_string()),
                TextSegment::Suit(Strain::Hearts),
                TextSegment::Plain(".".to_string()),
            ]
        }
    );
    assert_eq!(
        MixedText::double_action(Direction::East, 1, Strain::NoTrump),
        MixedText {
            segments: vec![
                TextSegment::Plain("East Doubles 1".to_string()),
                TextSegment::Suit(Strain::NoTrump),
                TextSegment::Plain(" if possible.".to_string()),
            ]
        }
    );
}

fn bid(level: u8, strain: Strain) -> Call {
    Call::Bid { level, strain }
}

fn cell(row: usize, col: usize, call: Call) -> AuctionCell {
    AuctionCell { row, col, text: CellText::Call(AnnotatedCall::new(call)) }
}

#[test]
fn bidding_table_four_columns_with_all_pass() {
    let mut a = Auction::new(Direction::North);
    for c in [bid(1, Strain::Clubs), Call::Pass, bid(1, Strain::Hearts), Call::Pass, Call::Pass, Call::Pass] {
        a.add_call(c);
    }
    assert_eq!(
        auction_table(&a, false),
        vec![
            cell(0, 1, bid(1, Strain::Clubs)),
            cell(0, 2, Call::Pass),
            cell(0, 3, bid(1, Strain::Hearts)),
            AuctionCell { row: 1, col: 0, text: CellText::AllPass },
        ]
    );
    assert_eq!(
        auction_header(&a, false),
        vec![Direction::West, Direction::North, Direction::East, Direction::South]
    );
}

#[test]
fn bidding_table_all_pass_after_partial_row() {
    let mut a = Auction::new(Direction::West);
    for c in [bid(1, Strain::NoTrump), Call::Pass, Call::Pass, Call::Pass] {
        a.add_call(c);
    }
    assert_eq!(
        auction_table(&a, false),
        vec![
            cell(0, 0, bid(1, Strain::NoTrump)),
            AuctionCell { row: 1, col: 0, text: CellText::AllPass },
        ]
    );
    let mut b = Auction::new(Direction::South);
    b.add_call(bid(1, Strain::Spades));
    b.add_call(Call::Pass);
    assert_eq!(auction_table(&b, false), vec![cell(0, 3, bid(1, Strain::Spades)), cell(1, 0, Call::Pass)]);
}

#[test]
fn bidding_table_passed_out() {
    let mut a = Auction::new(Direction::East);
    for _ in 0..4 {
        a.add_call(Call::Pass);
    }
    assert_eq!(auction_table(&a, false), vec![AuctionCell { row: 0, col: 2, text: CellText::PassedOut }]);
    assert_eq!(auction_table(&a, true), vec![AuctionCell { row: 0, col: 2, text: CellText::PassedOut }]);
}

#[test]
fn bidding_table_two_columns_for_uncontested_pair() {
    let mut a = Auction::new(Direction::South);
    for c in [
        bid(1, Strain::Spades),
        Call::Pass,
        bid(2, Strain::Spades),
        Call::Pass,
        bid(4, Strain::Spades),
        Call::Pass,
        Call::Pass,
        Call::Pass,
    ] {
        a.add_call(c);
    }
    assert_eq!(auction_header(&a, true), vec![Direction::North, Direction::South]);
    assert_eq!(
        auction_table(&a, true),
        vec![
            cell(0, 1, bid(1, Strain::Spades)),
            cell(0, 0, bid(2, Strain::Spades)),
            cell(1, 1, bid(4, Strain::Spades)),
            AuctionCell { row: 2, col: 0, text: CellText::AllPass },
        ]
    );
    let four = auction_table(&a, false);
    assert_eq!(four[0], cell(0, 3, bid(1, Strain::Spades)));
    assert_eq!(four[5], AuctionCell { row: 2, col: 0, text: CellText::AllPass });
}
