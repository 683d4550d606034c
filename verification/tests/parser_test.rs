use pbn_to_pdf::model::{Call, Direction, Holding, Rank, Strain, Suit, TextSpan, Vulnerability};
use pbn_to_pdf::parser::auction::parse_auction;
use pbn_to_pdf::parser::commentary::{extract_commentary, parse_commentary, parse_formatted_text};
use pbn_to_pdf::parser::deal::{parse_deal, parse_hand, parse_holding};
use pbn_to_pdf::parser::pbn::{parse_note_value, parse_pbn};
use pbn_to_pdf::parser::play::{parse_card, parse_play};
use pbn_to_pdf::parser::tags::{parse_tag_pair, parse_tag_pairs, TagPair};

// ------------------------------------------------------------- commentary

#[test]
fn test_plain_text() {
    let text = parse_formatted_text("Hello world").unwrap();
    assert_eq!(text.spans.len(), 1);
    assert_eq!(text.spans[0], TextSpan::Plain("Hello world".to_string()));
}

#[test]
fn test_bold_text() {
    let text = parse_formatted_text("<b>Bold</b> text").unwrap();
    assert_eq!(text.spans.len(), 2);
    assert_eq!(text.spans[0], TextSpan::Bold("Bold".to_string()));
    assert_eq!(text.spans[1], TextSpan::Plain(" text".to_string()));
}

#[test]
fn commentary_test_suit_symbols() {
    let text = parse_formatted_text(r"Open 1\S").unwrap();
    assert_eq!(text.spans.len(), 2);
    assert_eq!(text.spans[0], TextSpan::Plain("Open 1".to_string()));
    assert_eq!(text.spans[1], TextSpan::SuitSymbol(Suit::Spades));
}

#[test]
fn test_card_reference() {
    let text = parse_formatted_text(r"Lead the \SQ").unwrap();
    assert_eq!(text.spans.len(), 2);
    assert_eq!(text.spans[0], TextSpan::Plain("Lead the ".to_string()));
    assert_eq!(
        text.spans[1],
        TextSpan::CardRef {
            suit: Suit::Spades,
            rank: Rank::Queen
        }
    );
}

#[test]
fn test_mixed_formatting() {
    let text = parse_formatted_text(r"<b>Bidding.</b> Open 1\D and rebid 2\H").unwrap();
    assert_eq!(text.to_plain_text(), "Bidding. Open 1♦ and rebid 2♥");
}

#[test]
fn test_extract_commentary() {
    let input = "{This is commentary} rest of line";
    let (commentary, rest) = extract_commentary(input).unwrap();
    assert_eq!(commentary, "This is commentary");
    assert_eq!(rest, " rest of line");
}

#[test]
fn test_bold_with_spaces() {
    // Test "Declarer play." in bold followed by plain text
    let text = parse_formatted_text("<b>Declarer play.</b> Declarer (North)").unwrap();
    println!("Spans:");
    for (i, span) in text.spans.iter().enumerate() {
        println!("  {}: {:?}", i, span);
    }
    assert_eq!(text.spans.len(), 2);
    assert_eq!(text.spans[0], TextSpan::Bold("Declarer play.".to_string()));
    assert_eq!(text.spans[1], TextSpan::Plain(" Declarer (North)".to_string()));
}

#[test]
fn unclosed_tags_are_errors() {
    assert_eq!(
        parse_formatted_text("<b>never closed").unwrap_err(),
        "Unclosed <b> tag"
    );
    assert_eq!(
        parse_commentary("x <i>never closed").unwrap_err(),
        "Unclosed <i> tag"
    );
}

#[test]
fn line_ends_and_escapes() {
    let text = parse_formatted_text("one\ntwo\n\nthree\\nfour \\q").unwrap();
    assert_eq!(
        text.spans,
        vec![
            TextSpan::Plain("one two".to_string()),
            TextSpan::LineBreak,
            TextSpan::LineBreak,
            TextSpan::Plain("three".to_string()),
            TextSpan::LineBreak,
            TextSpan::Plain("four \\q".to_string()),
        ]
    );
}

#[test]
fn extract_needs_both_braces_in_order() {
    assert_eq!(extract_commentary("no braces"), None);
    assert_eq!(extract_commentary("} before {"), None);
    assert_eq!(extract_commentary("{a}b}"), Some(("a}b", "")));
}

// ------------------------------------------------------------------- deal

#[test]
fn test_parse_holding() {
    let holding = parse_holding("AKQ").unwrap();
    assert_eq!(holding.len(), 3);
    assert!(holding.ranks().contains(&Rank::Ace));
    assert!(holding.ranks().contains(&Rank::King));
    assert!(holding.ranks().contains(&Rank::Queen));
}

#[test]
fn test_parse_void_holding() {
    let holding = parse_holding("").unwrap();
    assert!(holding.is_void());

    let holding = parse_holding("-").unwrap();
    assert!(holding.is_void());
}

#[test]
fn test_parse_hand() {
    let hand = parse_hand("AKQ.JT9.876.5432").unwrap();
    assert_eq!(hand.spades.len(), 3);
    assert_eq!(hand.hearts.len(), 3);
    assert_eq!(hand.diamonds.len(), 3);
    assert_eq!(hand.clubs.len(), 4);
    assert_eq!(hand.card_count(), 13);
}

#[test]
fn test_parse_deal() {
    let input = "N:A65.J4.A764.A983 QJT73.9852.K3.Q7 K82.KQT3.T52.642 94.A76.QJ98.KJT5";
    let deal = parse_deal(input).unwrap();

    // North is first
    assert_eq!(deal.north.spades.len(), 3); // A65
    assert_eq!(deal.north.hearts.len(), 2); // J4
    assert_eq!(deal.north.total_hcp(), 13);

    // East is second
    assert_eq!(deal.east.spades.len(), 5); // QJT73

    // South is third
    assert_eq!(deal.south.spades.len(), 3); // K82

    // West is fourth
    assert_eq!(deal.west.spades.len(), 2); // 94
}

#[test]
fn test_parse_deal_with_void() {
    let input = "S:AKQJT98765432...- -...AKQJT98765432 -.AKQJT98765432..- -..AKQJT98765432.";
    let deal = parse_deal(input).unwrap();

    // South has all spades
    assert_eq!(deal.south.spades.len(), 13);
    assert!(deal.south.hearts.is_void());
    assert!(deal.south.diamonds.is_void());
    assert!(deal.south.clubs.is_void());
}

#[test]
fn deal_errors() {
    assert_eq!(parse_deal("   ").unwrap_err(), "Empty deal string");
    assert_eq!(parse_deal("Q:").unwrap_err(), "Invalid direction: Q");
    assert_eq!(parse_deal("N AKQ").unwrap_err(), "Expected ':' after direction");
    assert_eq!(parse_deal("N:... ...").unwrap_err(), "Expected 4 hands, got 2");
    assert_eq!(
        parse_deal("N:AKQ ... ... ...").unwrap_err(),
        "Expected 4 suits separated by '.', got 1 in 'AKQ'"
    );
    assert_eq!(
        parse_deal("N:AKZ... ... ... ...").unwrap_err(),
        "Invalid rank character: Z"
    );
}

#[test]
fn deal_first_seat_rotates() {
    let deal = parse_deal("w:A... .K.. ..Q. ...J").unwrap();
    assert!(deal.west.spades.contains(Rank::Ace));
    assert!(deal.north.hearts.contains(Rank::King));
    assert!(deal.east.diamonds.contains(Rank::Queen));
    assert!(deal.south.clubs.contains(Rank::Jack));
}

// ------------------------------------------------------------------- play

#[test]
fn test_parse_card() {
    let card = parse_card("SQ").unwrap();
    assert_eq!(card.suit, Suit::Spades);
    assert_eq!(card.rank, Rank::Queen);

    let card = parse_card("HA").unwrap();
    assert_eq!(card.suit, Suit::Hearts);
    assert_eq!(card.rank, Rank::Ace);

    let card = parse_card("DT").unwrap();
    assert_eq!(card.suit, Suit::Diamonds);
    assert_eq!(card.rank, Rank::Ten);
}

#[test]
fn test_parse_play_single_trick() {
    let play = parse_play(Direction::West, "SQ SK S8 S4").unwrap();

    assert_eq!(play.tricks.len(), 1);
    assert!(play.tricks[0].is_complete());

    let trick = &play.tricks[0];
    assert_eq!(trick.cards[0].unwrap().rank, Rank::Queen);
    assert_eq!(trick.cards[1].unwrap().rank, Rank::King);
    assert_eq!(trick.cards[2].unwrap().rank, Rank::Eight);
    assert_eq!(trick.cards[3].unwrap().rank, Rank::Four);
}

#[test]
fn test_parse_incomplete_play() {
    let play = parse_play(Direction::East, "SQ *").unwrap();

    assert_eq!(play.tricks.len(), 1);
    assert!(!play.tricks[0].is_complete());
}

#[test]
fn test_parse_empty_play() {
    let play = parse_play(Direction::North, "").unwrap();
    assert_eq!(play.tricks.len(), 0);
}

#[test]
fn play_unknown_cards_and_junk() {
    let play = parse_play(Direction::North, "SA - ?? S2 H3 H4 H5 H6 * H7").unwrap();
    assert_eq!(play.tricks.len(), 2);
    assert!(!play.tricks[0].is_complete());
    assert_eq!(play.tricks[0].cards[1], None);
    assert!(!play.tricks[1].is_complete());
    assert_eq!(play.tricks[1].cards[2].unwrap().rank, Rank::Six);
    assert_eq!(parse_card("S"), None);
    assert_eq!(parse_card("ZA"), None);
}

// ------------------------------------------------------------------- tags

#[test]
fn test_simple_tag_pair() {
    let input = r#"[Event "Test Event"]"#;
    let (remaining, pair) = parse_tag_pair(input).unwrap();
    assert_eq!(remaining, "");
    assert_eq!(pair.name, "Event");
    assert_eq!(pair.value, "Test Event");
}

#[test]
fn test_empty_value() {
    let input = r#"[Site ""]"#;
    let (_, pair) = parse_tag_pair(input).unwrap();
    assert_eq!(pair.value, "");
}

#[test]
fn test_escaped_quotes() {
    let input = r#"[Comment "He said \"hello\""]"#;
    let (_, pair) = parse_tag_pair(input).unwrap();
    assert_eq!(pair.value, r#"He said "hello""#);
}

#[test]
fn test_suit_escape_preserved() {
    let input = r#"[Note "Open 1\S"]"#;
    let (_, pair) = parse_tag_pair(input).unwrap();
    assert_eq!(pair.value, r"Open 1\S");
}

#[test]
fn test_multiple_tag_pairs() {
    let input = r#"[Event "Test"][Site "Location"][Date "2024.01.01"]"#;
    let pairs = parse_tag_pairs(input);
    assert_eq!(pairs.len(), 3);
    assert_eq!(pairs[0].name, "Event");
    assert_eq!(pairs[1].name, "Site");
    assert_eq!(pairs[2].name, "Date");
}

#[test]
fn tag_pair_rejections() {
    assert!(parse_tag_pair(r#"[ "x"]"#).is_none());
    assert!(parse_tag_pair(r#"[Name "open"#).is_none());
    assert!(parse_tag_pair(r#"[Name "x""#).is_none());
    assert!(parse_tag_pair(r#"Name "x"]"#).is_none());
    let (rest, pair) = parse_tag_pair("[A_1\t\"v\"] tail").unwrap();
    assert_eq!(rest, " tail");
    assert_eq!(pair, TagPair::new("A_1", "v"));
}

#[test]
fn tag_roundtrip_example() {
    let written = format!("[{} \"{}\"]", "Board", "12");
    let (rest, pair) = parse_tag_pair(&written).unwrap();
    assert_eq!(rest, "");
    assert_eq!(pair.name, "Board");
    assert_eq!(pair.value, "12");
}

// ---------------------------------------------------------------- auction

#[test]
fn test_simple_auction() {
    let auction = parse_auction(Direction::North, "1D 1S X Pass 1NT AP").unwrap();

    assert_eq!(auction.dealer, Direction::North);
    assert_eq!(auction.calls.len(), 8); // 5 calls + 3 passes from AP

    // Check first few calls
    assert_eq!(
        auction.calls[0].call,
        Call::Bid {
            level: 1,
            strain: Strain::Diamonds
        }
    );
    assert_eq!(
        auction.calls[1].call,
        Call::Bid {
            level: 1,
            strain: Strain::Spades
        }
    );
    assert_eq!(auction.calls[2].call, Call::Double);
    assert_eq!(auction.calls[3].call, Call::Pass);
}

#[test]
fn test_passed_out() {
    let auction = parse_auction(Direction::South, "Pass Pass Pass Pass").unwrap();
    assert!(auction.is_passed_out);
    assert_eq!(auction.calls.len(), 4);
}

#[test]
fn test_auction_with_annotations() {
    let auction = parse_auction(Direction::West, "1C! 1H 2C$1 Pass").unwrap();
    assert_eq!(auction.calls.len(), 4);
    assert_eq!(
        auction.calls[0].call,
        Call::Bid {
            level: 1,
            strain: Strain::Clubs
        }
    );
}

#[test]
fn test_empty_auction() {
    let auction = parse_auction(Direction::East, "").unwrap();
    assert_eq!(auction.calls.len(), 0);
}

#[test]
fn test_final_contract() {
    // N bids 1NT, E passes, S bids 3NT, so S is declarer
    let auction = parse_auction(Direction::North, "1NT Pass 3NT AP").unwrap();
    let contract = auction.final_contract().unwrap();

    assert_eq!(contract.level, 3);
    assert_eq!(contract.suit, Strain::NoTrump);
    assert!(!contract.doubled);
    assert!(!contract.redoubled);
    assert_eq!(contract.declarer, Direction::South);
}

#[test]
fn test_doubled_contract() {
    let auction = parse_auction(Direction::South, "1S X XX Pass Pass Pass").unwrap();
    let contract = auction.final_contract().unwrap();

    assert_eq!(contract.level, 1);
    assert_eq!(contract.suit, Strain::Spades);
    assert!(!contract.doubled);
    assert!(contract.redoubled);
}

#[test]
fn passed_out_auction_has_no_contract() {
    let auction = parse_auction(Direction::East, "pass Pass P pass").unwrap();
    assert!(auction.is_passed_out);
    assert!(auction.final_contract().is_none());
}

#[test]
fn auction_stops_at_star_and_skips_junk() {
    let auction = parse_auction(Direction::North, "1H ?? 2H * 4H").unwrap();
    assert_eq!(auction.calls.len(), 2);
    assert!(!auction.is_passed_out);
    let auction = parse_auction(Direction::North, "1h ap").unwrap();
    assert_eq!(auction.calls.len(), 4);
}

// -------------------------------------------------------------------- pbn

#[test]
fn test_parse_simple_pbn() {
    let content = r#"% PBN 2.1
[Event "Test"]
[Site ""]
[Date "2024.01.01"]
[Board "1"]
[Dealer "N"]
[Vulnerable "None"]
[Deal "N:AKQ.JT9.876.5432 JT9.AKQ.543.8765 876.543.AKQ.JT98 543.876.JT9.AKQ6"]
[Auction "N"]
1NT Pass 3NT AP
"#;

    let result = parse_pbn(content).unwrap();
    assert_eq!(result.boards.len(), 1);

    let board = &result.boards[0];
    assert_eq!(board.number, Some(1));
    assert_eq!(board.dealer, Some(Direction::North));
    assert_eq!(board.vulnerable, Vulnerability::Neither);
    assert_eq!(board.deal.north.spades.len(), 3); // AKQ
}

#[test]
fn test_parse_multiple_boards() {
    let content = r#"[Event "Test1"]
[Board "1"]
[Dealer "N"]
[Vulnerable "None"]
[Deal "N:AKQ.JT9.876.5432 JT9.AKQ.543.8765 876.543.AKQ.JT98 543.876.JT9.AKQ6"]

[Event "Test2"]
[Board "2"]
[Dealer "E"]
[Vulnerable "NS"]
[Deal "N:AKQ.JT9.876.5432 JT9.AKQ.543.8765 876.543.AKQ.JT98 543.876.JT9.AKQ6"]
"#;

    let result = parse_pbn(content).unwrap();
    assert_eq!(result.boards.len(), 2);
    assert_eq!(result.boards[0].number, Some(1));
    assert_eq!(result.boards[1].number, Some(2));
    assert_eq!(result.boards[1].vulnerable, Vulnerability::NorthSouth);
}

#[test]
fn pbn_sections_commentary_and_notes() {
    let content = "% header line\r\n[Event \"E\"]\r\n[Declarer \"S\"]\r\n[Result \"-1\"]\r\n[Auction \"N\"]\r\n1C Pass\r\n1H AP\r\n[Note \"1:forcing\"]\r\n[Play \"W\"]\r\nSA S2 S3 S4\r\nHA\r\n{First <b>line</b>\r\nsecond \\S}\r\n{one \\HK}\r\n";
    let result = parse_pbn(content).unwrap();
    assert_eq!(result.header_lines, vec!["% header line".to_string()]);
    assert_eq!(result.boards.len(), 1);
    let board = &result.boards[0];
    assert_eq!(board.event.as_deref(), Some("E"));
    assert_eq!(board.declarer, Some(Direction::South));
    assert_eq!(board.result, Some(-1));
    let auction = board.auction.as_ref().unwrap();
    assert_eq!(auction.calls.len(), 6);
    assert_eq!(auction.notes.get(&1).map(|s| s.as_str()), Some("forcing"));
    let play = board.play.as_ref().unwrap();
    assert_eq!(play.opening_leader, Direction::West);
    assert_eq!(play.tricks.len(), 2);
    assert_eq!(board.commentary.len(), 2);
    assert_eq!(
        board.commentary[0].content.to_plain_text(),
        "First linesecond ♠"
    );
    assert_eq!(board.commentary[1].content.to_plain_text(), "one ♥K");
}

#[test]
fn pbn_tags_before_event_are_ignored() {
    let content = "[Board \"7\"]\n[Event \"\"]\n[Board \"x\"]\n[Dealer \"?\"]\n[Deal \"N:bad\"]\n";
    let result = parse_pbn(content).unwrap();
    assert_eq!(result.boards.len(), 1);
    assert_eq!(result.boards[0].event, None);
    assert_eq!(result.boards[0].number, None);
    assert_eq!(result.boards[0].dealer, None);
    assert!(result.boards[0].deal.is_empty());
}

#[test]
fn unknown_escape_of_any_character_is_kept() {
    let text = parse_formatted_text("\\é").unwrap();
    assert_eq!(text.spans, vec![TextSpan::Plain("\\é".to_string())]);
    let text = parse_formatted_text("a \\x b").unwrap();
    assert_eq!(text.spans, vec![TextSpan::Plain("a \\x b".to_string())]);
    let content = "[Event \"E\"]\n{bad \\é escape}\n";
    let result = parse_pbn(content).unwrap();
    assert_eq!(result.boards[0].commentary.len(), 1);
    assert_eq!(result.boards[0].commentary[0].content.to_plain_text(), "bad \\é escape");
}

#[test]
fn note_values() {
    assert_eq!(parse_note_value("2:text: more"), Some((2, "text: more".to_string())));
    assert_eq!(parse_note_value("300:x"), None);
    assert_eq!(parse_note_value("no colon"), None);
    assert_eq!(parse_note_value(":x"), None);
}

#[test]
fn holding_text_reads_back() {
    let h = Holding::from_ranks([Rank::Ace, Rank::Ten, Rank::Two]);
    let written = h.to_string();
    assert_eq!(written, "AT2");
    assert_eq!(parse_holding(&written), Ok(h));
    let void = Holding::new();
    assert_eq!(void.to_string(), "-");
    assert_eq!(parse_holding(&void.to_string()), Ok(void));
}

#[test]
fn pbn_play_tag_closes_the_auction() {
    let content = "[Event \"E\"]\n[Auction \"N\"]\n1C Pass\n[Play \"E\"]\nS2 S3 S4 S5\n";
    let result = parse_pbn(content).unwrap();
    let board = &result.boards[0];
    assert_eq!(board.auction.as_ref().unwrap().calls.len(), 2);
    let play = board.play.as_ref().unwrap();
    assert_eq!(play.opening_leader, Direction::East);
    assert_eq!(play.tricks.len(), 1);
}
