use pbn_to_pdf::cli::args::{parse_board_range, Args, Layout, Orientation, PageSize};

#[test]
fn test_parse_single_board() {
    let result = parse_board_range("5").unwrap();
    assert_eq!(result, vec![5]);
}

#[test]
fn test_parse_range() {
    let result = parse_board_range("1-4").unwrap();
    assert_eq!(result, vec![1, 2, 3, 4]);
}

#[test]
fn test_parse_mixed() {
    let result = parse_board_range("1-3, 7, 10-12").unwrap();
    assert_eq!(result, vec![1, 2, 3, 7, 10, 11, 12]);
}

#[test]
fn board_range_errors() {
    assert_eq!(parse_board_range("1-2-3").unwrap_err(), "Invalid range: 1-2-3");
    assert_eq!(parse_board_range("x-3").unwrap_err(), "Invalid number: x");
    assert_eq!(parse_board_range("2- y").unwrap_err(), "Invalid number:  y");
    assert_eq!(parse_board_range("5-2").unwrap_err(), "Invalid range: 5 > 2");
    assert_eq!(parse_board_range("1,,2").unwrap_err(), "Invalid number: ");
    assert_eq!(parse_board_range(" 4 - 4 ").unwrap(), vec![4]);
}

#[test]
fn board_range_at_the_top() {
    assert_eq!(
        parse_board_range("4294967294-4294967295").unwrap(),
        vec![4294967294, 4294967295]
    );
}

fn args() -> Args {
    Args {
        input: "deals/test.pbn".to_string(),
        output: None,
        boards_per_page: 1,
        page_size: PageSize::Letter,
        orientation: Orientation::Portrait,
        layout: Layout::Analysis,
        no_bidding: false,
        no_play: true,
        no_commentary: false,
        no_hcp: true,
        boards: None,
        verbose: 0,
    }
}

#[test]
fn output_path_defaults_to_pdf_extension() {
    let a = args();
    assert_eq!(a.output_path(), "deals/test.pdf");
    let mut b = args();
    b.output = Some("out.pdf".to_string());
    assert_eq!(b.output_path(), "out.pdf");
}

#[test]
fn show_flags_invert_hide_flags() {
    let a = args();
    assert!(a.show_bidding());
    assert!(!a.show_play());
    assert!(a.show_commentary());
    assert!(!a.show_hcp());
    assert_eq!(Layout::default(), Layout::Analysis);
}
