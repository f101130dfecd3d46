use order_book_listener::lines::{split_lines, LineSpan};
use order_book_listener::order_book::decimal::{parse_decimal, DecimalError};
use order_book_listener::order_book::rounding::bucket_px;
use order_book_listener::order_book::types::{Coin, Px, Side, Sz};
use order_book_listener::text::{chars_of, number_text, text_contains};

#[test]
fn decimals_are_read_in_units() {
    assert_eq!(parse_decimal("100"), Ok(10_000_000_000));
    assert_eq!(parse_decimal("0.00000001"), Ok(1));
    assert_eq!(parse_decimal("12.5"), Ok(1_250_000_000));
    assert_eq!(parse_decimal(".5"), Ok(50_000_000));
    assert_eq!(parse_decimal("7."), Ok(700_000_000));
    assert_eq!(Px::parse_from_str("1").map(|px| px.units), Ok(100_000_000));
    assert_eq!(Sz::parse_from_str("0.25").map(|sz| sz.units), Ok(25_000_000));
}

#[test]
fn decimals_beyond_the_last_unit_are_rounded() {
    assert_eq!(parse_decimal("0.000000014"), Ok(1));
    assert_eq!(parse_decimal("0.000000015"), Ok(2));
    assert_eq!(parse_decimal("0.999999999"), Ok(100_000_000));
}

#[test]
fn texts_that_are_no_decimals_are_refused() {
    for text in ["", ".", "1.2.3", "-1", "1e5", " 1", "abc"] {
        assert_eq!(parse_decimal(text), Err(DecimalError::Malformed), "{text:?}");
    }
    assert_eq!(parse_decimal("184467440737.09551616"), Err(DecimalError::TooLarge));
    assert_eq!(parse_decimal("184467440737.09551615"), Ok(u64::MAX));
}

#[test]
fn spot_coins_are_told_by_their_names() {
    assert!(Coin::new("@107".to_string()).is_spot());
    assert!(Coin::new("PURR/USDC".to_string()).is_spot());
    assert!(!Coin::new("BTC".to_string()).is_spot());
    assert!(!Coin::new("PURR".to_string()).is_spot());
    assert!(!Coin::new(String::new()).is_spot());
}

#[test]
fn prices_are_rounded_away_from_the_other_side() {
    assert_eq!(bucket_px(Side::Bid, 123_456, Some(3), None), 123_000);
    assert_eq!(bucket_px(Side::Ask, 123_456, Some(3), None), 124_000);
    assert_eq!(bucket_px(Side::Bid, 123_456, Some(5), Some(2)), 123_440);
    assert_eq!(bucket_px(Side::Ask, 123_456, Some(5), Some(5)), 123_500);
    assert_eq!(bucket_px(Side::Ask, 99_950, Some(3), None), 100_000);
    assert_eq!(bucket_px(Side::Ask, 12, Some(5), None), 12);
    assert_eq!(bucket_px(Side::Bid, 123_456, None, None), 123_456);
}

#[test]
fn a_price_that_is_rounded_already_stays() {
    for px in [1u128, 99, 12_345, 99_999, 123_456, 9_999_999] {
        for figures in 2..=5 {
            let once = bucket_px(Side::Ask, px, Some(figures), None);
            assert_eq!(bucket_px(Side::Ask, once, Some(figures), None), once);
            let once = bucket_px(Side::Bid, px, Some(figures), None);
            assert_eq!(bucket_px(Side::Bid, once, Some(figures), None), once);
        }
    }
}

#[test]
fn rounding_keeps_prices_in_order() {
    let prices = [0u128, 1, 9, 10, 99, 100, 101, 12_344, 12_345, 99_999, 100_000, 123_456];
    for side in [Side::Bid, Side::Ask] {
        for pair in prices.windows(2) {
            let low = bucket_px(side, pair[0], Some(2), Some(5));
            let high = bucket_px(side, pair[1], Some(2), Some(5));
            assert!(low <= high, "{pair:?}");
        }
    }
}

#[test]
fn numbers_are_written_in_decimal() {
    assert_eq!(number_text(0), "0");
    assert_eq!(number_text(120_000), "120000");
    assert_eq!(number_text(u64::MAX), "18446744073709551615");
}

#[test]
fn a_text_is_searched_for_another() {
    assert!(text_contains("abc[gap-grace-resync]d", "[gap-grace-resync]"));
    assert!(!text_contains("[gap-grace-resyn", "[gap-grace-resync]"));
    assert!(text_contains("anything", ""));
    assert!(!text_contains("", "x"));
    assert_eq!(chars_of("aé"), vec!['a', 'é']);
}

#[test]
fn lines_are_split_as_the_standard_library_does() {
    for data in ["", "\n", "a", "a\n", "a\nb", "a\r\nb\r\n", "a\r", "\r\n", "a\n\n\nb", "x\r\ry\n"] {
        let spans = split_lines(data.as_bytes());
        let ours: Vec<&str> = spans.iter().map(|span| &data[span.start..span.end]).collect();
        let theirs: Vec<&str> = data.lines().filter(|line| !line.is_empty()).collect();
        assert_eq!(ours, theirs, "{data:?}");
    }
}

#[test]
fn lines_have_their_places() {
    let spans = split_lines(b"one\n\ntwo\r\nthree");
    assert_eq!(
        spans,
        vec![
            LineSpan { start: 0, end: 3 },
            LineSpan { start: 5, end: 8 },
            LineSpan { start: 10, end: 15 },
        ]
    );
}

#[test]
fn data_that_is_read_again_has_the_line_and_those_after_it() {
    let data = b"one\n\ntwo\r\nthree\nfour";
    let spans = split_lines(data);
    for (k, span) in spans.iter().enumerate() {
        let again = split_lines(&data[span.start..]);
        let expected: Vec<LineSpan> = spans[k..]
            .iter()
            .map(|later| LineSpan { start: later.start - span.start, end: later.end - span.start })
            .collect();
        assert_eq!(again, expected);
    }
}
