use war_sim::card::Card;
use war_sim::deck::{parse_deck, render_deck, ParseError};

#[test]
fn parse_wrong_count() {
    assert_eq!(parse_deck("AKQJ-"), Err(ParseError::WrongCount(5)));
}

#[test]
fn parse_empty_is_wrong_count() {
    assert_eq!(parse_deck(""), Err(ParseError::WrongCount(0)));
}

#[test]
fn parse_unexpected_char() {
    // 26 characters, one of them outside the alphabet
    let s = "AKQJ---------------------x";
    assert_eq!(s.chars().count(), 26);
    assert_eq!(parse_deck(s), Err(ParseError::UnexpectedChar('x')));
}

#[test]
fn parse_unexpected_char_beats_count() {
    // a bad character is reported even when the count is also wrong
    assert_eq!(parse_deck("AKx"), Err(ParseError::UnexpectedChar('x')));
}

#[test]
fn parse_case_insensitive() {
    let upper = parse_deck("AKQJ----------------------").unwrap();
    let lower = parse_deck("akqj----------------------").unwrap();
    assert_eq!(upper, lower);
}

#[test]
fn parse_leftmost_is_top() {
    let d = parse_deck("A-------------------------").unwrap();
    assert_eq!(d.len(), 26);
    // the leftmost character is the first card played: the deck's last element
    assert_eq!(*d.last().unwrap(), Card::Ace);
    assert_eq!(d[0], Card::Number);
}

#[test]
fn render_deck_top_down() {
    // bottom Number, top Ace renders top-first
    let d = vec![Card::Number, Card::Ace];
    assert_eq!(render_deck(&d), "A-");
}

#[test]
fn parse_render_roundtrip() {
    let s = "AKQJ-AKQJ-AKQJ-AKQJ-AKQJ--";
    assert_eq!(s.chars().count(), 26);
    let d = parse_deck(s).unwrap();
    let rendered = render_deck(&d);
    assert_eq!(rendered, s);
    let d2 = parse_deck(&rendered).unwrap();
    assert_eq!(d, d2);
}

#[test]
fn parse_render_roundtrip_mixed_case() {
    let d = parse_deck("aKqJ-akqj-AKQJ-AKQJ-AKQJ--").unwrap();
    let d2 = parse_deck(&render_deck(&d)).unwrap();
    assert_eq!(d, d2);
}
