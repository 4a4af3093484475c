use tape_machine::parser::{parse, Token};

#[test]
fn every_symbol_has_its_token() {
    assert_eq!(
        parse("<>+-.,[]"),
        vec![
            Token::MoveLeft,
            Token::MoveRight,
            Token::IncreaseValue,
            Token::DecreaseValue,
            Token::Print,
            Token::GetInput,
            Token::Loop,
            Token::JumpBack,
        ]
    );
}

#[test]
fn empty_text_has_no_tokens() {
    assert_eq!(parse(""), Vec::<Token>::new());
}

#[test]
fn ignored_text_has_no_tokens() {
    assert_eq!(parse("hello, world".replace(',', ";").as_str()), Vec::<Token>::new());
    assert_eq!(parse(" \t\r\n#!abc012(){}*/=_"), Vec::<Token>::new());
    assert_eq!(parse("\u{e9}\u{4e16}\u{1f600}"), Vec::<Token>::new());
}

#[test]
fn ignored_characters_are_dropped_in_place() {
    assert_eq!(
        parse("a+ b\n-c"),
        vec![Token::IncreaseValue, Token::DecreaseValue]
    );
    assert_eq!(parse(" + - "), parse("+-"));
}

#[test]
fn tokenizing_twice_gives_the_same_stream() {
    let text = "+[>,.<-] a comment\n]";
    assert_eq!(parse(text), parse(text));
    assert_eq!(parse(text).len(), 9);
}

#[test]
fn stream_of_two_texts_is_the_two_streams() {
    let first = "+[x";
    let second = "y-]>";
    let mut joined = parse(first);
    joined.extend(parse(second));
    assert_eq!(parse("+[xy-]>"), joined);
}

#[test]
fn address_counts_emitted_instructions_only() {
    let tokens = parse("ab+ cd- ef]");
    assert_eq!(tokens.len(), 3);
    assert_eq!(tokens[2], Token::JumpBack);
}
