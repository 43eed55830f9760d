use luacore::lex::{Lex, Token};

#[test]
fn parse_elseif() {
    let mut lex = Lex::new(b"elseif".to_vec());
    assert_eq!(lex.next().unwrap(), Token::Elseif);
    assert_eq!(lex.next().unwrap(), Token::Eos);
}

#[test]
fn parse_idiv() {
    let mut lex = Lex::new(b"//".to_vec());
    assert_eq!(lex.next().unwrap(), Token::Idiv);
    assert_eq!(lex.next().unwrap(), Token::Eos);
}

#[test]
fn parse_dots() {
    let mut lex = Lex::new(b"...".to_vec());
    assert_eq!(lex.next().unwrap(), Token::Dots);
    assert_eq!(lex.next().unwrap(), Token::Eos);
}

#[test]
fn parse_integer() {
    let mut lex = Lex::new(b"123".to_vec());
    assert_eq!(lex.next().unwrap(), Token::Integer(123));
    assert_eq!(lex.next().unwrap(), Token::Eos);
}

#[test]
fn parse_float() {
    let mut lex = Lex::new(b"123.45".to_vec());
    let tok = lex.next().unwrap();
    assert_eq!(tok, Token::Float(b"123.45".to_vec()));
    // the literal's text denotes the expected binary64 number
    match tok {
        Token::Float(text) => {
            let n: f64 = String::from_utf8(text).unwrap().parse().unwrap();
            assert_eq!(n, 123.45);
        }
        other => panic!("expected a float literal, got {other:?}"),
    }
    assert_eq!(lex.next().unwrap(), Token::Eos);
}

#[test]
fn parse_sentence() {
    let mut lex = Lex::new(br#"print "hello, world!""#.to_vec());
    assert_eq!(lex.next().unwrap(), Token::Name(b"print".to_vec()));
    assert_eq!(lex.next().unwrap(), Token::String(b"hello, world!".to_vec()));
    assert_eq!(lex.next().unwrap(), Token::Eos);
}

#[test]
fn every_reserved_word_is_a_keyword() {
    let words: Vec<(&[u8], Token)> = vec![
        (b"and", Token::And),
        (b"break", Token::Break),
        (b"do", Token::Do),
        (b"else", Token::Else),
        (b"elseif", Token::Elseif),
        (b"end", Token::End),
        (b"false", Token::False),
        (b"for", Token::For),
        (b"function", Token::Function),
        (b"goto", Token::Goto),
        (b"if", Token::If),
        (b"in", Token::In),
        (b"local", Token::Local),
        (b"nil", Token::Nil),
        (b"not", Token::Not),
        (b"or", Token::Or),
        (b"repeat", Token::Repeat),
        (b"return", Token::Return),
        (b"then", Token::Then),
        (b"true", Token::True),
        (b"until", Token::Until),
        (b"while", Token::While),
    ];
    for (word, expected) in words {
        let mut lex = Lex::new(word.to_vec());
        let tok = lex.next().unwrap();
        assert_eq!(tok, expected, "word {:?}", String::from_utf8_lossy(word));
        assert_eq!(lex.next().unwrap(), Token::Eos);
    }
}

#[test]
fn keyword_match_is_greedy() {
    // reserved words are matched as greedy prefixes, longest first
    let mut lex = Lex::new(b"andy".to_vec());
    assert_eq!(lex.next().unwrap(), Token::And);
    assert_eq!(lex.next().unwrap(), Token::Name(b"y".to_vec()));

    let mut lex = Lex::new(b"elseifx".to_vec());
    assert_eq!(lex.next().unwrap(), Token::Elseif);
    assert_eq!(lex.next().unwrap(), Token::Name(b"x".to_vec()));
}

#[test]
fn trailing_dot_is_not_part_of_a_float() {
    let mut lex = Lex::new(b"123.".to_vec());
    assert_eq!(lex.next().unwrap(), Token::Integer(123));
    assert_eq!(lex.next().unwrap(), Token::Dot);
    assert_eq!(lex.next().unwrap(), Token::Eos);
}

#[test]
fn peek_does_not_consume() {
    let mut lex = Lex::new(b"local x".to_vec());
    assert_eq!(lex.peek().unwrap(), &Token::Local);
    assert_eq!(lex.next().unwrap(), Token::Local);
    assert_eq!(lex.next().unwrap(), Token::Name(b"x".to_vec()));
}

#[test]
fn end_of_stream_repeats() {
    let mut lex = Lex::new(b"x".to_vec());
    assert_eq!(lex.next().unwrap(), Token::Name(b"x".to_vec()));
    assert_eq!(lex.next().unwrap(), Token::Eos);
    assert_eq!(lex.next().unwrap(), Token::Eos);
    assert_eq!(lex.next().unwrap(), Token::Eos);
}

#[test]
fn multi_character_operators_win() {
    let mut lex = Lex::new(b"<= == ~= >> .. ::".to_vec());
    assert_eq!(lex.next().unwrap(), Token::LesEq);
    assert_eq!(lex.next().unwrap(), Token::Equal);
    assert_eq!(lex.next().unwrap(), Token::NotEq);
    assert_eq!(lex.next().unwrap(), Token::ShiftR);
    assert_eq!(lex.next().unwrap(), Token::Concat);
    assert_eq!(lex.next().unwrap(), Token::DoubColon);
    assert_eq!(lex.next().unwrap(), Token::Eos);
}

#[test]
fn empty_string_literal() {
    let mut lex = Lex::new(br#""""#.to_vec());
    assert_eq!(lex.next().unwrap(), Token::String(Vec::new()));
    assert_eq!(lex.next().unwrap(), Token::Eos);
}
