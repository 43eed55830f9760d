//! Lexer: turns a source buffer into a stream of tokens, with one token of
//! lookahead. The token grammar is stated byte by byte in spec functions;
//! the executable lexer is proved to follow it exactly.
//!
//! Disambiguation, in priority order: reserved words are matched greedily,
//! longest first; multi-character operators before their prefixes; a numeric
//! literal is a float only when a dot is directly followed by a digit;
//! identifiers that merely begin like a reserved word still lose their
//! matching prefix to it.

use crate::error::{LexError, LexFailKind};
use vstd::prelude::*;

verus! {

/// A token of the language.
#[derive(Debug, PartialEq)]
pub enum Token {
    // keywords
    And,
    Break,
    Do,
    Else,
    Elseif,
    End,
    False,
    For,
    Function,
    Goto,
    If,
    In,
    Local,
    Nil,
    Not,
    Or,
    Repeat,
    Return,
    Then,
    True,
    Until,
    While,
    // operators
    Add,
    Sub,
    Mul,
    Div,
    Mod,
    Pow,
    Len,
    BitAnd,
    BitXor,
    BitOr,
    ShiftL,
    ShiftR,
    Idiv,
    Equal,
    NotEq,
    LesEq,
    GreEq,
    Less,
    Greater,
    Assign,
    ParL,
    ParR,
    CurlyL,
    CurlyR,
    SqurL,
    SqurR,
    DoubColon,
    SemiColon,
    Colon,
    Comma,
    Dot,
    Concat,
    Dots,
    // constant values
    Integer(i64),
    /// A float literal, carried as its source text (digits, a dot, digits).
    Float(Vec<u8>),
    String(Vec<u8>),
    // names of variables or table keys
    Name(Vec<u8>),
    // end of stream
    Eos,
}

/// Model of a token; textual payloads are byte sequences.
pub enum TokenV {
    And,
    Break,
    Do,
    Else,
    Elseif,
    End,
    False,
    For,
    Function,
    Goto,
    If,
    In,
    Local,
    Nil,
    Not,
    Or,
    Repeat,
    Return,
    Then,
    True,
    Until,
    While,
    Add,
    Sub,
    Mul,
    Div,
    Mod,
    Pow,
    Len,
    BitAnd,
    BitXor,
    BitOr,
    ShiftL,
    ShiftR,
    Idiv,
    Equal,
    NotEq,
    LesEq,
    GreEq,
    Less,
    Greater,
    Assign,
    ParL,
    ParR,
    CurlyL,
    CurlyR,
    SqurL,
    SqurR,
    DoubColon,
    SemiColon,
    Colon,
    Comma,
    Dot,
    Concat,
    Dots,
    Integer(i64),
    Float(Seq<u8>),
    String(Seq<u8>),
    Name(Seq<u8>),
    Eos,
}

impl View for Token {
    type V = TokenV;

    open spec fn view(&self) -> TokenV {
        match *self {
            Token::And => TokenV::And,
            Token::Break => TokenV::Break,
            Token::Do => TokenV::Do,
            Token::Else => TokenV::Else,
            Token::Elseif => TokenV::Elseif,
            Token::End => TokenV::End,
            Token::False => TokenV::False,
            Token::For => TokenV::For,
            Token::Function => TokenV::Function,
            Token::Goto => TokenV::Goto,
            Token::If => TokenV::If,
            Token::In => TokenV::In,
            Token::Local => TokenV::Local,
            Token::Nil => TokenV::Nil,
            Token::Not => TokenV::Not,
            Token::Or => TokenV::Or,
            Token::Repeat => TokenV::Repeat,
            Token::Return => TokenV::Return,
            Token::Then => TokenV::Then,
            Token::True => TokenV::True,
            Token::Until => TokenV::Until,
            Token::While => TokenV::While,
            Token::Add => TokenV::Add,
            Token::Sub => TokenV::Sub,
            Token::Mul => TokenV::Mul,
            Token::Div => TokenV::Div,
            Token::Mod => TokenV::Mod,
            Token::Pow => TokenV::Pow,
            Token::Len => TokenV::Len,
            Token::BitAnd => TokenV::BitAnd,
            Token::BitXor => TokenV::BitXor,
            Token::BitOr => TokenV::BitOr,
            Token::ShiftL => TokenV::ShiftL,
            Token::ShiftR => TokenV::ShiftR,
            Token::Idiv => TokenV::Idiv,
            Token::Equal => TokenV::Equal,
            Token::NotEq => TokenV::NotEq,
            Token::LesEq => TokenV::LesEq,
            Token::GreEq => TokenV::GreEq,
            Token::Less => TokenV::Less,
            Token::Greater => TokenV::Greater,
            Token::Assign => TokenV::Assign,
            Token::ParL => TokenV::ParL,
            Token::ParR => TokenV::ParR,
            Token::CurlyL => TokenV::CurlyL,
            Token::CurlyR => TokenV::CurlyR,
            Token::SqurL => TokenV::SqurL,
            Token::SqurR => TokenV::SqurR,
            Token::DoubColon => TokenV::DoubColon,
            Token::SemiColon => TokenV::SemiColon,
            Token::Colon => TokenV::Colon,
            Token::Comma => TokenV::Comma,
            Token::Dot => TokenV::Dot,
            Token::Concat => TokenV::Concat,
            Token::Dots => TokenV::Dots,
            Token::Integer(i) => TokenV::Integer(i),
            Token::Float(ref t) => TokenV::Float(t@),
            Token::String(ref s) => TokenV::String(s@),
            Token::Name(ref n) => TokenV::Name(n@),
            Token::Eos => TokenV::Eos,
        }
    }
}

/// One step of lexing: a token and the position after it, or a failure
/// at the position where the offending token starts.
pub enum LexStep {
    Tok(TokenV, int),
    Fail(LexFailKind, int),
}

/// The bytes the lexer skips between tokens: space, tab, newline, form
/// feed, carriage return.
pub open spec fn is_space(b: u8) -> bool {
    b == 32 || b == 9 || b == 10 || b == 12 || b == 13
}

/// ASCII decimal digit.
pub open spec fn is_digit(b: u8) -> bool {
    48 <= b <= 57
}

/// ASCII letter.
pub open spec fn is_letter(b: u8) -> bool {
    (65 <= b <= 90) || (97 <= b <= 122)
}

/// First position at or after `pos` holding no whitespace byte.
pub open spec fn skip_spaces(src: Seq<u8>, pos: int) -> int
    decreases src.len() - pos,
{
    if 0 <= pos < src.len() && is_space(src[pos]) {
        skip_spaces(src, pos + 1)
    } else {
        pos
    }
}

/// First position at or after `pos` holding no digit.
pub open spec fn scan_digits(src: Seq<u8>, pos: int) -> int
    decreases src.len() - pos,
{
    if 0 <= pos < src.len() && is_digit(src[pos]) {
        scan_digits(src, pos + 1)
    } else {
        pos
    }
}

/// First position at or after `pos` holding neither a letter nor a digit.
pub open spec fn scan_name(src: Seq<u8>, pos: int) -> int
    decreases src.len() - pos,
{
    if 0 <= pos < src.len() && (is_letter(src[pos]) || is_digit(src[pos])) {
        scan_name(src, pos + 1)
    } else {
        pos
    }
}

/// Position of the closing quote at or after `pos`, if any.
pub open spec fn scan_string_end(src: Seq<u8>, pos: int) -> Option<int>
    decreases src.len() - pos,
{
    if pos < 0 || pos >= src.len() {
        None
    } else if src[pos] == 34 {
        Some(pos)
    } else {
        scan_string_end(src, pos + 1)
    }
}

/// Value of the decimal digit run `src[start..end)`.
pub open spec fn digits_value(src: Seq<u8>, start: int, end: int) -> int
    decreases end - start,
{
    if end <= start {
        0
    } else {
        digits_value(src, start, end - 1) * 10 + (src[end - 1] - 48)
    }
}

/// The reserved word starting at `pos`, if one does. Longer words are
/// matched before their prefixes (`elseif` before `else`), and the match
/// is greedy: it does not require a word boundary after it.
pub open spec fn keyword_match(src: Seq<u8>, pos: int) -> Option<(TokenV, int)> {
    let n = src.len() as int;
    if pos + 3 <= n && src[pos] == 97 && src[pos + 1] == 110 && src[pos + 2] == 100 {
        Some((TokenV::And, pos + 3))  // and
    } else if pos + 5 <= n && src[pos] == 98 && src[pos + 1] == 114 && src[pos + 2] == 101
        && src[pos + 3] == 97 && src[pos + 4] == 107 {
        Some((TokenV::Break, pos + 5))  // break
    } else if pos + 2 <= n && src[pos] == 100 && src[pos + 1] == 111 {
        Some((TokenV::Do, pos + 2))  // do
    } else if pos + 6 <= n && src[pos] == 101 && src[pos + 1] == 108 && src[pos + 2] == 115
        && src[pos + 3] == 101 && src[pos + 4] == 105 && src[pos + 5] == 102 {
        Some((TokenV::Elseif, pos + 6))  // elseif
    } else if pos + 4 <= n && src[pos] == 101 && src[pos + 1] == 108 && src[pos + 2] == 115
        && src[pos + 3] == 101 {
        Some((TokenV::Else, pos + 4))  // else
    } else if pos + 3 <= n && src[pos] == 101 && src[pos + 1] == 110 && src[pos + 2] == 100 {
        Some((TokenV::End, pos + 3))  // end
    } else if pos + 5 <= n && src[pos] == 102 && src[pos + 1] == 97 && src[pos + 2] == 108
        && src[pos + 3] == 115 && src[pos + 4] == 101 {
        Some((TokenV::False, pos + 5))  // false
    } else if pos + 3 <= n && src[pos] == 102 && src[pos + 1] == 111 && src[pos + 2] == 114 {
        Some((TokenV::For, pos + 3))  // for
    } else if pos + 8 <= n && src[pos] == 102 && src[pos + 1] == 117 && src[pos + 2] == 110
        && src[pos + 3] == 99 && src[pos + 4] == 116 && src[pos + 5] == 105 && src[pos + 6] == 111
        && src[pos + 7] == 110 {
        Some((TokenV::Function, pos + 8))  // function
    } else if pos + 4 <= n && src[pos] == 103 && src[pos + 1] == 111 && src[pos + 2] == 116
        && src[pos + 3] == 111 {
        Some((TokenV::Goto, pos + 4))  // goto
    } else if pos + 2 <= n && src[pos] == 105 && src[pos + 1] == 102 {
        Some((TokenV::If, pos + 2))  // if
    } else if pos + 2 <= n && src[pos] == 105 && src[pos + 1] == 110 {
        Some((TokenV::In, pos + 2))  // in
    } else if pos + 5 <= n && src[pos] == 108 && src[pos + 1] == 111 && src[pos + 2] == 99
        && src[pos + 3] == 97 && src[pos + 4] == 108 {
        Some((TokenV::Local, pos + 5))  // local
    } else if pos + 3 <= n && src[pos] == 110 && src[pos + 1] == 105 && src[pos + 2] == 108 {
        Some((TokenV::Nil, pos + 3))  // nil
    } else if pos + 3 <= n && src[pos] == 110 && src[pos + 1] == 111 && src[pos + 2] == 116 {
        Some((TokenV::Not, pos + 3))  // not
    } else if pos + 2 <= n && src[pos] == 111 && src[pos + 1] == 114 {
        Some((TokenV::Or, pos + 2))  // or
    } else if pos + 6 <= n && src[pos] == 114 && src[pos + 1] == 101 && src[pos + 2] == 112
        && src[pos + 3] == 101 && src[pos + 4] == 97 && src[pos + 5] == 116 {
        Some((TokenV::Repeat, pos + 6))  // repeat
    } else if pos + 6 <= n && src[pos] == 114 && src[pos + 1] == 101 && src[pos + 2] == 116
        && src[pos + 3] == 117 && src[pos + 4] == 114 && src[pos + 5] == 110 {
        Some((TokenV::Return, pos + 6))  // return
    } else if pos + 4 <= n && src[pos] == 116 && src[pos + 1] == 104 && src[pos + 2] == 101
        && src[pos + 3] == 110 {
        Some((TokenV::Then, pos + 4))  // then
    } else if pos + 4 <= n && src[pos] == 116 && src[pos + 1] == 114 && src[pos + 2] == 117
        && src[pos + 3] == 101 {
        Some((TokenV::True, pos + 4))  // true
    } else if pos + 5 <= n && src[pos] == 117 && src[pos + 1] == 110 && src[pos + 2] == 116
        && src[pos + 3] == 105 && src[pos + 4] == 108 {
        Some((TokenV::Until, pos + 5))  // until
    } else if pos + 5 <= n && src[pos] == 119 && src[pos + 1] == 104 && src[pos + 2] == 105
        && src[pos + 3] == 108 && src[pos + 4] == 101 {
        Some((TokenV::While, pos + 5))  // while
    } else {
        None
    }
}

/// The operator starting at `pos`, if one does. `...` is matched before
/// the two-character operators, and those before the single characters.
pub open spec fn operator_match(src: Seq<u8>, pos: int) -> Option<(TokenV, int)> {
    let n = src.len() as int;
    if pos + 3 <= n && src[pos] == 46 && src[pos + 1] == 46 && src[pos + 2] == 46 {
        Some((TokenV::Dots, pos + 3))  // ...
    } else if pos + 2 <= n && src[pos] == 60 && src[pos + 1] == 60 {
        Some((TokenV::ShiftL, pos + 2))  // <<
    } else if pos + 2 <= n && src[pos] == 62 && src[pos + 1] == 62 {
        Some((TokenV::ShiftR, pos + 2))  // >>
    } else if pos + 2 <= n && src[pos] == 47 && src[pos + 1] == 47 {
        Some((TokenV::Idiv, pos + 2))  // //
    } else if pos + 2 <= n && src[pos] == 61 && src[pos + 1] == 61 {
        Some((TokenV::Equal, pos + 2))  // ==
    } else if pos + 2 <= n && src[pos] == 126 && src[pos + 1] == 61 {
        Some((TokenV::NotEq, pos + 2))  // ~=
    } else if pos + 2 <= n && src[pos] == 60 && src[pos + 1] == 61 {
        Some((TokenV::LesEq, pos + 2))  // <=
    } else if pos + 2 <= n && src[pos] == 62 && src[pos + 1] == 61 {
        Some((TokenV::GreEq, pos + 2))  // >=
    } else if pos + 2 <= n && src[pos] == 58 && src[pos + 1] == 58 {
        Some((TokenV::DoubColon, pos + 2))  // ::
    } else if pos + 2 <= n && src[pos] == 46 && src[pos + 1] == 46 {
        Some((TokenV::Concat, pos + 2))  // ..
    } else if pos < n && src[pos] == 43 {
        Some((TokenV::Add, pos + 1))  // +
    } else if pos < n && src[pos] == 45 {
        Some((TokenV::Sub, pos + 1))  // -
    } else if pos < n && src[pos] == 42 {
        Some((TokenV::Mul, pos + 1))  // *
    } else if pos < n && src[pos] == 47 {
        Some((TokenV::Div, pos + 1))  // /
    } else if pos < n && src[pos] == 37 {
        Some((TokenV::Mod, pos + 1))  // %
    } else if pos < n && src[pos] == 94 {
        Some((TokenV::Pow, pos + 1))  // ^
    } else if pos < n && src[pos] == 35 {
        Some((TokenV::Len, pos + 1))  // #
    } else if pos < n && src[pos] == 38 {
        Some((TokenV::BitAnd, pos + 1))  // &
    } else if pos < n && src[pos] == 126 {
        Some((TokenV::BitXor, pos + 1))  // ~
    } else if pos < n && src[pos] == 124 {
        Some((TokenV::BitOr, pos + 1))  // |
    } else if pos < n && src[pos] == 60 {
        Some((TokenV::Less, pos + 1))  // <
    } else if pos < n && src[pos] == 62 {
        Some((TokenV::Greater, pos + 1))  // >
    } else if pos < n && src[pos] == 61 {
        Some((TokenV::Assign, pos + 1))  // =
    } else if pos < n && src[pos] == 40 {
        Some((TokenV::ParL, pos + 1))  // (
    } else if pos < n && src[pos] == 41 {
        Some((TokenV::ParR, pos + 1))  // )
    } else if pos < n && src[pos] == 123 {
        Some((TokenV::CurlyL, pos + 1))  // {
    } else if pos < n && src[pos] == 125 {
        Some((TokenV::CurlyR, pos + 1))  // }
    } else if pos < n && src[pos] == 91 {
        Some((TokenV::SqurL, pos + 1))  // [
    } else if pos < n && src[pos] == 93 {
        Some((TokenV::SqurR, pos + 1))  // ]
    } else if pos < n && src[pos] == 59 {
        Some((TokenV::SemiColon, pos + 1))  // ;
    } else if pos < n && src[pos] == 58 {
        Some((TokenV::Colon, pos + 1))  // :
    } else if pos < n && src[pos] == 44 {
        Some((TokenV::Comma, pos + 1))  // ,
    } else if pos < n && src[pos] == 46 {
        Some((TokenV::Dot, pos + 1))  // .
    } else {
        None
    }
}

/// The token starting exactly at `pos` (no whitespace skipping here).
/// Reserved words are tried first, then operators, then numbers, names,
/// strings, and end of input.
pub open spec fn token_spec(src: Seq<u8>, pos: int) -> LexStep {
    let n = src.len() as int;
    if keyword_match(src, pos) is Some {
        let (t, np) = keyword_match(src, pos)->Some_0;
        LexStep::Tok(t, np)
    } else if operator_match(src, pos) is Some {
        let (t, np) = operator_match(src, pos)->Some_0;
        LexStep::Tok(t, np)
    } else if pos < n && is_digit(src[pos]) {
        let q = scan_digits(src, pos);
        if q < n && src[q] == 46 && q + 1 < n && is_digit(src[q + 1]) {
            let r = scan_digits(src, q + 1);
            LexStep::Tok(TokenV::Float(src.subrange(pos, r)), r)
        } else {
            let v = digits_value(src, pos, q);
            if v <= i64::MAX {
                LexStep::Tok(TokenV::Integer(v as i64), q)
            } else {
                LexStep::Fail(LexFailKind::IntegerOutOfRange, pos)
            }
        }
    } else if pos < n && is_letter(src[pos]) {
        let q = scan_name(src, pos + 1);
        LexStep::Tok(TokenV::Name(src.subrange(pos, q)), q)
    } else if pos < n && src[pos] == 34 {
        match scan_string_end(src, pos + 1) {
            Some(q) => LexStep::Tok(TokenV::String(src.subrange(pos + 1, q)), q + 1),
            None => LexStep::Fail(LexFailKind::UnterminatedString, pos),
        }
    } else if pos >= n {
        LexStep::Tok(TokenV::Eos, pos)
    } else {
        LexStep::Fail(LexFailKind::NoTokenMatch, pos)
    }
}

/// The next token from `pos`: whitespace is skipped, then the token
/// grammar applies.
pub open spec fn next_token_spec(src: Seq<u8>, pos: int) -> LexStep {
    token_spec(src, skip_spaces(src, pos))
}

/// Tokenizing exactly a reserved word yields its keyword token — never a
/// name — and consumes the word whole.
pub proof fn lemma_keywords_lex_as_keywords()
    ensures
        next_token_spec(seq![97u8, 110u8, 100u8], 0) == LexStep::Tok(TokenV::And, 3),
        next_token_spec(seq![98u8, 114u8, 101u8, 97u8, 107u8], 0) == LexStep::Tok(TokenV::Break, 5),
        next_token_spec(seq![100u8, 111u8], 0) == LexStep::Tok(TokenV::Do, 2),
        next_token_spec(seq![101u8, 108u8, 115u8, 101u8], 0) == LexStep::Tok(TokenV::Else, 4),
        next_token_spec(seq![101u8, 108u8, 115u8, 101u8, 105u8, 102u8], 0) == LexStep::Tok(
            TokenV::Elseif,
            6,
        ),
        next_token_spec(seq![101u8, 110u8, 100u8], 0) == LexStep::Tok(TokenV::End, 3),
        next_token_spec(seq![102u8, 97u8, 108u8, 115u8, 101u8], 0) == LexStep::Tok(TokenV::False, 5),
        next_token_spec(seq![102u8, 111u8, 114u8], 0) == LexStep::Tok(TokenV::For, 3),
        next_token_spec(seq![102u8, 117u8, 110u8, 99u8, 116u8, 105u8, 111u8, 110u8], 0)
            == LexStep::Tok(TokenV::Function, 8),
        next_token_spec(seq![103u8, 111u8, 116u8, 111u8], 0) == LexStep::Tok(TokenV::Goto, 4),
        next_token_spec(seq![105u8, 102u8], 0) == LexStep::Tok(TokenV::If, 2),
        next_token_spec(seq![105u8, 110u8], 0) == LexStep::Tok(TokenV::In, 2),
        next_token_spec(seq![108u8, 111u8, 99u8, 97u8, 108u8], 0) == LexStep::Tok(TokenV::Local, 5),
        next_token_spec(seq![110u8, 105u8, 108u8], 0) == LexStep::Tok(TokenV::Nil, 3),
        next_token_spec(seq![110u8, 111u8, 116u8], 0) == LexStep::Tok(TokenV::Not, 3),
        next_token_spec(seq![111u8, 114u8], 0) == LexStep::Tok(TokenV::Or, 2),
        next_token_spec(seq![114u8, 101u8, 112u8, 101u8, 97u8, 116u8], 0) == LexStep::Tok(
            TokenV::Repeat,
            6,
        ),
        next_token_spec(seq![114u8, 101u8, 116u8, 117u8, 114u8, 110u8], 0) == LexStep::Tok(
            TokenV::Return,
            6,
        ),
        next_token_spec(seq![116u8, 104u8, 101u8, 110u8], 0) == LexStep::Tok(TokenV::Then, 4),
        next_token_spec(seq![116u8, 114u8, 117u8, 101u8], 0) == LexStep::Tok(TokenV::True, 4),
        next_token_spec(seq![117u8, 110u8, 116u8, 105u8, 108u8], 0) == LexStep::Tok(TokenV::Until, 5),
        next_token_spec(seq![119u8, 104u8, 105u8, 108u8, 101u8], 0) == LexStep::Tok(TokenV::While, 5),
{
}

/// Multi-character operators win over their prefixes: `...` is one `Dots`
/// token, not three dots, and `//` is one `Idiv`, not two divisions.
pub proof fn lemma_greedy_operators()
    ensures
        next_token_spec(seq![46u8, 46u8, 46u8], 0) == LexStep::Tok(TokenV::Dots, 3),
        next_token_spec(seq![47u8, 47u8], 0) == LexStep::Tok(TokenV::Idiv, 2),
{
}

/// At the end of the input the lexer yields the terminal end-of-stream
/// token and stays there: asking again can never fail.
pub proof fn lemma_eos_repeats(src: Seq<u8>)
    ensures
        next_token_spec(src, src.len() as int) == LexStep::Tok(TokenV::Eos, src.len() as int),
{
}

proof fn lemma_skip_spaces_bounds(src: Seq<u8>, pos: int)
    requires
        0 <= pos <= src.len(),
    ensures
        pos <= skip_spaces(src, pos) <= src.len(),
    decreases src.len() - pos,
{
    if pos < src.len() && is_space(src[pos]) {
        lemma_skip_spaces_bounds(src, pos + 1);
    }
}

proof fn lemma_scan_name_bounds(src: Seq<u8>, pos: int)
    requires
        0 <= pos <= src.len(),
    ensures
        pos <= scan_name(src, pos) <= src.len(),
    decreases src.len() - pos,
{
    if pos < src.len() && (is_letter(src[pos]) || is_digit(src[pos])) {
        lemma_scan_name_bounds(src, pos + 1);
    }
}

proof fn lemma_scan_string_end_bounds(src: Seq<u8>, pos: int)
    requires
        0 <= pos <= src.len(),
    ensures
        match scan_string_end(src, pos) {
            Some(q) => pos <= q < src.len(),
            None => true,
        },
    decreases src.len() - pos,
{
    if pos < src.len() && src[pos] != 34 {
        lemma_scan_string_end_bounds(src, pos + 1);
    }
}

/// A successful lexing step never moves backwards, stays inside the
/// buffer, and consumes at least one byte unless it is the terminal
/// end-of-stream token; a failure points inside or just past the buffer.
pub proof fn lemma_next_token_advances(src: Seq<u8>, pos: int)
    requires
        0 <= pos <= src.len(),
    ensures
        match next_token_spec(src, pos) {
            LexStep::Tok(t, np) => pos <= np <= src.len() && (!(t is Eos) ==> np > pos),
            LexStep::Fail(_, p) => pos <= p <= src.len(),
        },
{
    lemma_skip_spaces_bounds(src, pos);
    let sp = skip_spaces(src, pos);
    if keyword_match(src, sp) is Some {
    } else if operator_match(src, sp) is Some {
    } else if sp < src.len() && is_digit(src[sp]) {
        lemma_scan_digits(src, sp);
        let q = scan_digits(src, sp);
        assert(scan_digits(src, sp) == scan_digits(src, sp + 1));
        lemma_scan_digits(src, sp + 1);
        if q < src.len() && src[q] == 46 && q + 1 < src.len() && is_digit(src[q + 1]) {
            lemma_scan_digits(src, q + 1);
            assert(scan_digits(src, q + 1) == scan_digits(src, q + 2));
            lemma_scan_digits(src, q + 2);
        }
    } else if sp < src.len() && is_letter(src[sp]) {
        lemma_scan_name_bounds(src, sp + 1);
    } else if sp < src.len() && src[sp] == 34 {
        lemma_scan_string_end_bounds(src, sp + 1);
    }
}

/// Every position of a digit run is a digit, and the run ends at the
/// buffer or at a non-digit.
proof fn lemma_scan_digits(src: Seq<u8>, pos: int)
    requires
        0 <= pos <= src.len(),
    ensures
        pos <= scan_digits(src, pos) <= src.len(),
        forall|i: int| pos <= i < scan_digits(src, pos) ==> is_digit(#[trigger] src[i]),
    decreases src.len() - pos,
{
    if pos < src.len() && is_digit(src[pos]) {
        lemma_scan_digits(src, pos + 1);
    }
}

/// A digit run's value is non-negative.
proof fn lemma_digits_value_nonneg(src: Seq<u8>, start: int, end: int)
    requires
        forall|i: int| start <= i < end ==> is_digit(#[trigger] src[i]),
    ensures
        digits_value(src, start, end) >= 0,
    decreases end - start,
{
    if end > start {
        lemma_digits_value_nonneg(src, start, end - 1);
    }
}

fn is_space_b(b: u8) -> (r: bool)
    ensures
        r == is_space(b),
{
    b == 32 || b == 9 || b == 10 || b == 12 || b == 13
}

fn is_digit_b(b: u8) -> (r: bool)
    ensures
        r == is_digit(b),
{
    48 <= b && b <= 57
}

fn is_letter_b(b: u8) -> (r: bool)
    ensures
        r == is_letter(b),
{
    (65 <= b && b <= 90) || (97 <= b && b <= 122)
}

/// Copies `src[a..b)` out of the buffer.
fn copy_range(src: &Vec<u8>, a: usize, b: usize) -> (r: Vec<u8>)
    requires
        a <= b <= src@.len(),
    ensures
        r@ == src@.subrange(a as int, b as int),
{
    let mut r: Vec<u8> = Vec::new();
    let mut i = a;
    while i < b
        invariant
            a <= i <= b <= src@.len(),
            r@.len() == i - a,
            forall|j: int| a <= j < i ==> r@[j - a] == src@[j],
        decreases b - i,
    {
        r.push(src[i]);
        i += 1;
    }
    proof {
        assert(r@ =~= src@.subrange(a as int, b as int));
    }
    r
}

/// The executable mirror of [`keyword_match`].
fn match_keyword(src: &Vec<u8>, pos: usize) -> (r: Option<(Token, usize)>)
    requires
        pos <= src@.len(),
    ensures
        match keyword_match(src@, pos as int) {
            Some((t, np)) => {
                &&& r matches Some(pair)
                &&& pair.0@ == t
                &&& pair.1 as int == np
                &&& pair.1 <= src@.len()
            },
            None => r is None,
        },
{
    let n = src.len();
    if n - pos >= 3 && src[pos] == 97 && src[pos + 1] == 110 && src[pos + 2] == 100 {
        Some((Token::And, pos + 3))  // and
    } else if n - pos >= 5 && src[pos] == 98 && src[pos + 1] == 114 && src[pos + 2] == 101
        && src[pos + 3] == 97 && src[pos + 4] == 107 {
        Some((Token::Break, pos + 5))  // break
    } else if n - pos >= 2 && src[pos] == 100 && src[pos + 1] == 111 {
        Some((Token::Do, pos + 2))  // do
    } else if n - pos >= 6 && src[pos] == 101 && src[pos + 1] == 108 && src[pos + 2] == 115
        && src[pos + 3] == 101 && src[pos + 4] == 105 && src[pos + 5] == 102 {
        Some((Token::Elseif, pos + 6))  // elseif
    } else if n - pos >= 4 && src[pos] == 101 && src[pos + 1] == 108 && src[pos + 2] == 115
        && src[pos + 3] == 101 {
        Some((Token::Else, pos + 4))  // else
    } else if n - pos >= 3 && src[pos] == 101 && src[pos + 1] == 110 && src[pos + 2] == 100 {
        Some((Token::End, pos + 3))  // end
    } else if n - pos >= 5 && src[pos] == 102 && src[pos + 1] == 97 && src[pos + 2] == 108
        && src[pos + 3] == 115 && src[pos + 4] == 101 {
        Some((Token::False, pos + 5))  // false
    } else if n - pos >= 3 && src[pos] == 102 && src[pos + 1] == 111 && src[pos + 2] == 114 {
        Some((Token::For, pos + 3))  // for
    } else if n - pos >= 8 && src[pos] == 102 && src[pos + 1] == 117 && src[pos + 2] == 110
        && src[pos + 3] == 99 && src[pos + 4] == 116 && src[pos + 5] == 105 && src[pos + 6] == 111
        && src[pos + 7] == 110 {
        Some((Token::Function, pos + 8))  // function
    } else if n - pos >= 4 && src[pos] == 103 && src[pos + 1] == 111 && src[pos + 2] == 116
        && src[pos + 3] == 111 {
        Some((Token::Goto, pos + 4))  // goto
    } else if n - pos >= 2 && src[pos] == 105 && src[pos + 1] == 102 {
        Some((Token::If, pos + 2))  // if
    } else if n - pos >= 2 && src[pos] == 105 && src[pos + 1] == 110 {
        Some((Token::In, pos + 2))  // in
    } else if n - pos >= 5 && src[pos] == 108 && src[pos + 1] == 111 && src[pos + 2] == 99
        && src[pos + 3] == 97 && src[pos + 4] == 108 {
        Some((Token::Local, pos + 5))  // local
    } else if n - pos >= 3 && src[pos] == 110 && src[pos + 1] == 105 && src[pos + 2] == 108 {
        Some((Token::Nil, pos + 3))  // nil
    } else if n - pos >= 3 && src[pos] == 110 && src[pos + 1] == 111 && src[pos + 2] == 116 {
        Some((Token::Not, pos + 3))  // not
    } else if n - pos >= 2 && src[pos] == 111 && src[pos + 1] == 114 {
        Some((Token::Or, pos + 2))  // or
    } else if n - pos >= 6 && src[pos] == 114 && src[pos + 1] == 101 && src[pos + 2] == 112
        && src[pos + 3] == 101 && src[pos + 4] == 97 && src[pos + 5] == 116 {
        Some((Token::Repeat, pos + 6))  // repeat
    } else if n - pos >= 6 && src[pos] == 114 && src[pos + 1] == 101 && src[pos + 2] == 116
        && src[pos + 3] == 117 && src[pos + 4] == 114 && src[pos + 5] == 110 {
        Some((Token::Return, pos + 6))  // return
    } else if n - pos >= 4 && src[pos] == 116 && src[pos + 1] == 104 && src[pos + 2] == 101
        && src[pos + 3] == 110 {
        Some((Token::Then, pos + 4))  // then
    } else if n - pos >= 4 && src[pos] == 116 && src[pos + 1] == 114 && src[pos + 2] == 117
        && src[pos + 3] == 101 {
        Some((Token::True, pos + 4))  // true
    } else if n - pos >= 5 && src[pos] == 117 && src[pos + 1] == 110 && src[pos + 2] == 116
        && src[pos + 3] == 105 && src[pos + 4] == 108 {
        Some((Token::Until, pos + 5))  // until
    } else if n - pos >= 5 && src[pos] == 119 && src[pos + 1] == 104 && src[pos + 2] == 105
        && src[pos + 3] == 108 && src[pos + 4] == 101 {
        Some((Token::While, pos + 5))  // while
    } else {
        None
    }
}

/// The executable mirror of [`operator_match`].
fn match_operator(src: &Vec<u8>, pos: usize) -> (r: Option<(Token, usize)>)
    requires
        pos <= src@.len(),
    ensures
        match operator_match(src@, pos as int) {
            Some((t, np)) => {
                &&& r matches Some(pair)
                &&& pair.0@ == t
                &&& pair.1 as int == np
                &&& pair.1 <= src@.len()
            },
            None => r is None,
        },
{
    let n = src.len();
    if n - pos >= 3 && src[pos] == 46 && src[pos + 1] == 46 && src[pos + 2] == 46 {
        Some((Token::Dots, pos + 3))  // ...
    } else if n - pos >= 2 && src[pos] == 60 && src[pos + 1] == 60 {
        Some((Token::ShiftL, pos + 2))  // <<
    } else if n - pos >= 2 && src[pos] == 62 && src[pos + 1] == 62 {
        Some((Token::ShiftR, pos + 2))  // >>
    } else if n - pos >= 2 && src[pos] == 47 && src[pos + 1] == 47 {
        Some((Token::Idiv, pos + 2))  // //
    } else if n - pos >= 2 && src[pos] == 61 && src[pos + 1] == 61 {
        Some((Token::Equal, pos + 2))  // ==
    } else if n - pos >= 2 && src[pos] == 126 && src[pos + 1] == 61 {
        Some((Token::NotEq, pos + 2))  // ~=
    } else if n - pos >= 2 && src[pos] == 60 && src[pos + 1] == 61 {
        Some((Token::LesEq, pos + 2))  // <=
    } else if n - pos >= 2 && src[pos] == 62 && src[pos + 1] == 61 {
        Some((Token::GreEq, pos + 2))  // >=
    } else if n - pos >= 2 && src[pos] == 58 && src[pos + 1] == 58 {
        Some((Token::DoubColon, pos + 2))  // ::
    } else if n - pos >= 2 && src[pos] == 46 && src[pos + 1] == 46 {
        Some((Token::Concat, pos + 2))  // ..
    } else if n - pos >= 1 && src[pos] == 43 {
        Some((Token::Add, pos + 1))  // +
    } else if n - pos >= 1 && src[pos] == 45 {
        Some((Token::Sub, pos + 1))  // -
    } else if n - pos >= 1 && src[pos] == 42 {
        Some((Token::Mul, pos + 1))  // *
    } else if n - pos >= 1 && src[pos] == 47 {
        Some((Token::Div, pos + 1))  // /
    } else if n - pos >= 1 && src[pos] == 37 {
        Some((Token::Mod, pos + 1))  // %
    } else if n - pos >= 1 && src[pos] == 94 {
        Some((Token::Pow, pos + 1))  // ^
    } else if n - pos >= 1 && src[pos] == 35 {
        Some((Token::Len, pos + 1))  // #
    } else if n - pos >= 1 && src[pos] == 38 {
        Some((Token::BitAnd, pos + 1))  // &
    } else if n - pos >= 1 && src[pos] == 126 {
        Some((Token::BitXor, pos + 1))  // ~
    } else if n - pos >= 1 && src[pos] == 124 {
        Some((Token::BitOr, pos + 1))  // |
    } else if n - pos >= 1 && src[pos] == 60 {
        Some((Token::Less, pos + 1))  // <
    } else if n - pos >= 1 && src[pos] == 62 {
        Some((Token::Greater, pos + 1))  // >
    } else if n - pos >= 1 && src[pos] == 61 {
        Some((Token::Assign, pos + 1))  // =
    } else if n - pos >= 1 && src[pos] == 40 {
        Some((Token::ParL, pos + 1))  // (
    } else if n - pos >= 1 && src[pos] == 41 {
        Some((Token::ParR, pos + 1))  // )
    } else if n - pos >= 1 && src[pos] == 123 {
        Some((Token::CurlyL, pos + 1))  // {
    } else if n - pos >= 1 && src[pos] == 125 {
        Some((Token::CurlyR, pos + 1))  // }
    } else if n - pos >= 1 && src[pos] == 91 {
        Some((Token::SqurL, pos + 1))  // [
    } else if n - pos >= 1 && src[pos] == 93 {
        Some((Token::SqurR, pos + 1))  // ]
    } else if n - pos >= 1 && src[pos] == 59 {
        Some((Token::SemiColon, pos + 1))  // ;
    } else if n - pos >= 1 && src[pos] == 58 {
        Some((Token::Colon, pos + 1))  // :
    } else if n - pos >= 1 && src[pos] == 44 {
        Some((Token::Comma, pos + 1))  // ,
    } else if n - pos >= 1 && src[pos] == 46 {
        Some((Token::Dot, pos + 1))  // .
    } else {
        None
    }
}

/// A source of bytes the lexer can consume.
pub trait ByteStream: Sized {
    /// The byte content of the stream.
    spec fn stream_bytes(&self) -> Seq<u8>;

    /// Hands the whole content over as a vector.
    fn stream_into_bytes(self) -> (r: Vec<u8>)
        ensures
            r@ == self.stream_bytes(),
    ;
}

impl ByteStream for Vec<u8> {
    open spec fn stream_bytes(&self) -> Seq<u8> {
        self@
    }

    fn stream_into_bytes(self) -> (r: Vec<u8>) {
        self
    }
}

/// The lexer: a source buffer, the current position, and at most one
/// token of lookahead.
pub struct Lex {
    input: Vec<u8>,
    pos: usize,
    ahead: Option<Token>,
}

impl Lex {
    /// The source bytes.
    pub closed spec fn src(&self) -> Seq<u8> {
        self.input@
    }

    /// The current byte position.
    pub closed spec fn cur(&self) -> int {
        self.pos as int
    }

    /// The cached lookahead token, if any.
    pub closed spec fn ahead_view(&self) -> Option<TokenV> {
        match self.ahead {
            Some(ref t) => Some(t@),
            None => None,
        }
    }

    /// The position never runs past the buffer.
    pub open spec fn wf(&self) -> bool {
        0 <= self.cur() <= self.src().len()
    }

    /// What the next call of [`Lex::next`] returns, and the position after
    /// it: the cached token if one is waiting, else the next token of the
    /// grammar.
    pub open spec fn upcoming(&self) -> LexStep {
        match self.ahead_view() {
            Some(t) => LexStep::Tok(t, self.cur()),
            None => next_token_spec(self.src(), self.cur()),
        }
    }

    /// The token of [`Lex::upcoming`], where it is one.
    pub open spec fn upcoming_tok(&self) -> TokenV {
        match self.upcoming() {
            LexStep::Tok(t, _) => t,
            LexStep::Fail(_, _) => TokenV::Eos,
        }
    }

    /// The position after the upcoming token, or of the upcoming failure.
    pub open spec fn upcoming_end(&self) -> int {
        match self.upcoming() {
            LexStep::Tok(_, np) => np,
            LexStep::Fail(_, p) => p,
        }
    }

    /// Builds a lexer over the stream's bytes.
    pub fn new<S: ByteStream>(input: S) -> (r: Lex)
        ensures
            r.src() == input.stream_bytes(),
            r.cur() == 0,
            r.ahead_view() is None,
            r.wf(),
    {
        Lex { input: input.stream_into_bytes(), pos: 0, ahead: None }
    }

    /// Lexes the next token straight from the buffer, ignoring the cache.
    fn do_next(&mut self) -> (r: Result<Token, LexError>)
        requires
            old(self).wf(),
        ensures
            final(self).wf(),
            final(self).src() == old(self).src(),
            final(self).ahead_view() == old(self).ahead_view(),
            match next_token_spec(old(self).src(), old(self).cur()) {
                LexStep::Tok(t, np) => {
                    &&& r matches Ok(tok)
                    &&& tok@ == t
                    &&& final(self).cur() == np
                },
                LexStep::Fail(k, p) => {
                    &&& r matches Err(e)
                    &&& e.kind == k
                    &&& e.pos as int == p
                    &&& final(self).cur() == old(self).cur()
                },
            },
    {
        let ghost src = self.input@;
        let n = self.input.len();
        // skip whitespace
        let mut p = self.pos;
        while p < n && is_space_b(self.input[p])
            invariant
                p <= n,
                n == self.input@.len(),
                self.input@ == src,
                skip_spaces(src, old(self).cur()) == skip_spaces(src, p as int),
            decreases n - p,
        {
            p += 1;
        }
        proof {
            assert(skip_spaces(src, p as int) == p as int);
        }
        let ghost sp = p as int;

        // reserved word
        if let Some((tok, np)) = match_keyword(&self.input, p) {
            self.pos = np;
            return Ok(tok);
        }
        // operator
        if let Some((tok, np)) = match_operator(&self.input, p) {
            self.pos = np;
            return Ok(tok);
        }
        // numeric literal
        if p < n && is_digit_b(self.input[p]) {
            let mut q = p;
            while q < n && is_digit_b(self.input[q])
                invariant
                    p <= q <= n,
                    n == self.input@.len(),
                    self.input@ == src,
                    scan_digits(src, p as int) == scan_digits(src, q as int),
                decreases n - q,
            {
                q += 1;
            }
            proof {
                assert(scan_digits(src, q as int) == q as int);
            }
            if q < n && self.input[q] == 46 && q + 1 < n && is_digit_b(self.input[q + 1]) {
                // float literal: a second digit run after the dot
                let mut r2 = q + 1;
                while r2 < n && is_digit_b(self.input[r2])
                    invariant
                        q + 1 <= r2 <= n,
                        n == self.input@.len(),
                        self.input@ == src,
                        scan_digits(src, (q + 1) as int) == scan_digits(src, r2 as int),
                    decreases n - r2,
                {
                    r2 += 1;
                }
                proof {
                    assert(scan_digits(src, r2 as int) == r2 as int);
                }
                let text = copy_range(&self.input, p, r2);
                self.pos = r2;
                return Ok(Token::Float(text));
            }
            // integer literal; its value must fit the representable range
            proof {
                lemma_scan_digits(src, p as int);
            }
            let mut acc: u64 = 0;
            let mut over = false;
            let mut i = p;
            while i < q
                invariant
                    p <= i <= q <= n,
                    n == self.input@.len(),
                    self.input@ == src,
                    q as int == scan_digits(src, p as int),
                    forall|j: int| p <= j < q ==> is_digit(#[trigger] src[j]),
                    !over ==> acc as int == digits_value(src, p as int, i as int) && acc
                        <= i64::MAX as u64,
                    over ==> digits_value(src, p as int, i as int) > i64::MAX,
                decreases q - i,
            {
                let d = self.input[i] - 48;
                proof {
                    lemma_digits_value_nonneg(src, p as int, i as int);
                }
                if over {
                    proof {
                        assert(digits_value(src, p as int, (i + 1) as int) == digits_value(
                            src,
                            p as int,
                            i as int,
                        ) * 10 + (src[i as int] - 48));
                    }
                } else {
                    let acc2: u128 = acc as u128 * 10 + d as u128;
                    if acc2 > i64::MAX as u128 {
                        over = true;
                    } else {
                        acc = acc2 as u64;
                    }
                }
                i += 1;
            }
            if over {
                return Err(LexError { kind: LexFailKind::IntegerOutOfRange, pos: p });
            }
            self.pos = q;
            return Ok(Token::Integer(acc as i64));
        }
        // name
        if p < n && is_letter_b(self.input[p]) {
            let mut q = p + 1;
            while q < n && (is_letter_b(self.input[q]) || is_digit_b(self.input[q]))
                invariant
                    p + 1 <= q <= n,
                    n == self.input@.len(),
                    self.input@ == src,
                    scan_name(src, (p + 1) as int) == scan_name(src, q as int),
                decreases n - q,
            {
                q += 1;
            }
            proof {
                assert(scan_name(src, q as int) == q as int);
            }
            let name = copy_range(&self.input, p, q);
            self.pos = q;
            return Ok(Token::Name(name));
        }
        // string literal
        if p < n && self.input[p] == 34 {
            let mut q = p + 1;
            while q < n && self.input[q] != 34
                invariant
                    p + 1 <= q <= n,
                    n == self.input@.len(),
                    self.input@ == src,
                    scan_string_end(src, (p + 1) as int) == scan_string_end(src, q as int),
                decreases n - q,
            {
                q += 1;
            }
            if q < n {
                let s = copy_range(&self.input, p + 1, q);
                self.pos = q + 1;
                return Ok(Token::String(s));
            }
            return Err(LexError { kind: LexFailKind::UnterminatedString, pos: p });
        }
        // end of input
        if p >= n {
            self.pos = p;
            return Ok(Token::Eos);
        }
        Err(LexError { kind: LexFailKind::NoTokenMatch, pos: p })
    }

    /// Consumes and returns the next token. After the terminal end-of-stream
    /// token is returned, every further call returns it again.
    pub fn next(&mut self) -> (r: Result<Token, LexError>)
        requires
            old(self).wf(),
        ensures
            final(self).wf(),
            final(self).src() == old(self).src(),
            match old(self).upcoming() {
                LexStep::Tok(t, np) => {
                    &&& r matches Ok(tok)
                    &&& tok@ == t
                    &&& final(self).cur() == np
                    &&& final(self).ahead_view() is None
                },
                LexStep::Fail(k, p) => {
                    &&& r matches Err(e)
                    &&& e.kind == k
                    &&& e.pos as int == p
                    &&& final(self).upcoming() == old(self).upcoming()
                },
            },
    {
        match self.ahead.take() {
            Some(t) => Ok(t),
            None => self.do_next(),
        }
    }

    /// Returns the next token without consuming it, caching it for the
    /// following [`Lex::next`].
    pub fn peek(&mut self) -> (r: Result<&Token, LexError>)
        requires
            old(self).wf(),
        ensures
            final(self).wf(),
            final(self).src() == old(self).src(),
            match old(self).upcoming() {
                LexStep::Tok(t, np) => {
                    &&& r matches Ok(tok)
                    &&& tok@ == t
                    &&& final(self).upcoming() == old(self).upcoming()
                    &&& final(self).ahead_view() == Some(t)
                },
                LexStep::Fail(k, p) => {
                    &&& r matches Err(e)
                    &&& e.kind == k
                    &&& e.pos as int == p
                    &&& final(self).upcoming() == old(self).upcoming()
                },
            },
    {
        if self.ahead.is_none() {
            match self.do_next() {
                Ok(t) => {
                    self.ahead = Some(t);
                }
                Err(e) => {
                    return Err(e);
                }
            }
        }
        match &self.ahead {
            Some(t) => Ok(t),
            None => {
                proof {
                    assert(false);
                }
                Err(LexError { kind: LexFailKind::NoTokenMatch, pos: 0 })
            }
        }
    }
}

} // verus!
