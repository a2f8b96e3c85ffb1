use closure_vm::lexer::Lexer;
use closure_vm::token::{pos_at_offset, Position, Token, TokenKind};

fn kinds(source: &str) -> Vec<TokenKind> {
    let mut lexer = Lexer::new(source);
    let mut kinds = Vec::new();
    loop {
        let token = lexer.next_token();
        let end = token.kind == TokenKind::End;
        kinds.push(token.kind);
        if end {
            return kinds;
        }
    }
}

fn tokens(source: &str) -> Vec<Token> {
    let mut lexer = Lexer::new(source);
    let mut tokens = Vec::new();
    loop {
        let token = lexer.next_token();
        let end = token.kind == TokenKind::End;
        tokens.push(token);
        if end {
            return tokens;
        }
    }
}

#[test]
fn empty_source_is_only_the_end() {
    assert_eq!(kinds(""), vec![TokenKind::End]);
    assert_eq!(kinds("  \n\t "), vec![TokenKind::End]);
}

#[test]
fn end_repeats_at_the_end() {
    let mut lexer = Lexer::new("x");
    assert_eq!(lexer.next_token().kind, TokenKind::Ident);
    let first = lexer.next_token();
    assert_eq!(first.kind, TokenKind::End);
    assert_eq!(first.offset, 1);
    assert_eq!(lexer.next_token().kind, TokenKind::End);
}

#[test]
fn keywords_are_no_identifiers() {
    assert_eq!(
        kinds("var while if else func return print true false none list"),
        vec![
            TokenKind::Var,
            TokenKind::While,
            TokenKind::If,
            TokenKind::Else,
            TokenKind::Func,
            TokenKind::Return,
            TokenKind::Print,
            TokenKind::True,
            TokenKind::False,
            TokenKind::Nil,
            TokenKind::List,
            TokenKind::End,
        ]
    );
}

#[test]
fn identifier_carries_its_name() {
    let found = tokens("  counter2 variable");
    assert_eq!(found[0].kind, TokenKind::Ident);
    assert_eq!(found[0].text, "counter2");
    assert_eq!(found[0].offset, 2);
    assert_eq!(found[0].value, 0);
    assert_eq!(found[1].kind, TokenKind::Ident);
    assert_eq!(found[1].text, "variable");
    assert_eq!(found[1].offset, 11);
}

#[test]
fn keyword_prefix_is_an_identifier() {
    let found = tokens("iffy printer");
    assert_eq!(found[0].kind, TokenKind::Ident);
    assert_eq!(found[0].text, "iffy");
    assert_eq!(found[1].kind, TokenKind::Ident);
    assert_eq!(found[1].text, "printer");
}

#[test]
fn integer_carries_its_value() {
    let found = tokens("0 42 18446744073709551615");
    assert_eq!(found[0].kind, TokenKind::Int);
    assert_eq!(found[0].value, 0);
    assert_eq!(found[1].kind, TokenKind::Int);
    assert_eq!(found[1].value, 42);
    assert_eq!(found[1].text, "");
    assert_eq!(found[2].kind, TokenKind::Int);
    assert_eq!(found[2].value, u64::MAX);
}

#[test]
fn integer_that_does_not_fit_is_invalid() {
    let found = tokens("18446744073709551616 1");
    assert_eq!(found[0].kind, TokenKind::Invalid);
    assert_eq!(found[0].offset, 0);
    assert_eq!(found[1].kind, TokenKind::Int);
    assert_eq!(found[1].value, 1);
}

#[test]
fn digits_outside_ascii_are_no_integer() {
    let found = tokens("\u{0663}");
    assert_eq!(found[0].kind, TokenKind::Invalid);
    assert_eq!(found[1].kind, TokenKind::End);
    assert_eq!(found[1].offset, 2);
}

#[test]
fn float_carries_its_digits() {
    let found = tokens("3.25 7. x");
    assert_eq!(found[0].kind, TokenKind::Float);
    assert_eq!(found[0].text, "3.25");
    assert_eq!(found[0].value, 0);
    assert_eq!(found[1].kind, TokenKind::Float);
    assert_eq!(found[1].text, "7.");
    assert_eq!(found[1].offset, 5);
    assert_eq!(found[2].kind, TokenKind::Ident);
}

#[test]
fn float_gets_its_value_from_the_host() {
    let token = tokens("1.5").remove(0);
    let number: f64 = token.text.parse().unwrap();
    let valued = token.with_value(number.to_bits());
    assert_eq!(valued.kind, TokenKind::Float);
    assert_eq!(valued.value, 0x3ff8_0000_0000_0000);
    assert_eq!(valued.text, "1.5");
}

#[test]
fn string_carries_its_content() {
    let found = tokens("\"hello world\" x");
    assert_eq!(found[0].kind, TokenKind::String);
    assert_eq!(found[0].text, "hello world");
    assert_eq!(found[0].offset, 0);
    assert_eq!(found[1].kind, TokenKind::Ident);
    assert_eq!(found[1].offset, 14);
}

#[test]
fn unterminated_string_is_invalid() {
    assert_eq!(kinds("\"open"), vec![TokenKind::Invalid, TokenKind::End]);
}

#[test]
fn punctuation() {
    assert_eq!(
        kinds("( ) { } [ ] ; , ."),
        vec![
            TokenKind::OpenBrace,
            TokenKind::CloseBrace,
            TokenKind::OpenCurlyBrace,
            TokenKind::CloseCurlyBrace,
            TokenKind::OpenSquareBrace,
            TokenKind::CloseSquareBrace,
            TokenKind::SemiColon,
            TokenKind::Comma,
            TokenKind::Dot,
            TokenKind::End,
        ]
    );
}

#[test]
fn operators_of_one_character() {
    assert_eq!(
        kinds("+ - * / % = < > !"),
        vec![
            TokenKind::Plus,
            TokenKind::Minus,
            TokenKind::Multiply,
            TokenKind::Divide,
            TokenKind::Modulus,
            TokenKind::Equals,
            TokenKind::Less,
            TokenKind::Greater,
            TokenKind::Not,
            TokenKind::End,
        ]
    );
}

#[test]
fn operators_of_two_characters() {
    assert_eq!(
        kinds("+= -= *= /= %= == != <= >= && ||"),
        vec![
            TokenKind::PlusEquals,
            TokenKind::MinusEquals,
            TokenKind::MultiplyEquals,
            TokenKind::DivideEquals,
            TokenKind::ModulusEquals,
            TokenKind::DoubleEquals,
            TokenKind::NotEqual,
            TokenKind::LessOrEqual,
            TokenKind::GreaterOrEqual,
            TokenKind::And,
            TokenKind::Or,
            TokenKind::End,
        ]
    );
}

#[test]
fn second_character_is_read_once() {
    assert_eq!(
        kinds("x+=1"),
        vec![TokenKind::Ident, TokenKind::PlusEquals, TokenKind::Int, TokenKind::End]
    );
    assert_eq!(
        kinds("==="),
        vec![TokenKind::DoubleEquals, TokenKind::Equals, TokenKind::End]
    );
    assert_eq!(kinds("&&&"), vec![TokenKind::And, TokenKind::Invalid, TokenKind::End]);
}

#[test]
fn single_ampersand_and_bar_are_invalid() {
    assert_eq!(kinds("& |"), vec![TokenKind::Invalid, TokenKind::Invalid, TokenKind::End]);
}

#[test]
fn unknown_character_is_invalid() {
    let found = tokens("a # b");
    assert_eq!(found[1].kind, TokenKind::Invalid);
    assert_eq!(found[1].offset, 2);
    assert_eq!(found[2].kind, TokenKind::Ident);
    assert_eq!(found[2].offset, 4);
}

#[test]
fn offsets_count_bytes() {
    let found = tokens("\u{e9}t\u{e9} = \"\u{1F600}\" z");
    assert_eq!(found[0].kind, TokenKind::Ident);
    assert_eq!(found[0].text, "\u{e9}t\u{e9}");
    assert_eq!(found[0].offset, 0);
    assert_eq!(found[1].kind, TokenKind::Equals);
    assert_eq!(found[1].offset, 6);
    assert_eq!(found[2].kind, TokenKind::String);
    assert_eq!(found[2].text, "\u{1F600}");
    assert_eq!(found[2].offset, 8);
    assert_eq!(found[3].kind, TokenKind::Ident);
    assert_eq!(found[3].offset, 15);
    assert_eq!(found[4].kind, TokenKind::End);
    assert_eq!(found[4].offset, 16);
}

#[test]
fn unicode_letters_and_spaces() {
    let found = tokens("\u{3b1}\u{3b2}\u{2003}\u{3b3}1");
    assert_eq!(found[0].kind, TokenKind::Ident);
    assert_eq!(found[0].text, "\u{3b1}\u{3b2}");
    assert_eq!(found[1].kind, TokenKind::Ident);
    assert_eq!(found[1].text, "\u{3b3}1");
    assert_eq!(found[1].offset, 7);
}

#[test]
fn peek_and_next_character() {
    let mut lexer = Lexer::new("a\u{e9}");
    assert_eq!(lexer.peek_char(), Some('a'));
    assert_eq!(lexer.offset(), 0);
    lexer.next_char();
    assert_eq!(lexer.peek_char(), Some('\u{e9}'));
    assert_eq!(lexer.offset(), 1);
    lexer.next_char();
    assert_eq!(lexer.peek_char(), None);
    assert_eq!(lexer.offset(), 3);
    lexer.next_char();
    assert_eq!(lexer.peek_char(), None);
    assert_eq!(lexer.offset(), 3);
}

#[test]
fn position_of_first_character() {
    assert_eq!(pos_at_offset("abc", 0), Position { line: 1, column: 1 });
}

#[test]
fn position_counts_lines_and_columns() {
    let source = "var x = 1\nprint y\n  z";
    assert_eq!(pos_at_offset(source, 4), Position { line: 1, column: 5 });
    assert_eq!(pos_at_offset(source, 9), Position { line: 1, column: 10 });
    assert_eq!(pos_at_offset(source, 10), Position { line: 2, column: 1 });
    assert_eq!(pos_at_offset(source, 16), Position { line: 2, column: 7 });
    assert_eq!(pos_at_offset(source, 20), Position { line: 3, column: 3 });
}

#[test]
fn position_counts_characters_not_bytes() {
    let source = "\u{e9}\u{e9} x";
    assert_eq!(pos_at_offset(source, 5), Position { line: 1, column: 4 });
}
