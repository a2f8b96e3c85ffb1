//! The lexer: cuts the source text into tokens.

use vstd::prelude::*;
use vstd::string::StrSliceExecFns;
use crate::token::{
    byte_len, byte_offset, char_width, chars_of, lemma_byte_offset_monotone,
    lemma_byte_offset_step, Token, TokenKind, TokenView,
};

verus! {

/// Whether `c` is alphabetic: the `Alphabetic` property of Unicode, as the
/// standard library knows it.
pub uninterp spec fn is_alphabetic(c: char) -> bool;

/// Whether `c` is numeric: one of the general categories for numbers of
/// Unicode, as the standard library knows them.
pub uninterp spec fn is_numeric(c: char) -> bool;

/// Whether `c` is white space: the `White_Space` property of Unicode, as
/// the standard library knows it.
pub uninterp spec fn is_whitespace(c: char) -> bool;

/// `char::is_alphabetic` of the standard library. The contract gives its
/// result the name `is_alphabetic` and says nothing else of it.
#[verifier::external_body]
fn alphabetic(c: char) -> (yes: bool)
    ensures
        yes == is_alphabetic(c),
{
    c.is_alphabetic()
}

/// `char::is_numeric` of the standard library. The contract gives its
/// result the name `is_numeric` and says nothing else of it.
#[verifier::external_body]
fn numeric(c: char) -> (yes: bool)
    ensures
        yes == is_numeric(c),
{
    c.is_numeric()
}

/// `char::is_whitespace` of the standard library. The contract gives its
/// result the name `is_whitespace` and says nothing else of it.
#[verifier::external_body]
fn whitespace(c: char) -> (yes: bool)
    ensures
        yes == is_whitespace(c),
{
    c.is_whitespace()
}

/// `String::push` of the standard library: appends one character to the
/// end of the string.
#[verifier::external_body]
fn push_char(text: &mut String, c: char)
    ensures
        final(text)@ == old(text)@.push(c),
{
    text.push(c);
}

/// The classes of characters that the lexer reads runs of.
#[derive(Debug, Clone, Copy, PartialEq, Eq, Structural)]
pub enum CharClass {
    /// Alphabetic or numeric: the characters of a word.
    Alphanumeric,
    /// Numeric: the characters of a number.
    Numeric,
    /// Anything but a double quote: the characters inside a string.
    Unquoted,
}

/// Whether `c` belongs to `class`.
pub open spec fn in_class(class: CharClass, c: char) -> bool {
    match class {
        CharClass::Alphanumeric => is_alphabetic(c) || is_numeric(c),
        CharClass::Numeric => is_numeric(c),
        CharClass::Unquoted => c != '"',
    }
}

/// The index behind the run of characters of `class` that starts at
/// `from`: the first index at or after `from` whose character is not of
/// the class, or the length of the text.
pub open spec fn run_end(chars: Seq<char>, class: CharClass, from: int) -> int
    decreases chars.len() - from,
{
    if from < 0 || from >= chars.len() {
        chars.len() as int
    } else if in_class(class, chars[from]) {
        run_end(chars, class, from + 1)
    } else {
        from
    }
}

/// The value of a decimal digit.
pub open spec fn digit_value(c: char) -> Option<nat> {
    if '0' <= c <= '9' {
        Some((c as u32 - '0' as u32) as nat)
    } else {
        None
    }
}

/// The number that a text of decimal digits stands for; `None` if a
/// character of the text is no digit from `0` to `9`.
pub open spec fn decimal_value(digits: Seq<char>) -> Option<nat>
    decreases digits.len(),
{
    if digits.len() == 0 {
        Some(0)
    } else {
        match (decimal_value(digits.drop_last()), digit_value(digits.last())) {
            (Some(value), Some(digit)) => Some(value * 10 + digit),
            _ => None,
        }
    }
}

/// The keyword that `word` is, if it is one.
pub open spec fn keyword(word: Seq<char>) -> Option<TokenKind> {
    if word == "true"@ {
        Some(TokenKind::True)
    } else if word == "false"@ {
        Some(TokenKind::False)
    } else if word == "none"@ {
        Some(TokenKind::Nil)
    } else if word == "var"@ {
        Some(TokenKind::Var)
    } else if word == "while"@ {
        Some(TokenKind::While)
    } else if word == "if"@ {
        Some(TokenKind::If)
    } else if word == "else"@ {
        Some(TokenKind::Else)
    } else if word == "func"@ {
        Some(TokenKind::Func)
    } else if word == "return"@ {
        Some(TokenKind::Return)
    } else if word == "list"@ {
        Some(TokenKind::List)
    } else if word == "print"@ {
        Some(TokenKind::Print)
    } else {
        None
    }
}

/// The token that the single character `c` is, if it is one.
pub open spec fn single(c: char) -> Option<TokenKind> {
    if c == '(' {
        Some(TokenKind::OpenBrace)
    } else if c == ')' {
        Some(TokenKind::CloseBrace)
    } else if c == '{' {
        Some(TokenKind::OpenCurlyBrace)
    } else if c == '}' {
        Some(TokenKind::CloseCurlyBrace)
    } else if c == '[' {
        Some(TokenKind::OpenSquareBrace)
    } else if c == ']' {
        Some(TokenKind::CloseSquareBrace)
    } else if c == ';' {
        Some(TokenKind::SemiColon)
    } else if c == ',' {
        Some(TokenKind::Comma)
    } else if c == '.' {
        Some(TokenKind::Dot)
    } else {
        None
    }
}

/// For a character that starts an operator of one or two characters: the
/// second character, the token of the first alone, and the token of both.
pub open spec fn double(c: char) -> Option<(char, TokenKind, TokenKind)> {
    if c == '+' {
        Some(('=', TokenKind::Plus, TokenKind::PlusEquals))
    } else if c == '-' {
        Some(('=', TokenKind::Minus, TokenKind::MinusEquals))
    } else if c == '*' {
        Some(('=', TokenKind::Multiply, TokenKind::MultiplyEquals))
    } else if c == '/' {
        Some(('=', TokenKind::Divide, TokenKind::DivideEquals))
    } else if c == '%' {
        Some(('=', TokenKind::Modulus, TokenKind::ModulusEquals))
    } else if c == '!' {
        Some(('=', TokenKind::Not, TokenKind::NotEqual))
    } else if c == '=' {
        Some(('=', TokenKind::Equals, TokenKind::DoubleEquals))
    } else if c == '<' {
        Some(('=', TokenKind::Less, TokenKind::LessOrEqual))
    } else if c == '>' {
        Some(('=', TokenKind::Greater, TokenKind::GreaterOrEqual))
    } else if c == '&' {
        Some(('&', TokenKind::Invalid, TokenKind::And))
    } else if c == '|' {
        Some(('|', TokenKind::Invalid, TokenKind::Or))
    } else {
        None
    }
}

/// A token of kind `kind` without text that starts at character `start`.
pub open spec fn plain_at(chars: Seq<char>, start: int, kind: TokenKind) -> TokenView {
    TokenView { offset: byte_offset(chars, start) as usize, kind, text: Seq::empty(), value: 0 }
}

/// The word that starts at `start`: a keyword or an identifier.
pub open spec fn word_at(chars: Seq<char>, start: int) -> (TokenView, int) {
    let end = run_end(chars, CharClass::Alphanumeric, start);
    let text = chars.subrange(start, end);
    match keyword(text) {
        Some(kind) => (plain_at(chars, start, kind), end),
        None => (TokenView { text, ..plain_at(chars, start, TokenKind::Ident) }, end),
    }
}

/// The number that starts at `start`. Digits with a dot behind them, and
/// the digits that follow the dot, are a float literal, which comes out
/// with its text; other digits are an integer literal, which comes out
/// with its value, or are invalid if they are no decimal number that fits
/// 64 bits.
pub open spec fn number_at(chars: Seq<char>, start: int) -> (TokenView, int) {
    let end = run_end(chars, CharClass::Numeric, start);
    if end < chars.len() && chars[end] == '.' {
        let last = run_end(chars, CharClass::Numeric, end + 1);
        (
            TokenView {
                text: chars.subrange(start, last),
                ..plain_at(chars, start, TokenKind::Float)
            },
            last,
        )
    } else {
        match decimal_value(chars.subrange(start, end)) {
            Some(value) => if value <= u64::MAX {
                (TokenView { value: value as u64, ..plain_at(chars, start, TokenKind::Int) }, end)
            } else {
                (plain_at(chars, start, TokenKind::Invalid), end)
            },
            None => (plain_at(chars, start, TokenKind::Invalid), end),
        }
    }
}

/// The string literal whose opening quote stands at `start`; invalid if
/// no closing quote follows.
pub open spec fn string_at(chars: Seq<char>, start: int) -> (TokenView, int) {
    let end = run_end(chars, CharClass::Unquoted, start + 1);
    if end < chars.len() {
        (
            TokenView {
                text: chars.subrange(start + 1, end),
                ..plain_at(chars, start, TokenKind::String)
            },
            end + 1,
        )
    } else {
        (plain_at(chars, start, TokenKind::Invalid), end)
    }
}

/// The punctuation or operator that starts at `start`; invalid if the
/// character there starts none.
pub open spec fn symbol_at(chars: Seq<char>, start: int) -> (TokenView, int) {
    let c = chars[start];
    match single(c) {
        Some(kind) => (plain_at(chars, start, kind), start + 1),
        None => match double(c) {
            Some((second, alone, both)) => if start + 1 < chars.len() && chars[start + 1]
                == second {
                (plain_at(chars, start, both), start + 2)
            } else {
                (plain_at(chars, start, alone), start + 1)
            },
            None => (plain_at(chars, start, TokenKind::Invalid), start + 1),
        },
    }
}

/// The first token at or after character `pos`, and the index of the
/// character behind it. White space before the token is skipped; at the
/// end of the text the token is `End`.
pub open spec fn lex(chars: Seq<char>, pos: int) -> (TokenView, int)
    decreases chars.len() - pos,
{
    if pos < 0 || pos >= chars.len() {
        (plain_at(chars, chars.len() as int, TokenKind::End), chars.len() as int)
    } else if is_alphabetic(chars[pos]) {
        word_at(chars, pos)
    } else if is_numeric(chars[pos]) {
        number_at(chars, pos)
    } else if is_whitespace(chars[pos]) {
        lex(chars, pos + 1)
    } else if chars[pos] == '"' {
        string_at(chars, pos)
    } else {
        symbol_at(chars, pos)
    }
}

/// A lexer over a source text.
pub struct Lexer {
    chars: Vec<char>,
    index: usize,
    offset: usize,
}

impl Lexer {
    /// The characters of the source text.
    pub closed spec fn source(&self) -> Seq<char> {
        self.chars@
    }

    /// The index of the next character to read.
    pub closed spec fn position(&self) -> int {
        self.index as int
    }

    /// The lexer stands inside its text and knows the byte offset of its
    /// next character.
    pub closed spec fn wf(&self) -> bool {
        &&& self.index <= self.chars@.len()
        &&& self.offset == byte_offset(self.chars@, self.index as int)
        &&& byte_len(self.chars@) <= usize::MAX
    }

    /// A lexer at the start of `source`.
    pub fn new(source: &str) -> (lexer: Lexer)
        ensures
            lexer.wf(),
            lexer.source() == source@,
            lexer.position() == 0,
    {
        let chars = chars_of(source);
        proof {
            assert(chars@.take(0) =~= Seq::<char>::empty());
        }
        Lexer { chars, index: 0, offset: 0 }
    }

    /// The next character, if any is left.
    pub fn peek_char(&self) -> (c: Option<char>)
        requires
            self.wf(),
        ensures
            c == if self.position() < self.source().len() {
                Some(self.source()[self.position()])
            } else {
                None
            },
    {
        if self.index < self.chars.len() {
            Some(self.chars[self.index])
        } else {
            None
        }
    }

    /// Moves behind the next character; at the end of the text nothing
    /// changes.
    pub fn next_char(&mut self)
        requires
            old(self).wf(),
        ensures
            final(self).wf(),
            final(self).source() == old(self).source(),
            final(self).position() == if old(self).position() < old(self).source().len() {
                old(self).position() + 1
            } else {
                old(self).position()
            },
    {
        if self.index < self.chars.len() {
            proof {
                lemma_byte_offset_step(self.chars@, self.index as int);
                lemma_byte_offset_monotone(self.chars@, self.index + 1, self.chars@.len() as int);
            }
            self.offset += char_width(self.chars[self.index]);
            self.index += 1;
        }
    }

    /// The byte offset of the next character.
    pub fn offset(&self) -> (offset: usize)
        requires
            self.wf(),
        ensures
            offset == byte_offset(self.source(), self.position()),
    {
        self.offset
    }

    /// Whether `c` belongs to `class`.
    fn belongs(class: CharClass, c: char) -> (yes: bool)
        ensures
            yes == in_class(class, c),
    {
        match class {
            CharClass::Alphanumeric => alphabetic(c) || numeric(c),
            CharClass::Numeric => numeric(c),
            CharClass::Unquoted => c != '"',
        }
    }

    /// Moves behind the run of characters of `class` that starts at the
    /// next character.
    fn skip_run(&mut self, class: CharClass)
        requires
            old(self).wf(),
        ensures
            final(self).wf(),
            final(self).source() == old(self).source(),
            final(self).position() == run_end(old(self).source(), class, old(self).position()),
            old(self).position() <= final(self).position() <= old(self).source().len(),
    {
        while self.index < self.chars.len() && Lexer::belongs(class, self.chars[self.index])
            invariant
                self.wf(),
                self.chars@ == old(self).chars@,
                old(self).index <= self.index <= self.chars@.len(),
                run_end(self.chars@, class, old(self).index as int) == run_end(
                    self.chars@,
                    class,
                    self.index as int,
                ),
            decreases self.chars@.len() - self.index,
        {
            self.next_char();
        }
    }

    /// The text from character `start` up to the next character.
    fn text_from(&self, start: usize) -> (text: String)
        requires
            self.wf(),
            start <= self.position(),
        ensures
            text@ == self.source().subrange(start as int, self.position()),
    {
        let mut text = String::new();
        let mut i = start;
        while i < self.index
            invariant
                self.wf(),
                start <= i <= self.index,
                text@ == self.chars@.subrange(start as int, i as int),
            decreases self.index - i,
        {
            push_char(&mut text, self.chars[i]);
            i += 1;
            assert(text@ =~= self.chars@.subrange(start as int, i as int));
        }
        text
    }

    /// Whether the characters from `start` up to the next character spell
    /// `word`.
    fn spells(&self, start: usize, word: &str) -> (yes: bool)
        requires
            self.wf(),
            start <= self.position(),
        ensures
            yes == (self.source().subrange(start as int, self.position()) == word@),
    {
        let len = word.unicode_len();
        if self.index - start != len {
            return false;
        }
        let mut i: usize = 0;
        while i < len
            invariant
                self.wf(),
                start + len == self.index,
                len == word@.len(),
                0 <= i <= len,
                forall|k: int| 0 <= k < i ==> self.chars@[start + k] == word@[k],
            decreases len - i,
        {
            if self.chars[start + i] != word.get_char(i) {
                assert(self.chars@.subrange(start as int, self.index as int)[i as int]
                    != word@[i as int]);
                return false;
            }
            i += 1;
        }
        assert(self.chars@.subrange(start as int, self.index as int) =~= word@);
        true
    }

    /// The keyword that the characters from `start` up to the next
    /// character spell, if any.
    fn keyword_from(&self, start: usize) -> (kind: Option<TokenKind>)
        requires
            self.wf(),
            start <= self.position(),
        ensures
            kind == keyword(self.source().subrange(start as int, self.position())),
    {
        if self.spells(start, "true") {
            Some(TokenKind::True)
        } else if self.spells(start, "false") {
            Some(TokenKind::False)
        } else if self.spells(start, "none") {
            Some(TokenKind::Nil)
        } else if self.spells(start, "var") {
            Some(TokenKind::Var)
        } else if self.spells(start, "while") {
            Some(TokenKind::While)
        } else if self.spells(start, "if") {
            Some(TokenKind::If)
        } else if self.spells(start, "else") {
            Some(TokenKind::Else)
        } else if self.spells(start, "func") {
            Some(TokenKind::Func)
        } else if self.spells(start, "return") {
            Some(TokenKind::Return)
        } else if self.spells(start, "list") {
            Some(TokenKind::List)
        } else if self.spells(start, "print") {
            Some(TokenKind::Print)
        } else {
            None
        }
    }

    /// The number that the digits from `start` up to the next character
    /// stand for, if they are a decimal number that fits 64 bits.
    fn decimal_from(&self, start: usize) -> (value: Option<u64>)
        requires
            self.wf(),
            start <= self.position(),
        ensures
            value == match decimal_value(self.source().subrange(start as int, self.position())) {
                Some(number) => if number <= u64::MAX {
                    Some(number as u64)
                } else {
                    None
                },
                None => None,
            },
    {
        let ghost digits = self.chars@.subrange(start as int, self.index as int);
        let mut value: u64 = 0;
        let mut i = start;
        proof {
            assert(digits.take(0) =~= Seq::<char>::empty());
        }
        while i < self.index
            invariant
                self.wf(),
                start <= i <= self.index,
                digits == self.chars@.subrange(start as int, self.index as int),
                decimal_value(digits.take(i - start)) == Some(value as nat),
            decreases self.index - i,
        {
            let c = self.chars[i];
            proof {
                assert(digits.take(i + 1 - start).drop_last() =~= digits.take(i - start));
                assert(digits.take(i + 1 - start).last() == c);
                lemma_decimal_prefix(digits, i + 1 - start);
            }
            if c < '0' || c > '9' {
                return None;
            }
            let digit = (c as u32 - '0' as u32) as u64;
            if value > (u64::MAX - digit) / 10 {
                return None;
            }
            value = value * 10 + digit;
            i += 1;
        }
        assert(digits.take(self.index - start) =~= digits);
        Some(value)
    }

    /// The token of one character: moves behind the character.
    fn single_char_token(&mut self, kind: TokenKind) -> (token: TokenKind)
        requires
            old(self).wf(),
            old(self).position() < old(self).source().len(),
        ensures
            final(self).wf(),
            final(self).source() == old(self).source(),
            final(self).position() == old(self).position() + 1,
            token == kind,
    {
        self.next_char();
        kind
    }

    /// The token of an operator of one or two characters: moves behind the
    /// first character and, if `second` follows it, behind that one too.
    fn double_char_token_if(&mut self, second: char, alone: TokenKind, both: TokenKind) -> (token:
        TokenKind)
        requires
            old(self).wf(),
            old(self).position() < old(self).source().len(),
        ensures
            final(self).wf(),
            final(self).source() == old(self).source(),
            ({
                let follows = old(self).position() + 1 < old(self).source().len() && old(
                    self,
                ).source()[old(self).position() + 1] == second;
                &&& token == if follows {
                    both
                } else {
                    alone
                }
                &&& final(self).position() == old(self).position() + if follows {
                    2int
                } else {
                    1int
                }
            }),
    {
        self.next_char();
        match self.peek_char() {
            Some(c) => {
                if c == second {
                    self.next_char();
                    both
                } else {
                    alone
                }
            },
            None => alone,
        }
    }

    /// Reads the next token. A float literal comes out with its digits as
    /// text and the value 0: the host, which alone computes on floats,
    /// gives it the bit pattern of the number before the token is
    /// compiled.
    pub fn next_token(&mut self) -> (token: Token)
        requires
            old(self).wf(),
        ensures
            final(self).wf(),
            final(self).source() == old(self).source(),
            token@ == lex(old(self).source(), old(self).position()).0,
            final(self).position() == lex(old(self).source(), old(self).position()).1,
    {
        let ghost chars = self.chars@;
        loop
            invariant
                self.wf(),
                self.chars@ == chars,
                chars == old(self).chars@,
                lex(chars, old(self).index as int) == lex(chars, self.index as int),
            decreases chars.len() - self.index,
        {
            let start = self.index;
            let offset = self.offset;
            let c = match self.peek_char() {
                Some(c) => c,
                None => {
                    assert(chars.take(chars.len() as int) =~= chars.take(start as int));
                    return Token::plain(offset, TokenKind::End);
                },
            };
            if alphabetic(c) {
                self.skip_run(CharClass::Alphanumeric);
                return match self.keyword_from(start) {
                    Some(kind) => Token::plain(offset, kind),
                    None => Token {
                        offset,
                        kind: TokenKind::Ident,
                        text: self.text_from(start),
                        value: 0,
                    },
                };
            } else if numeric(c) {
                self.skip_run(CharClass::Numeric);
                let dot = match self.peek_char() {
                    Some(c) => c == '.',
                    None => false,
                };
                if dot {
                    self.next_char();
                    self.skip_run(CharClass::Numeric);
                    return Token {
                        offset,
                        kind: TokenKind::Float,
                        text: self.text_from(start),
                        value: 0,
                    };
                }
                return match self.decimal_from(start) {
                    Some(value) => Token::plain(offset, TokenKind::Int).with_value(value),
                    None => Token::plain(offset, TokenKind::Invalid),
                };
            } else if whitespace(c) {
                self.next_char();
            } else if c == '"' {
                self.next_char();
                let from = self.index;
                self.skip_run(CharClass::Unquoted);
                if self.index < self.chars.len() {
                    let text = self.text_from(from);
                    self.next_char();
                    return Token { offset, kind: TokenKind::String, text, value: 0 };
                }
                return Token::plain(offset, TokenKind::Invalid);
            } else {
                let kind = match c {
                    '(' => self.single_char_token(TokenKind::OpenBrace),
                    ')' => self.single_char_token(TokenKind::CloseBrace),
                    '{' => self.single_char_token(TokenKind::OpenCurlyBrace),
                    '}' => self.single_char_token(TokenKind::CloseCurlyBrace),
                    '[' => self.single_char_token(TokenKind::OpenSquareBrace),
                    ']' => self.single_char_token(TokenKind::CloseSquareBrace),
                    ';' => self.single_char_token(TokenKind::SemiColon),
                    ',' => self.single_char_token(TokenKind::Comma),
                    '.' => self.single_char_token(TokenKind::Dot),
                    '+' => self.double_char_token_if('=', TokenKind::Plus, TokenKind::PlusEquals),
                    '-' => self.double_char_token_if('=', TokenKind::Minus, TokenKind::MinusEquals),
                    '*' => self.double_char_token_if(
                        '=',
                        TokenKind::Multiply,
                        TokenKind::MultiplyEquals,
                    ),
                    '/' => self.double_char_token_if(
                        '=',
                        TokenKind::Divide,
                        TokenKind::DivideEquals,
                    ),
                    '%' => self.double_char_token_if(
                        '=',
                        TokenKind::Modulus,
                        TokenKind::ModulusEquals,
                    ),
                    '!' => self.double_char_token_if('=', TokenKind::Not, TokenKind::NotEqual),
                    '=' => self.double_char_token_if(
                        '=',
                        TokenKind::Equals,
                        TokenKind::DoubleEquals,
                    ),
                    '<' => self.double_char_token_if('=', TokenKind::Less, TokenKind::LessOrEqual),
                    '>' => self.double_char_token_if(
                        '=',
                        TokenKind::Greater,
                        TokenKind::GreaterOrEqual,
                    ),
                    '&' => self.double_char_token_if('&', TokenKind::Invalid, TokenKind::And),
                    '|' => self.double_char_token_if('|', TokenKind::Invalid, TokenKind::Or),
                    _ => self.single_char_token(TokenKind::Invalid),
                };
                return Token::plain(offset, kind);
            }
        }
    }
}

/// The digits before any place of a decimal number are a decimal number,
/// and no greater one.
pub proof fn lemma_decimal_prefix(digits: Seq<char>, len: int)
    requires
        0 <= len <= digits.len(),
    ensures
        decimal_value(digits) matches Some(value) ==> (decimal_value(digits.take(len)) matches Some(
            prefix,
        ) && prefix <= value),
    decreases digits.len(),
{
    if len < digits.len() {
        lemma_decimal_prefix(digits.drop_last(), len);
        assert(digits.drop_last().take(len) =~= digits.take(len));
    } else {
        assert(digits.take(len) =~= digits);
    }
}

} // verus!
