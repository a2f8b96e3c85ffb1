//! Tokens and positions in the source text.

use vstd::prelude::*;
use vstd::string::StringSliceAdditionalSpecFns;
use vstd::utf8::{char_is_scalar, encode_scalar, encode_utf8};

verus! {

/// What a token is. An identifier, a string and a float literal come with
/// their text, an integer literal with its value.
#[derive(Debug, Clone, Copy, PartialEq, Eq, Structural)]
pub enum TokenKind {
    Ident,
    Int,
    Float,
    String,
    Plus,
    Minus,
    Multiply,
    Divide,
    Modulus,
    NotEqual,
    DoubleEquals,
    Less,
    Greater,
    LessOrEqual,
    GreaterOrEqual,
    Not,
    And,
    Or,
    PlusEquals,
    MinusEquals,
    MultiplyEquals,
    DivideEquals,
    ModulusEquals,
    OpenBrace,
    CloseBrace,
    OpenCurlyBrace,
    CloseCurlyBrace,
    OpenSquareBrace,
    CloseSquareBrace,
    SemiColon,
    Comma,
    Dot,
    Equals,
    Var,
    True,
    False,
    Nil,
    While,
    If,
    Else,
    Func,
    Return,
    Print,
    List,
    End,
    Invalid,
}

/// A token: its kind and the byte offset in the source at which it starts.
///
/// `text` is the name of an identifier, the content of a string literal or
/// the digits of a float literal, and empty for every other kind. `value`
/// is the value of an integer literal and, once the host has put it
/// there, the bit pattern of a float literal; it is 0 for every other
/// kind.
#[derive(Debug, Clone)]
pub struct Token {
    pub offset: usize,
    pub kind: TokenKind,
    pub text: String,
    pub value: u64,
}

/// What a token holds.
pub struct TokenView {
    pub offset: usize,
    pub kind: TokenKind,
    pub text: Seq<char>,
    pub value: u64,
}

impl View for Token {
    type V = TokenView;

    open spec fn view(&self) -> TokenView {
        TokenView { offset: self.offset, kind: self.kind, text: self.text@, value: self.value }
    }
}

impl Token {
    /// A token without text.
    pub fn plain(offset: usize, kind: TokenKind) -> (token: Token)
        ensures
            token@ == (TokenView { offset, kind, text: Seq::empty(), value: 0 }),
    {
        Token { offset, kind, text: String::new(), value: 0 }
    }

    /// The token with `value` as its value. The host gives a float literal
    /// its bit pattern this way.
    pub fn with_value(self, value: u64) -> (token: Token)
        ensures
            token@ == (TokenView { value, ..self@ }),
    {
        Token { offset: self.offset, kind: self.kind, text: self.text, value }
    }
}

/// A place in the source text, counted from 1.
#[derive(Debug, Clone, Copy, PartialEq, Eq, Structural)]
pub struct Position {
    pub line: u32,
    pub column: u32,
}

/// Number of bytes that the UTF-8 encoding of `c` takes.
pub open spec fn utf8_width(c: char) -> nat {
    if (c as u32) < 0x80 {
        1
    } else if (c as u32) < 0x800 {
        2
    } else if (c as u32) < 0x1_0000 {
        3
    } else {
        4
    }
}

/// Number of bytes that the UTF-8 encoding of `chars` takes.
pub open spec fn byte_len(chars: Seq<char>) -> nat
    decreases chars.len(),
{
    if chars.len() == 0 {
        0
    } else {
        byte_len(chars.drop_last()) + utf8_width(chars.last())
    }
}

/// The byte offset at which the character with index `index` starts.
pub open spec fn byte_offset(chars: Seq<char>, index: int) -> nat {
    byte_len(chars.take(index))
}

/// Line and column of the character with index `index`, each counted from
/// 1: a line ends behind its newline character.
pub open spec fn position_of(chars: Seq<char>, index: int) -> (int, int)
    decreases index,
{
    if index <= 0 {
        (1, 1)
    } else {
        let before = position_of(chars, index - 1);
        if chars[index - 1] == '\n' {
            (before.0 + 1, 1)
        } else {
            (before.0, before.1 + 1)
        }
    }
}

/// Number of bytes that the UTF-8 encoding of `c` takes.
pub fn char_width(c: char) -> (width: usize)
    ensures
        width == utf8_width(c),
        1 <= width <= 4,
{
    let code = c as u32;
    if code < 0x80 {
        1
    } else if code < 0x800 {
        2
    } else if code < 0x1_0000 {
        3
    } else {
        4
    }
}

/// The characters of `source`, in order.
pub fn chars_of(source: &str) -> (chars: Vec<char>)
    ensures
        chars@ == source@,
        byte_len(chars@) <= usize::MAX,
{
    let mut chars: Vec<char> = Vec::new();
    for c in it: source.chars()
        invariant
            chars@ == it.seq().take(it.index() as int),
            it.seq() == source@,
    {
        chars.push(c);
    }
    let bytes = source.as_bytes();
    let size = bytes.len();
    proof {
        assert(chars@ =~= source@);
        lemma_byte_len_is_encoded_len(source@);
        assert(size == encode_utf8(source@).len());
    }
    chars
}

/// Line and column of the character that starts at byte `offset` of
/// `source`.
pub fn pos_at_offset(source: &str, offset: usize) -> (position: Position)
    requires
        source@.len() < u32::MAX,
        exists|index: int| 0 <= index < source@.len() && byte_offset(source@, index) == offset,
    ensures
        exists|index: int|
            0 <= index < source@.len() && byte_offset(source@, index) == offset
                && position.line == position_of(source@, index).0 && position.column
                == position_of(source@, index).1,
{
    let chars = chars_of(source);
    let ghost target = choose|index: int|
        0 <= index < source@.len() && byte_offset(source@, index) == offset;
    let mut line: u32 = 1;
    let mut column: u32 = 1;
    let mut at: usize = 0;
    let mut i: usize = 0;
    proof {
        lemma_byte_offset_monotone(chars@, 0, target);
    }
    while at != offset
        invariant
            chars@ == source@,
            chars@.len() < u32::MAX,
            0 <= i <= target < chars@.len(),
            byte_offset(chars@, target) == offset,
            at == byte_offset(chars@, i as int),
            line == position_of(chars@, i as int).0,
            column == position_of(chars@, i as int).1,
            1 <= line <= i + 1,
            1 <= column <= i + 1,
        decreases chars@.len() - i,
    {
        proof {
            if i == target {
                assert(at == offset);
            }
            lemma_byte_offset_step(chars@, i as int);
            lemma_byte_offset_monotone(chars@, i + 1, target);
        }
        let c = chars[i];
        if c == '\n' {
            line += 1;
            column = 1;
        } else {
            column += 1;
        }
        at += char_width(c);
        i += 1;
    }
    Position { line, column }
}

/// The encoding of a text with one more character is the encoding of the
/// text followed by the encoding of the character.
pub proof fn lemma_encode_push(chars: Seq<char>, c: char)
    ensures
        encode_utf8(chars.push(c)) == encode_utf8(chars) + encode_scalar(c as u32),
    decreases chars.len(),
{
    let longer = chars.push(c);
    if chars.len() == 0 {
        assert(longer.drop_first() =~= Seq::<char>::empty());
        assert(encode_utf8(longer.drop_first()) =~= Seq::<u8>::empty());
        assert(encode_utf8(longer) =~= encode_scalar(c as u32));
        assert(encode_utf8(chars) + encode_scalar(c as u32) =~= encode_scalar(c as u32));
    } else {
        assert(longer.drop_first() =~= chars.drop_first().push(c));
        lemma_encode_push(chars.drop_first(), c);
        assert(encode_utf8(longer) =~= encode_utf8(chars) + encode_scalar(c as u32));
    }
}

/// `byte_len` counts the bytes of the UTF-8 encoding.
pub proof fn lemma_byte_len_is_encoded_len(chars: Seq<char>)
    ensures
        byte_len(chars) == encode_utf8(chars).len(),
    decreases chars.len(),
{
    if chars.len() > 0 {
        let c = chars.last();
        lemma_byte_len_is_encoded_len(chars.drop_last());
        lemma_encode_push(chars.drop_last(), c);
        assert(chars.drop_last().push(c) =~= chars);
        char_is_scalar(c);
    }
}

/// The character behind index `index` starts where that one ends.
pub proof fn lemma_byte_offset_step(chars: Seq<char>, index: int)
    requires
        0 <= index < chars.len(),
    ensures
        byte_offset(chars, index + 1) == byte_offset(chars, index) + utf8_width(chars[index]),
        byte_offset(chars, 0) == 0,
{
    assert(chars.take(index + 1).drop_last() =~= chars.take(index));
    assert(chars.take(0) =~= Seq::<char>::empty());
}

/// Later characters start at greater byte offsets.
pub proof fn lemma_byte_offset_monotone(chars: Seq<char>, from: int, to: int)
    requires
        0 <= from <= to <= chars.len(),
    ensures
        byte_offset(chars, from) <= byte_offset(chars, to),
        from < to ==> byte_offset(chars, from) < byte_offset(chars, to),
        byte_offset(chars, to) <= byte_len(chars),
    decreases chars.len() - from,
{
    if from < to {
        lemma_byte_offset_step(chars, from);
        lemma_byte_offset_monotone(chars, from + 1, to);
    } else if to < chars.len() {
        lemma_byte_offset_step(chars, to);
        lemma_byte_offset_monotone(chars, to + 1, chars.len() as int);
    } else {
        assert(chars.take(to) =~= chars);
    }
}

/// Two different characters start at different byte offsets: a byte
/// offset names at most one character.
pub proof fn lemma_byte_offset_injective(chars: Seq<char>, a: int, b: int)
    requires
        0 <= a <= chars.len(),
        0 <= b <= chars.len(),
        byte_offset(chars, a) == byte_offset(chars, b),
    ensures
        a == b,
{
    if a < b {
        lemma_byte_offset_monotone(chars, a, b);
    } else if b < a {
        lemma_byte_offset_monotone(chars, b, a);
    }
}

} // verus!
