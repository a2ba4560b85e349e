use vstd::prelude::*;
use crate::text::{is_digit, push_char, push_str};

verus! {

/// A decimal number in canonical form: `whole` holds the integer digits
/// without leading zeros (`"0"` for zero), `fraction` the digits after the
/// point without trailing zeros (empty for an integral value).
pub struct Decimal {
    pub whole: String,
    pub fraction: String,
}

/// The value of a `Decimal`: its integer digits and its fraction digits.
pub struct DecimalModel {
    pub whole: Seq<char>,
    pub fraction: Seq<char>,
}

impl DecimalModel {
    /// Digits only, at least one before the point, no leading zero before
    /// the point but for a lone `0`, and no trailing zero after it.
    pub open spec fn is_canonical(&self) -> bool {
        &&& self.whole.len() > 0
        &&& forall|k: int| 0 <= k < self.whole.len() ==> is_digit(#[trigger] self.whole[k])
        &&& forall|k: int| 0 <= k < self.fraction.len() ==> is_digit(#[trigger] self.fraction[k])
        &&& self.whole.len() > 1 ==> self.whole[0] != '0'
        &&& self.fraction.len() > 0 ==> self.fraction.last() != '0'
    }
}

impl Decimal {
    pub open spec fn model(&self) -> DecimalModel {
        DecimalModel { whole: self.whole@, fraction: self.fraction@ }
    }

    /// A separate copy of the same value.
    pub fn copied(&self) -> (r: Decimal)
        ensures
            r.model() == self.model(),
    {
        Decimal { whole: self.whole.clone(), fraction: self.fraction.clone() }
    }
}

/// The canonical text of a number: the integer digits, a point, and the
/// fraction digits, or a single `0` after the point for an integral value.
pub open spec fn decimal_text(d: DecimalModel) -> Seq<char> {
    if d.fraction.len() == 0 {
        d.whole + seq!['.', '0']
    } else {
        d.whole + seq!['.'] + d.fraction
    }
}

/// Appends the canonical text of `d`.
pub fn push_decimal_text(out: &mut String, d: &Decimal)
    ensures
        final(out)@ == old(out)@ + decimal_text(d.model()),
{
    push_str(out, d.whole.as_str());
    push_char(out, '.');
    if d.fraction.as_str().unicode_len() == 0 {
        push_char(out, '0');
    } else {
        push_str(out, d.fraction.as_str());
    }
    assert(final(out)@ =~= old(out)@ + decimal_text(d.model()));
}

/// The kind of a token, with the payload of a string or number literal.
pub enum TokenType {
    // Single-character punctuation.
    LeftParen, RightParen, LeftBrace, RightBrace, Comma, Dot, Minus, Plus, Semicolon, Slash, Star,
    // The short forms of the one-or-two-character operators.
    Bang, Equal, Greater, Less,
    // Their long forms.
    BangEqual, EqualEqual, GreaterEqual, LessEqual,
    // Names and literals.
    Identifier, String(String), Number(Decimal),
    // Reserved words.
    And, Class, Else, False, Fun, For, If, Nil, Or, Print, Return, Super, This, True, Var, While,
    // End of input.
    Eof,
}

/// The mathematical model of a token kind.
pub enum TokenKind {
    LeftParen, RightParen, LeftBrace, RightBrace, Comma, Dot, Minus, Plus, Semicolon, Slash, Star,
    Bang, Equal, Greater, Less,
    BangEqual, EqualEqual, GreaterEqual, LessEqual,
    Identifier, String(Seq<char>), Number(DecimalModel),
    And, Class, Else, False, Fun, For, If, Nil, Or, Print, Return, Super, This, True, Var, While,
    Eof,
}

/// A token: its kind and the exact source text that produced it.
pub struct Token {
    pub token_type: TokenType,
    pub lexeme: String,
}

/// The mathematical model of a token.
pub struct TokenModel {
    pub kind: TokenKind,
    pub lexeme: Seq<char>,
}

impl TokenType {
    pub open spec fn model(&self) -> TokenKind {
        match self {
            TokenType::LeftParen => TokenKind::LeftParen,
            TokenType::RightParen => TokenKind::RightParen,
            TokenType::LeftBrace => TokenKind::LeftBrace,
            TokenType::RightBrace => TokenKind::RightBrace,
            TokenType::Comma => TokenKind::Comma,
            TokenType::Dot => TokenKind::Dot,
            TokenType::Minus => TokenKind::Minus,
            TokenType::Plus => TokenKind::Plus,
            TokenType::Semicolon => TokenKind::Semicolon,
            TokenType::Slash => TokenKind::Slash,
            TokenType::Star => TokenKind::Star,
            TokenType::Bang => TokenKind::Bang,
            TokenType::Equal => TokenKind::Equal,
            TokenType::Greater => TokenKind::Greater,
            TokenType::Less => TokenKind::Less,
            TokenType::BangEqual => TokenKind::BangEqual,
            TokenType::EqualEqual => TokenKind::EqualEqual,
            TokenType::GreaterEqual => TokenKind::GreaterEqual,
            TokenType::LessEqual => TokenKind::LessEqual,
            TokenType::Identifier => TokenKind::Identifier,
            TokenType::String(s) => TokenKind::String(s@),
            TokenType::Number(d) => TokenKind::Number(d.model()),
            TokenType::And => TokenKind::And,
            TokenType::Class => TokenKind::Class,
            TokenType::Else => TokenKind::Else,
            TokenType::False => TokenKind::False,
            TokenType::Fun => TokenKind::Fun,
            TokenType::For => TokenKind::For,
            TokenType::If => TokenKind::If,
            TokenType::Nil => TokenKind::Nil,
            TokenType::Or => TokenKind::Or,
            TokenType::Print => TokenKind::Print,
            TokenType::Return => TokenKind::Return,
            TokenType::Super => TokenKind::Super,
            TokenType::This => TokenKind::This,
            TokenType::True => TokenKind::True,
            TokenType::Var => TokenKind::Var,
            TokenType::While => TokenKind::While,
            TokenType::Eof => TokenKind::Eof,
        }
    }

    /// The upper-case name under which the kind is rendered.
    pub fn name(&self) -> (r: &'static str)
        ensures
            r@ == kind_name(self.model()),
    {
        match self {
            TokenType::LeftParen => "LEFT_PAREN",
            TokenType::RightParen => "RIGHT_PAREN",
            TokenType::LeftBrace => "LEFT_BRACE",
            TokenType::RightBrace => "RIGHT_BRACE",
            TokenType::Comma => "COMMA",
            TokenType::Dot => "DOT",
            TokenType::Minus => "MINUS",
            TokenType::Plus => "PLUS",
            TokenType::Semicolon => "SEMICOLON",
            TokenType::Slash => "SLASH",
            TokenType::Star => "STAR",
            TokenType::Bang => "BANG",
            TokenType::Equal => "EQUAL",
            TokenType::Greater => "GREATER",
            TokenType::Less => "LESS",
            TokenType::BangEqual => "BANG_EQUAL",
            TokenType::EqualEqual => "EQUAL_EQUAL",
            TokenType::GreaterEqual => "GREATER_EQUAL",
            TokenType::LessEqual => "LESS_EQUAL",
            TokenType::Identifier => "IDENTIFIER",
            TokenType::String(_) => "STRING",
            TokenType::Number(_) => "NUMBER",
            TokenType::And => "AND",
            TokenType::Class => "CLASS",
            TokenType::Else => "ELSE",
            TokenType::False => "FALSE",
            TokenType::Fun => "FUN",
            TokenType::For => "FOR",
            TokenType::If => "IF",
            TokenType::Nil => "NIL",
            TokenType::Or => "OR",
            TokenType::Print => "PRINT",
            TokenType::Return => "RETURN",
            TokenType::Super => "SUPER",
            TokenType::This => "THIS",
            TokenType::True => "TRUE",
            TokenType::Var => "VAR",
            TokenType::While => "WHILE",
            TokenType::Eof => "EOF",
        }
    }
}

/// The upper-case name under which a kind is rendered.
pub open spec fn kind_name(k: TokenKind) -> Seq<char> {
    match k {
        TokenKind::LeftParen => "LEFT_PAREN"@,
        TokenKind::RightParen => "RIGHT_PAREN"@,
        TokenKind::LeftBrace => "LEFT_BRACE"@,
        TokenKind::RightBrace => "RIGHT_BRACE"@,
        TokenKind::Comma => "COMMA"@,
        TokenKind::Dot => "DOT"@,
        TokenKind::Minus => "MINUS"@,
        TokenKind::Plus => "PLUS"@,
        TokenKind::Semicolon => "SEMICOLON"@,
        TokenKind::Slash => "SLASH"@,
        TokenKind::Star => "STAR"@,
        TokenKind::Bang => "BANG"@,
        TokenKind::Equal => "EQUAL"@,
        TokenKind::Greater => "GREATER"@,
        TokenKind::Less => "LESS"@,
        TokenKind::BangEqual => "BANG_EQUAL"@,
        TokenKind::EqualEqual => "EQUAL_EQUAL"@,
        TokenKind::GreaterEqual => "GREATER_EQUAL"@,
        TokenKind::LessEqual => "LESS_EQUAL"@,
        TokenKind::Identifier => "IDENTIFIER"@,
        TokenKind::String(_) => "STRING"@,
        TokenKind::Number(_) => "NUMBER"@,
        TokenKind::And => "AND"@,
        TokenKind::Class => "CLASS"@,
        TokenKind::Else => "ELSE"@,
        TokenKind::False => "FALSE"@,
        TokenKind::Fun => "FUN"@,
        TokenKind::For => "FOR"@,
        TokenKind::If => "IF"@,
        TokenKind::Nil => "NIL"@,
        TokenKind::Or => "OR"@,
        TokenKind::Print => "PRINT"@,
        TokenKind::Return => "RETURN"@,
        TokenKind::Super => "SUPER"@,
        TokenKind::This => "THIS"@,
        TokenKind::True => "TRUE"@,
        TokenKind::Var => "VAR"@,
        TokenKind::While => "WHILE"@,
        TokenKind::Eof => "EOF"@,
    }
}

/// The literal part of a token's rendering: a string's content, a number's
/// canonical text, or `null`.
pub open spec fn literal_text(k: TokenKind) -> Seq<char> {
    match k {
        TokenKind::String(s) => s,
        TokenKind::Number(d) => decimal_text(d),
        _ => "null"@,
    }
}

/// The rendering of a token: `EOF  null` for the end of input, else its
/// kind's name, its lexeme and its literal part, separated by spaces.
pub open spec fn render_token(t: TokenModel) -> Seq<char> {
    match t.kind {
        TokenKind::Eof => "EOF  null"@,
        _ => kind_name(t.kind) + seq![' '] + t.lexeme + seq![' '] + literal_text(t.kind),
    }
}

/// The models of a sequence of tokens.
pub open spec fn token_models(ts: Seq<Token>) -> Seq<TokenModel> {
    ts.map_values(|t: Token| t.model())
}

impl Token {
    pub open spec fn model(&self) -> TokenModel {
        TokenModel { kind: self.token_type.model(), lexeme: self.lexeme@ }
    }

    /// The line under which this token is written out.
    pub fn render(&self) -> (r: String)
        ensures
            r@ == render_token(self.model()),
    {
        let mut r = String::new();
        match &self.token_type {
            TokenType::Eof => {
                push_str(&mut r, "EOF  null");
            },
            TokenType::String(s) => {
                push_str(&mut r, self.token_type.name());
                push_char(&mut r, ' ');
                push_str(&mut r, self.lexeme.as_str());
                push_char(&mut r, ' ');
                push_str(&mut r, s.as_str());
            },
            TokenType::Number(d) => {
                push_str(&mut r, self.token_type.name());
                push_char(&mut r, ' ');
                push_str(&mut r, self.lexeme.as_str());
                push_char(&mut r, ' ');
                push_decimal_text(&mut r, d);
            },
            _ => {
                push_str(&mut r, self.token_type.name());
                push_char(&mut r, ' ');
                push_str(&mut r, self.lexeme.as_str());
                push_char(&mut r, ' ');
                push_str(&mut r, "null");
            },
        }
        assert(r@ =~= render_token(self.model()));
        r
    }
}

} // verus!
