use vstd::prelude::*;
use crate::text::{decimal, is_digit, lines_text, option_seq, push_char, push_decimal, push_str, same_chars, string_of};
use crate::token::{render_token, token_models, Decimal, DecimalModel, Token, TokenKind, TokenModel, TokenType};

verus! {

/// A character that may begin an identifier.
pub open spec fn is_alpha(c: char) -> bool {
    ('a' <= c <= 'z') || ('A' <= c <= 'Z') || c == '_'
}

/// A character that may continue an identifier.
pub open spec fn is_ident_char(c: char) -> bool {
    is_alpha(c) || is_digit(c)
}

/// The end of the run of digits that starts at `i`.
pub open spec fn digits_end(line: Seq<char>, i: int) -> int
    decreases line.len() - i,
{
    if 0 <= i < line.len() && is_digit(line[i]) {
        digits_end(line, i + 1)
    } else {
        i
    }
}

/// The end of the run of identifier characters that starts at `i`.
pub open spec fn ident_end(line: Seq<char>, i: int) -> int
    decreases line.len() - i,
{
    if 0 <= i < line.len() && is_ident_char(line[i]) {
        ident_end(line, i + 1)
    } else {
        i
    }
}

/// The position of the first `c` at or after `i`, or the length if none.
pub open spec fn find_char(s: Seq<char>, i: int, c: char) -> int
    decreases s.len() - i,
{
    if 0 <= i < s.len() && s[i] != c {
        find_char(s, i + 1, c)
    } else {
        i
    }
}

/// Digits with leading zeros removed, keeping at least one digit.
pub open spec fn trim_leading_zeros(s: Seq<char>) -> Seq<char>
    decreases s.len(),
{
    if s.len() > 1 && s[0] == '0' {
        trim_leading_zeros(s.drop_first())
    } else {
        s
    }
}

/// Digits with trailing zeros removed.
pub open spec fn trim_trailing_zeros(s: Seq<char>) -> Seq<char>
    decreases s.len(),
{
    if s.len() > 0 && s.last() == '0' {
        trim_trailing_zeros(s.drop_last())
    } else {
        s
    }
}

/// The value of a number literal with integer digits `whole` and fraction
/// digits `fraction`.
pub open spec fn number_value(whole: Seq<char>, fraction: Seq<char>) -> DecimalModel {
    DecimalModel { whole: trim_leading_zeros(whole), fraction: trim_trailing_zeros(fraction) }
}

/// The kind of a word: its reserved word, or `Identifier`.
pub open spec fn keyword_kind(w: Seq<char>) -> TokenKind {
    if w == "and"@ {
        TokenKind::And
    } else if w == "class"@ {
        TokenKind::Class
    } else if w == "else"@ {
        TokenKind::Else
    } else if w == "false"@ {
        TokenKind::False
    } else if w == "for"@ {
        TokenKind::For
    } else if w == "fun"@ {
        TokenKind::Fun
    } else if w == "if"@ {
        TokenKind::If
    } else if w == "nil"@ {
        TokenKind::Nil
    } else if w == "or"@ {
        TokenKind::Or
    } else if w == "print"@ {
        TokenKind::Print
    } else if w == "return"@ {
        TokenKind::Return
    } else if w == "super"@ {
        TokenKind::Super
    } else if w == "this"@ {
        TokenKind::This
    } else if w == "true"@ {
        TokenKind::True
    } else if w == "var"@ {
        TokenKind::Var
    } else if w == "while"@ {
        TokenKind::While
    } else {
        TokenKind::Identifier
    }
}

/// The kind of a punctuation mark that is a token by itself (`/` aside).
pub open spec fn single_kind(c: char) -> Option<TokenKind> {
    if c == '(' {
        Some(TokenKind::LeftParen)
    } else if c == ')' {
        Some(TokenKind::RightParen)
    } else if c == '{' {
        Some(TokenKind::LeftBrace)
    } else if c == '}' {
        Some(TokenKind::RightBrace)
    } else if c == ',' {
        Some(TokenKind::Comma)
    } else if c == '.' {
        Some(TokenKind::Dot)
    } else if c == '-' {
        Some(TokenKind::Minus)
    } else if c == '+' {
        Some(TokenKind::Plus)
    } else if c == ';' {
        Some(TokenKind::Semicolon)
    } else if c == '*' {
        Some(TokenKind::Star)
    } else {
        None
    }
}

/// The short and long kinds of an operator that may be followed by `=`.
pub open spec fn operator_kinds(c: char) -> Option<(TokenKind, TokenKind)> {
    if c == '!' {
        Some((TokenKind::Bang, TokenKind::BangEqual))
    } else if c == '=' {
        Some((TokenKind::Equal, TokenKind::EqualEqual))
    } else if c == '<' {
        Some((TokenKind::Less, TokenKind::LessEqual))
    } else if c == '>' {
        Some((TokenKind::Greater, TokenKind::GreaterEqual))
    } else {
        None
    }
}

/// What one scanning step produces: at most one token, at most one error
/// description, and the position where the next step starts.
pub struct Step {
    pub token: Option<TokenModel>,
    pub error: Option<Seq<char>>,
    pub end: int,
}

/// A step that skips to `end` and produces nothing.
pub open spec fn skip_to(end: int) -> Step {
    Step { token: None, error: None, end }
}

/// A step that produces a token of `kind` over `line[i..end]`.
pub open spec fn emit(kind: TokenKind, line: Seq<char>, i: int, end: int) -> Step {
    Step { token: Some(TokenModel { kind, lexeme: line.subrange(i, end) }), error: None, end }
}

/// The description of a character that begins no token.
pub open spec fn unexpected_message(c: char) -> Seq<char> {
    "Unexpected character: "@ + seq![c, '.']
}

/// The step that scans the number literal starting at `i`.
pub open spec fn number_step(line: Seq<char>, i: int) -> Step {
    let j = digits_end(line, i);
    if j + 1 < line.len() && line[j] == '.' && is_digit(line[j + 1]) {
        let k = digits_end(line, j + 1);
        emit(
            TokenKind::Number(number_value(line.subrange(i, j), line.subrange(j + 1, k))),
            line,
            i,
            k,
        )
    } else {
        emit(TokenKind::Number(number_value(line.subrange(i, j), seq![])), line, i, j)
    }
}

/// The step that scans the string literal whose opening quote is at `i`.
pub open spec fn string_step(line: Seq<char>, i: int) -> Step {
    let q = find_char(line, i + 1, '"');
    if q < line.len() {
        emit(TokenKind::String(line.subrange(i + 1, q)), line, i, q + 1)
    } else {
        Step { token: None, error: Some("Unterminated string."@), end: line.len() as int }
    }
}

/// One scanning step at position `i` of a line.
pub open spec fn lex_step(line: Seq<char>, i: int) -> Step
    recommends
        0 <= i < line.len(),
{
    let c = line[i];
    if c == ' ' || c == '\t' {
        skip_to(i + 1)
    } else if c == '/' {
        if i + 1 < line.len() && line[i + 1] == '/' {
            skip_to(line.len() as int)
        } else {
            emit(TokenKind::Slash, line, i, i + 1)
        }
    } else if single_kind(c) is Some {
        emit(single_kind(c)->0, line, i, i + 1)
    } else if operator_kinds(c) is Some {
        let (short, long) = operator_kinds(c)->0;
        if i + 1 < line.len() && line[i + 1] == '=' {
            emit(long, line, i, i + 2)
        } else {
            emit(short, line, i, i + 1)
        }
    } else if is_digit(c) {
        number_step(line, i)
    } else if c == '"' {
        string_step(line, i)
    } else if is_alpha(c) {
        let j = ident_end(line, i);
        emit(keyword_kind(line.subrange(i, j)), line, i, j)
    } else {
        Step { token: None, error: Some(unexpected_message(c)), end: i + 1 }
    }
}

/// A diagnostic as it is recorded: `[line n] Error: ` and the description.
pub open spec fn diagnostic(n: nat, description: Seq<char>) -> Seq<char> {
    "[line "@ + decimal(n) + "] Error: "@ + description
}

/// The diagnostic of an error description recorded on line `n`, if any.
pub open spec fn diagnostics_of(n: nat, error: Option<Seq<char>>) -> Seq<Seq<char>> {
    match error {
        Some(e) => seq![diagnostic(n, e)],
        None => seq![],
    }
}

/// The tokens and diagnostics of line number `n`, scanned from position `i`.
pub open spec fn scan_line_from(line: Seq<char>, n: nat, i: int) -> (Seq<TokenModel>, Seq<Seq<char>>)
    decreases line.len() - i,
{
    if 0 <= i < line.len() {
        let st = lex_step(line, i);
        if i < st.end <= line.len() {
            let rest = scan_line_from(line, n, st.end);
            (
                option_seq(st.token) + rest.0,
                diagnostics_of(n, st.error) + rest.1,
            )
        } else {
            (seq![], seq![])
        }
    } else {
        (seq![], seq![])
    }
}

/// The line that starts at `i`: up to the next newline, without the carriage
/// return of a `\r\n` ending.
pub open spec fn line_at(s: Seq<char>, i: int) -> Seq<char> {
    let e = find_char(s, i, '\n');
    if e < s.len() && i < e && s[e - 1] == '\r' {
        s.subrange(i, e - 1)
    } else {
        s.subrange(i, e)
    }
}

/// The tokens and diagnostics of the lines from the one starting at `i`,
/// which has number `n`.
pub open spec fn scan_lines_from(s: Seq<char>, i: int, n: nat) -> (Seq<TokenModel>, Seq<Seq<char>>)
    decreases s.len() - i,
{
    if 0 <= i < s.len() {
        let e = find_char(s, i, '\n');
        let first = scan_line_from(line_at(s, i), n, 0);
        if i <= e < s.len() {
            let rest = scan_lines_from(s, e + 1, n + 1);
            (first.0 + rest.0, first.1 + rest.1)
        } else {
            first
        }
    } else {
        (seq![], seq![])
    }
}

pub open spec fn eof_token() -> TokenModel {
    TokenModel { kind: TokenKind::Eof, lexeme: seq![] }
}

/// The tokens and diagnostics of a whole source text: those of each line in
/// order, then one `Eof` token.
pub open spec fn scan_source(s: Seq<char>) -> (Seq<TokenModel>, Seq<Seq<char>>) {
    let r = scan_lines_from(s, 0, 1);
    (r.0.push(eof_token()), r.1)
}

fn is_digit_char(c: char) -> (r: bool)
    ensures
        r == is_digit(c),
{
    '0' <= c && c <= '9'
}

fn is_alpha_char(c: char) -> (r: bool)
    ensures
        r == is_alpha(c),
{
    ('a' <= c && c <= 'z') || ('A' <= c && c <= 'Z') || c == '_'
}

fn digits_end_at(line: &Vec<char>, i: usize) -> (j: usize)
    requires
        i <= line.len(),
    ensures
        j == digits_end(line@, i as int),
        i <= j <= line.len(),
{
    let mut j = i;
    while j < line.len() && is_digit_char(line[j])
        invariant
            i <= j <= line.len(),
            digits_end(line@, i as int) == digits_end(line@, j as int),
        decreases line.len() - j,
    {
        j += 1;
    }
    j
}

fn ident_end_at(line: &Vec<char>, i: usize) -> (j: usize)
    requires
        i <= line.len(),
    ensures
        j == ident_end(line@, i as int),
        i <= j <= line.len(),
{
    let mut j = i;
    while j < line.len() && (is_alpha_char(line[j]) || is_digit_char(line[j]))
        invariant
            i <= j <= line.len(),
            ident_end(line@, i as int) == ident_end(line@, j as int),
        decreases line.len() - j,
    {
        j += 1;
    }
    j
}

fn find_char_at(s: &Vec<char>, i: usize, c: char) -> (j: usize)
    requires
        i <= s.len(),
    ensures
        j == find_char(s@, i as int, c),
        i <= j <= s.len(),
{
    let mut j = i;
    while j < s.len() && s[j] != c
        invariant
            i <= j <= s.len(),
            find_char(s@, i as int, c) == find_char(s@, j as int, c),
        decreases s.len() - j,
    {
        j += 1;
    }
    j
}

/// A vector holding `v[lo..hi]`.
fn vec_of(v: &Vec<char>, lo: usize, hi: usize) -> (r: Vec<char>)
    requires
        lo <= hi <= v.len(),
    ensures
        r@ == v@.subrange(lo as int, hi as int),
{
    let mut r: Vec<char> = Vec::new();
    let mut i = lo;
    while i < hi
        invariant
            lo <= i <= hi <= v.len(),
            r@ == v@.subrange(lo as int, i as int),
        decreases hi - i,
    {
        r.push(v[i]);
        assert(v@.subrange(lo as int, i + 1) == v@.subrange(lo as int, i as int).push(v@[i as int]));
        i += 1;
    }
    r
}

/// The value of the number literal with integer digits `line[i..j]` and
/// fraction digits `line[f..k]`.
fn number_at(line: &Vec<char>, i: usize, j: usize, f: usize, k: usize) -> (r: Decimal)
    requires
        i < j <= f <= k <= line.len(),
    ensures
        r.model() == number_value(line@.subrange(i as int, j as int), line@.subrange(f as int, k as int)),
{
    let mut w = i;
    while w + 1 < j && line[w] == '0'
        invariant
            i <= w < j <= line.len(),
            trim_leading_zeros(line@.subrange(i as int, j as int)) == trim_leading_zeros(
                line@.subrange(w as int, j as int),
            ),
        decreases j - w,
    {
        assert(line@.subrange(w as int, j as int).drop_first() =~= line@.subrange(w + 1, j as int));
        w += 1;
    }
    let mut e = k;
    while e > f && line[e - 1] == '0'
        invariant
            f <= e <= k,
            k <= line.len(),
            trim_trailing_zeros(line@.subrange(f as int, k as int)) == trim_trailing_zeros(
                line@.subrange(f as int, e as int),
            ),
        decreases e - f,
    {
        assert(line@.subrange(f as int, e as int).drop_last() =~= line@.subrange(f as int, e - 1));
        e -= 1;
    }
    Decimal { whole: string_of(line, w, j), fraction: string_of(line, f, e) }
}

/// The kind of a punctuation mark that is a token by itself.
fn single_char_kind(c: char) -> (r: Option<TokenType>)
    ensures
        r is Some <==> single_kind(c) is Some,
        r is Some ==> single_kind(c) == Some(r->0.model()),
{
    if c == '(' {
        Some(TokenType::LeftParen)
    } else if c == ')' {
        Some(TokenType::RightParen)
    } else if c == '{' {
        Some(TokenType::LeftBrace)
    } else if c == '}' {
        Some(TokenType::RightBrace)
    } else if c == ',' {
        Some(TokenType::Comma)
    } else if c == '.' {
        Some(TokenType::Dot)
    } else if c == '-' {
        Some(TokenType::Minus)
    } else if c == '+' {
        Some(TokenType::Plus)
    } else if c == ';' {
        Some(TokenType::Semicolon)
    } else if c == '*' {
        Some(TokenType::Star)
    } else {
        None
    }
}

/// The kind of a word: its reserved word, or `Identifier`.
fn match_reserved(word: &Vec<char>) -> (r: TokenType)
    ensures
        r.model() == keyword_kind(word@),
{
    if same_chars(word, "and") {
        TokenType::And
    } else if same_chars(word, "class") {
        TokenType::Class
    } else if same_chars(word, "else") {
        TokenType::Else
    } else if same_chars(word, "false") {
        TokenType::False
    } else if same_chars(word, "for") {
        TokenType::For
    } else if same_chars(word, "fun") {
        TokenType::Fun
    } else if same_chars(word, "if") {
        TokenType::If
    } else if same_chars(word, "nil") {
        TokenType::Nil
    } else if same_chars(word, "or") {
        TokenType::Or
    } else if same_chars(word, "print") {
        TokenType::Print
    } else if same_chars(word, "return") {
        TokenType::Return
    } else if same_chars(word, "super") {
        TokenType::Super
    } else if same_chars(word, "this") {
        TokenType::This
    } else if same_chars(word, "true") {
        TokenType::True
    } else if same_chars(word, "var") {
        TokenType::Var
    } else if same_chars(word, "while") {
        TokenType::While
    } else {
        TokenType::Identifier
    }
}

/// Scans a source text into tokens and diagnostics.
pub struct Scanner<'a> {
    pub content: &'a str,
    pub current_line_number: usize,
    pub tokens: Vec<Token>,
    pub errors: Vec<String>,
}

impl<'a> Scanner<'a> {
    pub open spec fn tokens_model(&self) -> Seq<TokenModel> {
        token_models(self.tokens@)
    }

    pub open spec fn errors_model(&self) -> Seq<Seq<char>> {
        self.errors@.map_values(|e: String| e@)
    }

    /// A scanner over `content` that has produced nothing yet.
    pub fn new(content: &'a str) -> (r: Self)
        ensures
            r.content@ == content@,
            r.current_line_number == 0,
            r.tokens@.len() == 0,
            r.errors@.len() == 0,
    {
        Scanner { content, current_line_number: 0, tokens: Vec::new(), errors: Vec::new() }
    }

    /// Scans the whole content: appends its tokens, ending with `Eof`, and
    /// its diagnostics.
    pub fn scan(&mut self)
        ensures
            final(self).content == old(self).content,
            final(self).tokens_model() == old(self).tokens_model() + scan_source(
                old(self).content@,
            ).0,
            final(self).errors_model() == old(self).errors_model() + scan_source(
                old(self).content@,
            ).1,
    {
        let chars = crate::text::chars_of(self.content);
        let ghost s = chars@;
        let mut i: usize = 0;
        let mut n: usize = 1;
        while i < chars.len()
            invariant
                s == chars@,
                s == self.content@,
                self.content == old(self).content,
                i <= chars.len(),
                1 <= n <= i + 1,
                self.tokens_model() + scan_lines_from(s, i as int, n as nat).0 == old(
                    self,
                ).tokens_model() + scan_lines_from(s, 0, 1).0,
                self.errors_model() + scan_lines_from(s, i as int, n as nat).1 == old(
                    self,
                ).errors_model() + scan_lines_from(s, 0, 1).1,
            decreases chars.len() - i,
        {
            let ghost before_t = self.tokens_model();
            let ghost before_e = self.errors_model();
            let e = find_char_at(&chars, i, '\n');
            let stop = if e < chars.len() && i < e && chars[e - 1] == '\r' {
                e - 1
            } else {
                e
            };
            let line = vec_of(&chars, i, stop);
            assert(line@ == line_at(s, i as int));
            self.scan_line(n, &line);
            let ghost first = scan_line_from(line@, n as nat, 0);
            if e < chars.len() && e + 1 < chars.len() {
                proof {
                    let rest = scan_lines_from(s, e + 1, (n + 1) as nat);
                    assert(before_t + scan_lines_from(s, i as int, n as nat).0 =~= self.tokens_model()
                        + rest.0);
                    assert(before_e + scan_lines_from(s, i as int, n as nat).1 =~= self.errors_model()
                        + rest.1);
                }
                i = e + 1;
                n = n + 1;
            } else {
                proof {
                    let rest = scan_lines_from(s, chars.len() as int, n as nat);
                    if e < chars.len() {
                        assert(scan_lines_from(s, e + 1, (n + 1) as nat).0.len() == 0);
                    }
                    assert(before_t + scan_lines_from(s, i as int, n as nat).0 =~= self.tokens_model()
                        + rest.0);
                    assert(before_e + scan_lines_from(s, i as int, n as nat).1 =~= self.errors_model()
                        + rest.1);
                }
                i = chars.len();
            }
        }
        assert(self.tokens_model() =~= self.tokens_model() + scan_lines_from(s, i as int, n as nat).0);
        assert(self.errors_model() =~= self.errors_model() + scan_lines_from(s, i as int, n as nat).1);
        self.emit_token(TokenType::Eof, String::new());
        assert(self.tokens_model() =~= old(self).tokens_model() + scan_source(s).0);
    }

    /// Scans one line, numbered `line_number`.
    fn scan_line(&mut self, line_number: usize, line: &Vec<char>)
        ensures
            final(self).content == old(self).content,
            final(self).current_line_number == line_number,
            final(self).tokens_model() == old(self).tokens_model() + scan_line_from(
                line@,
                line_number as nat,
                0,
            ).0,
            final(self).errors_model() == old(self).errors_model() + scan_line_from(
                line@,
                line_number as nat,
                0,
            ).1,
    {
        self.current_line_number = line_number;
        let ghost n = line_number as nat;
        let mut i: usize = 0;
        assert(self.tokens_model() == old(self).tokens_model());
        assert(self.errors_model() == old(self).errors_model());
        while i < line.len()
            invariant
                i <= line.len(),
                self.content == old(self).content,
                self.current_line_number == line_number,
                n == line_number as nat,
                self.tokens_model() + scan_line_from(line@, n, i as int).0 == old(self).tokens_model()
                    + scan_line_from(line@, n, 0).0,
                self.errors_model() + scan_line_from(line@, n, i as int).1 == old(self).errors_model()
                    + scan_line_from(line@, n, 0).1,
            decreases line.len() - i,
        {
            let ghost before_t = self.tokens_model();
            let ghost before_e = self.errors_model();
            let end = self.match_char(line, i);
            assert(before_t + scan_line_from(line@, n, i as int).0 =~= self.tokens_model()
                + scan_line_from(line@, n, end as int).0);
            assert(before_e + scan_line_from(line@, n, i as int).1 =~= self.errors_model()
                + scan_line_from(line@, n, end as int).1);
            i = end;
        }
        assert(self.tokens_model() =~= self.tokens_model() + scan_line_from(line@, n, i as int).0);
        assert(self.errors_model() =~= self.errors_model() + scan_line_from(line@, n, i as int).1);
    }

    fn emit_token(&mut self, token_type: TokenType, lexeme: String)
        ensures
            final(self).content == old(self).content,
            final(self).current_line_number == old(self).current_line_number,
            final(self).errors == old(self).errors,
            final(self).tokens_model() == old(self).tokens_model() + seq![
                TokenModel { kind: token_type.model(), lexeme: lexeme@ },
            ],
    {
        let ghost m = TokenModel { kind: token_type.model(), lexeme: lexeme@ };
        self.tokens.push(Token { token_type, lexeme });
        assert(self.tokens_model() =~= old(self).tokens_model() + seq![m]);
    }

    /// Records `description` as a diagnostic of the current line.
    fn add_error(&mut self, description: &str)
        ensures
            final(self).content == old(self).content,
            final(self).current_line_number == old(self).current_line_number,
            final(self).tokens == old(self).tokens,
            final(self).errors_model() == old(self).errors_model() + seq![
                diagnostic(old(self).current_line_number as nat, description@),
            ],
    {
        let mut m = String::new();
        push_str(&mut m, "[line ");
        push_decimal(&mut m, self.current_line_number);
        push_str(&mut m, "] Error: ");
        push_str(&mut m, description);
        assert(m@ =~= diagnostic(self.current_line_number as nat, description@));
        let ghost d = m@;
        self.errors.push(m);
        assert(self.errors_model() =~= old(self).errors_model() + seq![d]);
    }

    /// Scans what starts at position `i` of `line`: a token, skipped text or
    /// an error; returns the position where the next scan starts.
    fn match_char(&mut self, line: &Vec<char>, i: usize) -> (end: usize)
        requires
            i < line.len(),
        ensures
            end == lex_step(line@, i as int).end,
            i < end <= line.len(),
            final(self).content == old(self).content,
            final(self).current_line_number == old(self).current_line_number,
            final(self).tokens_model() == old(self).tokens_model() + option_seq(
                lex_step(line@, i as int).token,
            ),
            final(self).errors_model() == old(self).errors_model() + diagnostics_of(
                old(self).current_line_number as nat,
                lex_step(line@, i as int).error,
            ),
    {
        let c = line[i];
        let mut end = i + 1;
        if c == ' ' || c == '\t' {
        } else if c == '/' {
            if i + 1 < line.len() && line[i + 1] == '/' {
                end = line.len();
            } else {
                self.emit_token(TokenType::Slash, string_of(line, i, i + 1));
            }
        } else {
            match single_char_kind(c) {
                Some(k) => {
                    self.emit_token(k, string_of(line, i, i + 1));
                },
                None => {
                    if c == '!' || c == '=' || c == '<' || c == '>' {
                        end = self.match_double_char(line, i);
                    } else if is_digit_char(c) {
                        end = self.match_number(line, i);
                    } else if c == '"' {
                        end = self.match_string(line, i);
                    } else if is_alpha_char(c) {
                        let j = ident_end_at(line, i + 1);
                        let word = vec_of(line, i, j);
                        self.emit_token(match_reserved(&word), string_of(line, i, j));
                        end = j;
                    } else {
                        let mut d = String::new();
                        push_str(&mut d, "Unexpected character: ");
                        push_char(&mut d, c);
                        push_char(&mut d, '.');
                        assert(d@ =~= unexpected_message(c));
                        self.add_error(d.as_str());
                    }
                },
            }
        }
        assert(self.tokens_model() =~= old(self).tokens_model() + option_seq(
            lex_step(line@, i as int).token,
        ));
        assert(self.errors_model() =~= old(self).errors_model() + diagnostics_of(
            old(self).current_line_number as nat,
            lex_step(line@, i as int).error,
        ));
        end
    }

    /// Scans `!`, `=`, `<` or `>` at position `i`, with a following `=` if
    /// there is one.
    fn match_double_char(&mut self, line: &Vec<char>, i: usize) -> (end: usize)
        requires
            i < line.len(),
            operator_kinds(line@[i as int]) is Some,
        ensures
            end == lex_step(line@, i as int).end,
            i < end <= line.len(),
            final(self).content == old(self).content,
            final(self).current_line_number == old(self).current_line_number,
            final(self).errors == old(self).errors,
            final(self).tokens_model() == old(self).tokens_model() + option_seq(
                lex_step(line@, i as int).token,
            ),
    {
        let c = line[i];
        let (short, long) = if c == '!' {
            (TokenType::Bang, TokenType::BangEqual)
        } else if c == '=' {
            (TokenType::Equal, TokenType::EqualEqual)
        } else if c == '<' {
            (TokenType::Less, TokenType::LessEqual)
        } else {
            (TokenType::Greater, TokenType::GreaterEqual)
        };
        if i + 1 < line.len() && line[i + 1] == '=' {
            self.emit_token(long, string_of(line, i, i + 2));
            i + 2
        } else {
            self.emit_token(short, string_of(line, i, i + 1));
            i + 1
        }
    }

    /// Scans the number literal that starts at position `i`.
    fn match_number(&mut self, line: &Vec<char>, i: usize) -> (end: usize)
        requires
            i < line.len(),
            is_digit(line@[i as int]),
        ensures
            end == number_step(line@, i as int).end,
            i < end <= line.len(),
            final(self).content == old(self).content,
            final(self).current_line_number == old(self).current_line_number,
            final(self).errors == old(self).errors,
            final(self).tokens_model() == old(self).tokens_model() + option_seq(
                number_step(line@, i as int).token,
            ),
    {
        let j = digits_end_at(line, i + 1);
        if j < line.len() && line[j] == '.' && j + 1 < line.len() && is_digit_char(line[j + 1]) {
            let k = digits_end_at(line, j + 2);
            let d = number_at(line, i, j, j + 1, k);
            self.emit_token(TokenType::Number(d), string_of(line, i, k));
            k
        } else {
            let d = number_at(line, i, j, j, j);
            assert(line@.subrange(j as int, j as int) =~= Seq::<char>::empty());
            self.emit_token(TokenType::Number(d), string_of(line, i, j));
            j
        }
    }

    /// Scans the string literal whose opening quote is at position `i`.
    fn match_string(&mut self, line: &Vec<char>, i: usize) -> (end: usize)
        requires
            i < line.len(),
            line@[i as int] == '"',
        ensures
            end == string_step(line@, i as int).end,
            i < end <= line.len(),
            final(self).content == old(self).content,
            final(self).current_line_number == old(self).current_line_number,
            final(self).tokens_model() == old(self).tokens_model() + option_seq(
                string_step(line@, i as int).token,
            ),
            final(self).errors_model() == old(self).errors_model() + diagnostics_of(
                old(self).current_line_number as nat,
                string_step(line@, i as int).error,
            ),
    {
        let q = find_char_at(line, i + 1, '"');
        if q < line.len() {
            self.emit_token(TokenType::String(string_of(line, i + 1, q)), string_of(line, i, q + 1));
            assert(self.errors_model() =~= old(self).errors_model() + diagnostics_of(
                old(self).current_line_number as nat,
                string_step(line@, i as int).error,
            ));
            q + 1
        } else {
            self.add_error("Unterminated string.");
            assert(self.tokens_model() =~= old(self).tokens_model() + option_seq(
                string_step(line@, i as int).token,
            ));
            line.len()
        }
    }

    /// Appends the rendering of each token, one per line.
    pub fn write_tokens(&self, out: &mut String)
        ensures
            final(out)@ == old(out)@ + lines_text(self.tokens_model().map_values(|t: TokenModel| render_token(t))),
    {
        let ghost ls = self.tokens_model().map_values(|t: TokenModel| render_token(t));
        let mut i: usize = 0;
        while i < self.tokens.len()
            invariant
                i <= self.tokens.len() == ls.len(),
                ls == self.tokens_model().map_values(|t: TokenModel| render_token(t)),
                out@ == old(out)@ + lines_text(ls.take(i as int)),
            decreases self.tokens.len() - i,
        {
            let r = self.tokens[i].render();
            push_str(out, r.as_str());
            push_char(out, '\n');
            assert(ls.take(i + 1).drop_last() =~= ls.take(i as int));
            assert(out@ =~= old(out)@ + lines_text(ls.take(i + 1)));
            i += 1;
        }
        assert(ls.take(i as int) =~= ls);
    }

    /// Appends each diagnostic, one per line.
    pub fn write_errors(&self, out: &mut String)
        ensures
            final(out)@ == old(out)@ + lines_text(self.errors_model()),
    {
        let ghost ls = self.errors_model();
        let mut i: usize = 0;
        while i < self.errors.len()
            invariant
                i <= self.errors.len() == ls.len(),
                ls == self.errors_model(),
                out@ == old(out)@ + lines_text(ls.take(i as int)),
            decreases self.errors.len() - i,
        {
            push_str(out, self.errors[i].as_str());
            push_char(out, '\n');
            assert(ls.take(i + 1).drop_last() =~= ls.take(i as int));
            assert(out@ =~= old(out)@ + lines_text(ls.take(i + 1)));
            i += 1;
        }
        assert(ls.take(i as int) =~= ls);
    }

    /// `true` when a diagnostic was recorded.
    pub fn has_errors(&self) -> (r: bool)
        ensures
            r == (self.errors@.len() > 0),
    {
        self.errors.len() > 0
    }
}


/// What holds of each token read from a line: it is no end-of-input token,
/// and a number's value is in canonical form.
pub open spec fn well_scanned(t: TokenModel) -> bool {
    &&& !(t.kind is Eof)
    &&& (t.kind is Number ==> t.kind->Number_0.is_canonical())
}

proof fn lemma_digits_end_run(line: Seq<char>, i: int)
    requires
        0 <= i <= line.len(),
    ensures
        i <= digits_end(line, i) <= line.len(),
        forall|k: int| i <= k < digits_end(line, i) ==> is_digit(#[trigger] line[k]),
    decreases line.len() - i,
{
    if i < line.len() && is_digit(line[i]) {
        lemma_digits_end_run(line, i + 1);
    }
}

proof fn lemma_trim_leading_zeros(s: Seq<char>)
    requires
        s.len() > 0,
        forall|k: int| 0 <= k < s.len() ==> is_digit(#[trigger] s[k]),
    ensures
        trim_leading_zeros(s).len() > 0,
        forall|k: int| 0 <= k < trim_leading_zeros(s).len() ==> is_digit(#[trigger] trim_leading_zeros(s)[k]),
        trim_leading_zeros(s).len() > 1 ==> trim_leading_zeros(s)[0] != '0',
    decreases s.len(),
{
    if s.len() > 1 && s[0] == '0' {
        assert forall|k: int| 0 <= k < s.drop_first().len() implies is_digit(#[trigger] s.drop_first()[k]) by {
            assert(s.drop_first()[k] == s[k + 1]);
        }
        lemma_trim_leading_zeros(s.drop_first());
    }
}

proof fn lemma_trim_trailing_zeros(s: Seq<char>)
    requires
        forall|k: int| 0 <= k < s.len() ==> is_digit(#[trigger] s[k]),
    ensures
        forall|k: int| 0 <= k < trim_trailing_zeros(s).len() ==> is_digit(#[trigger] trim_trailing_zeros(s)[k]),
        trim_trailing_zeros(s).len() > 0 ==> trim_trailing_zeros(s).last() != '0',
    decreases s.len(),
{
    if s.len() > 0 && s.last() == '0' {
        assert forall|k: int| 0 <= k < s.drop_last().len() implies is_digit(#[trigger] s.drop_last()[k]) by {
            assert(s.drop_last()[k] == s[k]);
        }
        lemma_trim_trailing_zeros(s.drop_last());
    }
}

proof fn lemma_number_value(whole: Seq<char>, fraction: Seq<char>)
    requires
        whole.len() > 0,
        forall|k: int| 0 <= k < whole.len() ==> is_digit(#[trigger] whole[k]),
        forall|k: int| 0 <= k < fraction.len() ==> is_digit(#[trigger] fraction[k]),
    ensures
        number_value(whole, fraction).is_canonical(),
{
    lemma_trim_leading_zeros(whole);
    lemma_trim_trailing_zeros(fraction);
}

proof fn lemma_step_well_scanned(line: Seq<char>, i: int)
    requires
        0 <= i < line.len(),
    ensures
        lex_step(line, i).token is Some ==> well_scanned(lex_step(line, i).token->0),
{
    let c = line[i];
    if is_digit(c) {
        lemma_digits_end_run(line, i + 1);
        lemma_digits_end_run(line, i);
        let j = digits_end(line, i);
        let whole = line.subrange(i, j);
        assert(forall|k: int| 0 <= k < whole.len() ==> whole[k] == line[i + k]);
        if j + 1 < line.len() && line[j] == '.' && is_digit(line[j + 1]) {
            lemma_digits_end_run(line, j + 1);
            let f = line.subrange(j + 1, digits_end(line, j + 1));
            assert(forall|k: int| 0 <= k < f.len() ==> f[k] == line[j + 1 + k]);
            lemma_number_value(whole, f);
        } else {
            lemma_number_value(whole, seq![]);
        }
    }
}

proof fn lemma_line_well_scanned(line: Seq<char>, n: nat, i: int)
    ensures
        forall|k: int|
            0 <= k < scan_line_from(line, n, i).0.len() ==> well_scanned(
                #[trigger] scan_line_from(line, n, i).0[k],
            ),
    decreases line.len() - i,
{
    if 0 <= i < line.len() {
        let st = lex_step(line, i);
        if i < st.end <= line.len() {
            lemma_step_well_scanned(line, i);
            lemma_line_well_scanned(line, n, st.end);
            let head = option_seq(st.token);
            let rest = scan_line_from(line, n, st.end).0;
            assert forall|k: int| 0 <= k < (head + rest).len() implies well_scanned(
                #[trigger] (head + rest)[k],
            ) by {
                if k >= head.len() {
                    assert((head + rest)[k] == rest[k - head.len()]);
                }
            }
        }
    }
}

proof fn lemma_lines_well_scanned(s: Seq<char>, i: int, n: nat)
    ensures
        forall|k: int|
            0 <= k < scan_lines_from(s, i, n).0.len() ==> well_scanned(
                #[trigger] scan_lines_from(s, i, n).0[k],
            ),
    decreases s.len() - i,
{
    if 0 <= i < s.len() {
        let e = find_char(s, i, '\n');
        let first = scan_line_from(line_at(s, i), n, 0).0;
        lemma_line_well_scanned(line_at(s, i), n, 0);
        if i <= e < s.len() {
            lemma_lines_well_scanned(s, e + 1, n + 1);
            let rest = scan_lines_from(s, e + 1, n + 1).0;
            assert forall|k: int| 0 <= k < (first + rest).len() implies well_scanned(
                #[trigger] (first + rest)[k],
            ) by {
                if k >= first.len() {
                    assert((first + rest)[k] == rest[k - first.len()]);
                } else {
                    assert((first + rest)[k] == first[k]);
                }
            }
        }
    }
}

/// Every token sequence that scanning produces, also that of an empty text,
/// ends with an end-of-input token, and holds no other.
pub proof fn lemma_single_eof(s: Seq<char>)
    ensures
        scan_source(s).0.len() >= 1,
        scan_source(s).0.last().kind is Eof,
        forall|k: int| 0 <= k < scan_source(s).0.len() - 1 ==> !(#[trigger] scan_source(s).0[k].kind is Eof),
{
    lemma_lines_well_scanned(s, 0, 1);
    let r = scan_lines_from(s, 0, 1).0;
    assert forall|k: int| 0 <= k < scan_source(s).0.len() - 1 implies !(#[trigger] scan_source(s).0[k].kind is Eof) by {
        assert(scan_source(s).0[k] == r[k]);
    }
}

proof fn lemma_digits_end_all(d: Seq<char>, i: int)
    requires
        0 <= i <= d.len(),
        forall|k: int| 0 <= k < d.len() ==> is_digit(d[k]),
    ensures
        digits_end(d, i) == d.len(),
    decreases d.len() - i,
{
    if i < d.len() {
        lemma_digits_end_all(d, i + 1);
    }
}

proof fn lemma_find_char_absent(s: Seq<char>, i: int, c: char)
    requires
        0 <= i <= s.len(),
        forall|k: int| i <= k < s.len() ==> s[k] != c,
    ensures
        find_char(s, i, c) == s.len(),
    decreases s.len() - i,
{
    if i < s.len() {
        lemma_find_char_absent(s, i + 1, c);
    }
}

/// A text made of digits alone scans to one number token, whose lexeme is
/// the text and whose value is integral: its canonical text is the digits
/// without leading zeros followed by `.0`. Nothing else is produced but the
/// end-of-input token.
pub proof fn lemma_digits_scan_to_integer(d: Seq<char>)
    requires
        d.len() > 0,
        forall|k: int| 0 <= k < d.len() ==> is_digit(d[k]),
    ensures
        scan_source(d).0 == seq![
            TokenModel {
                kind: TokenKind::Number(DecimalModel { whole: trim_leading_zeros(d), fraction: seq![] }),
                lexeme: d,
            },
            eof_token(),
        ],
        scan_source(d).1 == Seq::<Seq<char>>::empty(),
        crate::token::literal_text(scan_source(d).0[0].kind) == trim_leading_zeros(d) + seq!['.', '0'],
{
    lemma_find_char_absent(d, 0, '\n');
    lemma_digits_end_all(d, 0);
    let line = line_at(d, 0);
    assert(line =~= d);
    let st = lex_step(d, 0);
    assert(trim_trailing_zeros(Seq::<char>::empty()) == Seq::<char>::empty());
    assert(d.subrange(0, d.len() as int) =~= d);
    assert(st.end == d.len());
    let first = scan_line_from(d, 1, 0);
    assert(scan_line_from(d, 1, d.len() as int).0 == Seq::<TokenModel>::empty());
    assert(first.0 =~= seq![st.token->0]);
    assert(first.1 =~= Seq::<Seq<char>>::empty());
    assert(scan_source(d).0 =~= seq![st.token->0, eof_token()]);
}

proof fn lemma_find_char_bounds(s: Seq<char>, i: int, c: char)
    requires
        0 <= i <= s.len(),
    ensures
        i <= find_char(s, i, c) <= s.len(),
    decreases s.len() - i,
{
    if i < s.len() {
        lemma_find_char_bounds(s, i + 1, c);
    }
}

proof fn lemma_find_char_skip(s: Seq<char>, i: int, m: int, c: char)
    requires
        0 <= i <= m <= s.len(),
        forall|k: int| i <= k < m ==> s[k] != c,
    ensures
        find_char(s, i, c) == find_char(s, m, c),
    decreases m - i,
{
    if i < m {
        lemma_find_char_skip(s, i + 1, m, c);
    }
}

proof fn lemma_digits_end_skip(s: Seq<char>, i: int, m: int)
    requires
        0 <= i <= m <= s.len(),
        forall|k: int| i <= k < m ==> is_digit(s[k]),
    ensures
        digits_end(s, i) == digits_end(s, m),
    decreases m - i,
{
    if i < m {
        lemma_digits_end_skip(s, i + 1, m);
    }
}

/// A text that starts with a run of digits `d`, followed by neither another
/// digit nor a `.` and a digit, starts with a number token whose lexeme is
/// `d` and whose value is integral: the digits without leading zeros.
pub proof fn lemma_digits_scan_to_integer_token(d: Seq<char>, rest: Seq<char>)
    requires
        d.len() > 0,
        forall|k: int| 0 <= k < d.len() ==> is_digit(d[k]),
        rest.len() > 0 ==> !is_digit(rest[0]),
        rest.len() > 1 && rest[0] == '.' ==> !is_digit(rest[1]),
    ensures
        scan_source(d + rest).0[0] == (TokenModel {
            kind: TokenKind::Number(DecimalModel { whole: trim_leading_zeros(d), fraction: seq![] }),
            lexeme: d,
        }),
{
    let s = d + rest;
    let n = d.len() as int;
    lemma_find_char_skip(s, 0, n, '\n');
    lemma_find_char_bounds(s, n, '\n');
    let e = find_char(s, 0, '\n');
    let line = line_at(s, 0);
    assert(n <= line.len());
    assert(forall|k: int| 0 <= k < line.len() ==> line[k] == s[k]);
    assert(line.subrange(0, n) =~= d);
    lemma_digits_end_skip(line, 0, n);
    assert(digits_end(line, n) == n);
    assert(digits_end(line, 0) == n);
    let st = lex_step(line, 0);
    assert(trim_trailing_zeros(Seq::<char>::empty()) == Seq::<char>::empty());
    assert(st.end == n);
    assert(st.token == Some(
        TokenModel {
            kind: TokenKind::Number(DecimalModel { whole: trim_leading_zeros(d), fraction: seq![] }),
            lexeme: d,
        },
    ));
    let first = scan_line_from(line, 1, 0);
    assert(first.0[0] == st.token->0);
    assert(scan_lines_from(s, 0, 1).0[0] == first.0[0]);
}

/// The value of every number token that scanning produces is in canonical
/// form.
pub proof fn lemma_numbers_canonical(s: Seq<char>)
    ensures
        forall|k: int|
            0 <= k < scan_source(s).0.len() && (#[trigger] scan_source(s).0[k]).kind is Number
                ==> scan_source(s).0[k].kind->Number_0.is_canonical(),
{
    lemma_lines_well_scanned(s, 0, 1);
    let r = scan_lines_from(s, 0, 1).0;
    assert forall|k: int|
        0 <= k < scan_source(s).0.len() && (#[trigger] scan_source(s).0[k]).kind is Number implies scan_source(
        s,
    ).0[k].kind->Number_0.is_canonical() by {
        if k < r.len() {
            assert(scan_source(s).0[k] == r[k]);
        }
    }
}

/// Scanning is a function of the text alone: two scans of equal texts give
/// identical tokens and diagnostics, and so identical renderings.
pub proof fn lemma_scan_deterministic(a: Seq<char>, b: Seq<char>)
    requires
        a == b,
    ensures
        scan_source(a) == scan_source(b),
        scan_source(a).0.map_values(|t: TokenModel| render_token(t)) == scan_source(b).0.map_values(
            |t: TokenModel| render_token(t),
        ),
{
}

} // verus!
