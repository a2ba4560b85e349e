use vstd::prelude::*;
use crate::text::{lines_text, option_seq, push_char, push_str};
use crate::token::{
    decimal_text, push_decimal_text, token_models, Decimal, DecimalModel, Token, TokenKind,
    TokenModel, TokenType,
};

verus! {

/// An expression: a literal, or a parenthesised expression.
pub enum Expression {
    Bool(bool),
    String(String),
    Number(Decimal),
    Nil,
    Grouping(Box<Expression>),
}

/// The mathematical model of an expression.
pub enum ExprModel {
    Bool(bool),
    String(Seq<char>),
    Number(DecimalModel),
    Nil,
    Grouping(Box<ExprModel>),
}

/// The rendering of an expression: a literal as its value, a grouping as
/// `(group ...)` around its inner expression.
pub open spec fn render_expr(e: ExprModel) -> Seq<char>
    decreases e,
{
    match e {
        ExprModel::Bool(b) => if b {
            "true"@
        } else {
            "false"@
        },
        ExprModel::String(s) => s,
        ExprModel::Number(d) => decimal_text(d),
        ExprModel::Nil => "nil"@,
        ExprModel::Grouping(inner) => "(group "@ + render_expr(*inner) + ")"@,
    }
}

impl Expression {
    pub open spec fn model(&self) -> ExprModel
        decreases self,
    {
        match self {
            Expression::Bool(b) => ExprModel::Bool(*b),
            Expression::String(s) => ExprModel::String(s@),
            Expression::Number(d) => ExprModel::Number(d.model()),
            Expression::Nil => ExprModel::Nil,
            Expression::Grouping(inner) => ExprModel::Grouping(Box::new(inner.model())),
        }
    }

    /// The line under which this expression is written out.
    pub fn render(&self) -> (r: String)
        ensures
            r@ == render_expr(self.model()),
        decreases self,
    {
        let mut r = String::new();
        match self {
            Expression::Bool(b) => {
                if *b {
                    push_str(&mut r, "true");
                } else {
                    push_str(&mut r, "false");
                }
            },
            Expression::String(s) => {
                push_str(&mut r, s.as_str());
            },
            Expression::Number(d) => {
                push_decimal_text(&mut r, d);
            },
            Expression::Nil => {
                push_str(&mut r, "nil");
            },
            Expression::Grouping(inner) => {
                push_str(&mut r, "(group ");
                let s = inner.render();
                push_str(&mut r, s.as_str());
                push_str(&mut r, ")");
            },
        }
        assert(r@ =~= render_expr(self.model()));
        r
    }
}

pub open spec fn option_model(o: Option<Expression>) -> Option<ExprModel> {
    match o {
        Some(e) => Some(e.model()),
        None => None,
    }
}

pub open spec fn result_model(r: Result<Expression, String>) -> Result<ExprModel, Seq<char>> {
    match r {
        Ok(e) => Ok(e.model()),
        Err(m) => Err(m@),
    }
}

/// The expression of a literal token, if it is one.
pub open spec fn literal_of(k: TokenKind) -> Option<ExprModel> {
    match k {
        TokenKind::False => Some(ExprModel::Bool(false)),
        TokenKind::True => Some(ExprModel::Bool(true)),
        TokenKind::Nil => Some(ExprModel::Nil),
        TokenKind::Number(d) => Some(ExprModel::Number(d)),
        TokenKind::String(s) => Some(ExprModel::String(s)),
        _ => None,
    }
}

pub open spec fn empty_group_message() -> Seq<char> {
    "Error: Empty group"@
}

pub open spec fn unmatched_message() -> Seq<char> {
    "Error: Unmatched parentheses."@
}

/// The group whose `(` is at `i`: its expression or error, and the position
/// after it.
pub open spec fn group_at(toks: Seq<TokenModel>, i: int) -> (Result<ExprModel, Seq<char>>, int)
    decreases toks.len() - i, 0int,
{
    if 0 <= i < toks.len() {
        group_body(toks, i + 1, None)
    } else {
        (Err(unmatched_message()), i)
    }
}

/// The rest of a group from position `j`, where `last` is the item most
/// recently read directly inside it.
pub open spec fn group_body(toks: Seq<TokenModel>, j: int, last: Option<ExprModel>) -> (
    Result<ExprModel, Seq<char>>,
    int,
)
    decreases toks.len() - j, 1int,
{
    if 0 <= j < toks.len() {
        match toks[j].kind {
            TokenKind::LeftParen => {
                let (r, k) = group_at(toks, j);
                match r {
                    Ok(g) => if j < k <= toks.len() {
                        group_body(toks, k, Some(g))
                    } else {
                        (Err(unmatched_message()), k)
                    },
                    Err(m) => (Err(m), k),
                }
            },
            TokenKind::RightParen => match last {
                Some(e) => (Ok(ExprModel::Grouping(Box::new(e))), j + 1),
                None => (Err(empty_group_message()), j + 1),
            },
            _ => group_body(toks, j + 1, literal_of(toks[j].kind)),
        }
    } else {
        (Err(unmatched_message()), j)
    }
}

/// The expressions and diagnostics of the items from position `i` on.
pub open spec fn parse_from(toks: Seq<TokenModel>, i: int) -> (Seq<ExprModel>, Seq<Seq<char>>)
    decreases toks.len() - i,
{
    if 0 <= i < toks.len() {
        if toks[i].kind is LeftParen {
            let (r, k) = group_at(toks, i);
            if i < k <= toks.len() {
                let rest = parse_from(toks, k);
                match r {
                    Ok(e) => (seq![e] + rest.0, rest.1),
                    Err(m) => (rest.0, seq![m] + rest.1),
                }
            } else {
                (seq![], seq![])
            }
        } else {
            let rest = parse_from(toks, i + 1);
            (option_seq(literal_of(toks[i].kind)) + rest.0, rest.1)
        }
    } else {
        (seq![], seq![])
    }
}

/// The expressions and diagnostics of a token sequence.
pub open spec fn parse_tokens(toks: Seq<TokenModel>) -> (Seq<ExprModel>, Seq<Seq<char>>) {
    parse_from(toks, 0)
}

/// Parses tokens into expressions and diagnostics.
pub struct Parser {
    pub expressions: Vec<Expression>,
    pub errors: Vec<String>,
}

impl Parser {
    pub open spec fn expressions_model(&self) -> Seq<ExprModel> {
        self.expressions@.map_values(|e: Expression| e.model())
    }

    pub open spec fn errors_model(&self) -> Seq<Seq<char>> {
        self.errors@.map_values(|e: String| e@)
    }

    /// A parser that has produced nothing yet.
    pub fn new() -> (r: Self)
        ensures
            r.expressions@.len() == 0,
            r.errors@.len() == 0,
    {
        Parser { expressions: Vec::new(), errors: Vec::new() }
    }

    /// Reads the token at `*pos` as a literal, if it is one.
    fn match_token(&self, tokens: &Vec<Token>, pos: &mut usize) -> (r: Option<Expression>)
        requires
            *old(pos) < tokens.len(),
        ensures
            *final(pos) == *old(pos) + 1,
            option_model(r) == literal_of(tokens@[*old(pos) as int].model().kind),
    {
        let t = &tokens[*pos];
        *pos = *pos + 1;
        match &t.token_type {
            TokenType::False => Some(Expression::Bool(false)),
            TokenType::True => Some(Expression::Bool(true)),
            TokenType::Nil => Some(Expression::Nil),
            TokenType::Number(d) => Some(Expression::Number(d.copied())),
            TokenType::String(s) => Some(Expression::String(s.clone())),
            _ => None,
        }
    }

    /// Reads the group whose `(` is at `*pos`.
    fn match_group(&self, tokens: &Vec<Token>, pos: &mut usize) -> (r: Result<Expression, String>)
        requires
            *old(pos) < tokens.len(),
            tokens@[*old(pos) as int].model().kind is LeftParen,
        ensures
            result_model(r) == group_at(token_models(tokens@), *old(pos) as int).0,
            *final(pos) == group_at(token_models(tokens@), *old(pos) as int).1,
            *old(pos) < *final(pos) <= tokens.len(),
        decreases tokens.len() - *old(pos),
    {
        let ghost toks = token_models(tokens@);
        let ghost start = *pos as int;
        *pos = *pos + 1;
        let mut expression: Option<Expression> = None;
        while *pos < tokens.len()
            invariant
                toks == token_models(tokens@),
                start == *old(pos),
                start < *pos <= tokens.len(),
                group_body(toks, *pos as int, option_model(expression)) == group_at(toks, start),
            decreases tokens.len() - *pos,
        {
            let ghost at = *pos as int;
            match &tokens[*pos].token_type {
                TokenType::LeftParen => {
                    match self.match_group(tokens, pos) {
                        Ok(g) => {
                            expression = Some(g);
                        },
                        Err(m) => {
                            return Err(m);
                        },
                    }
                },
                TokenType::RightParen => {
                    *pos = *pos + 1;
                    match expression {
                        None => {
                            let mut m = String::new();
                            push_str(&mut m, "Error: Empty group");
                            return Err(m);
                        },
                        Some(e) => {
                            return Ok(Expression::Grouping(Box::new(e)));
                        },
                    }
                },
                _ => {
                    expression = self.match_token(tokens, pos);
                },
            }
        }
        let mut m = String::new();
        push_str(&mut m, "Error: Unmatched parentheses.");
        Err(m)
    }

    /// Parses the whole token sequence: appends the expression of each item
    /// that is a literal or a well-formed group, and a diagnostic for each
    /// group that is empty or unmatched.
    pub fn parse_peekable(&mut self, tokens: &Vec<Token>)
        ensures
            final(self).expressions_model() == old(self).expressions_model() + parse_tokens(
                token_models(tokens@),
            ).0,
            final(self).errors_model() == old(self).errors_model() + parse_tokens(
                token_models(tokens@),
            ).1,
    {
        let ghost toks = token_models(tokens@);
        let mut pos: usize = 0;
        while pos < tokens.len()
            invariant
                toks == token_models(tokens@),
                pos <= tokens.len(),
                self.expressions_model() + parse_from(toks, pos as int).0 == old(
                    self,
                ).expressions_model() + parse_from(toks, 0).0,
                self.errors_model() + parse_from(toks, pos as int).1 == old(self).errors_model()
                    + parse_from(toks, 0).1,
            decreases tokens.len() - pos,
        {
            let ghost at = pos as int;
            let ghost before_x = self.expressions_model();
            let ghost before_e = self.errors_model();
            match &tokens[pos].token_type {
                TokenType::LeftParen => {
                    match self.match_group(tokens, &mut pos) {
                        Ok(group) => {
                            self.expressions.push(group);
                        },
                        Err(err) => {
                            self.errors.push(err);
                        },
                    }
                },
                _ => {
                    match self.match_token(tokens, &mut pos) {
                        None => {},
                        Some(expression) => {
                            self.expressions.push(expression);
                        },
                    }
                },
            }
            assert(before_x + parse_from(toks, at).0 =~= self.expressions_model() + parse_from(
                toks,
                pos as int,
            ).0);
            assert(before_e + parse_from(toks, at).1 =~= self.errors_model() + parse_from(
                toks,
                pos as int,
            ).1);
        }
        assert(self.expressions_model() =~= self.expressions_model() + parse_from(toks, pos as int).0);
        assert(self.errors_model() =~= self.errors_model() + parse_from(toks, pos as int).1);
    }

    /// Appends the rendering of each expression, one per line.
    pub fn print_expressions(&self, out: &mut String)
        ensures
            final(out)@ == old(out)@ + lines_text(
                self.expressions_model().map_values(|e: ExprModel| render_expr(e)),
            ),
    {
        let ghost ls = self.expressions_model().map_values(|e: ExprModel| render_expr(e));
        let mut i: usize = 0;
        while i < self.expressions.len()
            invariant
                i <= self.expressions.len() == ls.len(),
                ls == self.expressions_model().map_values(|e: ExprModel| render_expr(e)),
                out@ == old(out)@ + lines_text(ls.take(i as int)),
            decreases self.expressions.len() - i,
        {
            let r = self.expressions[i].render();
            push_str(out, r.as_str());
            push_char(out, '\n');
            assert(ls.take(i + 1).drop_last() =~= ls.take(i as int));
            assert(out@ =~= old(out)@ + lines_text(ls.take(i + 1)));
            i += 1;
        }
        assert(ls.take(i as int) =~= ls);
    }
}

} // verus!
