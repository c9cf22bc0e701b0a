//! Breakpoint conditions: their tokens and their syntax trees.
//!
//! A condition such as `x > 5 && y != 0` is split into tokens and parsed by
//! precedence: `||` binds loosest, then `&&`, then `==` and `!=`, then the
//! comparisons; the operands are numbers and variable names. Numbers keep the
//! text they were written with.
use vstd::prelude::*;
use crate::text::{
    is_ascii_alpha, is_ascii_digit, char_is_alphanumeric, is_alphanumeric, str_to_chars,
    string_from_range, push_char, to_owned_string,
};
use crate::error::{IoError, ErrorKind};

verus! {

/// A token of a condition.
#[derive(Debug)]
pub enum ExprToken {
    Number(String),
    Identifier(String),
    Equal,
    NotEqual,
    Less,
    LessEqual,
    Greater,
    GreaterEqual,
    And,
    Or,
    Not,
    Plus,
    Minus,
    Multiply,
    Divide,
    Modulo,
    LeftParen,
    RightParen,
    Dot,
    LeftBrace,
    RightBrace,
}

/// The abstract value of a token: text as characters.
pub enum ExprTokenView {
    Number(Seq<char>),
    Identifier(Seq<char>),
    Equal,
    NotEqual,
    Less,
    LessEqual,
    Greater,
    GreaterEqual,
    And,
    Or,
    Not,
    Plus,
    Minus,
    Multiply,
    Divide,
    Modulo,
    LeftParen,
    RightParen,
    Dot,
    LeftBrace,
    RightBrace,
}

impl View for ExprToken {
    type V = ExprTokenView;

    open spec fn view(&self) -> ExprTokenView {
        match *self {
            ExprToken::Number(s) => ExprTokenView::Number(s@),
            ExprToken::Identifier(s) => ExprTokenView::Identifier(s@),
            ExprToken::Equal => ExprTokenView::Equal,
            ExprToken::NotEqual => ExprTokenView::NotEqual,
            ExprToken::Less => ExprTokenView::Less,
            ExprToken::LessEqual => ExprTokenView::LessEqual,
            ExprToken::Greater => ExprTokenView::Greater,
            ExprToken::GreaterEqual => ExprTokenView::GreaterEqual,
            ExprToken::And => ExprTokenView::And,
            ExprToken::Or => ExprTokenView::Or,
            ExprToken::Not => ExprTokenView::Not,
            ExprToken::Plus => ExprTokenView::Plus,
            ExprToken::Minus => ExprTokenView::Minus,
            ExprToken::Multiply => ExprTokenView::Multiply,
            ExprToken::Divide => ExprTokenView::Divide,
            ExprToken::Modulo => ExprTokenView::Modulo,
            ExprToken::LeftParen => ExprTokenView::LeftParen,
            ExprToken::RightParen => ExprTokenView::RightParen,
            ExprToken::Dot => ExprTokenView::Dot,
            ExprToken::LeftBrace => ExprTokenView::LeftBrace,
            ExprToken::RightBrace => ExprTokenView::RightBrace,
        }
    }
}

/// The views of a sequence of tokens.
pub open spec fn tokens_view(v: Seq<ExprToken>) -> Seq<ExprTokenView> {
    v.map_values(|t: ExprToken| t@)
}

/// The end of the run of digits and dots that starts at `i`.
pub open spec fn number_run_end(s: Seq<char>, i: nat) -> nat
    decreases s.len() - i,
{
    if i < s.len() && (is_ascii_digit(s[i as int]) || s[i as int] == '.') {
        number_run_end(s, i + 1)
    } else {
        i
    }
}

/// The end of the run of alphanumeric characters and underscores that starts at `i`.
pub open spec fn word_run_end(s: Seq<char>, i: nat) -> nat
    decreases s.len() - i,
{
    if i < s.len() && (char_is_alphanumeric(s[i as int]) || s[i as int] == '_') {
        word_run_end(s, i + 1)
    } else {
        i
    }
}

/// The token put before the tokens of the rest, unless the rest failed.
pub open spec fn prepend(t: ExprTokenView, rest: Result<Seq<ExprTokenView>, char>) -> Result<Seq<ExprTokenView>, char> {
    match rest {
        Ok(v) => Ok(seq![t] + v),
        Err(c) => Err(c),
    }
}

/// Whether the character at `i` is `c`.
pub open spec fn char_at_is(s: Seq<char>, i: nat, c: char) -> bool {
    i < s.len() && s[i as int] == c
}

/// The tokens of a condition from character `i` on, or the first character that
/// no token starts with. A lone `=`, `&` or `|` is dropped; white space separates
/// tokens.
pub open spec fn tokens_from(s: Seq<char>, i: nat) -> Result<Seq<ExprTokenView>, char>
    decreases s.len() - i, 1nat,
{
    if i >= s.len() {
        Ok(Seq::empty())
    } else {
        let c = s[i as int];
        if is_ascii_digit(c) {
            let j = number_run_end(s, i);
            proof {
                lemma_number_run(s, i);
            }
            prepend(ExprTokenView::Number(s.subrange(i as int, j as int)), tokens_from(s, j))
        } else if is_ascii_alpha(c) || c == '_' {
            let j = word_run_end(s, i + 1);
            proof {
                lemma_word_run(s, i + 1);
            }
            prepend(ExprTokenView::Identifier(s.subrange(i as int, j as int)), tokens_from(s, j))
        } else if c == '=' {
            if char_at_is(s, i + 1, '=') {
                prepend(ExprTokenView::Equal, tokens_from(s, i + 2))
            } else {
                tokens_from(s, i + 1)
            }
        } else if c == '<' {
            if char_at_is(s, i + 1, '=') {
                prepend(ExprTokenView::LessEqual, tokens_from(s, i + 2))
            } else {
                prepend(ExprTokenView::Less, tokens_from(s, i + 1))
            }
        } else if c == '>' {
            if char_at_is(s, i + 1, '=') {
                prepend(ExprTokenView::GreaterEqual, tokens_from(s, i + 2))
            } else {
                prepend(ExprTokenView::Greater, tokens_from(s, i + 1))
            }
        } else if c == '!' {
            if char_at_is(s, i + 1, '=') {
                prepend(ExprTokenView::NotEqual, tokens_from(s, i + 2))
            } else {
                prepend(ExprTokenView::Not, tokens_from(s, i + 1))
            }
        } else if c == '&' {
            if char_at_is(s, i + 1, '&') {
                prepend(ExprTokenView::And, tokens_from(s, i + 2))
            } else {
                tokens_from(s, i + 1)
            }
        } else if c == '|' {
            if char_at_is(s, i + 1, '|') {
                prepend(ExprTokenView::Or, tokens_from(s, i + 2))
            } else {
                tokens_from(s, i + 1)
            }
        } else if c == ' ' || c == '\t' || c == '\n' || c == '\r' {
            tokens_from(s, i + 1)
        } else {
            Err(c)
        }
    }
}

/// The run of digits and dots starting at a digit is not empty.
pub proof fn lemma_number_run(s: Seq<char>, i: nat)
    ensures
        i <= s.len() ==> i <= number_run_end(s, i) <= s.len(),
        i < s.len() && is_ascii_digit(s[i as int]) ==> i < number_run_end(s, i),
        forall|k: int| i <= k < number_run_end(s, i) ==> is_ascii_digit(s[k]) || s[k] == '.',
        number_run_end(s, i) < s.len() ==> !(is_ascii_digit(s[number_run_end(s, i) as int])
            || s[number_run_end(s, i) as int] == '.'),
    decreases s.len() - i,
{
    if i < s.len() && (is_ascii_digit(s[i as int]) || s[i as int] == '.') {
        lemma_number_run(s, i + 1);
    }
}

/// Where a run of word characters ends.
pub proof fn lemma_word_run(s: Seq<char>, i: nat)
    ensures
        i <= s.len() ==> i <= word_run_end(s, i) <= s.len(),
        forall|k: int| i <= k < word_run_end(s, i) ==> char_is_alphanumeric(s[k]) || s[k] == '_',
        word_run_end(s, i) < s.len() ==> !(char_is_alphanumeric(s[word_run_end(s, i) as int])
            || s[word_run_end(s, i) as int] == '_'),
    decreases s.len() - i,
{
    if i < s.len() && (char_is_alphanumeric(s[i as int]) || s[i as int] == '_') {
        lemma_word_run(s, i + 1);
    }
}

/// Extends a token list whose tail is still to be read.
pub open spec fn with_prefix(done: Seq<ExprTokenView>, rest: Result<Seq<ExprTokenView>, char>) -> Result<Seq<ExprTokenView>, char> {
    match rest {
        Ok(v) => Ok(done + v),
        Err(c) => Err(c),
    }
}

proof fn lemma_with_prefix_push(done: Seq<ExprTokenView>, t: ExprTokenView, rest: Result<Seq<ExprTokenView>, char>)
    ensures
        with_prefix(done, prepend(t, rest)) == with_prefix(done.push(t), rest),
{
    match rest {
        Ok(v) => {
            assert(done + (seq![t] + v) =~= done.push(t) + v);
        },
        Err(_) => {},
    }
}

/// The message for a character that no token starts with.
pub open spec fn invalid_character_message(c: char) -> Seq<char> {
    "Invalid character in expression: "@ + seq![c]
}

/// Splits a condition into tokens; fails on the first character that no token
/// starts with.
pub fn tokenize_expression(expr: &str) -> (r: Result<Vec<ExprToken>, IoError>)
    ensures
        match tokens_from(expr@, 0) {
            Ok(v) => r matches Ok(t) && tokens_view(t@) == v,
            Err(c) => r matches Err(e) && e.spec_kind() == ErrorKind::RuntimeError
                && e.spec_message() == invalid_character_message(c),
        },
{
    let chars = str_to_chars(expr);
    let ghost s = expr@;
    let n = chars.len();
    let mut tokens: Vec<ExprToken> = Vec::new();
    let mut i: usize = 0;
    while i < n
        invariant
            chars@ == s,
            s == expr@,
            n == s.len(),
            i <= n,
            tokens_from(s, 0) == with_prefix(tokens_view(tokens@), tokens_from(s, i as nat)),
        decreases n - i,
    {
        let c = chars[i];
        let ghost before = tokens_view(tokens@);
        if '0' <= c && c <= '9' {
            let mut j: usize = i;
            while j < n && (('0' <= chars[j] && chars[j] <= '9') || chars[j] == '.')
                invariant
                    chars@ == s,
                    n == s.len(),
                    i <= j <= n,
                    number_run_end(s, i as nat) == number_run_end(s, j as nat),
                decreases n - j,
            {
                j = j + 1;
            }
            proof {
                lemma_number_run(s, i as nat);
            }
            let text = string_from_range(&chars, i, j);
            proof {
                lemma_with_prefix_push(before, ExprTokenView::Number(s.subrange(i as int, j as int)), tokens_from(s, j as nat));
            }
            tokens.push(ExprToken::Number(text));
            proof {
                assert(tokens_view(tokens@) =~= before.push(ExprTokenView::Number(s.subrange(i as int, j as int))));
            }
            i = j;
        } else if ('a' <= c && c <= 'z') || ('A' <= c && c <= 'Z') || c == '_' {
            let mut j: usize = i + 1;
            while j < n && (is_alphanumeric(chars[j]) || chars[j] == '_')
                invariant
                    chars@ == s,
                    n == s.len(),
                    i < j <= n,
                    word_run_end(s, (i + 1) as nat) == word_run_end(s, j as nat),
                decreases n - j,
            {
                j = j + 1;
            }
            proof {
                lemma_word_run(s, (i + 1) as nat);
            }
            let text = string_from_range(&chars, i, j);
            proof {
                lemma_with_prefix_push(before, ExprTokenView::Identifier(s.subrange(i as int, j as int)), tokens_from(s, j as nat));
            }
            tokens.push(ExprToken::Identifier(text));
            proof {
                assert(tokens_view(tokens@) =~= before.push(ExprTokenView::Identifier(s.subrange(i as int, j as int))));
            }
            i = j;
        } else if c == '=' || c == '<' || c == '>' || c == '!' || c == '&' || c == '|' {
            let next_is_eq = i + 1 < n && chars[i + 1] == '=';
            let next_is_same = i + 1 < n && chars[i + 1] == c;
            let tok: Option<ExprToken> = if c == '=' {
                if next_is_eq { Some(ExprToken::Equal) } else { None }
            } else if c == '<' {
                if next_is_eq { Some(ExprToken::LessEqual) } else { Some(ExprToken::Less) }
            } else if c == '>' {
                if next_is_eq { Some(ExprToken::GreaterEqual) } else { Some(ExprToken::Greater) }
            } else if c == '!' {
                if next_is_eq { Some(ExprToken::NotEqual) } else { Some(ExprToken::Not) }
            } else if c == '&' {
                if next_is_same { Some(ExprToken::And) } else { None }
            } else {
                if next_is_same { Some(ExprToken::Or) } else { None }
            };
            let two = if c == '&' || c == '|' { next_is_same } else { next_is_eq };
            let next: usize = if two { i + 2 } else { i + 1 };
            match tok {
                Some(t) => {
                    proof {
                        lemma_with_prefix_push(before, t@, tokens_from(s, next as nat));
                    }
                    let ghost tv = t@;
                    tokens.push(t);
                    proof {
                        assert(tokens_view(tokens@) =~= before.push(tv));
                    }
                },
                None => {},
            }
            i = next;
        } else if c == ' ' || c == '\t' || c == '\n' || c == '\r' {
            i = i + 1;
        } else {
            let mut m = to_owned_string("Invalid character in expression: ");
            push_char(&mut m, c);
            return Err(IoError::runtime_error(m.as_str()));
        }
    }
    proof {
        assert(tokens_view(tokens@) + Seq::<ExprTokenView>::empty() =~= tokens_view(tokens@));
    }
    Ok(tokens)
}

/// A binary operator of a condition.
#[derive(Debug, Clone, Copy, PartialEq, Eq, Structural)]
pub enum BinaryOp {
    Equal,
    NotEqual,
    Less,
    LessEqual,
    Greater,
    GreaterEqual,
    And,
    Or,
    Add,
    Subtract,
    Multiply,
    Divide,
    Modulo,
    Member,
    Index,
}

/// A unary operator of a condition.
#[derive(Debug, Clone, Copy, PartialEq, Eq, Structural)]
pub enum UnaryOp {
    Not,
}

/// The syntax tree of a condition. A literal keeps the number as written.
#[derive(Debug)]
#[allow(inconsistent_fields)]
pub enum Expression {
    Binary { left: Box<Expression>, op: BinaryOp, right: Box<Expression> },
    Unary { op: UnaryOp, expr: Box<Expression> },
    Variable(String),
    Literal(String),
}

/// The abstract value of a syntax tree.
#[allow(inconsistent_fields)]
pub enum ExpressionView {
    Binary { left: Box<ExpressionView>, op: BinaryOp, right: Box<ExpressionView> },
    Unary { op: UnaryOp, expr: Box<ExpressionView> },
    Variable(Seq<char>),
    Literal(Seq<char>),
}

/// The abstract value of a syntax tree.
pub open spec fn expression_view(e: Expression) -> ExpressionView
    decreases e,
{
    match e {
        Expression::Binary { left, op, right } => ExpressionView::Binary {
            left: Box::new(expression_view(*left)),
            op,
            right: Box::new(expression_view(*right)),
        },
        Expression::Unary { op, expr } => ExpressionView::Unary { op, expr: Box::new(expression_view(*expr)) },
        Expression::Variable(s) => ExpressionView::Variable(s@),
        Expression::Literal(s) => ExpressionView::Literal(s@),
    }
}

impl View for Expression {
    type V = ExpressionView;

    open spec fn view(&self) -> ExpressionView {
        expression_view(*self)
    }
}

/// The operator a token stands for at a precedence level: 0 for `||`, 1 for
/// `&&`, 2 for equality, 3 for comparison.
pub open spec fn level_op(level: nat, t: ExprTokenView) -> Option<BinaryOp> {
    if level == 0 {
        match t {
            ExprTokenView::Or => Some(BinaryOp::Or),
            _ => None,
        }
    } else if level == 1 {
        match t {
            ExprTokenView::And => Some(BinaryOp::And),
            _ => None,
        }
    } else if level == 2 {
        match t {
            ExprTokenView::Equal => Some(BinaryOp::Equal),
            ExprTokenView::NotEqual => Some(BinaryOp::NotEqual),
            _ => None,
        }
    } else if level == 3 {
        match t {
            ExprTokenView::Less => Some(BinaryOp::Less),
            ExprTokenView::LessEqual => Some(BinaryOp::LessEqual),
            ExprTokenView::Greater => Some(BinaryOp::Greater),
            ExprTokenView::GreaterEqual => Some(BinaryOp::GreaterEqual),
            _ => None,
        }
    } else {
        None
    }
}

/// An operand: a number or a variable, and the position after it.
pub open spec fn parse_primary_at(t: Seq<ExprTokenView>, p: nat) -> Option<(ExpressionView, nat)> {
    if p < t.len() {
        match t[p as int] {
            ExprTokenView::Number(n) => Some((ExpressionView::Literal(n), p + 1)),
            ExprTokenView::Identifier(x) => Some((ExpressionView::Variable(x), p + 1)),
            _ => None,
        }
    } else {
        None
    }
}

/// The expression of the given precedence level that starts at `p`, and the
/// position after it; level 4 is an operand.
pub open spec fn parse_level_at(t: Seq<ExprTokenView>, level: nat, p: nat) -> Option<(ExpressionView, nat)>
    decreases t.len() - p, 4 - level, 0nat,
{
    if level >= 4 {
        parse_primary_at(t, p)
    } else {
        match parse_level_at(t, level + 1, p) {
            Some((e, q)) => if p < q <= t.len() {
                parse_chain_at(t, level, q, e)
            } else {
                None
            },
            None => None,
        }
    }
}

/// The operators of a level and their right operands from `p` on, folded to the
/// left onto `acc`.
pub open spec fn parse_chain_at(t: Seq<ExprTokenView>, level: nat, p: nat, acc: ExpressionView) -> Option<(ExpressionView, nat)>
    decreases t.len() - p, 4 - level, 1nat,
{
    if level < 4 && p < t.len() && level_op(level, t[p as int]) is Some {
        match parse_level_at(t, level + 1, p + 1) {
            Some((r, q)) => if p < q <= t.len() {
                parse_chain_at(
                    t,
                    level,
                    q,
                    ExpressionView::Binary { left: Box::new(acc), op: level_op(level, t[p as int]).unwrap(), right: Box::new(r) },
                )
            } else {
                None
            },
            None => None,
        }
    } else {
        Some((acc, p))
    }
}

/// A parser of condition tokens.
pub struct ExpressionParser {
    tokens: Vec<ExprToken>,
    current: usize,
}

/// The message when an operand is missing.
pub open spec fn expected_expression() -> Seq<char> {
    "Expected expression"@
}

fn expected_expression_error() -> (e: IoError)
    ensures
        e.spec_kind() == ErrorKind::RuntimeError,
        e.spec_message() == expected_expression(),
{
    IoError::runtime_error("Expected expression")
}

fn copy_text(s: &String) -> (r: String)
    ensures
        r@ == s@,
{
    s.clone()
}

impl ExpressionParser {
    /// The tokens being parsed.
    pub closed spec fn spec_tokens(&self) -> Seq<ExprTokenView> {
        tokens_view(self.tokens@)
    }

    /// The position of the next token.
    pub closed spec fn spec_current(&self) -> nat {
        self.current as nat
    }

    /// A parser at the start of the tokens.
    pub fn new(tokens: Vec<ExprToken>) -> (r: Self)
        ensures
            r.spec_tokens() == tokens_view(tokens@),
            r.spec_current() == 0,
    {
        ExpressionParser { tokens, current: 0 }
    }

    /// The condition at the current position; tokens after it are left unread.
    pub fn parse(&mut self) -> (r: Result<Expression, IoError>)
        requires
            old(self).spec_current() <= old(self).spec_tokens().len(),
        ensures
            final(self).spec_tokens() == old(self).spec_tokens(),
            match parse_level_at(old(self).spec_tokens(), 0, old(self).spec_current()) {
                Some((e, q)) => r matches Ok(x) && x@ == e && final(self).spec_current() == q,
                None => r matches Err(err) && err.spec_kind() == ErrorKind::RuntimeError
                    && err.spec_message() == expected_expression(),
            },
    {
        self.parse_level(0)
    }

    fn level_operator(&self, level: u8) -> (r: Option<BinaryOp>)
        requires
            level < 4,
        ensures
            self.current < self.tokens@.len() ==> r == level_op(level as nat, self.spec_tokens()[self.current as int]),
            self.current >= self.tokens@.len() ==> r is None,
    {
        if self.current >= self.tokens.len() {
            return None;
        }
        let t = &self.tokens[self.current];
        match (level, t) {
            (0, ExprToken::Or) => Some(BinaryOp::Or),
            (1, ExprToken::And) => Some(BinaryOp::And),
            (2, ExprToken::Equal) => Some(BinaryOp::Equal),
            (2, ExprToken::NotEqual) => Some(BinaryOp::NotEqual),
            (3, ExprToken::Less) => Some(BinaryOp::Less),
            (3, ExprToken::LessEqual) => Some(BinaryOp::LessEqual),
            (3, ExprToken::Greater) => Some(BinaryOp::Greater),
            (3, ExprToken::GreaterEqual) => Some(BinaryOp::GreaterEqual),
            _ => None,
        }
    }

    fn parse_primary(&mut self) -> (r: Result<Expression, IoError>)
        requires
            old(self).spec_current() <= old(self).spec_tokens().len(),
        ensures
            final(self).spec_tokens() == old(self).spec_tokens(),
            match parse_primary_at(old(self).spec_tokens(), old(self).spec_current()) {
                Some((e, q)) => r matches Ok(x) && x@ == e && final(self).spec_current() == q,
                None => r matches Err(err) && err.spec_kind() == ErrorKind::RuntimeError
                    && err.spec_message() == expected_expression(),
            },
    {
        if self.current < self.tokens.len() {
            let r = match &self.tokens[self.current] {
                ExprToken::Number(n) => Some(Expression::Literal(copy_text(n))),
                ExprToken::Identifier(x) => Some(Expression::Variable(copy_text(x))),
                _ => None,
            };
            match r {
                Some(e) => {
                    self.current = self.current + 1;
                    Ok(e)
                },
                None => Err(expected_expression_error()),
            }
        } else {
            Err(expected_expression_error())
        }
    }

    fn parse_level(&mut self, level: u8) -> (r: Result<Expression, IoError>)
        requires
            level <= 4,
            old(self).spec_current() <= old(self).spec_tokens().len(),
        ensures
            final(self).spec_tokens() == old(self).spec_tokens(),
            match parse_level_at(old(self).spec_tokens(), level as nat, old(self).spec_current()) {
                Some((e, q)) => r matches Ok(x) && x@ == e && final(self).spec_current() == q
                    && old(self).spec_current() < q <= old(self).spec_tokens().len(),
                None => r matches Err(err) && err.spec_kind() == ErrorKind::RuntimeError
                    && err.spec_message() == expected_expression(),
            },
        decreases old(self).spec_tokens().len() - old(self).spec_current(), 4 - level,
    {
        let ghost t = self.spec_tokens();
        let ghost p0 = self.spec_current();
        if level == 4 {
            return self.parse_primary();
        }
        let first = self.parse_level(level + 1);
        let mut expr = match first {
            Ok(e) => e,
            Err(e) => return Err(e),
        };
        while self.current < self.tokens.len() && self.level_operator(level).is_some()
            invariant
                level < 4,
                self.spec_tokens() == t,
                t == old(self).spec_tokens(),
                p0 == old(self).spec_current(),
                t.len() == self.tokens@.len(),
                p0 < self.spec_current() <= t.len(),
                parse_level_at(t, level as nat, p0) == parse_chain_at(t, level as nat, self.spec_current(), expr@),
            decreases t.len() - self.spec_current(),
        {
            let op = self.level_operator(level).unwrap();
            let ghost p = self.spec_current();
            self.current = self.current + 1;
            let right = match self.parse_level(level + 1) {
                Ok(e) => e,
                Err(e) => return Err(e),
            };
            expr = Expression::Binary { left: Box::new(expr), op, right: Box::new(right) };
        }
        Ok(expr)
    }
}


/// The syntax tree of a condition: its tokens parsed from the first one.
pub fn parse_expression(condition: &str) -> (r: Result<Expression, IoError>)
    ensures
        match tokens_from(condition@, 0) {
            Ok(v) => match parse_level_at(v, 0, 0) {
                Some((e, _q)) => r matches Ok(x) && x@ == e,
                None => r matches Err(err) && err.spec_kind() == ErrorKind::RuntimeError
                    && err.spec_message() == expected_expression(),
            },
            Err(c) => r matches Err(e) && e.spec_kind() == ErrorKind::RuntimeError
                && e.spec_message() == invalid_character_message(c),
        },
{
    let tokens = match tokenize_expression(condition) {
        Ok(t) => t,
        Err(e) => return Err(e),
    };
    let mut parser = ExpressionParser::new(tokens);
    parser.parse()
}

} // verus!
