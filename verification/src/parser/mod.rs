//! The parser: from tokens to syntax trees.
//!
//! Grammar, loosest binding first:
//!
//! ```text
//! program     := declaration*
//! declaration := function | statement
//! function    := "fn" IDENT "(" params ")" ("->" IDENT)? "{" statement* "}"
//! params      := (IDENT ":" IDENT ("," IDENT ":" IDENT)*)?
//! statement   := if | while | return | "break" | "continue" | let | expression, each
//!                optionally followed by ";" (if and while are not)
//! if          := "if" expression "{" statement* "}" ("else" "{" statement* "}")?
//! while       := "while" expression "{" statement* "}"
//! return      := "return" expression?
//! let         := "let" IDENT (":" IDENT)? "=" expression
//! expression  := or ("=" expression)?         (the left side must be a name)
//! or          := and ("||" and)*
//! and         := equality ("&&" equality)*
//! equality    := comparison (("==" | "!=") comparison)*
//! comparison  := term (("<" | "<=" | ">" | ">=") term)*
//! term        := factor (("+" | "-") factor)*
//! factor      := unary (("*" | "/") unary)*
//! unary       := ("!" | "-") unary | primary
//! primary     := NUMBER | STRING | "true" | "false" | IDENT ("(" list ")")?
//!              | "(" expression ")" | "[" list "]"
//! ```
use vstd::prelude::*;
use crate::ast::{ASTNode, NodeView, Parameter, nodes_view, node_view, params_view, lemma_nodes_view_push};
use crate::token::{Token, TokenKind};
use crate::error::{IoError, ErrorKind};
use crate::text::{push_str, to_owned_string, is_ascii_digit, decimal, digit_char};

verus! {

/// The tokens as (kind, text) pairs.
pub open spec fn toks_view(v: Seq<Token>) -> Seq<(TokenKind, Seq<char>)> {
    v.map_values(|t: Token| (t.kind, t.value@))
}

/// A parse result: a node and the position after it, or the error's message.
pub type Parsed<T> = Result<(T, nat), Seq<char>>;

/// The kind of the token at `p`, if any.
pub open spec fn kind_at(t: Seq<(TokenKind, Seq<char>)>, p: nat) -> Option<TokenKind> {
    if p < t.len() {
        Some(t[p as int].0)
    } else {
        None
    }
}

/// The name of a token kind, as `Debug` prints it.
pub open spec fn kind_name(k: TokenKind) -> Seq<char> {
    match k {
        TokenKind::Function => "Function"@,
        TokenKind::Let => "Let"@,
        TokenKind::Return => "Return"@,
        TokenKind::If => "If"@,
        TokenKind::Else => "Else"@,
        TokenKind::While => "While"@,
        TokenKind::For => "For"@,
        TokenKind::Break => "Break"@,
        TokenKind::Continue => "Continue"@,
        TokenKind::True => "True"@,
        TokenKind::False => "False"@,
        TokenKind::Identifier => "Identifier"@,
        TokenKind::Number => "Number"@,
        TokenKind::String => "String"@,
        TokenKind::Plus => "Plus"@,
        TokenKind::Minus => "Minus"@,
        TokenKind::Star => "Star"@,
        TokenKind::Slash => "Slash"@,
        TokenKind::Equal => "Equal"@,
        TokenKind::EqualEqual => "EqualEqual"@,
        TokenKind::Bang => "Bang"@,
        TokenKind::BangEqual => "BangEqual"@,
        TokenKind::Less => "Less"@,
        TokenKind::LessEqual => "LessEqual"@,
        TokenKind::Greater => "Greater"@,
        TokenKind::GreaterEqual => "GreaterEqual"@,
        TokenKind::LeftParen => "LeftParen"@,
        TokenKind::RightParen => "RightParen"@,
        TokenKind::LeftBrace => "LeftBrace"@,
        TokenKind::RightBrace => "RightBrace"@,
        TokenKind::LeftBracket => "LeftBracket"@,
        TokenKind::RightBracket => "RightBracket"@,
        TokenKind::Comma => "Comma"@,
        TokenKind::Dot => "Dot"@,
        TokenKind::Semicolon => "Semicolon"@,
        TokenKind::Colon => "Colon"@,
        TokenKind::Arrow => "Arrow"@,
        TokenKind::And => "And"@,
        TokenKind::Or => "Or"@,
        TokenKind::EOF => "EOF"@,
    }
}

/// The message when the tokens run out.
pub open spec fn end_message() -> Seq<char> {
    "Unexpected end of input"@
}

/// The message when a token of kind `want` was expected and `got` came.
pub open spec fn expected_message(want: TokenKind, got: TokenKind) -> Seq<char> {
    "Expected "@ + kind_name(want) + ", got "@ + kind_name(got)
}

/// The position after a token of kind `k` at `p`.
pub open spec fn expect_at(t: Seq<(TokenKind, Seq<char>)>, p: nat, k: TokenKind) -> Result<nat, Seq<char>> {
    if p >= t.len() {
        Err(end_message())
    } else if t[p as int].0 == k {
        Ok(p + 1)
    } else {
        Err(expected_message(k, t[p as int].0))
    }
}

/// The position after an optional semicolon at `p`.
pub open spec fn skip_semicolon(t: Seq<(TokenKind, Seq<char>)>, p: nat) -> nat {
    if kind_at(t, p) == Some(TokenKind::Semicolon) {
        p + 1
    } else {
        p
    }
}

/// The value of a string of decimal digits.
pub open spec fn digits_value(s: Seq<char>) -> nat
    decreases s.len(),
{
    if s.len() == 0 {
        0
    } else {
        digits_value(s.drop_last()) * 10 + ((s.last() as u32) - ('0' as u32)) as nat
    }
}

/// Whether every character is a decimal digit.
pub open spec fn all_digits(s: Seq<char>) -> bool {
    forall|i: int| 0 <= i < s.len() ==> is_ascii_digit(#[trigger] s[i])
}

/// The literal a number token stands for: an integer for a string of digits,
/// the text kept as a floating-point literal otherwise.
pub open spec fn number_literal(s: Seq<char>) -> Result<NodeView, Seq<char>> {
    if s.len() > 0 && all_digits(s) {
        if digits_value(s) <= i64::MAX {
            Ok(NodeView::IntegerLiteral(digits_value(s) as i64))
        } else {
            Err("Integer literal too large: "@ + s)
        }
    } else {
        Ok(NodeView::FloatLiteral(s))
    }
}

/// The operator symbol a token stands for at a binary precedence level: 0 for
/// `||`, 1 for `&&`, 2 for equality, 3 for comparison, 4 for `+ -`, 5 for `* /`.
pub open spec fn level_symbol(level: nat, k: TokenKind) -> Option<Seq<char>> {
    if level == 0 {
        if k == TokenKind::Or { Some("||"@) } else { None }
    } else if level == 1 {
        if k == TokenKind::And { Some("&&"@) } else { None }
    } else if level == 2 {
        if k == TokenKind::EqualEqual {
            Some("=="@)
        } else if k == TokenKind::BangEqual {
            Some("!="@)
        } else {
            None
        }
    } else if level == 3 {
        if k == TokenKind::Less {
            Some("<"@)
        } else if k == TokenKind::LessEqual {
            Some("<="@)
        } else if k == TokenKind::Greater {
            Some(">"@)
        } else if k == TokenKind::GreaterEqual {
            Some(">="@)
        } else {
            None
        }
    } else if level == 4 {
        if k == TokenKind::Plus {
            Some("+"@)
        } else if k == TokenKind::Minus {
            Some("-"@)
        } else {
            None
        }
    } else if level == 5 {
        if k == TokenKind::Star {
            Some("*"@)
        } else if k == TokenKind::Slash {
            Some("/"@)
        } else {
            None
        }
    } else {
        None
    }
}

/// The rank of a precedence level in the order of parsing.
pub open spec fn level_rank(level: nat) -> nat {
    if level < 6 { (10 - level) as nat } else { 4 }
}

/// An expression, with an assignment to a name at its top.
pub open spec fn p_expr(t: Seq<(TokenKind, Seq<char>)>, p: nat) -> Parsed<NodeView>
    decreases t.len() - p, 11nat,
{
    match p_level(t, 0, p) {
        Ok((e, q)) => if p < q <= t.len() {
            if kind_at(t, q) == Some(TokenKind::Equal) {
                match p_expr(t, q + 1) {
                    Ok((v, q2)) => match e {
                        NodeView::Identifier(x) => Ok((
                            NodeView::Assignment { target: Box::new(NodeView::Identifier(x)), value: Box::new(v) },
                            q2,
                        )),
                        _ => Err("Invalid assignment target"@),
                    },
                    Err(m) => Err(m),
                }
            } else {
                Ok((e, q))
            }
        } else {
            Err(Seq::empty())
        },
        Err(m) => Err(m),
    }
}

/// The expression of a binary precedence level; level 6 is a unary expression.
pub open spec fn p_level(t: Seq<(TokenKind, Seq<char>)>, level: nat, p: nat) -> Parsed<NodeView>
    decreases t.len() - p, level_rank(level),
{
    if level >= 6 {
        p_unary(t, p)
    } else {
        match p_level(t, level + 1, p) {
            Ok((e, q)) => if p < q <= t.len() {
                p_chain(t, level, q, e)
            } else {
                Err(Seq::empty())
            },
            Err(m) => Err(m),
        }
    }
}

/// The operators of a level and their right operands from `p` on, folded to the
/// left onto `acc`.
pub open spec fn p_chain(t: Seq<(TokenKind, Seq<char>)>, level: nat, p: nat, acc: NodeView) -> Parsed<NodeView>
    decreases t.len() - p, level_rank(level),
{
    if level < 6 && p < t.len() && level_symbol(level, t[p as int].0) is Some {
        match p_level(t, level + 1, p + 1) {
            Ok((r, q)) => if p < q <= t.len() {
                p_chain(
                    t,
                    level,
                    q,
                    NodeView::BinaryOperation {
                        left: Box::new(acc),
                        operator: level_symbol(level, t[p as int].0).unwrap(),
                        right: Box::new(r),
                    },
                )
            } else {
                Err(Seq::empty())
            },
            Err(m) => Err(m),
        }
    } else {
        Ok((acc, p))
    }
}

/// A unary expression.
pub open spec fn p_unary(t: Seq<(TokenKind, Seq<char>)>, p: nat) -> Parsed<NodeView>
    decreases t.len() - p, 3nat,
{
    if kind_at(t, p) == Some(TokenKind::Bang) || kind_at(t, p) == Some(TokenKind::Minus) {
        match p_unary(t, p + 1) {
            Ok((e, q)) => Ok((
                NodeView::UnaryOperation {
                    operator: if kind_at(t, p) == Some(TokenKind::Bang) { "!"@ } else { "-"@ },
                    operand: Box::new(e),
                },
                q,
            )),
            Err(m) => Err(m),
        }
    } else {
        p_primary(t, p)
    }
}

/// The message when no expression starts at a token.
pub open spec fn primary_message() -> Seq<char> {
    "Unexpected token in primary expression"@
}

/// A primary expression.
pub open spec fn p_primary(t: Seq<(TokenKind, Seq<char>)>, p: nat) -> Parsed<NodeView>
    decreases t.len() - p, 2nat,
{
    if p >= t.len() {
        Err(primary_message())
    } else {
        let (k, v) = t[p as int];
        if k == TokenKind::Number {
            match number_literal(v) {
                Ok(n) => Ok((n, p + 1)),
                Err(m) => Err(m),
            }
        } else if k == TokenKind::String {
            Ok((NodeView::StringLiteral(v), p + 1))
        } else if k == TokenKind::True {
            Ok((NodeView::BooleanLiteral(true), p + 1))
        } else if k == TokenKind::False {
            Ok((NodeView::BooleanLiteral(false), p + 1))
        } else if k == TokenKind::Identifier {
            if kind_at(t, p + 1) == Some(TokenKind::LeftParen) {
                match p_list(t, p + 2, TokenKind::RightParen) {
                    Ok((args, q)) => Ok((NodeView::FunctionCall { name: v, arguments: args }, q)),
                    Err(m) => Err(m),
                }
            } else {
                Ok((NodeView::Identifier(v), p + 1))
            }
        } else if k == TokenKind::LeftParen {
            match p_expr(t, p + 1) {
                Ok((e, q)) => match expect_at(t, q, TokenKind::RightParen) {
                    Ok(q2) => Ok((e, q2)),
                    Err(m) => Err(m),
                },
                Err(m) => Err(m),
            }
        } else if k == TokenKind::LeftBracket {
            match p_list(t, p + 1, TokenKind::RightBracket) {
                Ok((items, q)) => Ok((NodeView::ArrayLiteral(items), q)),
                Err(m) => Err(m),
            }
        } else {
            Err(primary_message())
        }
    }
}

/// A comma-separated list of expressions closed by `closer`, which is consumed.
pub open spec fn p_list(t: Seq<(TokenKind, Seq<char>)>, p: nat, closer: TokenKind) -> Parsed<Seq<NodeView>>
    decreases t.len() - p, 13nat,
{
    if kind_at(t, p) == Some(closer) {
        Ok((Seq::empty(), p + 1))
    } else {
        p_items(t, p, closer, Seq::empty())
    }
}

/// The items of a list from `p` on, after the items `acc`.
pub open spec fn p_items(t: Seq<(TokenKind, Seq<char>)>, p: nat, closer: TokenKind, acc: Seq<NodeView>) -> Parsed<Seq<NodeView>>
    decreases t.len() - p, 12nat,
{
    match p_expr(t, p) {
        Ok((e, q)) => if p < q <= t.len() {
            if kind_at(t, q) == Some(TokenKind::Comma) {
                p_items(t, q + 1, closer, acc.push(e))
            } else {
                match expect_at(t, q, closer) {
                    Ok(q2) => Ok((acc.push(e), q2)),
                    Err(m) => Err(m),
                }
            }
        } else {
            Err(Seq::empty())
        },
        Err(m) => Err(m),
    }
}

/// A statement.
pub open spec fn p_stmt(t: Seq<(TokenKind, Seq<char>)>, p: nat) -> Parsed<NodeView>
    decreases t.len() - p, 16nat,
{
    let k = kind_at(t, p);
    if k == Some(TokenKind::If) {
        p_if(t, p)
    } else if k == Some(TokenKind::While) {
        match p_expr(t, p + 1) {
            Ok((c, q)) => match expect_at(t, q, TokenKind::LeftBrace) {
                Ok(q1) => if p < q1 <= t.len() {
                    match p_block(t, q1, Seq::empty()) {
                        Ok((body, q2)) => match expect_at(t, q2, TokenKind::RightBrace) {
                            Ok(q3) => Ok((NodeView::While { condition: Box::new(c), body }, q3)),
                            Err(m) => Err(m),
                        },
                        Err(m) => Err(m),
                    }
                } else {
                    Err(Seq::empty())
                },
                Err(m) => Err(m),
            },
            Err(m) => Err(m),
        }
    } else if k == Some(TokenKind::Return) {
        let n = kind_at(t, p + 1);
        if n is None || n == Some(TokenKind::Semicolon) || n == Some(TokenKind::RightBrace) {
            Ok((NodeView::Return(None), skip_semicolon(t, p + 1)))
        } else {
            match p_expr(t, p + 1) {
                Ok((e, q)) => Ok((NodeView::Return(Some(Box::new(e))), skip_semicolon(t, q))),
                Err(m) => Err(m),
            }
        }
    } else if k == Some(TokenKind::Break) {
        Ok((NodeView::Break, skip_semicolon(t, p + 1)))
    } else if k == Some(TokenKind::Continue) {
        Ok((NodeView::Continue, skip_semicolon(t, p + 1)))
    } else if k == Some(TokenKind::Let) {
        p_let(t, p)
    } else {
        match p_expr(t, p) {
            Ok((e, q)) => Ok((e, skip_semicolon(t, q))),
            Err(m) => Err(m),
        }
    }
}

/// An `if` statement; its first token is taken to be `if`.
pub open spec fn p_if(t: Seq<(TokenKind, Seq<char>)>, p: nat) -> Parsed<NodeView>
    decreases t.len() - p, 15nat,
{
    if p >= t.len() {
        Err(end_message())
    } else {
    match p_expr(t, p + 1) {
        Ok((c, q)) => match expect_at(t, q, TokenKind::LeftBrace) {
            Ok(q1) => if p < q1 <= t.len() {
                match p_block(t, q1, Seq::empty()) {
                    Ok((then_branch, q2)) => match expect_at(t, q2, TokenKind::RightBrace) {
                        Ok(q3) => if kind_at(t, q3) == Some(TokenKind::Else) {
                            match expect_at(t, q3 + 1, TokenKind::LeftBrace) {
                                Ok(q4) => if p < q4 <= t.len() {
                                    match p_block(t, q4, Seq::empty()) {
                                        Ok((else_branch, q5)) => match expect_at(t, q5, TokenKind::RightBrace) {
                                            Ok(q6) => Ok((
                                                NodeView::If {
                                                    condition: Box::new(c),
                                                    then_branch,
                                                    else_branch: Some(else_branch),
                                                },
                                                q6,
                                            )),
                                            Err(m) => Err(m),
                                        },
                                        Err(m) => Err(m),
                                    }
                                } else {
                                    Err(Seq::empty())
                                },
                                Err(m) => Err(m),
                            }
                        } else {
                            Ok((NodeView::If { condition: Box::new(c), then_branch, else_branch: None }, q3))
                        },
                        Err(m) => Err(m),
                    },
                    Err(m) => Err(m),
                }
            } else {
                Err(Seq::empty())
            },
            Err(m) => Err(m),
        },
        Err(m) => Err(m),
    }
    }
}

/// A `let` statement; its first token is taken to be `let`.
pub open spec fn p_let(t: Seq<(TokenKind, Seq<char>)>, p: nat) -> Parsed<NodeView>
    decreases t.len() - p, 14nat,
{
    match expect_at(t, p + 1, TokenKind::Identifier) {
        Ok(q) => {
            let name = t[p + 1 as int].1;
            let (annotation, q1) = if kind_at(t, q) == Some(TokenKind::Colon) {
                match expect_at(t, q + 1, TokenKind::Identifier) {
                    Ok(q2) => (Ok(Some(t[q + 1 as int].1)), q2),
                    Err(m) => (Err(m), q),
                }
            } else {
                (Ok(None), q)
            };
            match annotation {
                Ok(ann) => match expect_at(t, q1, TokenKind::Equal) {
                    Ok(q3) => if p < q3 <= t.len() {
                        match p_expr(t, q3) {
                            Ok((v, q4)) => Ok((
                                NodeView::VariableDeclaration {
                                    name,
                                    type_annotation: ann,
                                    value: Box::new(v),
                                    is_mutable: true,
                                },
                                skip_semicolon(t, q4),
                            )),
                            Err(m) => Err(m),
                        }
                    } else {
                        Err(Seq::empty())
                    },
                    Err(m) => Err(m),
                },
                Err(m) => Err(m),
            }
        },
        Err(m) => Err(m),
    }
}

/// The statements of a block from `p` up to its closing brace, which is not
/// consumed, after the statements `acc`.
pub open spec fn p_block(t: Seq<(TokenKind, Seq<char>)>, p: nat, acc: Seq<NodeView>) -> Parsed<Seq<NodeView>>
    decreases t.len() - p, 17nat,
{
    if p >= t.len() {
        Err(end_message())
    } else if t[p as int].0 == TokenKind::RightBrace {
        Ok((acc, p))
    } else {
        match p_stmt(t, p) {
            Ok((s, q)) => if p < q <= t.len() {
                p_block(t, q, acc.push(s))
            } else {
                Err(Seq::empty())
            },
            Err(m) => Err(m),
        }
    }
}

/// The parameters of a function from `p` up to the closing parenthesis, which is
/// not consumed, after the parameters `acc`.
pub open spec fn p_params(t: Seq<(TokenKind, Seq<char>)>, p: nat, acc: Seq<(Seq<char>, Seq<char>)>) -> Parsed<Seq<(Seq<char>, Seq<char>)>>
    decreases t.len() - p, 17nat,
{
    if kind_at(t, p) == Some(TokenKind::RightParen) && acc.len() == 0 {
        Ok((acc, p))
    } else {
        match expect_at(t, p, TokenKind::Identifier) {
            Ok(q) => match expect_at(t, q, TokenKind::Colon) {
                Ok(q1) => match expect_at(t, q1, TokenKind::Identifier) {
                    Ok(q2) => {
                        let item = (t[p as int].1, t[q1 as int].1);
                        if kind_at(t, q2) == Some(TokenKind::Comma) {
                            p_params(t, q2 + 1, acc.push(item))
                        } else {
                            Ok((acc.push(item), q2))
                        }
                    },
                    Err(m) => Err(m),
                },
                Err(m) => Err(m),
            },
            Err(m) => Err(m),
        }
    }
}

/// A function declaration; its first token is taken to be `fn`.
pub open spec fn p_function(t: Seq<(TokenKind, Seq<char>)>, p: nat) -> Parsed<NodeView>
    decreases t.len() - p, 18nat,
{
    match expect_at(t, p + 1, TokenKind::Identifier) {
        Ok(q) => match expect_at(t, q, TokenKind::LeftParen) {
            Ok(q1) => match p_params(t, q1, Seq::empty()) {
                Ok((params, q2)) => match expect_at(t, q2, TokenKind::RightParen) {
                    Ok(q3) => {
                        let (ret, q4) = if kind_at(t, q3) == Some(TokenKind::Arrow) {
                            match expect_at(t, q3 + 1, TokenKind::Identifier) {
                                Ok(q5) => (Ok(Some(t[q3 + 1 as int].1)), q5),
                                Err(m) => (Err(m), q3),
                            }
                        } else {
                            (Ok(None), q3)
                        };
                        match ret {
                            Ok(return_type) => match expect_at(t, q4, TokenKind::LeftBrace) {
                                Ok(q6) => if p < q6 <= t.len() {
                                    match p_block(t, q6, Seq::empty()) {
                                        Ok((body, q7)) => match expect_at(t, q7, TokenKind::RightBrace) {
                                            Ok(q8) => Ok((
                                                NodeView::Function {
                                                    name: t[p + 1 as int].1,
                                                    params,
                                                    return_type,
                                                    body,
                                                    is_async: false,
                                                },
                                                q8,
                                            )),
                                            Err(m) => Err(m),
                                        },
                                        Err(m) => Err(m),
                                    }
                                } else {
                                    Err(Seq::empty())
                                },
                                Err(m) => Err(m),
                            },
                            Err(m) => Err(m),
                        }
                    },
                    Err(m) => Err(m),
                },
                Err(m) => Err(m),
            },
            Err(m) => Err(m),
        },
        Err(m) => Err(m),
    }
}

/// A declaration: a function, or a statement.
pub open spec fn p_declaration(t: Seq<(TokenKind, Seq<char>)>, p: nat) -> Parsed<NodeView>
    decreases t.len() - p, 19nat,
{
    if kind_at(t, p) == Some(TokenKind::Function) {
        p_function(t, p)
    } else {
        p_stmt(t, p)
    }
}

/// The declarations from `p` to the end, after the declarations `acc`.
pub open spec fn p_program(t: Seq<(TokenKind, Seq<char>)>, p: nat, acc: Seq<NodeView>) -> Result<Seq<NodeView>, Seq<char>>
    decreases t.len() - p, 20nat,
{
    if p >= t.len() {
        Ok(acc)
    } else {
        match p_declaration(t, p) {
            Ok((d, q)) => if p < q <= t.len() {
                p_program(t, q, acc.push(d))
            } else {
                Err(Seq::empty())
            },
            Err(m) => Err(m),
        }
    }
}


/// The value of the digits grows with each digit added.
pub proof fn lemma_digits_value_prefix(s: Seq<char>, j: int)
    requires
        0 <= j <= s.len(),
        all_digits(s),
    ensures
        digits_value(s.subrange(0, j)) <= digits_value(s),
    decreases s.len() - j,
{
    if j < s.len() {
        lemma_digits_value_prefix(s, j + 1);
        let a = s.subrange(0, j + 1);
        assert(a.drop_last() =~= s.subrange(0, j));
        assert(is_ascii_digit(s[j]));
    } else {
        assert(s.subrange(0, j) =~= s);
    }
}

fn kind_name_str(k: TokenKind) -> (r: &'static str)
    ensures
        r@ == kind_name(k),
{
    match k {
        TokenKind::Function => "Function",
        TokenKind::Let => "Let",
        TokenKind::Return => "Return",
        TokenKind::If => "If",
        TokenKind::Else => "Else",
        TokenKind::While => "While",
        TokenKind::For => "For",
        TokenKind::Break => "Break",
        TokenKind::Continue => "Continue",
        TokenKind::True => "True",
        TokenKind::False => "False",
        TokenKind::Identifier => "Identifier",
        TokenKind::Number => "Number",
        TokenKind::String => "String",
        TokenKind::Plus => "Plus",
        TokenKind::Minus => "Minus",
        TokenKind::Star => "Star",
        TokenKind::Slash => "Slash",
        TokenKind::Equal => "Equal",
        TokenKind::EqualEqual => "EqualEqual",
        TokenKind::Bang => "Bang",
        TokenKind::BangEqual => "BangEqual",
        TokenKind::Less => "Less",
        TokenKind::LessEqual => "LessEqual",
        TokenKind::Greater => "Greater",
        TokenKind::GreaterEqual => "GreaterEqual",
        TokenKind::LeftParen => "LeftParen",
        TokenKind::RightParen => "RightParen",
        TokenKind::LeftBrace => "LeftBrace",
        TokenKind::RightBrace => "RightBrace",
        TokenKind::LeftBracket => "LeftBracket",
        TokenKind::RightBracket => "RightBracket",
        TokenKind::Comma => "Comma",
        TokenKind::Dot => "Dot",
        TokenKind::Semicolon => "Semicolon",
        TokenKind::Colon => "Colon",
        TokenKind::Arrow => "Arrow",
        TokenKind::And => "And",
        TokenKind::Or => "Or",
        TokenKind::EOF => "EOF",
    }
}

fn parse_error(m: &str) -> (e: IoError)
    ensures
        e.spec_kind() == ErrorKind::ParserError,
        e.spec_message() == m@,
{
    IoError::parser_error(m)
}

/// The literal a number token stands for.
pub fn number_literal_node(text: &String) -> (r: Result<ASTNode, IoError>)
    ensures
        match number_literal(text@) {
            Ok(n) => r matches Ok(x) && x@ == n,
            Err(m) => r matches Err(e) && e.spec_kind() == ErrorKind::ParserError && e.spec_message() == m,
        },
{
    let chars = crate::text::str_to_chars(text.as_str());
    let ghost s = text@;
    let n = chars.len();
    let mut i: usize = 0;
    while i < n
        invariant
            chars@ == s,
            s == text@,
            n == s.len(),
            i <= n,
            forall|k: int| 0 <= k < i ==> is_ascii_digit(#[trigger] s[k]),
        decreases n - i,
    {
        if !('0' <= chars[i] && chars[i] <= '9') {
            assert(!is_ascii_digit(s[i as int]));
            return Ok(ASTNode::FloatLiteral(text.clone()));
        }
        i = i + 1;
    }
    if n == 0 {
        return Ok(ASTNode::FloatLiteral(text.clone()));
    }
    let mut value: u64 = 0;
    let mut j: usize = 0;
    while j < n
        invariant
            chars@ == s,
            s == text@,
            n == s.len(),
            j <= n,
            all_digits(s),
            value == digits_value(s.subrange(0, j as int)),
            value <= i64::MAX,
        decreases n - j,
    {
        let d = (chars[j] as u32 - '0' as u32) as u64;
        proof {
            assert(s.subrange(0, j + 1).drop_last() =~= s.subrange(0, j as int));
            assert(is_ascii_digit(s[j as int]));
            assert(s.subrange(0, j + 1).last() == s[j as int]);
            assert(digits_value(s.subrange(0, j + 1)) == value * 10 + d);
        }
        if value > 922337203685477580u64 || (value == 922337203685477580u64 && d > 7) {
            proof {
                lemma_digits_value_prefix(s, j + 1);
            }
            let mut m = to_owned_string("Integer literal too large: ");
            push_str(&mut m, text.as_str());
            return Err(parse_error(m.as_str()));
        }
        value = value * 10 + d;
        j = j + 1;
    }
    proof {
        assert(s.subrange(0, n as int) =~= s);
    }
    Ok(ASTNode::IntegerLiteral(value as i64))
}

/// A parser of a list of tokens.
pub struct Parser {
    tokens: Vec<Token>,
    current: usize,
}

impl Parser {
    /// The tokens as (kind, text) pairs.
    pub closed spec fn spec_toks(&self) -> Seq<(TokenKind, Seq<char>)> {
        toks_view(self.tokens@)
    }

    /// The position of the next token.
    pub closed spec fn spec_pos(&self) -> nat {
        self.current as nat
    }

    /// The position is within the tokens.
    pub open spec fn wf(&self) -> bool {
        self.spec_pos() <= self.spec_toks().len()
    }

    proof fn lemma_bounds(&self)
        ensures
            self.spec_toks().len() == self.tokens@.len(),
            self.spec_toks().len() <= usize::MAX,
    {
        vstd::std_specs::vec::axiom_spec_len(&self.tokens);
    }

    /// A parser at the first of the tokens.
    pub fn new(tokens: Vec<Token>) -> (r: Self)
        ensures
            r.spec_toks() == toks_view(tokens@),
            r.spec_pos() == 0,
            r.wf(),
    {
        Parser { tokens, current: 0 }
    }

    fn kind_at(&self, p: usize) -> (r: Option<TokenKind>)
        ensures
            r == kind_at(self.spec_toks(), p as nat),
    {
        proof {
            self.lemma_bounds();
        }
        if p < self.tokens.len() {
            Some(self.tokens[p].kind)
        } else {
            None
        }
    }

    fn text_at(&self, p: usize) -> (r: String)
        requires
            p < self.spec_toks().len(),
        ensures
            r@ == self.spec_toks()[p as int].1,
    {
        self.tokens[p].value.clone()
    }

    fn expect(&mut self, k: TokenKind) -> (r: Result<(), IoError>)
        requires
            old(self).wf(),
        ensures
            final(self).wf(),
            final(self).spec_toks() == old(self).spec_toks(),
            match expect_at(old(self).spec_toks(), old(self).spec_pos(), k) {
                Ok(q) => r is Ok && final(self).spec_pos() == q,
                Err(m) => r matches Err(e) && e.spec_kind() == ErrorKind::ParserError && e.spec_message() == m,
            },
    {
        proof {
            self.lemma_bounds();
        }
        if self.current >= self.tokens.len() {
            return Err(parse_error("Unexpected end of input"));
        }
        let got = self.tokens[self.current].kind;
        if got == k {
            self.current = self.current + 1;
            Ok(())
        } else {
            let mut m = to_owned_string("Expected ");
            push_str(&mut m, kind_name_str(k));
            push_str(&mut m, ", got ");
            push_str(&mut m, kind_name_str(got));
            Err(parse_error(m.as_str()))
        }
    }

    fn skip_semicolon(&mut self)
        requires
            old(self).wf(),
        ensures
            final(self).wf(),
            final(self).spec_toks() == old(self).spec_toks(),
            final(self).spec_pos() == skip_semicolon(old(self).spec_toks(), old(self).spec_pos()),
    {
        proof {
            self.lemma_bounds();
        }
        if self.kind_at(self.current) == Some(TokenKind::Semicolon) {
            self.current = self.current + 1;
        }
    }

    fn level_symbol(&self, level: u8) -> (r: Option<&'static str>)
        requires
            level < 6,
        ensures
            self.current < self.spec_toks().len() ==> match r {
                Some(sym) => level_symbol(level as nat, self.spec_toks()[self.current as int].0) == Some(sym@),
                None => level_symbol(level as nat, self.spec_toks()[self.current as int].0) is None,
            },
            self.current >= self.spec_toks().len() ==> r is None,
    {
        let k = match self.kind_at(self.current) {
            Some(k) => k,
            None => return None,
        };
        if level == 0 {
            if k == TokenKind::Or { Some("||") } else { None }
        } else if level == 1 {
            if k == TokenKind::And { Some("&&") } else { None }
        } else if level == 2 {
            if k == TokenKind::EqualEqual {
                Some("==")
            } else if k == TokenKind::BangEqual {
                Some("!=")
            } else {
                None
            }
        } else if level == 3 {
            if k == TokenKind::Less {
                Some("<")
            } else if k == TokenKind::LessEqual {
                Some("<=")
            } else if k == TokenKind::Greater {
                Some(">")
            } else if k == TokenKind::GreaterEqual {
                Some(">=")
            } else {
                None
            }
        } else if level == 4 {
            if k == TokenKind::Plus {
                Some("+")
            } else if k == TokenKind::Minus {
                Some("-")
            } else {
                None
            }
        } else {
            if k == TokenKind::Star {
                Some("*")
            } else if k == TokenKind::Slash {
                Some("/")
            } else {
                None
            }
        }
    }

    /// An expression.
    pub fn parse_expression(&mut self) -> (r: Result<ASTNode, IoError>)
        requires
            old(self).wf(),
        ensures
            final(self).wf(),
            final(self).spec_toks() == old(self).spec_toks(),
            match p_expr(old(self).spec_toks(), old(self).spec_pos()) {
                Ok((n, q)) => r matches Ok(x) && x@ == n && final(self).spec_pos() == q
                    && old(self).spec_pos() < q <= old(self).spec_toks().len(),
                Err(m) => r matches Err(e) && e.spec_kind() == ErrorKind::ParserError && e.spec_message() == m,
            },
        decreases old(self).spec_toks().len() - old(self).spec_pos(), 11nat,
    {
        proof {
            self.lemma_bounds();
        }
        let ghost t = self.spec_toks();
        let ghost p = self.spec_pos();
        let e = match self.parse_level(0) {
            Ok(e) => e,
            Err(err) => return Err(err),
        };
        if self.kind_at(self.current) == Some(TokenKind::Equal) {
            self.current = self.current + 1;
            let v = match self.parse_expression() {
                Ok(v) => v,
                Err(err) => return Err(err),
            };
            match e {
                ASTNode::Identifier(x) => Ok(
                    ASTNode::Assignment { target: Box::new(ASTNode::Identifier(x)), value: Box::new(v) },
                ),
                _ => Err(parse_error("Invalid assignment target")),
            }
        } else {
            Ok(e)
        }
    }

    fn parse_level(&mut self, level: u8) -> (r: Result<ASTNode, IoError>)
        requires
            old(self).wf(),
            level <= 6,
        ensures
            final(self).wf(),
            final(self).spec_toks() == old(self).spec_toks(),
            match p_level(old(self).spec_toks(), level as nat, old(self).spec_pos()) {
                Ok((n, q)) => r matches Ok(x) && x@ == n && final(self).spec_pos() == q
                    && old(self).spec_pos() < q <= old(self).spec_toks().len(),
                Err(m) => r matches Err(e) && e.spec_kind() == ErrorKind::ParserError && e.spec_message() == m,
            },
        decreases old(self).spec_toks().len() - old(self).spec_pos(), level_rank(level as nat),
    {
        proof {
            self.lemma_bounds();
        }
        let ghost t = self.spec_toks();
        let ghost p0 = self.spec_pos();
        if level == 6 {
            return self.parse_unary();
        }
        let mut expr = match self.parse_level(level + 1) {
            Ok(e) => e,
            Err(err) => return Err(err),
        };
        loop
            invariant
                level < 6,
                self.wf(),
                self.spec_toks() == t,
                t == old(self).spec_toks(),
                p0 == old(self).spec_pos(),
                p0 < self.spec_pos() <= t.len(),
                p_level(t, level as nat, p0) == p_chain(t, level as nat, self.spec_pos(), expr@),
            decreases t.len() - self.spec_pos(),
        {
            proof {
                self.lemma_bounds();
            }
            let sym = match self.level_symbol(level) {
                Some(sym) => sym,
                None => {
                    return Ok(expr);
                },
            };
            self.current = self.current + 1;
            let right = match self.parse_level(level + 1) {
                Ok(e) => e,
                Err(err) => return Err(err),
            };
            expr = ASTNode::BinaryOperation { left: Box::new(expr), operator: to_owned_string(sym), right: Box::new(right) };
        }
    }

    fn parse_unary(&mut self) -> (r: Result<ASTNode, IoError>)
        requires
            old(self).wf(),
        ensures
            final(self).wf(),
            final(self).spec_toks() == old(self).spec_toks(),
            match p_unary(old(self).spec_toks(), old(self).spec_pos()) {
                Ok((n, q)) => r matches Ok(x) && x@ == n && final(self).spec_pos() == q
                    && old(self).spec_pos() < q <= old(self).spec_toks().len(),
                Err(m) => r matches Err(e) && e.spec_kind() == ErrorKind::ParserError && e.spec_message() == m,
            },
        decreases old(self).spec_toks().len() - old(self).spec_pos(), 3nat,
    {
        proof {
            self.lemma_bounds();
        }
        let k = self.kind_at(self.current);
        if k == Some(TokenKind::Bang) || k == Some(TokenKind::Minus) {
            self.current = self.current + 1;
            let e = match self.parse_unary() {
                Ok(e) => e,
                Err(err) => return Err(err),
            };
            let op = if k == Some(TokenKind::Bang) { "!" } else { "-" };
            Ok(ASTNode::UnaryOperation { operator: to_owned_string(op), operand: Box::new(e) })
        } else {
            self.parse_primary()
        }
    }

    fn parse_primary(&mut self) -> (r: Result<ASTNode, IoError>)
        requires
            old(self).wf(),
        ensures
            final(self).wf(),
            final(self).spec_toks() == old(self).spec_toks(),
            match p_primary(old(self).spec_toks(), old(self).spec_pos()) {
                Ok((n, q)) => r matches Ok(x) && x@ == n && final(self).spec_pos() == q
                    && old(self).spec_pos() < q <= old(self).spec_toks().len(),
                Err(m) => r matches Err(e) && e.spec_kind() == ErrorKind::ParserError && e.spec_message() == m,
            },
        decreases old(self).spec_toks().len() - old(self).spec_pos(), 2nat,
    {
        proof {
            self.lemma_bounds();
        }
        let p = self.current;
        let k = match self.kind_at(p) {
            Some(k) => k,
            None => return Err(parse_error("Unexpected token in primary expression")),
        };
        if k == TokenKind::Number {
            let text = self.text_at(p);
            let n = match number_literal_node(&text) {
                Ok(n) => n,
                Err(err) => return Err(err),
            };
            self.current = p + 1;
            Ok(n)
        } else if k == TokenKind::String {
            let text = self.text_at(p);
            self.current = p + 1;
            Ok(ASTNode::StringLiteral(text))
        } else if k == TokenKind::True {
            self.current = p + 1;
            Ok(ASTNode::BooleanLiteral(true))
        } else if k == TokenKind::False {
            self.current = p + 1;
            Ok(ASTNode::BooleanLiteral(false))
        } else if k == TokenKind::Identifier {
            let text = self.text_at(p);
            if self.kind_at(p + 1) == Some(TokenKind::LeftParen) {
                self.current = p + 2;
                let args = match self.parse_list(TokenKind::RightParen) {
                    Ok(a) => a,
                    Err(err) => return Err(err),
                };
                Ok(ASTNode::FunctionCall { name: text, arguments: args })
            } else {
                self.current = p + 1;
                Ok(ASTNode::Identifier(text))
            }
        } else if k == TokenKind::LeftParen {
            self.current = p + 1;
            let e = match self.parse_expression() {
                Ok(e) => e,
                Err(err) => return Err(err),
            };
            match self.expect(TokenKind::RightParen) {
                Ok(()) => Ok(e),
                Err(err) => Err(err),
            }
        } else if k == TokenKind::LeftBracket {
            self.current = p + 1;
            let items = match self.parse_list(TokenKind::RightBracket) {
                Ok(a) => a,
                Err(err) => return Err(err),
            };
            Ok(ASTNode::ArrayLiteral(items))
        } else {
            Err(parse_error("Unexpected token in primary expression"))
        }
    }

    fn parse_list(&mut self, closer: TokenKind) -> (r: Result<Vec<ASTNode>, IoError>)
        requires
            old(self).wf(),
        ensures
            final(self).wf(),
            final(self).spec_toks() == old(self).spec_toks(),
            match p_list(old(self).spec_toks(), old(self).spec_pos(), closer) {
                Ok((v, q)) => r matches Ok(x) && nodes_view(x@) == v && final(self).spec_pos() == q
                    && old(self).spec_pos() < q <= old(self).spec_toks().len(),
                Err(m) => r matches Err(e) && e.spec_kind() == ErrorKind::ParserError && e.spec_message() == m,
            },
        decreases old(self).spec_toks().len() - old(self).spec_pos(), 13nat,
    {
        proof {
            self.lemma_bounds();
        }
        let ghost t = self.spec_toks();
        let ghost p0 = self.spec_pos();
        let mut items: Vec<ASTNode> = Vec::new();
        if self.kind_at(self.current) == Some(closer) {
            self.current = self.current + 1;
            proof {
                assert(nodes_view(items@) =~= Seq::<NodeView>::empty());
            }
            return Ok(items);
        }
        proof {
            assert(nodes_view(items@) =~= Seq::<NodeView>::empty());
        }
        loop
            invariant
                self.wf(),
                self.spec_toks() == t,
                t == old(self).spec_toks(),
                p0 == old(self).spec_pos(),
                p0 <= self.spec_pos() <= t.len(),
                kind_at(t, p0) != Some(closer),
                p_list(t, p0, closer) == p_items(t, self.spec_pos(), closer, nodes_view(items@)),
            decreases t.len() - self.spec_pos(),
        {
            proof {
                self.lemma_bounds();
            }
            let e = match self.parse_expression() {
                Ok(e) => e,
                Err(err) => return Err(err),
            };
            proof {
                lemma_nodes_view_push(items@, e);
            }
            items.push(e);
            if self.kind_at(self.current) == Some(TokenKind::Comma) {
                self.current = self.current + 1;
            } else {
                match self.expect(closer) {
                    Ok(()) => return Ok(items),
                    Err(err) => return Err(err),
                }
            }
        }
    }
}


impl Parser {
    fn parse_statement(&mut self) -> (r: Result<ASTNode, IoError>)
        requires
            old(self).wf(),
        ensures
            final(self).wf(),
            final(self).spec_toks() == old(self).spec_toks(),
            match p_stmt(old(self).spec_toks(), old(self).spec_pos()) {
                Ok((n, q)) => r matches Ok(x) && x@ == n && final(self).spec_pos() == q
                    && old(self).spec_pos() < q <= old(self).spec_toks().len(),
                Err(m) => r matches Err(e) && e.spec_kind() == ErrorKind::ParserError && e.spec_message() == m,
            },
        decreases old(self).spec_toks().len() - old(self).spec_pos(), 16nat,
    {
        proof {
            self.lemma_bounds();
        }
        let p = self.current;
        let k = self.kind_at(p);
        if k == Some(TokenKind::If) {
            self.parse_if_statement()
        } else if k == Some(TokenKind::While) {
            self.current = p + 1;
            let c = match self.parse_expression() {
                Ok(c) => c,
                Err(e) => return Err(e),
            };
            match self.expect(TokenKind::LeftBrace) {
                Ok(()) => {},
                Err(e) => return Err(e),
            }
            let body = match self.parse_block() {
                Ok(b) => b,
                Err(e) => return Err(e),
            };
            match self.expect(TokenKind::RightBrace) {
                Ok(()) => Ok(ASTNode::While { condition: Box::new(c), body }),
                Err(e) => Err(e),
            }
        } else if k == Some(TokenKind::Return) {
            let n = self.kind_at(p + 1);
            if n.is_none() || n == Some(TokenKind::Semicolon) || n == Some(TokenKind::RightBrace) {
                self.current = p + 1;
                self.skip_semicolon();
                Ok(ASTNode::Return(None))
            } else {
                self.current = p + 1;
                let e = match self.parse_expression() {
                    Ok(e) => e,
                    Err(err) => return Err(err),
                };
                self.skip_semicolon();
                Ok(ASTNode::Return(Some(Box::new(e))))
            }
        } else if k == Some(TokenKind::Break) {
            self.current = p + 1;
            self.skip_semicolon();
            Ok(ASTNode::Break)
        } else if k == Some(TokenKind::Continue) {
            self.current = p + 1;
            self.skip_semicolon();
            Ok(ASTNode::Continue)
        } else if k == Some(TokenKind::Let) {
            self.parse_variable_declaration()
        } else {
            let e = match self.parse_expression() {
                Ok(e) => e,
                Err(err) => return Err(err),
            };
            self.skip_semicolon();
            Ok(e)
        }
    }

    /// An `if` statement; its first token is taken to be `if`.
    pub fn parse_if_statement(&mut self) -> (r: Result<ASTNode, IoError>)
        requires
            old(self).wf(),
        ensures
            final(self).wf(),
            final(self).spec_toks() == old(self).spec_toks(),
            match p_if(old(self).spec_toks(), old(self).spec_pos()) {
                Ok((n, q)) => r matches Ok(x) && x@ == n && final(self).spec_pos() == q
                    && old(self).spec_pos() < q <= old(self).spec_toks().len(),
                Err(m) => r matches Err(e) && e.spec_kind() == ErrorKind::ParserError && e.spec_message() == m,
            },
        decreases old(self).spec_toks().len() - old(self).spec_pos(), 15nat,
    {
        proof {
            self.lemma_bounds();
        }
        if self.current >= self.tokens.len() {
            return Err(parse_error("Unexpected end of input"));
        }
        self.current = self.current + 1;
        let c = match self.parse_expression() {
            Ok(c) => c,
            Err(e) => return Err(e),
        };
        match self.expect(TokenKind::LeftBrace) {
            Ok(()) => {},
            Err(e) => return Err(e),
        }
        let then_branch = match self.parse_block() {
            Ok(b) => b,
            Err(e) => return Err(e),
        };
        match self.expect(TokenKind::RightBrace) {
            Ok(()) => {},
            Err(e) => return Err(e),
        }
        if self.kind_at(self.current) == Some(TokenKind::Else) {
            self.current = self.current + 1;
            match self.expect(TokenKind::LeftBrace) {
                Ok(()) => {},
                Err(e) => return Err(e),
            }
            let else_branch = match self.parse_block() {
                Ok(b) => b,
                Err(e) => return Err(e),
            };
            match self.expect(TokenKind::RightBrace) {
                Ok(()) => {},
                Err(e) => return Err(e),
            }
            Ok(ASTNode::If { condition: Box::new(c), then_branch, else_branch: Some(else_branch) })
        } else {
            Ok(ASTNode::If { condition: Box::new(c), then_branch, else_branch: None })
        }
    }

    fn parse_variable_declaration(&mut self) -> (r: Result<ASTNode, IoError>)
        requires
            old(self).wf(),
        ensures
            final(self).wf(),
            final(self).spec_toks() == old(self).spec_toks(),
            match p_let(old(self).spec_toks(), old(self).spec_pos()) {
                Ok((n, q)) => r matches Ok(x) && x@ == n && final(self).spec_pos() == q
                    && old(self).spec_pos() < q <= old(self).spec_toks().len(),
                Err(m) => r matches Err(e) && e.spec_kind() == ErrorKind::ParserError && e.spec_message() == m,
            },
        decreases old(self).spec_toks().len() - old(self).spec_pos(), 14nat,
    {
        proof {
            self.lemma_bounds();
        }
        if self.current >= self.tokens.len() {
            return Err(parse_error("Unexpected end of input"));
        }
        self.current = self.current + 1;
        let name_pos = self.current;
        match self.expect(TokenKind::Identifier) {
            Ok(()) => {},
            Err(e) => return Err(e),
        }
        let name = self.text_at(name_pos);
        let annotation = if self.kind_at(self.current) == Some(TokenKind::Colon) {
            self.current = self.current + 1;
            let type_pos = self.current;
            match self.expect(TokenKind::Identifier) {
                Ok(()) => {},
                Err(e) => return Err(e),
            }
            Some(self.text_at(type_pos))
        } else {
            None
        };
        match self.expect(TokenKind::Equal) {
            Ok(()) => {},
            Err(e) => return Err(e),
        }
        let value = match self.parse_expression() {
            Ok(v) => v,
            Err(e) => return Err(e),
        };
        self.skip_semicolon();
        Ok(ASTNode::VariableDeclaration { name, type_annotation: annotation, value: Box::new(value), is_mutable: true })
    }

    fn parse_block(&mut self) -> (r: Result<Vec<ASTNode>, IoError>)
        requires
            old(self).wf(),
        ensures
            final(self).wf(),
            final(self).spec_toks() == old(self).spec_toks(),
            match p_block(old(self).spec_toks(), old(self).spec_pos(), Seq::empty()) {
                Ok((v, q)) => r matches Ok(x) && nodes_view(x@) == v && final(self).spec_pos() == q
                    && old(self).spec_pos() <= q <= old(self).spec_toks().len(),
                Err(m) => r matches Err(e) && e.spec_kind() == ErrorKind::ParserError && e.spec_message() == m,
            },
        decreases old(self).spec_toks().len() - old(self).spec_pos(), 17nat,
    {
        let ghost t = self.spec_toks();
        let ghost p0 = self.spec_pos();
        let mut items: Vec<ASTNode> = Vec::new();
        proof {
            assert(nodes_view(items@) =~= Seq::<NodeView>::empty());
        }
        loop
            invariant
                self.wf(),
                self.spec_toks() == t,
                t == old(self).spec_toks(),
                p0 == old(self).spec_pos(),
                p0 <= self.spec_pos() <= t.len(),
                p_block(t, p0, Seq::empty()) == p_block(t, self.spec_pos(), nodes_view(items@)),
            decreases t.len() - self.spec_pos(),
        {
            proof {
                self.lemma_bounds();
            }
            if self.current >= self.tokens.len() {
                return Err(parse_error("Unexpected end of input"));
            }
            if self.tokens[self.current].kind == TokenKind::RightBrace {
                return Ok(items);
            }
            let s = match self.parse_statement() {
                Ok(s) => s,
                Err(e) => return Err(e),
            };
            proof {
                lemma_nodes_view_push(items@, s);
            }
            items.push(s);
        }
    }

    fn parse_parameters(&mut self) -> (r: Result<Vec<Parameter>, IoError>)
        requires
            old(self).wf(),
        ensures
            final(self).wf(),
            final(self).spec_toks() == old(self).spec_toks(),
            match p_params(old(self).spec_toks(), old(self).spec_pos(), Seq::empty()) {
                Ok((v, q)) => r matches Ok(x) && params_view(x@) == v && final(self).spec_pos() == q
                    && old(self).spec_pos() <= q <= old(self).spec_toks().len(),
                Err(m) => r matches Err(e) && e.spec_kind() == ErrorKind::ParserError && e.spec_message() == m,
            },
    {
        let ghost t = self.spec_toks();
        let ghost p0 = self.spec_pos();
        let mut params: Vec<Parameter> = Vec::new();
        proof {
            self.lemma_bounds();
            assert(params_view(params@) =~= Seq::<(Seq<char>, Seq<char>)>::empty());
        }
        if self.kind_at(self.current) == Some(TokenKind::RightParen) {
            return Ok(params);
        }
        loop
            invariant
                self.wf(),
                self.spec_toks() == t,
                t == old(self).spec_toks(),
                p0 == old(self).spec_pos(),
                p0 <= self.spec_pos() <= t.len(),
                params@.len() > 0 || self.spec_pos() == p0,
                kind_at(t, p0) != Some(TokenKind::RightParen) || params@.len() > 0,
                p_params(t, p0, Seq::empty()) == p_params(t, self.spec_pos(), params_view(params@)),
            decreases t.len() - self.spec_pos(),
        {
            proof {
                self.lemma_bounds();
            }
            let name_pos = self.current;
            match self.expect(TokenKind::Identifier) {
                Ok(()) => {},
                Err(e) => return Err(e),
            }
            match self.expect(TokenKind::Colon) {
                Ok(()) => {},
                Err(e) => return Err(e),
            }
            let type_pos = self.current;
            match self.expect(TokenKind::Identifier) {
                Ok(()) => {},
                Err(e) => return Err(e),
            }
            let p = Parameter { name: self.text_at(name_pos), type_annotation: self.text_at(type_pos) };
            proof {
                assert(params_view(params@.push(p)) =~= params_view(params@).push((p.name@, p.type_annotation@)));
            }
            params.push(p);
            if self.kind_at(self.current) == Some(TokenKind::Comma) {
                self.current = self.current + 1;
            } else {
                return Ok(params);
            }
        }
    }

    /// A function declaration; its first token is taken to be `fn`.
    pub fn parse_function(&mut self) -> (r: Result<ASTNode, IoError>)
        requires
            old(self).wf(),
        ensures
            final(self).wf(),
            final(self).spec_toks() == old(self).spec_toks(),
            match p_function(old(self).spec_toks(), old(self).spec_pos()) {
                Ok((n, q)) => r matches Ok(x) && x@ == n && final(self).spec_pos() == q
                    && old(self).spec_pos() < q <= old(self).spec_toks().len(),
                Err(m) => r matches Err(e) && e.spec_kind() == ErrorKind::ParserError && e.spec_message() == m,
            },
    {
        proof {
            self.lemma_bounds();
        }
        if self.current >= self.tokens.len() {
            return Err(parse_error("Unexpected end of input"));
        }
        self.current = self.current + 1;
        let name_pos = self.current;
        match self.expect(TokenKind::Identifier) {
            Ok(()) => {},
            Err(e) => return Err(e),
        }
        let name = self.text_at(name_pos);
        match self.expect(TokenKind::LeftParen) {
            Ok(()) => {},
            Err(e) => return Err(e),
        }
        let params = match self.parse_parameters() {
            Ok(p) => p,
            Err(e) => return Err(e),
        };
        match self.expect(TokenKind::RightParen) {
            Ok(()) => {},
            Err(e) => return Err(e),
        }
        let return_type = if self.kind_at(self.current) == Some(TokenKind::Arrow) {
            self.current = self.current + 1;
            let type_pos = self.current;
            match self.expect(TokenKind::Identifier) {
                Ok(()) => {},
                Err(e) => return Err(e),
            }
            Some(self.text_at(type_pos))
        } else {
            None
        };
        match self.expect(TokenKind::LeftBrace) {
            Ok(()) => {},
            Err(e) => return Err(e),
        }
        let body = match self.parse_block() {
            Ok(b) => b,
            Err(e) => return Err(e),
        };
        match self.expect(TokenKind::RightBrace) {
            Ok(()) => {},
            Err(e) => return Err(e),
        }
        Ok(ASTNode::Function { name, params, return_type, body, is_async: false })
    }

    fn parse_declaration(&mut self) -> (r: Result<ASTNode, IoError>)
        requires
            old(self).wf(),
        ensures
            final(self).wf(),
            final(self).spec_toks() == old(self).spec_toks(),
            match p_declaration(old(self).spec_toks(), old(self).spec_pos()) {
                Ok((n, q)) => r matches Ok(x) && x@ == n && final(self).spec_pos() == q
                    && old(self).spec_pos() < q <= old(self).spec_toks().len(),
                Err(m) => r matches Err(e) && e.spec_kind() == ErrorKind::ParserError && e.spec_message() == m,
            },
    {
        if self.kind_at(self.current) == Some(TokenKind::Function) {
            self.parse_function()
        } else {
            self.parse_statement()
        }
    }

    /// The declarations from the current position to the end of the tokens.
    pub fn parse_program(&mut self) -> (r: Result<Vec<ASTNode>, IoError>)
        requires
            old(self).wf(),
        ensures
            final(self).wf(),
            final(self).spec_toks() == old(self).spec_toks(),
            match p_program(old(self).spec_toks(), old(self).spec_pos(), Seq::empty()) {
                Ok(v) => r matches Ok(x) && nodes_view(x@) == v,
                Err(m) => r matches Err(e) && e.spec_kind() == ErrorKind::ParserError && e.spec_message() == m,
            },
    {
        let ghost t = self.spec_toks();
        let ghost p0 = self.spec_pos();
        let mut nodes: Vec<ASTNode> = Vec::new();
        proof {
            assert(nodes_view(nodes@) =~= Seq::<NodeView>::empty());
        }
        loop
            invariant
                self.wf(),
                self.spec_toks() == t,
                t == old(self).spec_toks(),
                p0 == old(self).spec_pos(),
                p_program(t, p0, Seq::empty()) == p_program(t, self.spec_pos(), nodes_view(nodes@)),
            decreases t.len() - self.spec_pos(),
        {
            proof {
                self.lemma_bounds();
            }
            if self.current >= self.tokens.len() {
                return Ok(nodes);
            }
            let d = match self.parse_declaration() {
                Ok(d) => d,
                Err(e) => return Err(e),
            };
            proof {
                lemma_nodes_view_push(nodes@, d);
            }
            nodes.push(d);
        }
    }
}


/// Reading back the decimal notation of a number gives the number.
pub proof fn law_decimal_reads_back(n: nat)
    ensures
        all_digits(decimal(n)),
        digits_value(decimal(n)) == n,
    decreases n,
{
    let d = (n % 10) as nat;
    assert(digit_char(d) as u32 - '0' as u32 == d && is_ascii_digit(digit_char(d))) by {
        assert(0 <= d < 10);
    }
    if n < 10 {
        assert(decimal(n).drop_last() =~= Seq::<char>::empty());
        assert(decimal(n).last() == digit_char(d));
        assert(digits_value(decimal(n)) == digits_value(decimal(n).drop_last()) * 10 + ((decimal(n).last() as u32) - ('0' as u32)) as nat);
        assert(digits_value(Seq::<char>::empty()) == 0);
    } else {
        law_decimal_reads_back(n / 10);
        let s = decimal(n);
        assert(s.drop_last() =~= decimal(n / 10));
        assert(n == (n / 10) * 10 + n % 10) by (nonlinear_arith);
        assert(s.last() == digit_char(d));
        assert(digits_value(s) == digits_value(s.drop_last()) * 10 + ((s.last() as u32) - ('0' as u32)) as nat);
        assert(digits_value(s) == (n / 10) * 10 + d);
        assert forall|i: int| 0 <= i < s.len() implies is_ascii_digit(#[trigger] s[i]) by {
            if i < s.len() - 1 {
                assert(s[i] == decimal(n / 10)[i]);
            }
        }
    }
}

} // verus!
