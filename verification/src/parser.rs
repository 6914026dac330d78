//! Statements, and the recursive-descent parser that builds them.
//!
//! The grammar, from the loosest binding to the tightest:
//!
//! ```text
//! program     → declaration* EOF
//! declaration → varDecl | printStmt | ifStmt | whileStmt | block | exprStmt
//! varDecl     → "var" IDENTIFIER "=" expression ";"
//! ifStmt      → "if" "(" expression ")" declaration ("else" declaration)?
//! whileStmt   → "while" "(" expression ")" declaration
//! block       → "{" declaration* "}"
//! printStmt   → "print" expression ";"
//! exprStmt    → expression ";"
//! expression  → assignment
//! assignment  → (IDENTIFIER "=" assignment) | logic_or
//! logic_or    → logic_and ("or" logic_and)*
//! logic_and   → equality ("and" equality)*
//! equality    → comparison (("!=" | "==") comparison)*
//! comparison  → term ((">" | ">=" | "<" | "<=") term)*
//! term        → factor (("-" | "+") factor)*
//! factor      → unary (("/" | "*") unary)*
//! unary       → ("!" | "-") unary | primary
//! primary     → INT | FLOAT | STRING | "true" | "false" | "nil"
//!             | "(" expression ")" | IDENTIFIER
//! ```
//!
//! Operators of one level chain and bind to the left: `1 - 2 - 3` is
//! `(1 - 2) - 3`.
//!
//! The parser looks one token ahead and never goes back. Where it expects a
//! token it takes the next one whatever it is, and reports it when it is
//! another; the tree is built all the same. Only an expression that cannot
//! start where it should makes its statement fail. A failed statement is left
//! out of the list, and [`Parser::synchronize`] passes the tokens up to the
//! place where the next statement may start.
//!
//! What each production gives is stated by a function of the tokens and a
//! position ([`parse_program`], [`parse_declaration`], [`parse_expression`],
//! and so on); the methods of [`Parser`] compute exactly that.
use vstd::prelude::*;
use crate::error::{note, Diagnostic, DiagnosticView, ErrorMsg, Problem};
use crate::expr::{Expr, ExprView};
use crate::scanner::{end_token, option_seq};
use crate::token::{LiteralValue, Token, TokenView, Value};
use crate::token_type::TokenType;

verus! {

#[derive(Debug, PartialEq)]
pub enum Stmt {
    Expression(Expr),
    Print(Expr),
    Block(Vec<Stmt>),
    Variable { token: Token, expression: Expr },
    If { condition: Expr, then_branch: Box<Stmt>, else_branch: Option<Box<Stmt>> },
    While { expr: Expr, stmt: Box<Stmt> },
}

/// What a [`Stmt`] stands for.
pub enum StmtView {
    Expression(ExprView),
    Print(ExprView),
    Block(Seq<StmtView>),
    Variable { token: TokenView, expression: ExprView },
    If { condition: ExprView, then_branch: Box<StmtView>, else_branch: Option<Box<StmtView>> },
    While { expr: ExprView, stmt: Box<StmtView> },
}

/// The tree of views that a statement stands for.
pub open spec fn stmt_view(s: Stmt) -> StmtView
    decreases s,
{
    match s {
        Stmt::Expression(e) => StmtView::Expression(e@),
        Stmt::Print(e) => StmtView::Print(e@),
        Stmt::Block(v) => StmtView::Block(
            Seq::new(
                v@.len(),
                |i: int|
                    if 0 <= i < v@.len() {
                        stmt_view(v@[i])
                    } else {
                        arbitrary()
                    },
            ),
        ),
        Stmt::Variable { token, expression } => StmtView::Variable {
            token: token@,
            expression: expression@,
        },
        Stmt::If { condition, then_branch, else_branch } => StmtView::If {
            condition: condition@,
            then_branch: Box::new(stmt_view(*then_branch)),
            else_branch: match else_branch {
                Some(b) => Some(Box::new(stmt_view(*b))),
                None => None,
            },
        },
        Stmt::While { expr, stmt } => StmtView::While {
            expr: expr@,
            stmt: Box::new(stmt_view(*stmt)),
        },
    }
}

impl View for Stmt {
    type V = StmtView;

    open spec fn view(&self) -> StmtView {
        stmt_view(*self)
    }
}

impl DeepView for Stmt {
    type V = StmtView;

    open spec fn deep_view(&self) -> StmtView {
        self@
    }
}

/// The views of a list of statements. `stmts.deep_view()` is the same
/// sequence.
pub open spec fn stmts_view(stmts: Seq<Stmt>) -> Seq<StmtView> {
    Seq::new(stmts.len(), |i: int| stmts[i]@)
}

/// How many tokens lie at `pos` and behind it.
pub open spec fn remaining(tokens: Seq<TokenView>, pos: int) -> nat {
    if pos < tokens.len() {
        (tokens.len() - pos) as nat
    } else {
        0
    }
}

/// The input ends at the end-of-input token, and where the tokens end.
pub open spec fn at_end(tokens: Seq<TokenView>, pos: int) -> bool {
    !(0 <= pos < tokens.len()) || tokens[pos].token_type == TokenType::Eof
}

/// The token at `pos` is of kind `kind`.
pub open spec fn check(tokens: Seq<TokenView>, pos: int, kind: TokenType) -> bool {
    !at_end(tokens, pos) && tokens[pos].token_type == kind
}

/// How many tokens advancing passes: one, and none at the end.
pub open spec fn step(tokens: Seq<TokenView>, pos: int) -> nat {
    if at_end(tokens, pos) {
        0
    } else {
        1
    }
}

/// The token at `pos`.
pub open spec fn peeked(tokens: Seq<TokenView>, pos: int) -> TokenView {
    if 0 <= pos < tokens.len() {
        tokens[pos]
    } else {
        end_token(0)
    }
}

/// The token before `pos`, which advancing has just passed; at the very
/// start, the token there.
pub open spec fn previous(tokens: Seq<TokenView>, pos: int) -> TokenView {
    if 0 < pos <= tokens.len() {
        tokens[pos - 1]
    } else {
        peeked(tokens, pos)
    }
}

/// The token that consuming at `pos` takes: advancing passes it, unless
/// the input has ended.
#[verifier::opaque]
pub open spec fn consumed(tokens: Seq<TokenView>, pos: int) -> TokenView {
    previous(tokens, pos + step(tokens, pos))
}

/// What consuming at `pos` reports when a token of kind `kind` is expected.
#[verifier::opaque]
pub open spec fn expected(
    tokens: Seq<TokenView>,
    pos: int,
    kind: TokenType,
    problem: Problem,
) -> Seq<DiagnosticView> {
    if consumed(tokens, pos).token_type == kind {
        seq![]
    } else {
        seq![ErrorMsg::blame(consumed(tokens, pos), problem)]
    }
}

/// What one production gives at a position: the node, unless it failed, how
/// many tokens it used, and what it reported.
pub struct Parsed<T> {
    pub node: Option<T>,
    pub used: nat,
    pub issues: Seq<DiagnosticView>,
}

/// The levels of binary operators, from the loosest to the tightest.
#[derive(Debug, Clone, Copy, PartialEq, Eq, Structural)]
pub enum Level {
    Or,
    And,
    Equality,
    Comparison,
    Term,
    Factor,
}

pub open spec fn rank(level: Level) -> nat {
    match level {
        Level::Or => 10,
        Level::And => 9,
        Level::Equality => 8,
        Level::Comparison => 7,
        Level::Term => 6,
        Level::Factor => 5,
    }
}

/// The operators of each level.
pub open spec fn is_operator(level: Level, kind: TokenType) -> bool {
    match level {
        Level::Or => kind == TokenType::Or,
        Level::And => kind == TokenType::And,
        Level::Equality => kind == TokenType::BangEqual || kind == TokenType::EqualEqual,
        Level::Comparison => kind == TokenType::Greater || kind == TokenType::GreaterEqual || kind
            == TokenType::Less || kind == TokenType::LessEqual,
        Level::Term => kind == TokenType::Minus || kind == TokenType::Plus,
        Level::Factor => kind == TokenType::Slash || kind == TokenType::Star,
    }
}

/// The node of an operator of `level` between two operands.
pub open spec fn joined(level: Level, left: ExprView, operator: TokenView, right: ExprView) -> ExprView {
    match level {
        Level::Or => ExprView::Logical { left: Box::new(left), operator, right: Box::new(right) },
        Level::And => ExprView::Logical { left: Box::new(left), operator, right: Box::new(right) },
        _ => ExprView::Binary { left: Box::new(left), operator, right: Box::new(right) },
    }
}

/// The value that a literal token carries; nil when it carries none.
pub open spec fn payload(token: TokenView) -> Value {
    match token.literal {
        Some(v) => v,
        None => Value::Nil,
    }
}

/// One production after another.
pub open spec fn and_then<A, B>(first: Parsed<A>, second: Parsed<B>) -> Parsed<B> {
    Parsed {
        node: second.node,
        used: first.used + second.used,
        issues: first.issues + second.issues,
    }
}

/// A production that failed after `first`.
pub open spec fn failed<A, B>(first: Parsed<A>) -> Parsed<B> {
    Parsed { node: None, used: first.used, issues: first.issues }
}

/// primary → INT | FLOAT | STRING | "true" | "false" | "nil"
///         | "(" expression ")" | IDENTIFIER
///
/// A missing `)` is reported, and the grouping stands. Where no form fits,
/// that is reported and the production fails without using a token.
pub open spec fn parse_primary(tokens: Seq<TokenView>, pos: int) -> Parsed<ExprView>
    decreases remaining(tokens, pos), 3nat, 0nat,
{
    if at_end(tokens, pos) {
        Parsed {
            node: None,
            used: 0,
            issues: seq![ErrorMsg::blame(peeked(tokens, pos), Problem::ExpectExpression)],
        }
    } else {
        let t = tokens[pos];
        match t.token_type {
            TokenType::INumber => Parsed {
                node: Some(ExprView::Literal { value: payload(t) }),
                used: 1,
                issues: seq![],
            },
            TokenType::FNumber => Parsed {
                node: Some(ExprView::Literal { value: payload(t) }),
                used: 1,
                issues: seq![],
            },
            TokenType::String => Parsed {
                node: Some(ExprView::Literal { value: payload(t) }),
                used: 1,
                issues: seq![],
            },
            TokenType::True => Parsed {
                node: Some(ExprView::Literal { value: Value::True }),
                used: 1,
                issues: seq![],
            },
            TokenType::False => Parsed {
                node: Some(ExprView::Literal { value: Value::False }),
                used: 1,
                issues: seq![],
            },
            TokenType::Nil => Parsed {
                node: Some(ExprView::Literal { value: Value::Nil }),
                used: 1,
                issues: seq![],
            },
            TokenType::Identifier => Parsed {
                node: Some(ExprView::Variable { name: t }),
                used: 1,
                issues: seq![],
            },
            TokenType::LeftParen => {
                let inner = parse_expression(tokens, pos + 1);
                match inner.node {
                    Some(e) => {
                        let close = pos + 1 + inner.used;
                        Parsed {
                            node: Some(ExprView::Grouping { expression: Box::new(e) }),
                            used: 1 + inner.used + step(tokens, close),
                            issues: inner.issues + expected(
                                tokens,
                                close,
                                TokenType::RightParen,
                                Problem::ExpectRightParen,
                            ),
                        }
                    },
                    None => Parsed { node: None, used: 1 + inner.used, issues: inner.issues },
                }
            },
            _ => Parsed {
                node: None,
                used: 0,
                issues: seq![ErrorMsg::blame(t, Problem::ExpectExpression)],
            },
        }
    }
}

/// unary → ("!" | "-") unary | primary
pub open spec fn parse_unary(tokens: Seq<TokenView>, pos: int) -> Parsed<ExprView>
    decreases remaining(tokens, pos), 4nat, 0nat,
{
    if check(tokens, pos, TokenType::Bang) || check(tokens, pos, TokenType::Minus) {
        let operand = parse_unary(tokens, pos + 1);
        Parsed {
            node: match operand.node {
                Some(e) => Some(ExprView::Unary { operator: tokens[pos], expression: Box::new(e) }),
                None => None,
            },
            used: 1 + operand.used,
            issues: operand.issues,
        }
    } else {
        parse_primary(tokens, pos)
    }
}

/// An operand of an operator of `level`: an expression of the next tighter
/// level, and a unary expression at the tightest.
pub open spec fn parse_operand(tokens: Seq<TokenView>, pos: int, level: Level) -> Parsed<ExprView>
    decreases remaining(tokens, pos), rank(level), 1nat,
{
    match level {
        Level::Or => parse_binary(tokens, pos, Level::And),
        Level::And => parse_binary(tokens, pos, Level::Equality),
        Level::Equality => parse_binary(tokens, pos, Level::Comparison),
        Level::Comparison => parse_binary(tokens, pos, Level::Term),
        Level::Term => parse_binary(tokens, pos, Level::Factor),
        Level::Factor => parse_unary(tokens, pos),
    }
}

/// What follows an operand `left` that ends at `pos`: as long as an
/// operator of `level` comes next, it and the operand behind it are joined
/// to what stands on the left.
pub open spec fn parse_binary_rest(
    tokens: Seq<TokenView>,
    left: ExprView,
    pos: int,
    level: Level,
) -> Parsed<ExprView>
    decreases remaining(tokens, pos), rank(level), 0nat,
{
    if !at_end(tokens, pos) && is_operator(level, tokens[pos].token_type) {
        let right = parse_operand(tokens, pos + 1, level);
        match right.node {
            Some(r) => {
                let rest = parse_binary_rest(
                    tokens,
                    joined(level, left, tokens[pos], r),
                    pos + 1 + right.used,
                    level,
                );
                Parsed {
                    node: rest.node,
                    used: 1 + right.used + rest.used,
                    issues: right.issues + rest.issues,
                }
            },
            None => Parsed { node: None, used: 1 + right.used, issues: right.issues },
        }
    } else {
        Parsed { node: Some(left), used: 0, issues: seq![] }
    }
}

/// A chain of operators of one level, which binds to the left:
///
/// logic_or → logic_and ("or" logic_and)*,
/// logic_and → equality ("and" equality)*,
/// equality → comparison (("!=" | "==") comparison)*,
/// comparison → term ((">" | ">=" | "<" | "<=") term)*,
/// term → factor (("-" | "+") factor)*,
/// factor → unary (("/" | "*") unary)*.
pub open spec fn parse_binary(tokens: Seq<TokenView>, pos: int, level: Level) -> Parsed<ExprView>
    decreases remaining(tokens, pos), rank(level), 2nat,
{
    let first = parse_operand(tokens, pos, level);
    match first.node {
        Some(left) => and_then(first, parse_binary_rest(tokens, left, pos + first.used, level)),
        None => first,
    }
}

/// assignment → (IDENTIFIER "=" assignment) | logic_or
///
/// Whatever stands left of `=` is parsed as an expression first. Only a
/// variable can be assigned to: anything else is reported, and stands for
/// the whole.
pub open spec fn parse_assignment(tokens: Seq<TokenView>, pos: int) -> Parsed<ExprView>
    decreases remaining(tokens, pos), 11nat, 0nat,
{
    let left = parse_binary(tokens, pos, Level::Or);
    match left.node {
        Some(target) => if check(tokens, pos + left.used, TokenType::Equal) {
            let equals = tokens[pos + left.used];
            let value = parse_assignment(tokens, pos + left.used + 1);
            match value.node {
                Some(v) => match target {
                    ExprView::Variable { name } => Parsed {
                        node: Some(ExprView::Assign { name, value: Box::new(v) }),
                        used: left.used + 1 + value.used,
                        issues: left.issues + value.issues,
                    },
                    _ => Parsed {
                        node: Some(target),
                        used: left.used + 1 + value.used,
                        issues: left.issues + value.issues + seq![
                            ErrorMsg::blame(equals, Problem::InvalidAssignmentTarget),
                        ],
                    },
                },
                None => Parsed {
                    node: None,
                    used: left.used + 1 + value.used,
                    issues: left.issues + value.issues,
                },
            }
        } else {
            left
        },
        None => left,
    }
}

/// expression → assignment
pub open spec fn parse_expression(tokens: Seq<TokenView>, pos: int) -> Parsed<ExprView>
    decreases remaining(tokens, pos), 12nat, 0nat,
{
    parse_assignment(tokens, pos)
}

/// An expression and the `;` behind it, which is consumed and reported when
/// it is another token.
#[verifier::opaque]
pub open spec fn parse_to_semicolon(tokens: Seq<TokenView>, pos: int) -> Parsed<ExprView> {
    let e = parse_expression(tokens, pos);
    match e.node {
        Some(_) => Parsed {
            node: e.node,
            used: e.used + step(tokens, pos + e.used),
            issues: e.issues + expected(
                tokens,
                pos + e.used,
                TokenType::Semicolon,
                Problem::ExpectStatementEnd,
            ),
        },
        None => e,
    }
}

/// exprStmt → expression ";"
#[verifier::opaque]
pub open spec fn parse_expression_stmt(tokens: Seq<TokenView>, pos: int) -> Parsed<StmtView> {
    let e = parse_to_semicolon(tokens, pos);
    Parsed {
        node: match e.node {
            Some(x) => Some(StmtView::Expression(x)),
            None => None,
        },
        used: e.used,
        issues: e.issues,
    }
}

/// printStmt → "print" expression ";", from behind the keyword on.
#[verifier::opaque]
pub open spec fn parse_print_stmt(tokens: Seq<TokenView>, pos: int) -> Parsed<StmtView> {
    let e = parse_to_semicolon(tokens, pos);
    Parsed {
        node: match e.node {
            Some(x) => Some(StmtView::Print(x)),
            None => None,
        },
        used: e.used,
        issues: e.issues,
    }
}

/// varDecl → "var" IDENTIFIER "=" expression ";", from behind the keyword
/// on. The token in the place of the name is taken for the name.
#[verifier::opaque]
pub open spec fn parse_var_declaration(tokens: Seq<TokenView>, pos: int) -> Parsed<StmtView> {
    let name = consumed(tokens, pos);
    let after_name = pos + step(tokens, pos);
    let after_equal = after_name + step(tokens, after_name);
    let head = expected(tokens, pos, TokenType::Identifier, Problem::ExpectIdentifier) + expected(
        tokens,
        after_name,
        TokenType::Equal,
        Problem::ExpectAssign,
    );
    let e = parse_to_semicolon(tokens, after_equal);
    Parsed {
        node: match e.node {
            Some(x) => Some(StmtView::Variable { token: name, expression: x }),
            None => None,
        },
        used: step(tokens, pos) + step(tokens, after_name) + e.used,
        issues: head + e.issues,
    }
}

/// statement → printStmt | exprStmt: a statement that declares nothing and
/// holds no other statement.
pub open spec fn parse_statement(tokens: Seq<TokenView>, pos: int) -> Parsed<StmtView> {
    if check(tokens, pos, TokenType::Print) {
        let p = parse_print_stmt(tokens, pos + 1);
        Parsed { node: p.node, used: 1 + p.used, issues: p.issues }
    } else {
        parse_expression_stmt(tokens, pos)
    }
}

/// The keywords that start a statement, where recovery stops.
pub open spec fn starts_statement(kind: TokenType) -> bool {
    kind == TokenType::Class || kind == TokenType::Fun || kind == TokenType::Var || kind
        == TokenType::For || kind == TokenType::If || kind == TokenType::While || kind
        == TokenType::Print || kind == TokenType::Return
}

/// How many tokens recovery passes from `pos` on, one token having been
/// passed already: up to the end, behind a `;`, or before a keyword that
/// starts a statement.
pub open spec fn skipped_from(tokens: Seq<TokenView>, pos: int) -> nat
    decreases remaining(tokens, pos),
{
    if at_end(tokens, pos) || previous(tokens, pos).token_type == TokenType::Semicolon
        || starts_statement(tokens[pos].token_type) {
        0
    } else {
        1 + skipped_from(tokens, pos + 1)
    }
}

/// How many tokens recovery passes at `pos`: at least one, unless the input
/// has ended.
pub open spec fn skipped(tokens: Seq<TokenView>, pos: int) -> nat {
    if at_end(tokens, pos) {
        0
    } else {
        1 + skipped_from(tokens, pos + 1)
    }
}

/// A statement in a list. One that failed, or used no token, is left out, and
/// the tokens that recovery passes are used with it.
pub open spec fn recovered(tokens: Seq<TokenView>, pos: int, d: Parsed<StmtView>) -> Parsed<StmtView> {
    if d.node is Some && d.used > 0 {
        d
    } else {
        Parsed { node: None, used: d.used + skipped(tokens, pos + d.used), issues: d.issues }
    }
}

/// "(" expression ")": the condition of `if` and `while`, with what is
/// reported when the one or the other parenthesis is missing.
#[verifier::opaque]
pub open spec fn parse_condition(
    tokens: Seq<TokenView>,
    pos: int,
    open: Problem,
    close: Problem,
) -> Parsed<ExprView> {
    let at_condition = pos + step(tokens, pos);
    let c = parse_expression(tokens, at_condition);
    let head = expected(tokens, pos, TokenType::LeftParen, open);
    match c.node {
        Some(_) => {
            let at_close = at_condition + c.used;
            Parsed {
                node: c.node,
                used: step(tokens, pos) + c.used + step(tokens, at_close),
                issues: head + c.issues + expected(tokens, at_close, TokenType::RightParen, close),
            }
        },
        None => Parsed { node: None, used: step(tokens, pos) + c.used, issues: head + c.issues },
    }
}

/// ifStmt → "if" "(" expression ")" declaration ("else" declaration)?,
/// from behind the keyword on.
pub open spec fn parse_if_stmt(tokens: Seq<TokenView>, pos: int) -> Parsed<StmtView>
    decreases remaining(tokens, pos) + 1, 19nat, 0nat,
{
    let c = parse_condition(tokens, pos, Problem::ExpectIfOpen, Problem::ExpectIfClose);
    match c.node {
        Some(condition) => {
            let t = parse_declaration(tokens, pos + c.used);
            match t.node {
                Some(then_branch) => {
                    let at_else = pos + c.used + t.used;
                    if check(tokens, at_else, TokenType::Else) {
                        let e = parse_declaration(tokens, at_else + 1);
                        Parsed {
                            node: match e.node {
                                Some(else_branch) => Some(
                                    StmtView::If {
                                        condition,
                                        then_branch: Box::new(then_branch),
                                        else_branch: Some(Box::new(else_branch)),
                                    },
                                ),
                                None => None,
                            },
                            used: c.used + t.used + 1 + e.used,
                            issues: c.issues + t.issues + e.issues,
                        }
                    } else {
                        Parsed {
                            node: Some(
                                StmtView::If {
                                    condition,
                                    then_branch: Box::new(then_branch),
                                    else_branch: None,
                                },
                            ),
                            used: c.used + t.used,
                            issues: c.issues + t.issues,
                        }
                    }
                },
                None => Parsed { node: None, used: c.used + t.used, issues: c.issues + t.issues },
            }
        },
        None => failed(c),
    }
}

/// whileStmt → "while" "(" expression ")" declaration, from behind the
/// keyword on.
pub open spec fn parse_while_stmt(tokens: Seq<TokenView>, pos: int) -> Parsed<StmtView>
    decreases remaining(tokens, pos) + 1, 19nat, 0nat,
{
    let c = parse_condition(tokens, pos, Problem::ExpectWhileOpen, Problem::ExpectWhileClose);
    match c.node {
        Some(expr) => {
            let b = parse_declaration(tokens, pos + c.used);
            Parsed {
                node: match b.node {
                    Some(body) => Some(StmtView::While { expr, stmt: Box::new(body) }),
                    None => None,
                },
                used: c.used + b.used,
                issues: c.issues + b.issues,
            }
        },
        None => failed(c),
    }
}

/// The statements of a block, up to its `}` or the end of input.
pub open spec fn parse_block_items(tokens: Seq<TokenView>, pos: int) -> Parsed<Seq<StmtView>>
    decreases remaining(tokens, pos), 22nat, 0nat,
{
    if at_end(tokens, pos) || check(tokens, pos, TokenType::RightBrace) {
        Parsed { node: Some(seq![]), used: 0, issues: seq![] }
    } else {
        let item = recovered(tokens, pos, parse_declaration(tokens, pos));
        let rest = parse_block_items(tokens, pos + item.used);
        Parsed {
            node: Some(option_seq(item.node) + rest.node->0),
            used: item.used + rest.used,
            issues: item.issues + rest.issues,
        }
    }
}

/// block → "{" declaration* "}", from behind the brace on.
pub open spec fn parse_block(tokens: Seq<TokenView>, pos: int) -> Parsed<StmtView>
    decreases remaining(tokens, pos) + 1, 19nat, 0nat,
{
    let items = parse_block_items(tokens, pos);
    let at_close = pos + items.used;
    Parsed {
        node: Some(StmtView::Block(items.node->0)),
        used: items.used + step(tokens, at_close),
        issues: items.issues + expected(
            tokens,
            at_close,
            TokenType::RightBrace,
            Problem::ExpectBlockEnd,
        ),
    }
}

/// declaration → varDecl | printStmt | ifStmt | whileStmt | block | exprStmt
pub open spec fn parse_declaration(tokens: Seq<TokenView>, pos: int) -> Parsed<StmtView>
    decreases remaining(tokens, pos), 20nat, 0nat,
{
    if at_end(tokens, pos) {
        parse_expression_stmt(tokens, pos)
    } else {
        let inner = match tokens[pos].token_type {
            TokenType::Var => Some(parse_var_declaration(tokens, pos + 1)),
            TokenType::Print => Some(parse_print_stmt(tokens, pos + 1)),
            TokenType::If => Some(parse_if_stmt(tokens, pos + 1)),
            TokenType::While => Some(parse_while_stmt(tokens, pos + 1)),
            TokenType::LeftBrace => Some(parse_block(tokens, pos + 1)),
            _ => None,
        };
        match inner {
            Some(p) => Parsed { node: p.node, used: 1 + p.used, issues: p.issues },
            None => parse_expression_stmt(tokens, pos),
        }
    }
}

/// program → declaration* EOF
pub open spec fn parse_program(tokens: Seq<TokenView>, pos: int) -> Parsed<Seq<StmtView>>
    decreases remaining(tokens, pos),
{
    if at_end(tokens, pos) {
        Parsed { node: Some(seq![]), used: 0, issues: seq![] }
    } else {
        let item = recovered(tokens, pos, parse_declaration(tokens, pos));
        let rest = parse_program(tokens, pos + item.used);
        Parsed {
            node: Some(option_seq(item.node) + rest.node->0),
            used: item.used + rest.used,
            issues: item.issues + rest.issues,
        }
    }
}

/// Whether `kind` is an operator of `level`.
pub fn operator_at(level: Level, kind: TokenType) -> (b: bool)
    ensures
        b == is_operator(level, kind),
{
    match level {
        Level::Or => kind == TokenType::Or,
        Level::And => kind == TokenType::And,
        Level::Equality => kind == TokenType::BangEqual || kind == TokenType::EqualEqual,
        Level::Comparison => kind == TokenType::Greater || kind == TokenType::GreaterEqual || kind
            == TokenType::Less || kind == TokenType::LessEqual,
        Level::Term => kind == TokenType::Minus || kind == TokenType::Plus,
        Level::Factor => kind == TokenType::Slash || kind == TokenType::Star,
    }
}

/// The node of an operator of `level` between two operands.
pub fn join(level: Level, left: Expr, operator: Token, right: Expr) -> (r: Expr)
    ensures
        r@ == joined(level, left@, operator@, right@),
{
    match level {
        Level::Or => Expr::Logical { left: Box::new(left), operator, right: Box::new(right) },
        Level::And => Expr::Logical { left: Box::new(left), operator, right: Box::new(right) },
        _ => Expr::Binary { left: Box::new(left), operator, right: Box::new(right) },
    }
}

#[derive(Debug)]
pub struct Parser {
    tokens: Vec<Token>,
    current: usize,
    diagnostics: Vec<Diagnostic>,
}

impl Parser {
    /// The tokens that are parsed.
    pub closed spec fn stream(&self) -> Seq<TokenView> {
        self.tokens.deep_view()
    }

    /// The index of the next token.
    pub closed spec fn position(&self) -> int {
        self.current as int
    }

    /// The diagnostics given so far.
    pub closed spec fn issues(&self) -> Seq<DiagnosticView> {
        self.diagnostics.deep_view()
    }

    /// The position lies among the tokens or at their end.
    pub closed spec fn wf(&self) -> bool {
        self.current <= self.tokens.len()
    }

    /// How the parser stands after the production `p` from the state
    /// `before`: it has passed the tokens that `p` used and has added what
    /// `p` reported.
    pub open spec fn follows<T>(self, before: Self, p: Parsed<T>) -> bool {
        &&& self.wf()
        &&& self.stream() == before.stream()
        &&& self.position() == before.position() + p.used
        &&& self.issues() == before.issues() + p.issues
    }

    /// A parser at the first of `tokens`.
    pub fn new(tokens: Vec<Token>) -> (p: Parser)
        ensures
            p.wf(),
            p.stream() == tokens.deep_view(),
            p.position() == 0,
            p.issues() == Seq::<DiagnosticView>::empty(),
    {
        let p = Parser { tokens, current: 0, diagnostics: Vec::new() };
        assert(p.diagnostics.deep_view() =~= Seq::<DiagnosticView>::empty());
        p
    }

    /// The diagnostics given so far.
    pub fn diagnostics(&self) -> (r: &[Diagnostic])
        ensures
            r.deep_view() == self.issues(),
    {
        let r = self.diagnostics.as_slice();
        assert(r.deep_view() =~= self.diagnostics.deep_view());
        r
    }

    /// Parses the statements up to the end of input. A statement that cannot
    /// be parsed is reported and left out; parsing goes on behind it.
    pub fn parse(self) -> (r: (Vec<Stmt>, Vec<Diagnostic>))
        requires
            self.wf(),
        ensures
            ({
                let p = parse_program(self.stream(), self.position());
                &&& stmts_view(r.0@) == p.node->0
                &&& r.1.deep_view() == self.issues() + p.issues
            }),
    {
        let mut me = self;
        let ghost start = me;
        let ghost whole = parse_program(me.stream(), me.position());
        let mut stmts: Vec<Stmt> = Vec::new();
        proof {
            assert(stmts_view(stmts@) + whole.node->0 =~= whole.node->0);
        }
        while !me.is_at_end()
            invariant
                me.wf(),
                me.stream() == start.stream(),
                whole == parse_program(start.stream(), start.position()),
                ({
                    let rest = parse_program(me.stream(), me.position());
                    &&& whole.node->0 == stmts_view(stmts@) + rest.node->0
                    &&& start.position() + whole.used == me.position() + rest.used
                    &&& start.issues() + whole.issues == me.issues() + rest.issues
                }),
            decreases remaining(me.stream(), me.position()),
        {
            let ghost before = me;
            let ghost list = stmts_view(stmts@);
            let ghost rest = parse_program(me.stream(), me.position());
            me.item(&mut stmts);
            proof {
                let next = parse_program(me.stream(), me.position());
                assert(stmts_view(stmts@) + next.node->0 =~= list + rest.node->0);
                assert(me.issues() + next.issues =~= before.issues() + rest.issues);
            }
        }
        proof {
            let rest = parse_program(me.stream(), me.position());
            assert(stmts_view(stmts@) + rest.node->0 =~= stmts_view(stmts@));
            assert(me.issues() + rest.issues =~= me.issues());
        }
        (stmts, me.diagnostics)
    }

    /// One statement of a list: it is added to `list`, or, where it cannot be
    /// parsed, left out, and recovery passes the tokens up to the next.
    fn item(&mut self, list: &mut Vec<Stmt>)
        requires
            old(self).wf(),
        ensures
            ({
                let p = recovered(
                    old(self).stream(),
                    old(self).position(),
                    parse_declaration(old(self).stream(), old(self).position()),
                );
                &&& final(self).follows(*old(self), p)
                &&& stmts_view(final(list)@) == stmts_view(old(list)@) + option_seq(p.node)
                &&& !at_end(old(self).stream(), old(self).position()) ==> p.used > 0
            }),
        decreases remaining(old(self).stream(), old(self).position()), 21nat, 0nat,
    {
        match self.declaration() {
            Some(s) => {
                list.push(s);
                assert(stmts_view(list@) =~= stmts_view(old(list)@) + seq![s@]);
            },
            None => {
                self.synchronize();
                assert(self.issues() + Seq::<DiagnosticView>::empty() =~= self.issues());
                assert(stmts_view(list@) + Seq::<StmtView>::empty() =~= stmts_view(list@));
            },
        }
    }

    /// statement → printStmt | exprStmt
    pub fn statement(&mut self) -> (r: Option<Stmt>)
        requires
            old(self).wf(),
        ensures
            final(self).follows(*old(self), parse_statement(old(self).stream(), old(self).position())),
            r.deep_view() == parse_statement(old(self).stream(), old(self).position()).node,
    {
        if self.match_token(TokenType::Print) {
            return self.print_stmt();
        }
        self.expression_stmt()
    }

    /// declaration → varDecl | printStmt | ifStmt | whileStmt | block | exprStmt
    pub fn declaration(&mut self) -> (r: Option<Stmt>)
        requires
            old(self).wf(),
        ensures
            final(self).follows(*old(self), parse_declaration(old(self).stream(), old(self).position())),
            r.deep_view() == parse_declaration(old(self).stream(), old(self).position()).node,
            r is Some ==> final(self).position() > old(self).position(),
        decreases remaining(old(self).stream(), old(self).position()), 20nat, 0nat,
    {
        if self.match_token(TokenType::Var) {
            return self.var_declaration();
        }
        if self.match_token(TokenType::Print) {
            return self.print_stmt();
        }
        if self.match_token(TokenType::If) {
            return self.if_stmt();
        }
        if self.match_token(TokenType::While) {
            return self.while_stmt();
        }
        if self.match_token(TokenType::LeftBrace) {
            return self.block();
        }
        self.expression_stmt()
    }

    /// block → "{" declaration* "}", from behind the brace on.
    fn block(&mut self) -> (r: Option<Stmt>)
        requires
            old(self).wf(),
        ensures
            final(self).follows(*old(self), parse_block(old(self).stream(), old(self).position())),
            r.deep_view() == parse_block(old(self).stream(), old(self).position()).node,
        decreases remaining(old(self).stream(), old(self).position()) + 1, 19nat, 0nat,
    {
        let ghost whole = parse_block_items(self.stream(), self.position());
        let mut statements: Vec<Stmt> = Vec::new();
        proof {
            assert(stmts_view(statements@) + whole.node->0 =~= whole.node->0);
        }
        while !self.check(TokenType::RightBrace) && !self.is_at_end()
            invariant
                self.wf(),
                self.stream() == old(self).stream(),
                self.position() >= old(self).position(),
                whole == parse_block_items(old(self).stream(), old(self).position()),
                ({
                    let rest = parse_block_items(self.stream(), self.position());
                    &&& whole.node->0 == stmts_view(statements@) + rest.node->0
                    &&& old(self).position() + whole.used == self.position() + rest.used
                    &&& old(self).issues() + whole.issues == self.issues() + rest.issues
                }),
            decreases remaining(self.stream(), self.position()),
        {
            let ghost before = *self;
            let ghost list = stmts_view(statements@);
            let ghost rest = parse_block_items(self.stream(), self.position());
            self.item(&mut statements);
            proof {
                let next = parse_block_items(self.stream(), self.position());
                assert(stmts_view(statements@) + next.node->0 =~= list + rest.node->0);
                assert(self.issues() + next.issues =~= before.issues() + rest.issues);
            }
        }
        proof {
            let rest = parse_block_items(self.stream(), self.position());
            assert(stmts_view(statements@) + rest.node->0 =~= stmts_view(statements@));
            assert(self.issues() + rest.issues =~= self.issues());
        }
        let _ = self.consume(TokenType::RightBrace, Problem::ExpectBlockEnd);
        let r = Stmt::Block(statements);
        proof {
            let p = parse_block(old(self).stream(), old(self).position());
            assert(r@->Block_0 =~= whole.node->0);
            assert(self.issues() =~= old(self).issues() + p.issues);
        }
        Some(r)
    }

    /// "(" expression ")"
    fn condition(&mut self, open: Problem, close: Problem) -> (r: Option<Expr>)
        requires
            old(self).wf(),
        ensures
            final(self).follows(
                *old(self),
                parse_condition(old(self).stream(), old(self).position(), open, close),
            ),
            r.deep_view() == parse_condition(old(self).stream(), old(self).position(), open, close).node,
        decreases remaining(old(self).stream(), old(self).position()), 13nat, 0nat,
    {
        proof {
            reveal(parse_condition);
        }
        let ghost p = parse_condition(self.stream(), self.position(), open, close);
        let _ = self.consume(TokenType::LeftParen, open);
        let c = match self.expression() {
            Some(c) => c,
            None => {
                assert(self.issues() =~= old(self).issues() + p.issues);
                return None;
            },
        };
        let _ = self.consume(TokenType::RightParen, close);
        assert(self.issues() =~= old(self).issues() + p.issues);
        Some(c)
    }

    /// ifStmt → "if" "(" expression ")" declaration ("else" declaration)?,
    /// from behind the keyword on.
    fn if_stmt(&mut self) -> (r: Option<Stmt>)
        requires
            old(self).wf(),
        ensures
            final(self).follows(*old(self), parse_if_stmt(old(self).stream(), old(self).position())),
            r.deep_view() == parse_if_stmt(old(self).stream(), old(self).position()).node,
        decreases remaining(old(self).stream(), old(self).position()) + 1, 19nat, 0nat,
    {
        let ghost p = parse_if_stmt(self.stream(), self.position());
        let condition = match self.condition(Problem::ExpectIfOpen, Problem::ExpectIfClose) {
            Some(c) => c,
            None => {
                return None;
            },
        };
        let then_stmt = match self.declaration() {
            Some(s) => s,
            None => {
                assert(self.issues() =~= old(self).issues() + p.issues);
                return None;
            },
        };
        if self.match_token(TokenType::Else) {
            let e = self.declaration();
            assert(self.issues() =~= old(self).issues() + p.issues);
            match e {
                Some(s) => Some(
                    Stmt::If {
                        condition,
                        then_branch: Box::new(then_stmt),
                        else_branch: Some(Box::new(s)),
                    },
                ),
                None => None,
            }
        } else {
            assert(self.issues() =~= old(self).issues() + p.issues);
            Some(Stmt::If { condition, then_branch: Box::new(then_stmt), else_branch: None })
        }
    }

    /// whileStmt → "while" "(" expression ")" declaration, from behind the
    /// keyword on.
    fn while_stmt(&mut self) -> (r: Option<Stmt>)
        requires
            old(self).wf(),
        ensures
            final(self).follows(*old(self), parse_while_stmt(old(self).stream(), old(self).position())),
            r.deep_view() == parse_while_stmt(old(self).stream(), old(self).position()).node,
        decreases remaining(old(self).stream(), old(self).position()) + 1, 19nat, 0nat,
    {
        let ghost p = parse_while_stmt(self.stream(), self.position());
        let expr = match self.condition(Problem::ExpectWhileOpen, Problem::ExpectWhileClose) {
            Some(c) => c,
            None => {
                return None;
            },
        };
        let body = self.declaration();
        assert(self.issues() =~= old(self).issues() + p.issues);
        match body {
            Some(s) => Some(Stmt::While { expr, stmt: Box::new(s) }),
            None => None,
        }
    }

    /// varDecl → "var" IDENTIFIER "=" expression ";", from behind the
    /// keyword on.
    fn var_declaration(&mut self) -> (r: Option<Stmt>)
        requires
            old(self).wf(),
        ensures
            final(self).follows(
                *old(self),
                parse_var_declaration(old(self).stream(), old(self).position()),
            ),
            r.deep_view() == parse_var_declaration(old(self).stream(), old(self).position()).node,
        decreases remaining(old(self).stream(), old(self).position()) + 1, 19nat, 0nat,
    {
        proof {
            reveal(parse_var_declaration);
        }
        let ghost p = parse_var_declaration(self.stream(), self.position());
        let token = self.consume(TokenType::Identifier, Problem::ExpectIdentifier);
        let _ = self.consume(TokenType::Equal, Problem::ExpectAssign);
        let e = self.to_semicolon();
        assert(self.issues() =~= old(self).issues() + p.issues);
        match e {
            Some(expression) => Some(Stmt::Variable { token, expression }),
            None => None,
        }
    }

    /// An expression and the `;` behind it.
    fn to_semicolon(&mut self) -> (r: Option<Expr>)
        requires
            old(self).wf(),
        ensures
            final(self).follows(*old(self), parse_to_semicolon(old(self).stream(), old(self).position())),
            r.deep_view() == parse_to_semicolon(old(self).stream(), old(self).position()).node,
            r is Some ==> final(self).position() > old(self).position(),
        decreases remaining(old(self).stream(), old(self).position()), 18nat, 0nat,
    {
        proof {
            reveal(parse_to_semicolon);
        }
        let e = match self.expression() {
            Some(e) => e,
            None => {
                return None;
            },
        };
        let _ = self.consume(TokenType::Semicolon, Problem::ExpectStatementEnd);
        proof {
            let p = parse_to_semicolon(old(self).stream(), old(self).position());
            assert(self.issues() =~= old(self).issues() + p.issues);
        }
        Some(e)
    }

    /// exprStmt → expression ";"
    fn expression_stmt(&mut self) -> (r: Option<Stmt>)
        requires
            old(self).wf(),
        ensures
            final(self).follows(
                *old(self),
                parse_expression_stmt(old(self).stream(), old(self).position()),
            ),
            r.deep_view() == parse_expression_stmt(old(self).stream(), old(self).position()).node,
            r is Some ==> final(self).position() > old(self).position(),
        decreases remaining(old(self).stream(), old(self).position()), 19nat, 0nat,
    {
        proof {
            reveal(parse_expression_stmt);
        }
        match self.to_semicolon() {
            Some(e) => Some(Stmt::Expression(e)),
            None => None,
        }
    }

    /// printStmt → "print" expression ";", from behind the keyword on.
    fn print_stmt(&mut self) -> (r: Option<Stmt>)
        requires
            old(self).wf(),
        ensures
            final(self).follows(*old(self), parse_print_stmt(old(self).stream(), old(self).position())),
            r.deep_view() == parse_print_stmt(old(self).stream(), old(self).position()).node,
        decreases remaining(old(self).stream(), old(self).position()) + 1, 19nat, 0nat,
    {
        proof {
            reveal(parse_print_stmt);
        }
        match self.to_semicolon() {
            Some(e) => Some(Stmt::Print(e)),
            None => None,
        }
    }

    /// expression → assignment
    pub fn expression(&mut self) -> (r: Option<Expr>)
        requires
            old(self).wf(),
        ensures
            final(self).follows(*old(self), parse_expression(old(self).stream(), old(self).position())),
            r.deep_view() == parse_expression(old(self).stream(), old(self).position()).node,
            r is Some ==> final(self).position() > old(self).position(),
        decreases remaining(old(self).stream(), old(self).position()), 12nat, 0nat,
    {
        self.assignment()
    }

    /// assignment → (IDENTIFIER "=" assignment) | logic_or
    fn assignment(&mut self) -> (r: Option<Expr>)
        requires
            old(self).wf(),
        ensures
            final(self).follows(*old(self), parse_assignment(old(self).stream(), old(self).position())),
            r.deep_view() == parse_assignment(old(self).stream(), old(self).position()).node,
            r is Some ==> final(self).position() > old(self).position(),
        decreases remaining(old(self).stream(), old(self).position()), 11nat, 0nat,
    {
        let ghost p = parse_assignment(self.stream(), self.position());
        let expr = match self.or() {
            Some(e) => e,
            None => {
                return None;
            },
        };
        if self.match_token(TokenType::Equal) {
            let token = self.previous();
            let value = match self.assignment() {
                Some(v) => v,
                None => {
                    assert(self.issues() =~= old(self).issues() + p.issues);
                    return None;
                },
            };
            return match expr {
                Expr::Variable { name } => {
                    assert(self.issues() =~= old(self).issues() + p.issues);
                    Some(Expr::Assign { name, value: Box::new(value) })
                },
                _ => {
                    self.error(&token, Problem::InvalidAssignmentTarget);
                    assert(self.issues() =~= old(self).issues() + p.issues);
                    Some(expr)
                },
            };
        }
        Some(expr)
    }

    /// logic_or → logic_and ("or" logic_and)*
    fn or(&mut self) -> (r: Option<Expr>)
        requires
            old(self).wf(),
        ensures
            final(self).follows(
                *old(self),
                parse_binary(old(self).stream(), old(self).position(), Level::Or),
            ),
            r.deep_view() == parse_binary(old(self).stream(), old(self).position(), Level::Or).node,
            r is Some ==> final(self).position() > old(self).position(),
        decreases remaining(old(self).stream(), old(self).position()), 10nat, 3nat,
    {
        self.binary(Level::Or)
    }

    /// logic_and → equality ("and" equality)*
    fn and(&mut self) -> (r: Option<Expr>)
        requires
            old(self).wf(),
        ensures
            final(self).follows(
                *old(self),
                parse_binary(old(self).stream(), old(self).position(), Level::And),
            ),
            r.deep_view() == parse_binary(old(self).stream(), old(self).position(), Level::And).node,
            r is Some ==> final(self).position() > old(self).position(),
        decreases remaining(old(self).stream(), old(self).position()), 9nat, 3nat,
    {
        self.binary(Level::And)
    }

    /// equality → comparison (("!=" | "==") comparison)*
    fn equality(&mut self) -> (r: Option<Expr>)
        requires
            old(self).wf(),
        ensures
            final(self).follows(
                *old(self),
                parse_binary(old(self).stream(), old(self).position(), Level::Equality),
            ),
            r.deep_view() == parse_binary(
                old(self).stream(),
                old(self).position(),
                Level::Equality,
            ).node,
            r is Some ==> final(self).position() > old(self).position(),
        decreases remaining(old(self).stream(), old(self).position()), 8nat, 3nat,
    {
        self.binary(Level::Equality)
    }

    /// comparison → term ((">" | ">=" | "<" | "<=") term)*
    fn comparison(&mut self) -> (r: Option<Expr>)
        requires
            old(self).wf(),
        ensures
            final(self).follows(
                *old(self),
                parse_binary(old(self).stream(), old(self).position(), Level::Comparison),
            ),
            r.deep_view() == parse_binary(
                old(self).stream(),
                old(self).position(),
                Level::Comparison,
            ).node,
            r is Some ==> final(self).position() > old(self).position(),
        decreases remaining(old(self).stream(), old(self).position()), 7nat, 3nat,
    {
        self.binary(Level::Comparison)
    }

    /// term → factor (("-" | "+") factor)*
    fn term(&mut self) -> (r: Option<Expr>)
        requires
            old(self).wf(),
        ensures
            final(self).follows(
                *old(self),
                parse_binary(old(self).stream(), old(self).position(), Level::Term),
            ),
            r.deep_view() == parse_binary(old(self).stream(), old(self).position(), Level::Term).node,
            r is Some ==> final(self).position() > old(self).position(),
        decreases remaining(old(self).stream(), old(self).position()), 6nat, 3nat,
    {
        self.binary(Level::Term)
    }

    /// factor → unary (("/" | "*") unary)*
    fn factor(&mut self) -> (r: Option<Expr>)
        requires
            old(self).wf(),
        ensures
            final(self).follows(
                *old(self),
                parse_binary(old(self).stream(), old(self).position(), Level::Factor),
            ),
            r.deep_view() == parse_binary(old(self).stream(), old(self).position(), Level::Factor).node,
            r is Some ==> final(self).position() > old(self).position(),
        decreases remaining(old(self).stream(), old(self).position()), 5nat, 3nat,
    {
        self.binary(Level::Factor)
    }

    /// An operand of an operator of `level`.
    fn operand(&mut self, level: Level) -> (r: Option<Expr>)
        requires
            old(self).wf(),
        ensures
            final(self).follows(
                *old(self),
                parse_operand(old(self).stream(), old(self).position(), level),
            ),
            r.deep_view() == parse_operand(old(self).stream(), old(self).position(), level).node,
            r is Some ==> final(self).position() > old(self).position(),
        decreases remaining(old(self).stream(), old(self).position()), rank(level), 1nat,
    {
        match level {
            Level::Or => self.and(),
            Level::And => self.equality(),
            Level::Equality => self.comparison(),
            Level::Comparison => self.term(),
            Level::Term => self.factor(),
            Level::Factor => self.unary(),
        }
    }

    /// A chain of operators of `level`, which binds to the left.
    fn binary(&mut self, level: Level) -> (r: Option<Expr>)
        requires
            old(self).wf(),
        ensures
            final(self).follows(*old(self), parse_binary(old(self).stream(), old(self).position(), level)),
            r.deep_view() == parse_binary(old(self).stream(), old(self).position(), level).node,
            r is Some ==> final(self).position() > old(self).position(),
        decreases remaining(old(self).stream(), old(self).position()), rank(level), 2nat,
    {
        let mut left = match self.operand(level) {
            Some(e) => e,
            None => {
                return None;
            },
        };
        let ghost first = left@;
        let ghost mid = *self;
        let ghost whole = parse_binary_rest(self.stream(), first, self.position(), level);
        loop
            invariant
                self.wf(),
                self.stream() == old(self).stream(),
                mid.stream() == old(self).stream(),
                mid.position() > old(self).position(),
                self.position() >= mid.position(),
                mid.follows(*old(self), parse_operand(old(self).stream(), old(self).position(), level)),
                parse_operand(old(self).stream(), old(self).position(), level).node == Some(first),
                whole == parse_binary_rest(mid.stream(), first, mid.position(), level),
                ({
                    let rest = parse_binary_rest(self.stream(), left@, self.position(), level);
                    &&& whole.node == rest.node
                    &&& mid.position() + whole.used == self.position() + rest.used
                    &&& mid.issues() + whole.issues == self.issues() + rest.issues
                }),
            decreases remaining(self.stream(), self.position()),
        {
            let ghost before = *self;
            let ghost rest = parse_binary_rest(self.stream(), left@, self.position(), level);
            if self.is_at_end() || !operator_at(level, self.tokens[self.current].token_type) {
                proof {
                    let p = parse_binary(old(self).stream(), old(self).position(), level);
                    assert(self.issues() + rest.issues =~= self.issues());
                    assert(self.issues() =~= old(self).issues() + p.issues);
                }
                return Some(left);
            }
            let operator = self.tokens[self.current].clone();
            self.current += 1;
            let right = match self.operand(level) {
                Some(r) => r,
                None => {
                    proof {
                        let p = parse_binary(old(self).stream(), old(self).position(), level);
                        assert(self.issues() =~= before.issues() + rest.issues);
                        assert(self.issues() =~= old(self).issues() + p.issues);
                    }
                    return None;
                },
            };
            left = join(level, left, operator, right);
            proof {
                let next = parse_binary_rest(self.stream(), left@, self.position(), level);
                assert(self.issues() + next.issues =~= before.issues() + rest.issues);
            }
        }
    }

    /// unary → ("!" | "-") unary | primary
    fn unary(&mut self) -> (r: Option<Expr>)
        requires
            old(self).wf(),
        ensures
            final(self).follows(*old(self), parse_unary(old(self).stream(), old(self).position())),
            r.deep_view() == parse_unary(old(self).stream(), old(self).position()).node,
            r is Some ==> final(self).position() > old(self).position(),
        decreases remaining(old(self).stream(), old(self).position()), 4nat, 0nat,
    {
        if self.check(TokenType::Minus) || self.check(TokenType::Bang) {
            self.advance();
            let operator = self.previous();
            return match self.unary() {
                Some(right) => Some(Expr::Unary { operator, expression: Box::new(right) }),
                None => None,
            };
        }
        self.primary()
    }

    /// primary → INT | FLOAT | STRING | "true" | "false" | "nil"
    ///         | "(" expression ")" | IDENTIFIER
    pub fn primary(&mut self) -> (r: Option<Expr>)
        requires
            old(self).wf(),
        ensures
            final(self).follows(*old(self), parse_primary(old(self).stream(), old(self).position())),
            r.deep_view() == parse_primary(old(self).stream(), old(self).position()).node,
            r is Some ==> final(self).position() > old(self).position(),
        decreases remaining(old(self).stream(), old(self).position()), 3nat, 0nat,
    {
        let ghost p = parse_primary(self.stream(), self.position());
        let t = self.peek();
        if self.is_at_end() {
            self.error(&t, Problem::ExpectExpression);
            assert(self.issues() =~= old(self).issues() + p.issues);
            return None;
        }
        proof {
            assert(self.issues() + Seq::<DiagnosticView>::empty() =~= self.issues());
        }
        match t.token_type {
            TokenType::INumber | TokenType::FNumber | TokenType::String => {
                self.advance();
                let value = match t.literal {
                    Some(l) => l,
                    None => LiteralValue::Nil,
                };
                Some(Expr::Literal { value })
            },
            TokenType::True => {
                self.advance();
                Some(Expr::Literal { value: LiteralValue::True })
            },
            TokenType::False => {
                self.advance();
                Some(Expr::Literal { value: LiteralValue::False })
            },
            TokenType::Nil => {
                self.advance();
                Some(Expr::Literal { value: LiteralValue::Nil })
            },
            TokenType::Identifier => {
                self.advance();
                Some(Expr::Variable { name: t })
            },
            TokenType::LeftParen => {
                self.advance();
                let expr = match self.expression() {
                    Some(e) => e,
                    None => {
                        return None;
                    },
                };
                let _ = self.consume(TokenType::RightParen, Problem::ExpectRightParen);
                assert(self.issues() =~= old(self).issues() + p.issues);
                Some(Expr::Grouping { expression: Box::new(expr) })
            },
            _ => {
                self.error(&t, Problem::ExpectExpression);
                assert(self.issues() =~= old(self).issues() + p.issues);
                None
            },
        }
    }

    /// Passes the next token when it is of kind `kind`.
    fn match_token(&mut self, kind: TokenType) -> (b: bool)
        requires
            old(self).wf(),
        ensures
            final(self).wf(),
            b == check(old(self).stream(), old(self).position(), kind),
            final(self).stream() == old(self).stream(),
            final(self).issues() == old(self).issues(),
            final(self).position() == if b {
                old(self).position() + 1
            } else {
                old(self).position()
            },
    {
        if self.check(kind) {
            self.advance();
            return true;
        }
        false
    }

    /// The next token; at the end of the tokens, an end-of-input token.
    fn peek(&self) -> (t: Token)
        requires
            self.wf(),
        ensures
            t@ == peeked(self.stream(), self.position()),
    {
        if self.current < self.tokens.len() {
            self.tokens[self.current].clone()
        } else {
            Token::new(TokenType::Eof, None, String::new(), 0)
        }
    }

    fn is_at_end(&self) -> (b: bool)
        requires
            self.wf(),
        ensures
            b == at_end(self.stream(), self.position()),
    {
        self.current >= self.tokens.len() || self.tokens[self.current].token_type == TokenType::Eof
    }

    /// The token that was passed last.
    fn previous(&self) -> (t: Token)
        requires
            self.wf(),
        ensures
            t@ == previous(self.stream(), self.position()),
    {
        if self.current > 0 {
            self.tokens[self.current - 1].clone()
        } else {
            self.peek()
        }
    }

    /// Passes one token, unless the input has ended.
    fn advance(&mut self)
        requires
            old(self).wf(),
        ensures
            final(self).wf(),
            final(self).stream() == old(self).stream(),
            final(self).issues() == old(self).issues(),
            final(self).position() == old(self).position() + step(
                old(self).stream(),
                old(self).position(),
            ),
    {
        if !self.is_at_end() {
            self.current += 1;
        }
    }

    /// Passes one token, and reports it when it is not of kind `kind`.
    fn consume(&mut self, kind: TokenType, problem: Problem) -> (t: Token)
        requires
            old(self).wf(),
        ensures
            final(self).wf(),
            final(self).stream() == old(self).stream(),
            t@ == consumed(old(self).stream(), old(self).position()),
            final(self).position() == old(self).position() + step(
                old(self).stream(),
                old(self).position(),
            ),
            final(self).issues() == old(self).issues() + expected(
                old(self).stream(),
                old(self).position(),
                kind,
                problem,
            ),
    {
        proof {
            reveal(expected);
            reveal(consumed);
        }
        self.advance();
        let token = self.previous();
        if token.token_type != kind {
            self.error(&token, problem);
        } else {
            assert(self.issues() + Seq::<DiagnosticView>::empty() =~= self.issues());
        }
        token
    }

    fn check(&self, kind: TokenType) -> (b: bool)
        requires
            self.wf(),
        ensures
            b == check(self.stream(), self.position(), kind),
    {
        if self.is_at_end() {
            return false;
        }
        self.tokens[self.current].token_type == kind
    }

    /// Adds the diagnostic that blames `token` for `problem`.
    fn error(&mut self, token: &Token, problem: Problem)
        ensures
            final(self).wf() == old(self).wf(),
            final(self).stream() == old(self).stream(),
            final(self).position() == old(self).position(),
            final(self).issues() == old(self).issues() + seq![ErrorMsg::blame(token@, problem)],
    {
        note(&mut self.diagnostics, ErrorMsg::error(token, problem));
        assert(self.issues() =~= old(self).issues() + seq![ErrorMsg::blame(token@, problem)]);
    }

    /// Recovery: passes tokens up to a place where a statement may start.
    pub fn synchronize(&mut self)
        requires
            old(self).wf(),
        ensures
            final(self).wf(),
            final(self).stream() == old(self).stream(),
            final(self).issues() == old(self).issues(),
            final(self).position() == old(self).position() + skipped(
                old(self).stream(),
                old(self).position(),
            ),
    {
        if self.is_at_end() {
            return ;
        }
        self.advance();
        while !self.is_at_end()
            invariant
                self.wf(),
                self.current > 0,
                self.stream() == old(self).stream(),
                self.issues() == old(self).issues(),
                self.position() + skipped_from(self.stream(), self.position()) == old(
                    self,
                ).position() + skipped(old(self).stream(), old(self).position()),
            decreases remaining(self.stream(), self.position()),
        {
            if self.tokens[self.current - 1].token_type == TokenType::Semicolon {
                return ;
            }
            match self.tokens[self.current].token_type {
                TokenType::Class
                | TokenType::Fun
                | TokenType::Var
                | TokenType::For
                | TokenType::If
                | TokenType::While
                | TokenType::Print
                | TokenType::Return => {
                    return ;
                },
                _ => {},
            }
            self.advance();
        }
    }
}

} // verus!
