//! The shape of tokens and trees: what is left of them when the line
//! numbers are taken away. Parsing does not look at line numbers, so it
//! gives trees of one shape for tokens of one shape.
use vstd::prelude::*;
use crate::error::{DiagnosticView, Problem};
use crate::expr::ExprView;
use crate::parser::{
    at_end, check, consumed, expected, is_operator, joined, parse_assignment, parse_binary,
    parse_binary_rest, parse_block, parse_block_items, parse_condition, parse_declaration,
    parse_expression, parse_expression_stmt, parse_if_stmt, parse_operand, parse_primary,
    parse_print_stmt, parse_program, parse_to_semicolon, parse_unary, parse_var_declaration,
    parse_while_stmt, rank, recovered, remaining, skipped_from, step, Level, Parsed,
    StmtView,
};
use crate::scanner::option_seq;
use crate::token::TokenView;
use crate::token_type::TokenType;

verus! {

pub open spec fn bare_token(t: TokenView) -> TokenView {
    TokenView { lexeme: t.lexeme, line: 0, literal: t.literal, token_type: t.token_type }
}

pub open spec fn bare_tokens(tokens: Seq<TokenView>) -> Seq<TokenView> {
    Seq::new(tokens.len(), |i: int| bare_token(tokens[i]))
}

pub open spec fn bare_issue(d: DiagnosticView) -> DiagnosticView {
    DiagnosticView { line: 0, place: d.place, problem: d.problem }
}

pub open spec fn bare_issues(issues: Seq<DiagnosticView>) -> Seq<DiagnosticView> {
    Seq::new(issues.len(), |i: int| bare_issue(issues[i]))
}

pub open spec fn bare_expr(e: ExprView) -> ExprView
    decreases e,
{
    match e {
        ExprView::Binary { left, operator, right } => ExprView::Binary {
            left: Box::new(bare_expr(*left)),
            operator: bare_token(operator),
            right: Box::new(bare_expr(*right)),
        },
        ExprView::Unary { operator, expression } => ExprView::Unary {
            operator: bare_token(operator),
            expression: Box::new(bare_expr(*expression)),
        },
        ExprView::Grouping { expression } => ExprView::Grouping {
            expression: Box::new(bare_expr(*expression)),
        },
        ExprView::Literal { value } => ExprView::Literal { value },
        ExprView::Variable { name } => ExprView::Variable { name: bare_token(name) },
        ExprView::Assign { name, value } => ExprView::Assign {
            name: bare_token(name),
            value: Box::new(bare_expr(*value)),
        },
        ExprView::Logical { left, operator, right } => ExprView::Logical {
            left: Box::new(bare_expr(*left)),
            operator: bare_token(operator),
            right: Box::new(bare_expr(*right)),
        },
    }
}

pub open spec fn bare_stmt(s: StmtView) -> StmtView
    decreases s,
{
    match s {
        StmtView::Expression(e) => StmtView::Expression(bare_expr(e)),
        StmtView::Print(e) => StmtView::Print(bare_expr(e)),
        StmtView::Block(v) => StmtView::Block(
            Seq::new(
                v.len(),
                |i: int|
                    if 0 <= i < v.len() {
                        bare_stmt(v[i])
                    } else {
                        arbitrary()
                    },
            ),
        ),
        StmtView::Variable { token, expression } => StmtView::Variable {
            token: bare_token(token),
            expression: bare_expr(expression),
        },
        StmtView::If { condition, then_branch, else_branch } => StmtView::If {
            condition: bare_expr(condition),
            then_branch: Box::new(bare_stmt(*then_branch)),
            else_branch: match else_branch {
                Some(b) => Some(Box::new(bare_stmt(*b))),
                None => None,
            },
        },
        StmtView::While { expr, stmt } => StmtView::While {
            expr: bare_expr(expr),
            stmt: Box::new(bare_stmt(*stmt)),
        },
    }
}

pub open spec fn bare_stmts(stmts: Seq<StmtView>) -> Seq<StmtView> {
    Seq::new(stmts.len(), |i: int| bare_stmt(stmts[i]))
}

pub open spec fn bare_parsed_expr(p: Parsed<ExprView>) -> Parsed<ExprView> {
    Parsed {
        node: match p.node {
            Some(e) => Some(bare_expr(e)),
            None => None,
        },
        used: p.used,
        issues: bare_issues(p.issues),
    }
}

pub open spec fn bare_parsed_stmt(p: Parsed<StmtView>) -> Parsed<StmtView> {
    Parsed {
        node: match p.node {
            Some(s) => Some(bare_stmt(s)),
            None => None,
        },
        used: p.used,
        issues: bare_issues(p.issues),
    }
}

pub open spec fn bare_parsed_list(p: Parsed<Seq<StmtView>>) -> Parsed<Seq<StmtView>> {
    Parsed {
        node: match p.node {
            Some(v) => Some(bare_stmts(v)),
            None => None,
        },
        used: p.used,
        issues: bare_issues(p.issues),
    }
}

proof fn lemma_bare_issues_add(a: Seq<DiagnosticView>, b: Seq<DiagnosticView>)
    ensures
        bare_issues(a + b) == bare_issues(a) + bare_issues(b),
        bare_issues(Seq::<DiagnosticView>::empty()) == Seq::<DiagnosticView>::empty(),
{
    assert(bare_issues(a + b) =~= bare_issues(a) + bare_issues(b));
    assert(bare_issues(Seq::<DiagnosticView>::empty()) =~= Seq::<DiagnosticView>::empty());
}

proof fn lemma_bare_issue_one(d: DiagnosticView)
    ensures
        bare_issues(seq![d]) == seq![bare_issue(d)],
{
    assert(bare_issues(seq![d]) =~= seq![bare_issue(d)]);
}

proof fn lemma_bare_expected(tokens: Seq<TokenView>, pos: int, kind: TokenType, problem: Problem)
    ensures
        expected(bare_tokens(tokens), pos, kind, problem) == bare_issues(
            expected(tokens, pos, kind, problem),
        ),
        consumed(bare_tokens(tokens), pos) == bare_token(consumed(tokens, pos)),
        step(bare_tokens(tokens), pos) == step(tokens, pos),
{
    reveal(expected);
    reveal(consumed);
    let e = expected(tokens, pos, kind, problem);
    assert(expected(bare_tokens(tokens), pos, kind, problem) =~= bare_issues(e));
}

proof fn lemma_bare_skipped_from(tokens: Seq<TokenView>, pos: int)
    ensures
        skipped_from(bare_tokens(tokens), pos) == skipped_from(tokens, pos),
    decreases remaining(tokens, pos),
{
    if !at_end(tokens, pos) {
        lemma_bare_skipped_from(tokens, pos + 1);
    }
}

proof fn lemma_bare_primary(tokens: Seq<TokenView>, pos: int)
    ensures
        parse_primary(bare_tokens(tokens), pos) == bare_parsed_expr(parse_primary(tokens, pos)),
    decreases remaining(tokens, pos), 3nat, 0nat,
{
    let bare = bare_tokens(tokens);
    let p = parse_primary(tokens, pos);
    let q = parse_primary(bare, pos);
    lemma_bare_issues_add(seq![], seq![]);
    if at_end(tokens, pos) {
        lemma_bare_issue_one(p.issues[0]);
        assert(p.issues =~= seq![p.issues[0]]);
    } else {
        let t = tokens[pos];
        if t.token_type == TokenType::LeftParen {
            lemma_bare_expression(tokens, pos + 1);
            let inner = parse_expression(tokens, pos + 1);
            if inner.node is Some {
                let close = pos + 1 + inner.used;
                lemma_bare_expected(tokens, close, TokenType::RightParen, Problem::ExpectRightParen);
                lemma_bare_issues_add(
                    inner.issues,
                    expected(tokens, close, TokenType::RightParen, Problem::ExpectRightParen),
                );
            }
        } else if q.node is None {
            lemma_bare_issue_one(p.issues[0]);
            assert(p.issues =~= seq![p.issues[0]]);
        }
    }
}

proof fn lemma_bare_unary(tokens: Seq<TokenView>, pos: int)
    ensures
        parse_unary(bare_tokens(tokens), pos) == bare_parsed_expr(parse_unary(tokens, pos)),
    decreases remaining(tokens, pos), 4nat, 0nat,
{
    if check(tokens, pos, TokenType::Bang) || check(tokens, pos, TokenType::Minus) {
        lemma_bare_unary(tokens, pos + 1);
    } else {
        lemma_bare_primary(tokens, pos);
    }
}

proof fn lemma_bare_operand(tokens: Seq<TokenView>, pos: int, level: Level)
    ensures
        parse_operand(bare_tokens(tokens), pos, level) == bare_parsed_expr(
            parse_operand(tokens, pos, level),
        ),
    decreases remaining(tokens, pos), rank(level), 1nat,
{
    match level {
        Level::Or => lemma_bare_binary(tokens, pos, Level::And),
        Level::And => lemma_bare_binary(tokens, pos, Level::Equality),
        Level::Equality => lemma_bare_binary(tokens, pos, Level::Comparison),
        Level::Comparison => lemma_bare_binary(tokens, pos, Level::Term),
        Level::Term => lemma_bare_binary(tokens, pos, Level::Factor),
        Level::Factor => lemma_bare_unary(tokens, pos),
    }
}

proof fn lemma_bare_binary_rest(tokens: Seq<TokenView>, left: ExprView, pos: int, level: Level)
    ensures
        parse_binary_rest(bare_tokens(tokens), bare_expr(left), pos, level) == bare_parsed_expr(
            parse_binary_rest(tokens, left, pos, level),
        ),
    decreases remaining(tokens, pos), rank(level), 0nat,
{
    lemma_bare_issues_add(seq![], seq![]);
    if !at_end(tokens, pos) && is_operator(level, tokens[pos].token_type) {
        lemma_bare_operand(tokens, pos + 1, level);
        let right = parse_operand(tokens, pos + 1, level);
        if right.node is Some {
            let both = joined(level, left, tokens[pos], right.node->0);
            lemma_bare_binary_rest(tokens, both, pos + 1 + right.used, level);
            let rest = parse_binary_rest(tokens, both, pos + 1 + right.used, level);
            lemma_bare_issues_add(right.issues, rest.issues);
            assert(bare_expr(both) == joined(
                level,
                bare_expr(left),
                bare_token(tokens[pos]),
                bare_expr(right.node->0),
            ));
        }
    }
}

proof fn lemma_bare_binary(tokens: Seq<TokenView>, pos: int, level: Level)
    ensures
        parse_binary(bare_tokens(tokens), pos, level) == bare_parsed_expr(
            parse_binary(tokens, pos, level),
        ),
    decreases remaining(tokens, pos), rank(level), 2nat,
{
    lemma_bare_operand(tokens, pos, level);
    let first = parse_operand(tokens, pos, level);
    if first.node is Some {
        lemma_bare_binary_rest(tokens, first.node->0, pos + first.used, level);
        let rest = parse_binary_rest(tokens, first.node->0, pos + first.used, level);
        lemma_bare_issues_add(first.issues, rest.issues);
    }
}

proof fn lemma_bare_assignment(tokens: Seq<TokenView>, pos: int)
    ensures
        parse_assignment(bare_tokens(tokens), pos) == bare_parsed_expr(parse_assignment(tokens, pos)),
    decreases remaining(tokens, pos), 11nat, 0nat,
{
    lemma_bare_binary(tokens, pos, Level::Or);
    let left = parse_binary(tokens, pos, Level::Or);
    if left.node is Some && check(tokens, pos + left.used, TokenType::Equal) {
        lemma_bare_assignment(tokens, pos + left.used + 1);
        let value = parse_assignment(tokens, pos + left.used + 1);
        lemma_bare_issues_add(left.issues, value.issues);
        let p = parse_assignment(tokens, pos);
        if value.node is Some && !(left.node->0 is Variable) {
            let last = p.issues[p.issues.len() - 1];
            lemma_bare_issues_add(left.issues + value.issues, seq![last]);
            lemma_bare_issue_one(last);
            assert(p.issues =~= left.issues + value.issues + seq![last]);
        }
    }
}

proof fn lemma_bare_expression(tokens: Seq<TokenView>, pos: int)
    ensures
        parse_expression(bare_tokens(tokens), pos) == bare_parsed_expr(parse_expression(tokens, pos)),
    decreases remaining(tokens, pos), 12nat, 0nat,
{
    lemma_bare_assignment(tokens, pos);
}

proof fn lemma_bare_to_semicolon(tokens: Seq<TokenView>, pos: int)
    ensures
        parse_to_semicolon(bare_tokens(tokens), pos) == bare_parsed_expr(
            parse_to_semicolon(tokens, pos),
        ),
{
    reveal(parse_to_semicolon);
    lemma_bare_expression(tokens, pos);
    let e = parse_expression(tokens, pos);
    lemma_bare_expected(tokens, pos + e.used, TokenType::Semicolon, Problem::ExpectStatementEnd);
    lemma_bare_issues_add(
        e.issues,
        expected(tokens, pos + e.used, TokenType::Semicolon, Problem::ExpectStatementEnd),
    );
}

proof fn lemma_bare_simple_stmts(tokens: Seq<TokenView>, pos: int)
    ensures
        parse_expression_stmt(bare_tokens(tokens), pos) == bare_parsed_stmt(
            parse_expression_stmt(tokens, pos),
        ),
        parse_print_stmt(bare_tokens(tokens), pos) == bare_parsed_stmt(parse_print_stmt(tokens, pos)),
        parse_var_declaration(bare_tokens(tokens), pos) == bare_parsed_stmt(
            parse_var_declaration(tokens, pos),
        ),
{
    reveal(parse_expression_stmt);
    reveal(parse_print_stmt);
    reveal(parse_var_declaration);
    lemma_bare_to_semicolon(tokens, pos);
    let after_name = pos + step(tokens, pos);
    let after_equal = after_name + step(tokens, after_name);
    lemma_bare_expected(tokens, pos, TokenType::Identifier, Problem::ExpectIdentifier);
    lemma_bare_expected(tokens, after_name, TokenType::Equal, Problem::ExpectAssign);
    lemma_bare_to_semicolon(tokens, after_equal);
    let name = expected(tokens, pos, TokenType::Identifier, Problem::ExpectIdentifier);
    let equal = expected(tokens, after_name, TokenType::Equal, Problem::ExpectAssign);
    lemma_bare_issues_add(name, equal);
    lemma_bare_issues_add(name + equal, parse_to_semicolon(tokens, after_equal).issues);
}

proof fn lemma_bare_condition(tokens: Seq<TokenView>, pos: int, open: Problem, close: Problem)
    ensures
        parse_condition(bare_tokens(tokens), pos, open, close) == bare_parsed_expr(
            parse_condition(tokens, pos, open, close),
        ),
{
    reveal(parse_condition);
    let at_condition = pos + step(tokens, pos);
    lemma_bare_expected(tokens, pos, TokenType::LeftParen, open);
    lemma_bare_expression(tokens, at_condition);
    let c = parse_expression(tokens, at_condition);
    let head = expected(tokens, pos, TokenType::LeftParen, open);
    lemma_bare_issues_add(head, c.issues);
    let at_close = at_condition + c.used;
    lemma_bare_expected(tokens, at_close, TokenType::RightParen, close);
    lemma_bare_issues_add(head + c.issues, expected(tokens, at_close, TokenType::RightParen, close));
}

proof fn lemma_bare_recovered(tokens: Seq<TokenView>, pos: int, d: Parsed<StmtView>)
    ensures
        recovered(bare_tokens(tokens), pos, bare_parsed_stmt(d)) == bare_parsed_stmt(
            recovered(tokens, pos, d),
        ),
{
    lemma_bare_skipped_from(tokens, pos + d.used + 1);
}

proof fn lemma_bare_if_stmt(tokens: Seq<TokenView>, pos: int)
    ensures
        parse_if_stmt(bare_tokens(tokens), pos) == bare_parsed_stmt(parse_if_stmt(tokens, pos)),
    decreases remaining(tokens, pos) + 1, 19nat, 0nat,
{
    lemma_bare_condition(tokens, pos, Problem::ExpectIfOpen, Problem::ExpectIfClose);
    let c = parse_condition(tokens, pos, Problem::ExpectIfOpen, Problem::ExpectIfClose);
    if c.node is Some {
        lemma_bare_declaration(tokens, pos + c.used);
        let t = parse_declaration(tokens, pos + c.used);
        lemma_bare_issues_add(c.issues, t.issues);
        if t.node is Some {
            let at_else = pos + c.used + t.used;
            if check(tokens, at_else, TokenType::Else) {
                lemma_bare_declaration(tokens, at_else + 1);
                let e = parse_declaration(tokens, at_else + 1);
                lemma_bare_issues_add(c.issues + t.issues, e.issues);
            }
        }
    }
}

proof fn lemma_bare_while_stmt(tokens: Seq<TokenView>, pos: int)
    ensures
        parse_while_stmt(bare_tokens(tokens), pos) == bare_parsed_stmt(parse_while_stmt(tokens, pos)),
    decreases remaining(tokens, pos) + 1, 19nat, 0nat,
{
    lemma_bare_condition(tokens, pos, Problem::ExpectWhileOpen, Problem::ExpectWhileClose);
    let c = parse_condition(tokens, pos, Problem::ExpectWhileOpen, Problem::ExpectWhileClose);
    if c.node is Some {
        lemma_bare_declaration(tokens, pos + c.used);
        let b = parse_declaration(tokens, pos + c.used);
        lemma_bare_issues_add(c.issues, b.issues);
    }
}

proof fn lemma_bare_list(item: Parsed<StmtView>, rest: Parsed<Seq<StmtView>>)
    requires
        rest.node is Some,
    ensures
        bare_stmts(option_seq(item.node) + rest.node->0) == option_seq(bare_parsed_stmt(item).node)
            + bare_stmts(rest.node->0),
        bare_issues(item.issues + rest.issues) == bare_issues(item.issues) + bare_issues(rest.issues),
        bare_stmts(Seq::<StmtView>::empty()) == Seq::<StmtView>::empty(),
{
    lemma_bare_issues_add(item.issues, rest.issues);
    assert(bare_stmts(option_seq(item.node) + rest.node->0) =~= option_seq(
        bare_parsed_stmt(item).node,
    ) + bare_stmts(rest.node->0));
    assert(bare_stmts(Seq::<StmtView>::empty()) =~= Seq::<StmtView>::empty());
}

proof fn lemma_bare_block_items(tokens: Seq<TokenView>, pos: int)
    ensures
        parse_block_items(tokens, pos).node is Some,
        parse_block_items(bare_tokens(tokens), pos) == bare_parsed_list(
            parse_block_items(tokens, pos),
        ),
    decreases remaining(tokens, pos), 22nat, 0nat,
{
    lemma_bare_issues_add(seq![], seq![]);
    if at_end(tokens, pos) || check(tokens, pos, TokenType::RightBrace) {
        assert(bare_stmts(Seq::<StmtView>::empty()) =~= Seq::<StmtView>::empty());
    } else {
        lemma_bare_declaration(tokens, pos);
        let d = parse_declaration(tokens, pos);
        lemma_bare_recovered(tokens, pos, d);
        let item = recovered(tokens, pos, d);
        lemma_bare_block_items(tokens, pos + item.used);
        let rest = parse_block_items(tokens, pos + item.used);
        lemma_bare_list(item, rest);
    }
}

proof fn lemma_bare_block(tokens: Seq<TokenView>, pos: int)
    ensures
        parse_block(bare_tokens(tokens), pos) == bare_parsed_stmt(parse_block(tokens, pos)),
    decreases remaining(tokens, pos) + 1, 19nat, 0nat,
{
    lemma_bare_block_items(tokens, pos);
    let items = parse_block_items(tokens, pos);
    let at_close = pos + items.used;
    lemma_bare_expected(tokens, at_close, TokenType::RightBrace, Problem::ExpectBlockEnd);
    lemma_bare_issues_add(
        items.issues,
        expected(tokens, at_close, TokenType::RightBrace, Problem::ExpectBlockEnd),
    );
    let v = items.node->0;
    assert(bare_stmt(StmtView::Block(v))->Block_0 =~= bare_stmts(v));
}

proof fn lemma_bare_declaration(tokens: Seq<TokenView>, pos: int)
    ensures
        parse_declaration(bare_tokens(tokens), pos) == bare_parsed_stmt(
            parse_declaration(tokens, pos),
        ),
    decreases remaining(tokens, pos), 20nat, 0nat,
{
    lemma_bare_simple_stmts(tokens, pos);
    if !at_end(tokens, pos) {
        lemma_bare_simple_stmts(tokens, pos + 1);
        match tokens[pos].token_type {
            TokenType::If => lemma_bare_if_stmt(tokens, pos + 1),
            TokenType::While => lemma_bare_while_stmt(tokens, pos + 1),
            TokenType::LeftBrace => lemma_bare_block(tokens, pos + 1),
            _ => {},
        }
    }
}

/// Parsing the tokens without their line numbers gives the statements and
/// the diagnostics of the tokens themselves, without their line numbers.
pub proof fn lemma_bare_program(tokens: Seq<TokenView>, pos: int)
    ensures
        parse_program(tokens, pos).node is Some,
        parse_program(bare_tokens(tokens), pos) == bare_parsed_list(parse_program(tokens, pos)),
    decreases remaining(tokens, pos),
{
    lemma_bare_issues_add(seq![], seq![]);
    if at_end(tokens, pos) {
        assert(bare_stmts(Seq::<StmtView>::empty()) =~= Seq::<StmtView>::empty());
    } else {
        lemma_bare_declaration(tokens, pos);
        let d = parse_declaration(tokens, pos);
        lemma_bare_recovered(tokens, pos, d);
        let item = recovered(tokens, pos, d);
        lemma_bare_program(tokens, pos + item.used);
        let rest = parse_program(tokens, pos + item.used);
        lemma_bare_list(item, rest);
    }
}

} // verus!
