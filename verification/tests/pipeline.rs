use lox::error::{note, Diagnostic, ErrorMsg, Problem};
use lox::expr::{apply_binary, apply_unary, arith_for, relation_for, Expr};
use lox::float::{
    combine_floats, compare_floats, float_zero, negate_float, read_float, write_float, Arith,
    FloatUnit, Relation,
};
use lox::interpret::{Environment, Interpret};
use lox::parser::{join, operator_at, Level, Parser, Stmt};
use lox::scanner::{keyword, Scanner};
use lox::text::{
    alpha, alphanumeric, chars_of, digit, less_text, parse_decimal, push_decimal, render_int,
    text_of,
};
use lox::token::{LiteralValue, Token};
use lox::token_type::TokenType;

/// Doubles as the machine computes them.
struct Ieee;

impl FloatUnit for Ieee {
    fn parse(&self, text: &str) -> u64 {
        text.parse::<f64>().unwrap().to_bits()
    }

    fn render(&self, x: u64) -> String {
        f64::from_bits(x).to_string()
    }

    fn negate(&self, x: u64) -> u64 {
        (-f64::from_bits(x)).to_bits()
    }

    fn arith(&self, op: Arith, a: u64, b: u64) -> u64 {
        let (a, b) = (f64::from_bits(a), f64::from_bits(b));
        let r = match op {
            Arith::Add => a + b,
            Arith::Subtract => a - b,
            Arith::Multiply => a * b,
            Arith::Divide => a / b,
        };
        r.to_bits()
    }

    fn compare(&self, op: Relation, a: u64, b: u64) -> bool {
        let (a, b) = (f64::from_bits(a), f64::from_bits(b));
        match op {
            Relation::Less => a < b,
            Relation::LessEqual => a <= b,
            Relation::Greater => a > b,
            Relation::GreaterEqual => a >= b,
            Relation::Equal => a == b,
            Relation::NotEqual => a != b,
        }
    }
}

fn scan(source: &str) -> (Vec<Token>, Vec<Diagnostic>) {
    let mut scanner = Scanner::new(source);
    let tokens = scanner.scan_tokens(&Ieee).to_vec();
    (tokens, scanner.diagnostics().to_vec())
}

fn kinds(source: &str) -> Vec<TokenType> {
    scan(source).0.iter().map(|t| t.token_type).collect()
}

fn parse(source: &str) -> (Vec<Stmt>, Vec<Diagnostic>) {
    Parser::new(scan(source).0).parse()
}

struct Run {
    output: Vec<String>,
    notices: Vec<Diagnostic>,
    result: Result<(), Diagnostic>,
}

fn run_in(source: &str, env: &mut Environment, budget: u64) -> Run {
    let (stmts, _) = parse(source);
    let mut interpret = Interpret::new();
    interpret.budget = budget;
    let result = interpret.interpret(&stmts, env, &Ieee);
    Run { output: interpret.output, notices: interpret.notices, result }
}

fn run(source: &str) -> Run {
    run_in(source, &mut Environment::new(), u64::MAX)
}

fn problems(list: &[Diagnostic]) -> Vec<Problem> {
    list.iter().map(|d| d.problem).collect()
}

fn token(kind: TokenType, lexeme: &str) -> Token {
    Token::new(kind, None, lexeme.to_string(), 1)
}

fn integer(n: i64) -> LiteralValue {
    LiteralValue::IntValue(n)
}

fn text(s: &str) -> LiteralValue {
    LiteralValue::StringValue(s.to_string())
}

fn float(x: f64) -> LiteralValue {
    LiteralValue::FValue(x.to_bits())
}

// The printed form of a syntax tree.

#[test]
fn pp_ast() {
    let minus_token = Token::new(TokenType::Minus, None, "-".to_string(), 0);

    let one_two_three = LiteralValue::IntValue(123);

    let group = Expr::Grouping {
        expression: Box::new(Expr::Literal { value: LiteralValue::FValue(45.67f64.to_bits()) }),
    };

    let multi = Token::new(TokenType::Star, None, "*".to_string(), 0);
    let ast = Expr::Binary {
        left: Box::new(Expr::Unary {
            operator: minus_token,
            expression: Box::new(Expr::Literal { value: one_two_three }),
        }),
        operator: multi,
        right: Box::new(group),
    };

    assert_eq!("(* (- 123) (group 45.67))", ast.to_string(&Ieee));
}

#[test]
fn primary_test() {
    let mut parser = Parser::new(vec![Token::new(
        TokenType::String,
        Some(LiteralValue::StringValue("data".to_string())),
        "data".to_string(),
        1,
    )]);

    println!("{:?}", parser.primary());
}

#[test]
fn unary_test() {
    let text = "!1.9 + 9";
    let mut scanner = Scanner::new(text);
    let tokens = scanner.scan_tokens(&Ieee);

    println!("{tokens:?}");

    let mut parser = Parser::new(tokens.to_vec());

    println!("{:?}", parser.expression());
}

#[test]
fn primary_of_a_string_token_is_its_literal() {
    let mut parser = Parser::new(vec![Token::new(
        TokenType::String,
        Some(text("data")),
        "data".to_string(),
        1,
    )]);
    assert_eq!(parser.primary(), Some(Expr::Literal { value: text("data") }));
}

#[test]
fn unary_binds_tighter_than_plus() {
    let tokens = scan("!1.9 + 9").0;
    let mut parser = Parser::new(tokens);
    let e = parser.expression().unwrap();
    assert_eq!(e.to_string(&Ieee), "(+ (! 1.9) 9)");
}

#[test]
fn printed_forms_of_the_other_nodes() {
    let (stmts, issues) = parse("a = b or c and d;");
    assert!(issues.is_empty());
    match &stmts[0] {
        Stmt::Expression(e) => assert_eq!(e.to_string(&Ieee), "(= a (or b (and c d)))"),
        other => panic!("{:?}", other),
    }
}

// Scanning.

#[test]
fn numeric_literals_round_trip() {
    let (tokens, issues) = scan("123");
    assert!(issues.is_empty());
    assert_eq!(tokens[0].token_type, TokenType::INumber);
    assert_eq!(tokens[0].literal, Some(integer(123)));
    assert_eq!(tokens[0].literal.as_ref().unwrap().to_string(&Ieee), "123");

    let (tokens, _) = scan("45.67");
    assert_eq!(tokens[0].token_type, TokenType::FNumber);
    assert_eq!(tokens[0].literal, Some(float(45.67)));
    assert_eq!(tokens[0].literal.as_ref().unwrap().to_string(&Ieee), "45.67");

    for s in ["0", "7", "10", "9223372036854775807", "1000000"] {
        let (tokens, _) = scan(s);
        assert_eq!(tokens[0].literal.as_ref().unwrap().to_string(&Ieee), s);
    }
}

#[test]
fn empty_source_gives_the_end_token_alone() {
    let (tokens, issues) = scan("");
    assert!(issues.is_empty());
    assert_eq!(tokens, vec![Token::new(TokenType::Eof, None, String::new(), 1)]);
}

#[test]
fn single_and_double_character_tokens() {
    assert_eq!(
        kinds("(){},.-+;*/"),
        vec![
            TokenType::LeftParen,
            TokenType::RightParen,
            TokenType::LeftBrace,
            TokenType::RightBrace,
            TokenType::Comma,
            TokenType::Dot,
            TokenType::Minus,
            TokenType::Plus,
            TokenType::Semicolon,
            TokenType::Star,
            TokenType::Slash,
            TokenType::Eof,
        ]
    );
    assert_eq!(
        kinds("! != = == < <= > >="),
        vec![TokenType::Bang, TokenType::BangEqual, TokenType::Equal, TokenType::EqualEqual, TokenType::Less, TokenType::LessEqual, TokenType::Greater, TokenType::GreaterEqual, TokenType::Eof]
    );
    assert_eq!(kinds("!==<"), vec![TokenType::BangEqual, TokenType::Equal, TokenType::Less, TokenType::Eof]);
    let (tokens, _) = scan(">=");
    assert_eq!(tokens[0].lexeme, ">=");
    assert_eq!(tokens[0].literal, None);
}

#[test]
fn comments_and_blanks_give_no_token() {
    assert_eq!(kinds("1 // two three\n+ \t\r 4 // end"), vec![TokenType::INumber, TokenType::Plus, TokenType::INumber, TokenType::Eof]);
    assert_eq!(kinds("//"), vec![TokenType::Eof]);
    let (tokens, _) = scan("// a\n// b\nx");
    assert_eq!(tokens[0].line, 3);
    assert_eq!(tokens[1].line, 3);
}

#[test]
fn lines_are_counted() {
    let (tokens, _) = scan("a\nb\n\nc");
    let lines: Vec<usize> = tokens.iter().map(|t| t.line).collect();
    assert_eq!(lines, vec![1, 2, 4, 4]);
}

#[test]
fn string_literals() {
    let (tokens, issues) = scan("\"hi there\" \"\"");
    assert!(issues.is_empty());
    assert_eq!(tokens[0].token_type, TokenType::String);
    assert_eq!(tokens[0].lexeme, "\"hi there\"");
    assert_eq!(tokens[0].literal, Some(text("hi there")));
    assert_eq!(tokens[1].lexeme, "\"\"");
    assert_eq!(tokens[1].literal, Some(text("")));
}

#[test]
fn a_string_may_span_lines() {
    let (tokens, issues) = scan("\"a\nb\" x");
    assert!(issues.is_empty());
    assert_eq!(tokens[0].literal, Some(text("a\nb")));
    assert_eq!(tokens[0].line, 2);
    assert_eq!(tokens[1].line, 2);
}

#[test]
fn an_unterminated_string_is_reported_and_gives_no_token() {
    let (tokens, issues) = scan("1 \"abc\ndef");
    assert_eq!(
        tokens.iter().map(|t| t.token_type).collect::<Vec<_>>(),
        vec![TokenType::INumber, TokenType::Eof]
    );
    assert_eq!(issues.len(), 1);
    assert_eq!(issues[0].problem, Problem::UnterminatedString);
    assert_eq!(issues[0].line, 2);
    assert_eq!(issues[0].place, "");
}

#[test]
fn an_unexpected_character_is_reported_and_skipped() {
    let (tokens, issues) = scan("1 @ 2\n#");
    assert_eq!(
        tokens.iter().map(|t| t.token_type).collect::<Vec<_>>(),
        vec![TokenType::INumber, TokenType::INumber, TokenType::Eof]
    );
    assert_eq!(
        issues,
        vec![
            Diagnostic { line: 1, place: String::new(), problem: Problem::UnexpectedCharacter('@') },
            Diagnostic { line: 2, place: String::new(), problem: Problem::UnexpectedCharacter('#') },
        ]
    );
    let (_, issues) = scan("é");
    assert_eq!(problems(&issues), vec![Problem::UnexpectedCharacter('é')]);
}

#[test]
fn numbers() {
    assert_eq!(kinds("12.5"), vec![TokenType::FNumber, TokenType::Eof]);
    assert_eq!(kinds("12."), vec![TokenType::INumber, TokenType::Dot, TokenType::Eof]);
    assert_eq!(kinds("12.x"), vec![TokenType::INumber, TokenType::Dot, TokenType::Identifier, TokenType::Eof]);
    assert_eq!(kinds(".5"), vec![TokenType::Dot, TokenType::INumber, TokenType::Eof]);
    assert_eq!(kinds("1.2.3"), vec![TokenType::FNumber, TokenType::Dot, TokenType::INumber, TokenType::Eof]);
    assert_eq!(kinds("-3"), vec![TokenType::Minus, TokenType::INumber, TokenType::Eof]);
    let (tokens, _) = scan("007 0.50");
    assert_eq!(tokens[0].literal, Some(integer(7)));
    assert_eq!(tokens[0].lexeme, "007");
    assert_eq!(tokens[1].literal, Some(float(0.5)));
    assert_eq!(tokens[1].lexeme, "0.50");
}

#[test]
fn an_integer_that_does_not_fit_is_reported() {
    let (tokens, issues) = scan("9223372036854775807 9223372036854775808 1");
    assert_eq!(
        tokens.iter().map(|t| t.literal.clone()).collect::<Vec<_>>(),
        vec![Some(integer(i64::MAX)), Some(integer(1)), None]
    );
    assert_eq!(problems(&issues), vec![Problem::IntegerTooLarge]);
    let (tokens, issues) = scan("99999999999999999999999999999999");
    assert_eq!(tokens.len(), 1);
    assert_eq!(problems(&issues), vec![Problem::IntegerTooLarge]);
}

#[test]
fn keywords_and_identifiers() {
    assert_eq!(
        kinds("and class else false for fun if nil or print return super this true var while"),
        vec![
            TokenType::And, TokenType::Class, TokenType::Else, TokenType::False, TokenType::For, TokenType::Fun, TokenType::If, TokenType::Nil, TokenType::Or, TokenType::Print, TokenType::Return, TokenType::Super, TokenType::This, TokenType::True, TokenType::Var,
            TokenType::While, TokenType::Eof
        ]
    );
    assert_eq!(
        kinds("andy _and And whiles var_ x1 _ a_b"),
        vec![
            TokenType::Identifier, TokenType::Identifier, TokenType::Identifier, TokenType::Identifier, TokenType::Identifier, TokenType::Identifier, TokenType::Identifier,
            TokenType::Identifier, TokenType::Eof
        ]
    );
    let (tokens, _) = scan("snake_case1 while");
    assert_eq!(tokens[0].lexeme, "snake_case1");
    assert_eq!(tokens[0].literal, Some(LiteralValue::IdentifierValue("snake_case1".to_string())));
    assert_eq!(tokens[1].literal, Some(LiteralValue::IdentifierValue("while".to_string())));
}

#[test]
fn the_end_token_stands_on_the_last_line() {
    let (tokens, _) = scan("a\n\n");
    let last = tokens.last().unwrap();
    assert_eq!(last.token_type, TokenType::Eof);
    assert_eq!(last.lexeme, "");
    assert_eq!(last.literal, None);
    assert_eq!(last.line, 3);
}

#[test]
fn scanning_goes_on_from_where_it_stands() {
    let mut scanner = Scanner::new("a b");
    assert_eq!(scanner.tokens().len(), 0);
    let n = scanner.scan_tokens(&Ieee).len();
    assert_eq!(n, 3);
    let n = scanner.scan_tokens(&Ieee).len();
    assert_eq!(n, 4);
    assert_eq!(scanner.tokens()[3].token_type, TokenType::Eof);
}

// Parsing.

fn printed(source: &str) -> Vec<String> {
    printed_statements(&parse(source).0)
}

fn printed_statements(stmts: &[Stmt]) -> Vec<String> {
    stmts
        .iter()
        .map(|s| match s {
            Stmt::Expression(e) => e.to_string(&Ieee),
            Stmt::Print(e) => format!("print {}", e.to_string(&Ieee)),
            other => format!("{:?}", other),
        })
        .collect()
}

#[test]
fn multiplication_binds_tighter_than_addition() {
    assert_eq!(printed("1 + 2 * 3;"), vec!["(+ 1 (* 2 3))"]);
    let (stmts, issues) = parse("1 + 2 * 3;");
    assert!(issues.is_empty());
    match &stmts[0] {
        Stmt::Expression(Expr::Binary { left, operator, right }) => {
            assert_eq!(**left, Expr::Literal { value: integer(1) });
            assert_eq!(operator.token_type, TokenType::Plus);
            match &**right {
                Expr::Binary { operator, .. } => assert_eq!(operator.token_type, TokenType::Star),
                other => panic!("{:?}", other),
            }
        },
        other => panic!("{:?}", other),
    }
}

#[test]
fn operators_of_one_level_bind_to_the_left() {
    assert_eq!(printed("1 - 2 - 3;"), vec!["(- (- 1 2) 3)"]);
    assert_eq!(printed("8 / 4 / 2 * 3;"), vec!["(* (/ (/ 8 4) 2) 3)"]);
    assert_eq!(printed("1 < 2 == 3 > 4;"), vec!["(== (< 1 2) (> 3 4))"]);
    assert_eq!(printed("a or b or c and d;"), vec!["(or (or a b) (and c d))"]);
    assert_eq!(printed("1 == 2 != 3;"), vec!["(!= (== 1 2) 3)"]);
    assert_eq!(printed("1 <= 2 >= 3;"), vec!["(>= (<= 1 2) 3)"]);
}

#[test]
fn unary_and_grouping() {
    assert_eq!(printed("-(1 + 2) * !true;"), vec!["(* (- (group (+ 1 2))) (! true))"]);
    assert_eq!(printed("--1;"), vec!["(- (- 1))"]);
    assert_eq!(printed("print nil;"), vec!["print nil"]);
    assert_eq!(printed("\"a\" + \"b\";"), vec!["(+ a b)"]);
    assert_eq!(printed("false;"), vec!["false"]);
}

#[test]
fn assignment_binds_to_the_right() {
    assert_eq!(printed("a = b = 1 + 2;"), vec!["(= a (= b (+ 1 2)))"]);
}

#[test]
fn an_invalid_assignment_target_is_reported_and_kept() {
    let (stmts, issues) = parse("1 + 2 = 3;");
    assert_eq!(problems(&issues), vec![Problem::InvalidAssignmentTarget]);
    assert_eq!(issues[0].place, " at '=' ");
    assert_eq!(issues[0].line, 1);
    assert_eq!(stmts.len(), 1);
    match &stmts[0] {
        Stmt::Expression(e) => assert_eq!(e.to_string(&Ieee), "(+ 1 2)"),
        other => panic!("{:?}", other),
    }
}

#[test]
fn statements_of_every_kind() {
    let (stmts, issues) =
        parse("var x = 1; print x; { x = 2; } if (x) print 1; else print 2; while (x) x = 1; x;");
    assert!(issues.is_empty());
    assert_eq!(stmts.len(), 6);
    assert!(matches!(&stmts[0], Stmt::Variable { token, .. } if token.lexeme == "x"));
    assert!(matches!(&stmts[1], Stmt::Print(_)));
    assert!(matches!(&stmts[2], Stmt::Block(v) if v.len() == 1));
    assert!(matches!(&stmts[3], Stmt::If { else_branch: Some(_), .. }));
    assert!(matches!(&stmts[4], Stmt::While { .. }));
    assert!(matches!(&stmts[5], Stmt::Expression(_)));
    let (stmts, _) = parse("if (a) b;");
    assert!(matches!(&stmts[0], Stmt::If { else_branch: None, .. }));
}

#[test]
fn else_belongs_to_the_nearest_if() {
    let (stmts, issues) = parse("if (a) if (b) 1; else 2;");
    assert!(issues.is_empty());
    match &stmts[0] {
        Stmt::If { then_branch, else_branch, .. } => {
            assert!(else_branch.is_none());
            assert!(matches!(&**then_branch, Stmt::If { else_branch: Some(_), .. }));
        },
        other => panic!("{:?}", other),
    }
}

#[test]
fn a_missing_right_parenthesis_is_reported_and_the_group_stands() {
    let (stmts, issues) = parse("(1 + 2;");
    assert_eq!(issues[0].problem, Problem::ExpectRightParen);
    assert_eq!(issues[0].place, " at ';' ");
    assert_eq!(stmts.len(), 1);
    match &stmts[0] {
        Stmt::Expression(e) => assert_eq!(e.to_string(&Ieee), "(group (+ 1 2))"),
        other => panic!("{:?}", other),
    }
}

#[test]
fn a_missing_semicolon_is_reported() {
    let (stmts, issues) = parse("print 1");
    assert_eq!(stmts.len(), 1);
    assert_eq!(problems(&issues), vec![Problem::ExpectStatementEnd]);
    assert_eq!(issues[0].place, " at '1' ");
}

#[test]
fn a_declaration_without_initializer_is_not_accepted() {
    let (stmts, issues) = parse("var x; print 2; print 3;");
    assert_eq!(problems(&issues), vec![Problem::ExpectAssign, Problem::ExpectExpression]);
    assert_eq!(issues[0].place, " at ';' ");
    assert_eq!(issues[1].place, " at 'print' ");
    assert_eq!(printed_statements(&stmts), vec!["print 3"]);
}

#[test]
fn the_problems_of_each_statement_form() {
    assert_eq!(problems(&parse("var 1 = 2;").1), vec![Problem::ExpectIdentifier]);
    assert_eq!(problems(&parse("if a) b;").1)[0], Problem::ExpectIfOpen);
    assert_eq!(problems(&parse("if (a b;").1)[0], Problem::ExpectIfClose);
    assert_eq!(problems(&parse("while a) b;").1)[0], Problem::ExpectWhileOpen);
    assert_eq!(problems(&parse("while (a b;").1)[0], Problem::ExpectWhileClose);
    assert_eq!(problems(&parse("{ a;").1), vec![Problem::ExpectBlockEnd]);
    assert_eq!(problems(&parse(";").1), vec![Problem::ExpectExpression]);
    let (_, issues) = parse("print");
    assert_eq!(problems(&issues), vec![Problem::ExpectExpression]);
    assert_eq!(issues[0].place, " at end ");
}

#[test]
fn parsing_goes_on_behind_a_statement_that_failed() {
    let (stmts, issues) = parse("print ) 1 2; print 3; + ; var y = 4;");
    assert_eq!(problems(&issues), vec![Problem::ExpectExpression, Problem::ExpectExpression]);
    assert_eq!(stmts.len(), 2);
    assert!(matches!(&stmts[0], Stmt::Print(_)));
    assert!(matches!(&stmts[1], Stmt::Variable { .. }));
    let (stmts, _) = parse("{ ) ; print 1; } print 2;");
    assert_eq!(stmts.len(), 2);
    assert!(matches!(&stmts[0], Stmt::Block(v) if v.len() == 1));
}

#[test]
fn synchronize_stops_behind_a_semicolon_or_before_a_keyword() {
    let mut parser = Parser::new(scan("1 2 3; 4").0);
    parser.synchronize();
    assert_eq!(parser.expression(), Some(Expr::Literal { value: integer(4) }));
    let mut parser = Parser::new(scan("1 2 print 4;").0);
    parser.synchronize();
    assert!(matches!(parser.declaration(), Some(Stmt::Print(_))));
    let mut parser = Parser::new(scan("").0);
    parser.synchronize();
    assert_eq!(parser.expression(), None);
}

#[test]
fn tokens_without_an_end_token_are_parsed_to_their_end() {
    let mut tokens = scan("print 1; print 2;").0;
    tokens.pop();
    let (stmts, issues) = Parser::new(tokens).parse();
    assert!(issues.is_empty());
    assert_eq!(stmts.len(), 2);
    let (stmts, issues) = Parser::new(Vec::new()).parse();
    assert!(stmts.is_empty() && issues.is_empty());
}

#[test]
fn rescanning_the_lexemes_gives_the_same_statements() {
    let source = "var  x=1;\n{ var x = 2.50 ;print x+1.5; } // note\nif(x<=3)print \"a b\";else x=x*(2-1);\nwhile (!(x == 4) and true) x = x + 1;";
    let (tokens, issues) = scan(source);
    assert!(issues.is_empty());
    let lexemes: Vec<String> = tokens.iter().map(|t| t.lexeme.clone()).collect();
    let again = lexemes.join(" ");
    let (second, _) = scan(&again);
    assert_eq!(second.len(), tokens.len());
    for (a, b) in tokens.iter().zip(second.iter()) {
        assert_eq!(a.token_type, b.token_type);
        assert_eq!(a.lexeme, b.lexeme);
        assert_eq!(a.literal, b.literal);
    }
    let one_line = "var x = 1; { var x = 2; print x; } print x;";
    let (tokens, _) = scan(one_line);
    let again = tokens.iter().map(|t| t.lexeme.clone()).collect::<Vec<_>>().join(" ");
    assert_eq!(parse(one_line).0, parse(&again).0);
}

// Running.

#[test]
fn an_inner_declaration_shadows_within_its_block() {
    let r = run("var x = 1; { var x = 2; print x; } print x;");
    assert_eq!(r.output, vec!["2", "1"]);
    assert_eq!(r.result, Ok(()));
    assert!(r.notices.is_empty());
}

#[test]
fn division_by_zero_is_fatal() {
    let r = run("print 1 / 0; print 2;");
    assert!(r.output.is_empty());
    let d = r.result.unwrap_err();
    assert_eq!(d.problem, Problem::DivisionByZero);
    assert!(d.problem.fatal());
    assert_eq!(d.place, " at '/' ");
    assert_eq!(d.line, 1);
    let r = run("print 1.5 / 0.0;");
    assert_eq!(r.result.unwrap_err().problem, Problem::DivisionByZero);
    assert!(r.output.is_empty());
}

#[test]
fn an_unbound_variable_is_nil_and_noticed() {
    let r = run("print undeclared; print 1;");
    assert_eq!(r.output, vec!["nil", "1"]);
    assert_eq!(r.result, Ok(()));
    assert_eq!(problems(&r.notices), vec![Problem::UnboundVariable]);
    assert!(!r.notices[0].problem.fatal());
    assert_eq!(r.notices[0].place, " at 'undeclared' ");
}

#[test]
fn a_loop_runs_while_its_condition_is_true() {
    let r = run("var x = 1; while (x < 4) { print x; x = x + 1; }");
    assert_eq!(r.output, vec!["1", "2", "3"]);
    assert_eq!(r.result, Ok(()));
}

#[test]
fn a_loop_ends_when_the_budget_is_spent() {
    let mut env = Environment::new();
    let r = run_in("var x = 0; while (true) { x = x + 1; print x; }", &mut env, 3);
    assert_eq!(r.output, vec!["1", "2", "3"]);
    assert_eq!(r.result.unwrap_err().problem, Problem::IterationLimit);
    assert_eq!(env.get("x"), Some(integer(3)));
    let r = run_in("var x = 0; while (x < 3) x = x + 1; print x;", &mut Environment::new(), 3);
    assert_eq!(r.output, vec!["3"]);
    assert_eq!(r.result, Ok(()));
    let r = run_in("while (false) print 1;", &mut Environment::new(), 0);
    assert_eq!(r.result, Ok(()));
}

#[test]
fn integer_arithmetic() {
    let r = run("print 7 + 5; print 7 - 12; print 6 * 7; print 7 / 2; print -7 / 2; print 7 / -2; print -7 / -2; print -(3);");
    assert_eq!(r.output, vec!["12", "-5", "42", "3", "-3", "-3", "3", "-3"]);
    let r = run("print 1 + 2 * 3 - 4 / 2;");
    assert_eq!(r.output, vec!["5"]);
    let r = run("print 1 - 2 - 3;");
    assert_eq!(r.output, vec!["-4"]);
}

#[test]
fn integer_overflow_is_fatal() {
    for source in [
        "print 9223372036854775807 + 1;",
        "print -9223372036854775807 - 2;",
        "print 4611686018427387904 * 2;",
        "print (-9223372036854775807 - 1) / -1;",
        "print -(-9223372036854775807 - 1);",
    ] {
        let r = run(source);
        assert!(r.output.is_empty());
        assert_eq!(r.result.unwrap_err().problem, Problem::IntegerOverflow);
    }
    let r = run("print -9223372036854775807 - 1;");
    assert_eq!(r.output, vec!["-9223372036854775808"]);
}

#[test]
fn float_arithmetic_goes_through_the_unit() {
    let r = run("print 1.5 + 2.25; print 0.1 + 0.2; print 1.0 / 4.0; print -2.5; print 2.0 * 3.5; print 1.5 - 2.0;");
    assert_eq!(r.output, vec!["3.75", "0.30000000000000004", "0.25", "-2.5", "7", "-0.5"]);
    let r = run("print 1.5 < 2.5; print 2.5 <= 2.5; print 1.5 > 2.5; print 1.5 >= 2.5; print 1.5 == 1.50; print 1.5 != 1.5;");
    assert_eq!(r.output, vec!["true", "true", "false", "false", "true", "false"]);
}

#[test]
fn comparisons_of_integers_and_texts() {
    let r = run("print 1 < 2; print 2 <= 1; print 3 > 3; print 3 >= 3; print 4 == 4; print 4 != 4;");
    assert_eq!(r.output, vec!["true", "false", "false", "true", "true", "false"]);
    let r = run("print \"abc\" < \"abd\"; print \"ab\" < \"abc\"; print \"b\" < \"abc\"; print \"a\" <= \"a\"; print \"b\" > \"a\"; print \"a\" >= \"b\"; print \"x\" == \"x\"; print \"x\" != \"y\"; print \"\" < \"a\"; print \"a\" < \"\";");
    assert_eq!(
        r.output,
        vec!["true", "true", "false", "true", "true", "false", "true", "true", "true", "false"]
    );
}

#[test]
fn texts_are_joined_by_plus() {
    let r = run("print \"foo\" + \"bar\"; print \"\" + \"\";");
    assert_eq!(r.output, vec!["foobar", ""]);
}

#[test]
fn operands_of_different_kinds_are_fatal() {
    for source in [
        "print 1 + 1.5;",
        "print 1.5 < 2;",
        "print \"a\" + 1;",
        "print \"a\" - \"b\";",
        "print true == true;",
        "print nil == nil;",
        "print -\"a\";",
        "print !1;",
        "print -true;",
        "print 1 and true;",
        "print true and 1;",
        "print nil or true;",
        "print false or 2;",
    ] {
        let r = run(source);
        assert!(r.output.is_empty(), "{}", source);
        assert_eq!(r.result.unwrap_err().problem, Problem::OperandMismatch, "{}", source);
    }
}

#[test]
fn an_operator_that_is_none_is_fatal() {
    let e = Expr::Binary {
        left: Box::new(Expr::Literal { value: integer(1) }),
        operator: token(TokenType::Comma, ","),
        right: Box::new(Expr::Literal { value: integer(2) }),
    };
    let mut notices = Vec::new();
    let r = e.evaluate(&mut Environment::new(), &Ieee, &mut notices);
    assert_eq!(r.unwrap_err().problem, Problem::UnknownOperator);
    let e = Expr::Unary {
        operator: token(TokenType::Plus, "+"),
        expression: Box::new(Expr::Literal { value: integer(1) }),
    };
    assert_eq!(
        e.evaluate(&mut Environment::new(), &Ieee, &mut notices).unwrap_err().problem,
        Problem::UnknownOperator
    );
    let e = Expr::Logical {
        left: Box::new(Expr::Literal { value: LiteralValue::True }),
        operator: token(TokenType::Plus, "+"),
        right: Box::new(Expr::Literal { value: LiteralValue::True }),
    };
    assert_eq!(
        e.evaluate(&mut Environment::new(), &Ieee, &mut notices).unwrap_err().problem,
        Problem::UnknownOperator
    );
}

#[test]
fn logical_operators_stop_at_the_deciding_operand() {
    let r = run("var x = 1; print true or (x = 2); print x; print false and (x = 3); print x;");
    assert_eq!(r.output, vec!["true", "1", "false", "1"]);
    let r = run("print false or true; print true and false; print true and true; print false or false;");
    assert_eq!(r.output, vec!["true", "false", "true", "false"]);
    let r = run("print true or 1; print false and 1;");
    assert_eq!(r.output, vec!["true", "false"]);
}

#[test]
fn not_flips_a_boolean() {
    let r = run("print !true; print !false; print !!true;");
    assert_eq!(r.output, vec!["false", "true", "true"]);
}

#[test]
fn assignment_changes_the_nearest_binding_and_gives_the_old_value() {
    let r = run("var x = 1; { x = 2; var x = 3; x = 4; print x; } print x; print x = 5; print x;");
    assert_eq!(r.output, vec!["4", "2", "2", "5"]);
}

#[test]
fn assignment_to_an_unbound_name_binds_nothing() {
    let mut env = Environment::new();
    let r = run_in("print y = 1; print y;", &mut env, u64::MAX);
    assert_eq!(r.output, vec!["nil", "nil"]);
    assert_eq!(problems(&r.notices), vec![Problem::UnboundVariable, Problem::UnboundVariable]);
    assert_eq!(env.get("y"), None);
}

#[test]
fn a_block_does_not_leak_its_declarations() {
    let mut env = Environment::new();
    let r = run_in("{ var inner = 1; } print inner;", &mut env, u64::MAX);
    assert_eq!(r.output, vec!["nil"]);
    assert_eq!(env.get("inner"), None);
    let r = run_in("{ var a = 1; print 1 / 0; }", &mut env, u64::MAX);
    assert!(r.result.is_err());
    assert_eq!(env.get("a"), None);
}

#[test]
fn if_takes_the_then_branch_only_for_true() {
    let r = run("if (true) print 1; else print 2; if (false) print 3; else print 4; if (1) print 5; else print 6; if (nil) print 7; if (1 < 2) print 8;");
    assert_eq!(r.output, vec!["1", "4", "6", "8"]);
}

#[test]
fn a_loop_ends_on_a_condition_that_is_not_true() {
    let r = run("while (1) print 1; while (nil) print 2; print 3;");
    assert_eq!(r.output, vec!["3"]);
}

#[test]
fn a_fatal_problem_ends_the_run_and_keeps_what_was_done() {
    let mut env = Environment::new();
    let r = run_in("var x = 1; print x; x = 2; print x + nil; print 3;", &mut env, u64::MAX);
    assert_eq!(r.output, vec!["1"]);
    assert_eq!(r.result.unwrap_err().problem, Problem::OperandMismatch);
    assert_eq!(env.get("x"), Some(integer(2)));
}

#[test]
fn the_environment_lives_on_between_runs() {
    let mut env = Environment::new();
    run_in("var x = 20;", &mut env, u64::MAX);
    let r = run_in("print x + 1;", &mut env, u64::MAX);
    assert_eq!(r.output, vec!["21"]);
}

#[test]
fn values_print_in_their_canonical_form() {
    let r = run("print 12; print -3; print 2.50; print \"as is\"; print true; print false; print nil;");
    assert_eq!(r.output, vec!["12", "-3", "2.5", "as is", "true", "false", "nil"]);
    assert_eq!(integer(i64::MIN).to_string(&Ieee), "-9223372036854775808");
    assert_eq!(integer(0).to_string(&Ieee), "0");
    assert_eq!(LiteralValue::IdentifierValue("name".to_string()).to_string(&Ieee), "name");
}

#[test]
fn declaring_again_replaces_the_value() {
    let r = run("var x = 1; var x = x + 1; print x;");
    assert_eq!(r.output, vec!["2"]);
}

// The environment.

#[test]
fn environment_operations() {
    let mut env = Environment::new();
    assert_eq!(env.get("a"), None);
    env.define("a".to_string(), integer(1));
    assert_eq!(env.get("a"), Some(integer(1)));
    env.push_scope();
    assert_eq!(env.get("a"), Some(integer(1)));
    env.define("a".to_string(), integer(2));
    env.define("b".to_string(), LiteralValue::Nil);
    assert_eq!(env.get("a"), Some(integer(2)));
    assert_eq!(env.get("b"), Some(LiteralValue::Nil));
    assert_eq!(env.assign("a", integer(3)), Some(integer(2)));
    assert_eq!(env.get("a"), Some(integer(3)));
    env.pop_scope();
    assert_eq!(env.get("a"), Some(integer(1)));
    assert_eq!(env.get("b"), None);
    assert_eq!(env.assign("b", integer(9)), None);
    assert_eq!(env.get("b"), None);
    env.push_scope();
    assert_eq!(env.assign("a", integer(7)), Some(integer(1)));
    env.pop_scope();
    assert_eq!(env.get("a"), Some(integer(7)));
    env.pop_scope();
    env.pop_scope();
    assert_eq!(env.get("a"), Some(integer(7)));
    env.define("c".to_string(), integer(5));
    assert_eq!(env.get("c"), Some(integer(5)));
    let mut copy = env.clone();
    copy.define("c".to_string(), integer(6));
    assert_eq!(env.get("c"), Some(integer(5)));
    assert_eq!(copy.get("c"), Some(integer(6)));
    assert_eq!(Environment::default().get("c"), None);
}

// Diagnostics.

#[test]
fn reports() {
    assert_eq!(ErrorMsg::report(12, " at end ", "Boom"), "[line 12] Error  at end : Boom");
    assert_eq!(ErrorMsg::report(0, "", ""), "[line 0] Error : ");
    let d = ErrorMsg::error(&Token::new(TokenType::Plus, None, "+".to_string(), 3), Problem::OperandMismatch);
    assert_eq!(d, Diagnostic { line: 3, place: " at '+' ".to_string(), problem: Problem::OperandMismatch });
    assert_eq!(d.to_string(), "[line 3] Error  at '+' : Operands do not fit the operator");
    let d = ErrorMsg::error(&Token::new(TokenType::Eof, None, String::new(), 7), Problem::ExpectStatementEnd);
    assert_eq!(d.place, " at end ");
    assert_eq!(d.to_string(), "[line 7] Error  at end : Expect ';' after statement");
    assert_eq!(Diagnostic::new(2, Problem::UnexpectedCharacter('@')).to_string(), "[line 2] Error : Unexpected char >> @");
}

#[test]
fn only_some_problems_are_fatal() {
    let fatal = [
        Problem::OperandMismatch,
        Problem::UnknownOperator,
        Problem::DivisionByZero,
        Problem::IntegerOverflow,
        Problem::IterationLimit,
    ];
    let other = [
        Problem::UnexpectedCharacter('x'),
        Problem::UnterminatedString,
        Problem::IntegerTooLarge,
        Problem::ExpectExpression,
        Problem::ExpectRightParen,
        Problem::ExpectBlockEnd,
        Problem::ExpectIfOpen,
        Problem::ExpectIfClose,
        Problem::ExpectWhileOpen,
        Problem::ExpectWhileClose,
        Problem::ExpectIdentifier,
        Problem::ExpectAssign,
        Problem::ExpectStatementEnd,
        Problem::InvalidAssignmentTarget,
        Problem::UnboundVariable,
    ];
    for p in fatal {
        assert!(p.fatal());
        assert!(!p.message().is_empty());
    }
    for p in other {
        assert!(!p.fatal());
        assert!(!p.message().is_empty());
    }
    assert_eq!(Problem::UnterminatedString.message(), "Unterminated string");
    assert_eq!(Problem::InvalidAssignmentTarget.message(), "Invalid assignment target");
}

// Texts and numerals.

#[test]
fn character_classes() {
    for c in ['0', '5', '9'] {
        assert!(digit(c) && alphanumeric(c) && !alpha(c));
    }
    for c in ['a', 'z', 'A', 'Z', '_', 'q'] {
        assert!(alpha(c) && alphanumeric(c) && !digit(c));
    }
    for c in [' ', '/', ':', '@', '[', '`', '{', 'é', '\0'] {
        assert!(!alpha(c) && !digit(c) && !alphanumeric(c));
    }
}

#[test]
fn texts_and_their_characters() {
    assert_eq!(chars_of("héllo"), vec!['h', 'é', 'l', 'l', 'o']);
    assert_eq!(chars_of(""), Vec::<char>::new());
    let chars = chars_of("abcdef");
    assert_eq!(text_of(&chars, 1, 4), "bcd");
    assert_eq!(text_of(&chars, 0, 6), "abcdef");
    assert_eq!(text_of(&chars, 3, 3), "");
}

#[test]
fn decimal_numerals() {
    let chars = chars_of("x0123456789");
    assert_eq!(parse_decimal(&chars, 1, 11), Some(123456789));
    assert_eq!(parse_decimal(&chars, 1, 2), Some(0));
    assert_eq!(parse_decimal(&chars, 4, 4), Some(0));
    let chars = chars_of("9223372036854775807");
    assert_eq!(parse_decimal(&chars, 0, 19), Some(i64::MAX));
    let chars = chars_of("9223372036854775808");
    assert_eq!(parse_decimal(&chars, 0, 19), None);
    let chars = chars_of("18446744073709551616");
    assert_eq!(parse_decimal(&chars, 0, 20), None);
    assert_eq!(render_int(0), "0");
    assert_eq!(render_int(10), "10");
    assert_eq!(render_int(-1), "-1");
    assert_eq!(render_int(9070), "9070");
    assert_eq!(render_int(i64::MAX), "9223372036854775807");
    assert_eq!(render_int(i64::MIN), "-9223372036854775808");
    let mut out = String::from("n=");
    push_decimal(&mut out, 18446744073709551615);
    assert_eq!(out, "n=18446744073709551615");
}

#[test]
fn the_order_of_texts() {
    assert!(less_text("", "a"));
    assert!(!less_text("", ""));
    assert!(!less_text("a", ""));
    assert!(less_text("a", "b"));
    assert!(!less_text("b", "a"));
    assert!(less_text("ab", "abc"));
    assert!(!less_text("abc", "ab"));
    assert!(!less_text("abc", "abc"));
    assert!(less_text("Z", "a"));
    assert!(less_text("z", "é"));
    assert_eq!(less_text("straße", "strasse"), "straße" < "strasse");
}

#[test]
fn the_kinds_of_words_and_operators() {
    assert_eq!(keyword(&"while".to_string()), TokenType::While);
    assert_eq!(keyword(&"whil".to_string()), TokenType::Identifier);
    assert_eq!(keyword(&String::new()), TokenType::Identifier);
    assert_eq!(arith_for(TokenType::Plus), Some(Arith::Add));
    assert_eq!(arith_for(TokenType::Minus), Some(Arith::Subtract));
    assert_eq!(arith_for(TokenType::Star), Some(Arith::Multiply));
    assert_eq!(arith_for(TokenType::Slash), Some(Arith::Divide));
    assert_eq!(arith_for(TokenType::Less), None);
    assert_eq!(relation_for(TokenType::Less), Some(Relation::Less));
    assert_eq!(relation_for(TokenType::LessEqual), Some(Relation::LessEqual));
    assert_eq!(relation_for(TokenType::Greater), Some(Relation::Greater));
    assert_eq!(relation_for(TokenType::GreaterEqual), Some(Relation::GreaterEqual));
    assert_eq!(relation_for(TokenType::EqualEqual), Some(Relation::Equal));
    assert_eq!(relation_for(TokenType::BangEqual), Some(Relation::NotEqual));
    assert_eq!(relation_for(TokenType::Equal), None);
    assert!(operator_at(Level::Or, TokenType::Or) && !operator_at(Level::Or, TokenType::And));
    assert!(operator_at(Level::And, TokenType::And));
    assert!(operator_at(Level::Equality, TokenType::BangEqual));
    assert!(operator_at(Level::Comparison, TokenType::GreaterEqual));
    assert!(operator_at(Level::Term, TokenType::Minus) && !operator_at(Level::Term, TokenType::Star));
    assert!(operator_at(Level::Factor, TokenType::Slash));
    let one = || Expr::Literal { value: integer(1) };
    assert!(matches!(join(Level::Or, one(), token(TokenType::Or, "or"), one()), Expr::Logical { .. }));
    assert!(matches!(join(Level::And, one(), token(TokenType::And, "and"), one()), Expr::Logical { .. }));
    assert!(matches!(join(Level::Term, one(), token(TokenType::Plus, "+"), one()), Expr::Binary { .. }));
}

#[test]
fn operators_applied_to_values() {
    let plus = token(TokenType::Plus, "+");
    assert_eq!(apply_binary(&Ieee, &plus, &integer(2), &integer(3)), Ok(integer(5)));
    assert_eq!(apply_binary(&Ieee, &plus, &text("a"), &text("b")), Ok(text("ab")));
    assert_eq!(apply_binary(&Ieee, &plus, &float(0.5), &float(0.25)), Ok(float(0.75)));
    assert_eq!(
        apply_binary(&Ieee, &plus, &integer(2), &LiteralValue::Nil).unwrap_err().problem,
        Problem::OperandMismatch
    );
    let less = token(TokenType::Less, "<");
    assert_eq!(apply_binary(&Ieee, &less, &integer(2), &integer(3)), Ok(LiteralValue::True));
    assert_eq!(apply_binary(&Ieee, &less, &float(2.0), &float(1.0)), Ok(LiteralValue::False));
    let minus = token(TokenType::Minus, "-");
    assert_eq!(apply_unary(&Ieee, &minus, &integer(2)), Ok(integer(-2)));
    assert_eq!(apply_unary(&Ieee, &minus, &float(2.5)), Ok(float(-2.5)));
    assert_eq!(
        apply_unary(&Ieee, &minus, &integer(i64::MIN)).unwrap_err().problem,
        Problem::IntegerOverflow
    );
    let bang = token(TokenType::Bang, "!");
    assert_eq!(apply_unary(&Ieee, &bang, &LiteralValue::True), Ok(LiteralValue::False));
    assert_eq!(apply_unary(&Ieee, &bang, &LiteralValue::Nil).unwrap_err().problem, Problem::OperandMismatch);
    assert_eq!(LiteralValue::of_truth(true), LiteralValue::True);
    assert_eq!(LiteralValue::of_truth(false), LiteralValue::False);
}

#[test]
fn the_unit_is_asked_for_doubles() {
    assert_eq!(read_float(&Ieee, "2.50"), 2.5f64.to_bits());
    assert_eq!(write_float(&Ieee, 2.5f64.to_bits()), "2.5");
    assert_eq!(negate_float(&Ieee, 2.5f64.to_bits()), (-2.5f64).to_bits());
    assert_eq!(combine_floats(&Ieee, Arith::Multiply, 2.5f64.to_bits(), 2f64.to_bits()), 5f64.to_bits());
    assert!(compare_floats(&Ieee, Relation::NotEqual, 1f64.to_bits(), 2f64.to_bits()));
    assert!(float_zero(0f64.to_bits()));
    assert!(float_zero((-0f64).to_bits()));
    assert!(!float_zero(1f64.to_bits()));
    assert!(!float_zero(f64::MIN_POSITIVE.to_bits()));
    let r = run("print 1.5 / -0.0;");
    assert_eq!(r.result.unwrap_err().problem, Problem::DivisionByZero);
}

#[test]
fn diagnostics_are_kept_in_order() {
    let mut list = Vec::new();
    note(&mut list, Diagnostic::new(1, Problem::UnterminatedString));
    note(&mut list, Diagnostic::new(2, Problem::IntegerTooLarge));
    assert_eq!(problems(&list), vec![Problem::UnterminatedString, Problem::IntegerTooLarge]);
    let mut parser = Parser::new(scan("(1; )").0);
    assert!(parser.diagnostics().is_empty());
    let _ = parser.declaration();
    assert_eq!(problems(parser.diagnostics()), vec![Problem::ExpectRightParen, Problem::ExpectStatementEnd]);
    let r = run("print a; print b;");
    assert_eq!(
        r.notices.iter().map(|d| d.place.clone()).collect::<Vec<_>>(),
        vec![" at 'a' ", " at 'b' "]
    );
}

#[test]
fn one_statement_is_run_with_the_budget_given() {
    let (stmts, _) = parse("while (true) print 1;");
    let mut interpret = Interpret::new();
    assert_eq!(interpret.budget, u64::MAX);
    assert!(interpret.output.is_empty() && interpret.notices.is_empty());
    interpret.budget = 2;
    let r = interpret.execute(&stmts[0], &mut Environment::new(), &Ieee);
    assert_eq!(r.unwrap_err(), Diagnostic { line: 0, place: String::new(), problem: Problem::IterationLimit });
    assert_eq!(interpret.output, vec!["1", "1"]);
    assert_eq!(interpret.budget, 2);
}

#[test]
fn nested_loops_each_have_the_budget() {
    let r = run_in(
        "var i = 0; while (i < 3) { var j = 0; while (j < 2) { print i * 10 + j; j = j + 1; } i = i + 1; }",
        &mut Environment::new(),
        3,
    );
    assert_eq!(r.output, vec!["0", "1", "10", "11", "20", "21"]);
    assert_eq!(r.result, Ok(()));
    let r = run_in(
        "var i = 0; while (i < 3) { var j = 0; while (j < 3) { print j; j = j + 1; } i = i + 1; }",
        &mut Environment::new(),
        2,
    );
    assert_eq!(r.output, vec!["0", "1"]);
    assert_eq!(r.result.unwrap_err().problem, Problem::IterationLimit);
}

#[test]
fn a_plain_statement_prints_or_evaluates() {
    let mut parser = Parser::new(scan("print 1; 2; var x = 3;").0);
    assert!(matches!(parser.statement(), Some(Stmt::Print(_))));
    assert!(matches!(parser.statement(), Some(Stmt::Expression(_))));
    assert_eq!(parser.statement(), None);
    assert_eq!(problems(parser.diagnostics()), vec![Problem::ExpectExpression]);
}
