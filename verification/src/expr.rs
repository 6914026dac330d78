//! Expressions: their trees, their values and their printed form.
//!
//! Values are never converted: the operands of a binary operator have to be
//! of one kind, both integers, both doubles, or both texts (for `+` and the
//! comparisons). Integer arithmetic is exact: a result that a 64-bit integer
//! cannot hold is as fatal as a division by zero. `and` and `or` take
//! Booleans only, and leave the right operand alone when the left decides.
//!
//! [`eval`] states what evaluation gives; [`Expr::evaluate`] computes
//! exactly that.
use vstd::prelude::*;
use crate::error::{note, Diagnostic, DiagnosticView, ErrorMsg, Problem};
use crate::float::{
    combine_floats, compare_floats, deterministic, float_holds, float_negated, float_result,
    float_zero, is_float_zero, negate_float, Arith, FloatUnit, Relation,
};
use crate::interpret::{assigned, lookup, Environment, Scopes};
use crate::text::{less_text, text_before};
use crate::token::{truth, value_text, LiteralValue, Token, TokenView, Value};
use crate::token_type::TokenType;

verus! {

#[allow(inconsistent_fields)]
#[derive(Debug, PartialEq)]
pub enum Expr {
    Binary { left: Box<Expr>, operator: Token, right: Box<Expr> },
    Unary { operator: Token, expression: Box<Expr> },
    Grouping { expression: Box<Expr> },
    Literal { value: LiteralValue },
    Variable { name: Token },
    Assign { name: Token, value: Box<Expr> },
    Logical { left: Box<Expr>, operator: Token, right: Box<Expr> },
}

/// What an [`Expr`] stands for.
#[allow(inconsistent_fields)]
pub enum ExprView {
    Binary { left: Box<ExprView>, operator: TokenView, right: Box<ExprView> },
    Unary { operator: TokenView, expression: Box<ExprView> },
    Grouping { expression: Box<ExprView> },
    Literal { value: Value },
    Variable { name: TokenView },
    Assign { name: TokenView, value: Box<ExprView> },
    Logical { left: Box<ExprView>, operator: TokenView, right: Box<ExprView> },
}

/// The tree of views that an expression stands for.
pub open spec fn expr_view(e: Expr) -> ExprView
    decreases e,
{
    match e {
        Expr::Binary { left, operator, right } => ExprView::Binary {
            left: Box::new(expr_view(*left)),
            operator: operator@,
            right: Box::new(expr_view(*right)),
        },
        Expr::Unary { operator, expression } => ExprView::Unary {
            operator: operator@,
            expression: Box::new(expr_view(*expression)),
        },
        Expr::Grouping { expression } => ExprView::Grouping {
            expression: Box::new(expr_view(*expression)),
        },
        Expr::Literal { value } => ExprView::Literal { value: value@ },
        Expr::Variable { name } => ExprView::Variable { name: name@ },
        Expr::Assign { name, value } => ExprView::Assign {
            name: name@,
            value: Box::new(expr_view(*value)),
        },
        Expr::Logical { left, operator, right } => ExprView::Logical {
            left: Box::new(expr_view(*left)),
            operator: operator@,
            right: Box::new(expr_view(*right)),
        },
    }
}

impl View for Expr {
    type V = ExprView;

    open spec fn view(&self) -> ExprView {
        expr_view(*self)
    }
}

impl DeepView for Expr {
    type V = ExprView;

    open spec fn deep_view(&self) -> ExprView {
        self@
    }
}

/// The arithmetic operation that an operator token asks for.
pub open spec fn arith_of(kind: TokenType) -> Option<Arith> {
    match kind {
        TokenType::Plus => Some(Arith::Add),
        TokenType::Minus => Some(Arith::Subtract),
        TokenType::Star => Some(Arith::Multiply),
        TokenType::Slash => Some(Arith::Divide),
        _ => None,
    }
}

/// The comparison that an operator token asks for.
pub open spec fn relation_of(kind: TokenType) -> Option<Relation> {
    match kind {
        TokenType::Less => Some(Relation::Less),
        TokenType::LessEqual => Some(Relation::LessEqual),
        TokenType::Greater => Some(Relation::Greater),
        TokenType::GreaterEqual => Some(Relation::GreaterEqual),
        TokenType::EqualEqual => Some(Relation::Equal),
        TokenType::BangEqual => Some(Relation::NotEqual),
        _ => None,
    }
}

/// The quotient of two integers, rounded towards zero.
pub open spec fn truncated_quotient(x: int, y: int) -> int {
    if x >= 0 && y > 0 {
        x / y
    } else if x < 0 && y < 0 {
        (-x) / (-y)
    } else if x < 0 {
        -((-x) / y)
    } else {
        -(x / (-y))
    }
}

/// The exact result of an arithmetic operation on two integers; the
/// divisor is not zero.
pub open spec fn int_result(op: Arith, x: int, y: int) -> int {
    match op {
        Arith::Add => x + y,
        Arith::Subtract => x - y,
        Arith::Multiply => x * y,
        Arith::Divide => truncated_quotient(x, y),
    }
}

pub open spec fn int_holds(op: Relation, x: int, y: int) -> bool {
    match op {
        Relation::Less => x < y,
        Relation::LessEqual => x <= y,
        Relation::Greater => x > y,
        Relation::GreaterEqual => x >= y,
        Relation::Equal => x == y,
        Relation::NotEqual => x != y,
    }
}

pub open spec fn text_holds(op: Relation, x: Seq<char>, y: Seq<char>) -> bool {
    match op {
        Relation::Less => text_before(x, y),
        Relation::LessEqual => !text_before(y, x),
        Relation::Greater => text_before(y, x),
        Relation::GreaterEqual => !text_before(x, y),
        Relation::Equal => x == y,
        Relation::NotEqual => x != y,
    }
}

/// The value of a unary operator applied to a value: `-` negates an integer
/// or a double, `!` flips a Boolean, and every other pairing is fatal.
pub open spec fn unary_value<U: FloatUnit>(unit: &U, operator: TokenView, x: Value) -> Result<
    Value,
    DiagnosticView,
> {
    match operator.token_type {
        TokenType::Minus => match x {
            Value::Int(i) => if i == i64::MIN {
                Err(ErrorMsg::blame(operator, Problem::IntegerOverflow))
            } else {
                Ok(Value::Int((-i) as i64))
            },
            Value::Float(b) => Ok(Value::Float(float_negated(unit, b))),
            _ => Err(ErrorMsg::blame(operator, Problem::OperandMismatch)),
        },
        TokenType::Bang => match x {
            Value::True => Ok(Value::False),
            Value::False => Ok(Value::True),
            _ => Err(ErrorMsg::blame(operator, Problem::OperandMismatch)),
        },
        _ => Err(ErrorMsg::blame(operator, Problem::UnknownOperator)),
    }
}

/// The value of an arithmetic operator applied to two integers: division by
/// zero is fatal, and so is a result that a 64-bit integer cannot hold.
pub open spec fn int_value(operator: TokenView, op: Arith, x: i64, y: i64) -> Result<
    Value,
    DiagnosticView,
> {
    if op is Divide && y == 0 {
        Err(ErrorMsg::blame(operator, Problem::DivisionByZero))
    } else if i64::MIN <= int_result(op, x as int, y as int) <= i64::MAX {
        Ok(Value::Int(int_result(op, x as int, y as int) as i64))
    } else {
        Err(ErrorMsg::blame(operator, Problem::IntegerOverflow))
    }
}

/// The value of an arithmetic operator applied to two values of one kind.
/// Dividing a double by a zero of either sign is fatal.
pub open spec fn arith_value<U: FloatUnit>(
    unit: &U,
    operator: TokenView,
    op: Arith,
    a: Value,
    b: Value,
) -> Result<Value, DiagnosticView> {
    match (a, b) {
        (Value::Int(x), Value::Int(y)) => int_value(operator, op, x, y),
        (Value::Float(x), Value::Float(y)) => if op is Divide && is_float_zero(y) {
            Err(ErrorMsg::blame(operator, Problem::DivisionByZero))
        } else {
            Ok(Value::Float(float_result(unit, op, x, y)))
        },
        (Value::Str(x), Value::Str(y)) => if op is Add {
            Ok(Value::Str(x + y))
        } else {
            Err(ErrorMsg::blame(operator, Problem::OperandMismatch))
        },
        _ => Err(ErrorMsg::blame(operator, Problem::OperandMismatch)),
    }
}

/// The value of a comparison of two values of one kind.
pub open spec fn relation_value<U: FloatUnit>(
    unit: &U,
    operator: TokenView,
    op: Relation,
    a: Value,
    b: Value,
) -> Result<Value, DiagnosticView> {
    match (a, b) {
        (Value::Int(x), Value::Int(y)) => Ok(truth(int_holds(op, x as int, y as int))),
        (Value::Float(x), Value::Float(y)) => Ok(truth(float_holds(unit, op, x, y))),
        (Value::Str(x), Value::Str(y)) => Ok(truth(text_holds(op, x, y))),
        _ => Err(ErrorMsg::blame(operator, Problem::OperandMismatch)),
    }
}

/// The value of a binary operator applied to two values. The two must be of
/// one kind: integers, doubles, or texts (for `+` and the comparisons).
pub open spec fn binary_value<U: FloatUnit>(unit: &U, operator: TokenView, a: Value, b: Value) -> Result<
    Value,
    DiagnosticView,
> {
    match arith_of(operator.token_type) {
        Some(op) => arith_value(unit, operator, op, a, b),
        None => match relation_of(operator.token_type) {
            Some(op) => relation_value(unit, operator, op, a, b),
            None => Err(ErrorMsg::blame(operator, Problem::UnknownOperator)),
        },
    }
}

/// Whether applying a unary operator asks the unit: only to negate a double.
pub open spec fn unary_asks(operator: TokenView, x: Value) -> bool {
    operator.token_type == TokenType::Minus && x is Float
}

/// Whether applying a binary operator asks the unit: only for two doubles.
pub open spec fn binary_asks(a: Value, b: Value) -> bool {
    a is Float && b is Float
}

/// What the unit may have answered when a unary operator gave `r` for a
/// double.
pub open spec fn unary_answer<U: FloatUnit>(
    unit: &U,
    operator: TokenView,
    x: u64,
    r: Result<Value, DiagnosticView>,
) -> bool {
    match operator.token_type {
        TokenType::Minus => r matches Ok(Value::Float(z)) && call_ensures(U::negate, (unit, x), z),
        TokenType::Bang => r == Err::<Value, DiagnosticView>(
            ErrorMsg::blame(operator, Problem::OperandMismatch),
        ),
        _ => r == Err::<Value, DiagnosticView>(ErrorMsg::blame(operator, Problem::UnknownOperator)),
    }
}

/// What the unit may have answered when a binary operator gave `r` for two
/// doubles.
pub open spec fn binary_answer<U: FloatUnit>(
    unit: &U,
    operator: TokenView,
    x: u64,
    y: u64,
    r: Result<Value, DiagnosticView>,
) -> bool {
    match arith_of(operator.token_type) {
        Some(op) => if op is Divide && is_float_zero(y) {
            r == Err::<Value, DiagnosticView>(ErrorMsg::blame(operator, Problem::DivisionByZero))
        } else {
            r matches Ok(Value::Float(z)) && call_ensures(U::arith, (unit, op, x, y), z)
        },
        None => match relation_of(operator.token_type) {
            Some(op) => exists|b: bool|
                r == Ok::<Value, DiagnosticView>(truth(b)) && #[trigger] call_ensures(
                    U::compare,
                    (unit, op, x, y),
                    b,
                ),
            None => r == Err::<Value, DiagnosticView>(
                ErrorMsg::blame(operator, Problem::UnknownOperator),
            ),
        },
    }
}

/// What evaluating an expression comes to: its value or the fatal problem,
/// the scopes afterwards, the notices given on the way, and whether the
/// unit was asked anything.
pub struct Evaluated {
    pub result: Result<Value, DiagnosticView>,
    pub env: Scopes,
    pub notices: Seq<DiagnosticView>,
    pub asked: bool,
}

/// The right operand of `and` and `or`, which has to be a Boolean.
pub open spec fn second_operand(operator: TokenView, l: Evaluated, r: Evaluated) -> Evaluated {
    Evaluated {
        result: match r.result {
            Ok(Value::True) => Ok(Value::True),
            Ok(Value::False) => Ok(Value::False),
            Ok(_) => Err(ErrorMsg::blame(operator, Problem::OperandMismatch)),
            Err(d) => Err(d),
        },
        env: r.env,
        notices: l.notices + r.notices,
        asked: l.asked || r.asked,
    }
}

/// The meaning of expressions. Operands are evaluated from left to right; a
/// fatal problem ends the evaluation where it arises, and what was assigned
/// before it stays assigned.
pub open spec fn eval<U: FloatUnit>(unit: &U, e: ExprView, env: Scopes) -> Evaluated
    decreases e,
{
    match e {
        ExprView::Literal { value } => Evaluated { result: Ok(value), env, notices: seq![], asked: false },
        ExprView::Grouping { expression } => eval(unit, *expression, env),
        ExprView::Variable { name } => match lookup(env, name.lexeme) {
            Some(v) => Evaluated { result: Ok(v), env, notices: seq![], asked: false },
            None => Evaluated {
                result: Ok(Value::Nil),
                env,
                notices: seq![ErrorMsg::blame(name, Problem::UnboundVariable)],
                asked: false,
            },
        },
        ExprView::Assign { name, value } => {
            let v = eval(unit, *value, env);
            match v.result {
                Err(_) => v,
                Ok(x) => match lookup(v.env, name.lexeme) {
                    Some(before) => Evaluated {
                        result: Ok(before),
                        env: assigned(v.env, name.lexeme, x),
                        notices: v.notices,
                        asked: v.asked,
                    },
                    None => Evaluated {
                        result: Ok(Value::Nil),
                        env: v.env,
                        notices: v.notices.push(ErrorMsg::blame(name, Problem::UnboundVariable)),
                        asked: v.asked,
                    },
                },
            }
        },
        ExprView::Unary { operator, expression } => {
            let v = eval(unit, *expression, env);
            match v.result {
                Err(_) => v,
                Ok(x) => Evaluated {
                    result: unary_value(unit, operator, x),
                    env: v.env,
                    notices: v.notices,
                    asked: v.asked || unary_asks(operator, x),
                },
            }
        },
        ExprView::Binary { left, operator, right } => {
            let l = eval(unit, *left, env);
            match l.result {
                Err(_) => l,
                Ok(a) => {
                    let r = eval(unit, *right, l.env);
                    Evaluated {
                        result: match r.result {
                            Err(d) => Err(d),
                            Ok(b) => binary_value(unit, operator, a, b),
                        },
                        env: r.env,
                        notices: l.notices + r.notices,
                        asked: l.asked || r.asked || match r.result {
                            Err(_) => false,
                            Ok(b) => binary_asks(a, b),
                        },
                    }
                },
            }
        },
        ExprView::Logical { left, operator, right } => {
            let l = eval(unit, *left, env);
            match l.result {
                Err(_) => l,
                Ok(a) => match (operator.token_type, a) {
                    (TokenType::Or, Value::True) => l,
                    (TokenType::Or, Value::False) => second_operand(
                        operator,
                        l,
                        eval(unit, *right, l.env),
                    ),
                    (TokenType::And, Value::False) => l,
                    (TokenType::And, Value::True) => second_operand(
                        operator,
                        l,
                        eval(unit, *right, l.env),
                    ),
                    (TokenType::Or, _) => Evaluated {
                        result: Err(ErrorMsg::blame(operator, Problem::OperandMismatch)),
                        env: l.env,
                        notices: l.notices,
                        asked: l.asked,
                    },
                    (TokenType::And, _) => Evaluated {
                        result: Err(ErrorMsg::blame(operator, Problem::OperandMismatch)),
                        env: l.env,
                        notices: l.notices,
                        asked: l.asked,
                    },
                    _ => Evaluated {
                        result: Err(ErrorMsg::blame(operator, Problem::UnknownOperator)),
                        env: l.env,
                        notices: l.notices,
                        asked: l.asked,
                    },
                },
            }
        },
    }
}

/// The printed form of an expression: operators come before their
/// operands, in parentheses.
pub open spec fn expr_text<U: FloatUnit>(unit: &U, e: ExprView) -> Seq<char>
    decreases e,
{
    match e {
        ExprView::Binary { left, operator, right } => "("@ + operator.lexeme + " "@ + expr_text(
            unit,
            *left,
        ) + " "@ + expr_text(unit, *right) + ")"@,
        ExprView::Unary { operator, expression } => "("@ + operator.lexeme + " "@ + expr_text(
            unit,
            *expression,
        ) + ")"@,
        ExprView::Grouping { expression } => "(group "@ + expr_text(unit, *expression) + ")"@,
        ExprView::Literal { value } => value_text(unit, value),
        ExprView::Variable { name } => name.lexeme,
        ExprView::Assign { name, value } => "(= "@ + name.lexeme + " "@ + expr_text(unit, *value)
            + ")"@,
        ExprView::Logical { left, operator, right } => "("@ + operator.lexeme + " "@ + expr_text(
            unit,
            *left,
        ) + " "@ + expr_text(unit, *right) + ")"@,
    }
}

/// Whether a double stands somewhere in the expression as a literal.
pub open spec fn holds_float(e: ExprView) -> bool
    decreases e,
{
    match e {
        ExprView::Binary { left, operator, right } => holds_float(*left) || holds_float(*right),
        ExprView::Unary { operator, expression } => holds_float(*expression),
        ExprView::Grouping { expression } => holds_float(*expression),
        ExprView::Literal { value } => value is Float,
        ExprView::Variable { name } => false,
        ExprView::Assign { name, value } => holds_float(*value),
        ExprView::Logical { left, operator, right } => holds_float(*left) || holds_float(*right),
    }
}

pub open spec fn outcome_view(r: Result<LiteralValue, Diagnostic>) -> Result<Value, DiagnosticView> {
    match r {
        Ok(v) => Ok(v@),
        Err(d) => Err(d@),
    }
}

pub fn arith_for(kind: TokenType) -> (r: Option<Arith>)
    ensures
        r == arith_of(kind),
{
    match kind {
        TokenType::Plus => Some(Arith::Add),
        TokenType::Minus => Some(Arith::Subtract),
        TokenType::Star => Some(Arith::Multiply),
        TokenType::Slash => Some(Arith::Divide),
        _ => None,
    }
}

pub fn relation_for(kind: TokenType) -> (r: Option<Relation>)
    ensures
        r == relation_of(kind),
{
    match kind {
        TokenType::Less => Some(Relation::Less),
        TokenType::LessEqual => Some(Relation::LessEqual),
        TokenType::Greater => Some(Relation::Greater),
        TokenType::GreaterEqual => Some(Relation::GreaterEqual),
        TokenType::EqualEqual => Some(Relation::Equal),
        TokenType::BangEqual => Some(Relation::NotEqual),
        _ => None,
    }
}

fn int_arith(operator: &Token, op: Arith, x: i64, y: i64) -> (r: Result<LiteralValue, Diagnostic>)
    ensures
        outcome_view(r) == int_value(operator@, op, x, y),
{
    let q: Option<i64> = match op {
        Arith::Add => x.checked_add(y),
        Arith::Subtract => x.checked_sub(y),
        Arith::Multiply => x.checked_mul(y),
        Arith::Divide => {
            if y == 0 {
                return Err(ErrorMsg::error(operator, Problem::DivisionByZero));
            }
            x.checked_div(y)
        },
    };
    match q {
        Some(z) => Ok(LiteralValue::IntValue(z)),
        None => Err(ErrorMsg::error(operator, Problem::IntegerOverflow)),
    }
}

fn int_compare(op: Relation, x: i64, y: i64) -> (r: bool)
    ensures
        r == int_holds(op, x as int, y as int),
{
    match op {
        Relation::Less => x < y,
        Relation::LessEqual => x <= y,
        Relation::Greater => x > y,
        Relation::GreaterEqual => x >= y,
        Relation::Equal => x == y,
        Relation::NotEqual => x != y,
    }
}

fn text_compare(op: Relation, x: &String, y: &String) -> (r: bool)
    ensures
        r == text_holds(op, x@, y@),
{
    match op {
        Relation::Less => less_text(x.as_str(), y.as_str()),
        Relation::LessEqual => !less_text(y.as_str(), x.as_str()),
        Relation::Greater => less_text(y.as_str(), x.as_str()),
        Relation::GreaterEqual => !less_text(x.as_str(), y.as_str()),
        Relation::Equal => *x == *y,
        Relation::NotEqual => !(*x == *y),
    }
}

/// Applies a unary operator to a value.
pub fn apply_unary<U: FloatUnit>(unit: &U, operator: &Token, x: &LiteralValue) -> (r: Result<
    LiteralValue,
    Diagnostic,
>)
    ensures
        deterministic(unit) || !unary_asks(operator@, x@) ==> outcome_view(r) == unary_value(
            unit,
            operator@,
            x@,
        ),
        x@ matches Value::Float(b) ==> unary_answer(unit, operator@, b, outcome_view(r)),
{
    match operator.token_type {
        TokenType::Minus => match x {
            LiteralValue::IntValue(i) => {
                if *i == i64::MIN {
                    Err(ErrorMsg::error(operator, Problem::IntegerOverflow))
                } else {
                    Ok(LiteralValue::IntValue(-*i))
                }
            },
            LiteralValue::FValue(b) => Ok(LiteralValue::FValue(negate_float(unit, *b))),
            _ => Err(ErrorMsg::error(operator, Problem::OperandMismatch)),
        },
        TokenType::Bang => match x {
            LiteralValue::True => Ok(LiteralValue::False),
            LiteralValue::False => Ok(LiteralValue::True),
            _ => Err(ErrorMsg::error(operator, Problem::OperandMismatch)),
        },
        _ => Err(ErrorMsg::error(operator, Problem::UnknownOperator)),
    }
}

/// Applies a binary operator to two values.
pub fn apply_binary<U: FloatUnit>(
    unit: &U,
    operator: &Token,
    a: &LiteralValue,
    b: &LiteralValue,
) -> (r: Result<LiteralValue, Diagnostic>)
    ensures
        deterministic(unit) || !binary_asks(a@, b@) ==> outcome_view(r) == binary_value(
            unit,
            operator@,
            a@,
            b@,
        ),
        a@ matches Value::Float(x) ==> (b@ matches Value::Float(y) ==> binary_answer(
            unit,
            operator@,
            x,
            y,
            outcome_view(r),
        )),
{
    match arith_for(operator.token_type) {
        Some(op) => match (a, b) {
            (LiteralValue::IntValue(x), LiteralValue::IntValue(y)) => int_arith(operator, op, *x, *y),
            (LiteralValue::FValue(x), LiteralValue::FValue(y)) => {
                if op == Arith::Divide && float_zero(*y) {
                    Err(ErrorMsg::error(operator, Problem::DivisionByZero))
                } else {
                    Ok(LiteralValue::FValue(combine_floats(unit, op, *x, *y)))
                }
            },
            (LiteralValue::StringValue(x), LiteralValue::StringValue(y)) => {
                if op == Arith::Add {
                    let mut s = x.clone();
                    s.append(y.as_str());
                    Ok(LiteralValue::StringValue(s))
                } else {
                    Err(ErrorMsg::error(operator, Problem::OperandMismatch))
                }
            },
            _ => Err(ErrorMsg::error(operator, Problem::OperandMismatch)),
        },
        None => match relation_for(operator.token_type) {
            Some(op) => match (a, b) {
                (LiteralValue::IntValue(x), LiteralValue::IntValue(y)) => Ok(
                    LiteralValue::of_truth(int_compare(op, *x, *y)),
                ),
                (LiteralValue::FValue(x), LiteralValue::FValue(y)) => {
                    let answer = compare_floats(unit, op, *x, *y);
                    let r: Result<LiteralValue, Diagnostic> = Ok(LiteralValue::of_truth(answer));
                    assert(outcome_view(r) == Ok::<Value, DiagnosticView>(truth(answer)));
                    assert(binary_answer(unit, operator@, *x, *y, outcome_view(r)));
                    r
                },
                (LiteralValue::StringValue(x), LiteralValue::StringValue(y)) => Ok(
                    LiteralValue::of_truth(text_compare(op, x, y)),
                ),
                _ => Err(ErrorMsg::error(operator, Problem::OperandMismatch)),
            },
            None => Err(ErrorMsg::error(operator, Problem::UnknownOperator)),
        },
    }
}

impl Expr {
    /// Evaluates the expression in `env`. Notices that do not end the
    /// evaluation are added to `notices`; a fatal problem is returned.
    pub fn evaluate<U: FloatUnit>(
        &self,
        env: &mut Environment,
        unit: &U,
        notices: &mut Vec<Diagnostic>,
    ) -> (r: Result<LiteralValue, Diagnostic>)
        ensures
            deterministic(unit) || !eval(unit, self@, old(env)@).asked ==> ({
                let e = eval(unit, self@, old(env)@);
                &&& outcome_view(r) == e.result
                &&& final(env)@ == e.env
                &&& final(notices).deep_view() == old(notices).deep_view() + e.notices
            }),
        decreases self,
    {
        match self {
            Expr::Literal { value } => {
                assert(notices.deep_view() + Seq::<DiagnosticView>::empty() =~= notices.deep_view());
                Ok(value.clone())
            },
            Expr::Grouping { expression } => expression.evaluate(env, unit, notices),
            Expr::Variable { name } => {
                match env.get(name.lexeme.as_str()) {
                    Some(v) => {
                        assert(notices.deep_view() + Seq::<DiagnosticView>::empty() =~= notices.deep_view());
                        Ok(v)
                    },
                    None => {
                        note(notices, ErrorMsg::error(name, Problem::UnboundVariable));
                        assert(notices.deep_view() =~= old(notices).deep_view() + seq![
                            ErrorMsg::blame(name@, Problem::UnboundVariable),
                        ]);
                        Ok(LiteralValue::Nil)
                    },
                }
            },
            Expr::Assign { name, value } => {
                let x = match value.evaluate(env, unit, notices) {
                    Ok(x) => x,
                    Err(d) => {
                        return Err(d);
                    },
                };
                match env.assign(name.lexeme.as_str(), x) {
                    Some(before) => Ok(before),
                    None => {
                        note(notices, ErrorMsg::error(name, Problem::UnboundVariable));
                        proof {
                            if deterministic(unit) || !eval(unit, self@, old(env)@).asked {
                                let e = eval(unit, value@, old(env)@);
                                assert(notices.deep_view() =~= old(notices).deep_view() + e.notices.push(
                                    ErrorMsg::blame(name@, Problem::UnboundVariable),
                                ));
                            }
                        }
                        Ok(LiteralValue::Nil)
                    },
                }
            },
            Expr::Unary { operator, expression } => {
                let x = match expression.evaluate(env, unit, notices) {
                    Ok(x) => x,
                    Err(d) => {
                        return Err(d);
                    },
                };
                apply_unary(unit, operator, &x)
            },
            Expr::Binary { left, operator, right } => {
                let a = match left.evaluate(env, unit, notices) {
                    Ok(a) => a,
                    Err(d) => {
                        return Err(d);
                    },
                };
                let ghost mid = env@;
                let r = right.evaluate(env, unit, notices);
                proof {
                    if deterministic(unit) || !eval(unit, self@, old(env)@).asked {
                        let l = eval(unit, left@, old(env)@);
                        let e = eval(unit, right@, mid);
                        assert(notices.deep_view() =~= old(notices).deep_view() + (l.notices + e.notices));
                    }
                }
                match r {
                    Ok(b) => apply_binary(unit, operator, &a, &b),
                    Err(d) => Err(d),
                }
            },
            Expr::Logical { left, operator, right } => {
                let a = match left.evaluate(env, unit, notices) {
                    Ok(a) => a,
                    Err(d) => {
                        return Err(d);
                    },
                };
                let or = match operator.token_type {
                    TokenType::Or => true,
                    TokenType::And => false,
                    _ => {
                        return Err(ErrorMsg::error(operator, Problem::UnknownOperator));
                    },
                };
                let decided = match a {
                    LiteralValue::True => or,
                    LiteralValue::False => !or,
                    _ => {
                        return Err(ErrorMsg::error(operator, Problem::OperandMismatch));
                    },
                };
                if decided {
                    return Ok(a);
                }
                let ghost mid = env@;
                let r = right.evaluate(env, unit, notices);
                proof {
                    if deterministic(unit) || !eval(unit, self@, old(env)@).asked {
                        let l = eval(unit, left@, old(env)@);
                        let e = eval(unit, right@, mid);
                        assert(notices.deep_view() =~= old(notices).deep_view() + (l.notices + e.notices));
                    }
                }
                match r {
                    Ok(LiteralValue::True) => Ok(LiteralValue::True),
                    Ok(LiteralValue::False) => Ok(LiteralValue::False),
                    Ok(_) => Err(ErrorMsg::error(operator, Problem::OperandMismatch)),
                    Err(d) => Err(d),
                }
            },
        }
    }

    /// Appends the printed form of the expression to `out`.
    fn write_text<U: FloatUnit>(&self, unit: &U, out: &mut String)
        ensures
            deterministic(unit) || !holds_float(self@) ==> final(out)@ == old(out)@ + expr_text(
                unit,
                self@,
            ),
        decreases self,
    {
        match self {
            Expr::Binary { left, operator, right } => {
                out.append("(");
                out.append(operator.lexeme.as_str());
                out.append(" ");
                left.write_text(unit, out);
                out.append(" ");
                right.write_text(unit, out);
                out.append(")");
                proof {
                    if deterministic(unit) || !holds_float(self@) {
                        assert(out@ =~= old(out)@ + expr_text(unit, self@));
                    }
                }
            },
            Expr::Logical { left, operator, right } => {
                out.append("(");
                out.append(operator.lexeme.as_str());
                out.append(" ");
                left.write_text(unit, out);
                out.append(" ");
                right.write_text(unit, out);
                out.append(")");
                proof {
                    if deterministic(unit) || !holds_float(self@) {
                        assert(out@ =~= old(out)@ + expr_text(unit, self@));
                    }
                }
            },
            Expr::Unary { operator, expression } => {
                out.append("(");
                out.append(operator.lexeme.as_str());
                out.append(" ");
                expression.write_text(unit, out);
                out.append(")");
                proof {
                    if deterministic(unit) || !holds_float(self@) {
                        assert(out@ =~= old(out)@ + expr_text(unit, self@));
                    }
                }
            },
            Expr::Grouping { expression } => {
                out.append("(group ");
                expression.write_text(unit, out);
                out.append(")");
                proof {
                    if deterministic(unit) || !holds_float(self@) {
                        assert(out@ =~= old(out)@ + expr_text(unit, self@));
                    }
                }
            },
            Expr::Literal { value } => {
                let s = value.to_string(unit);
                out.append(s.as_str());
            },
            Expr::Variable { name } => {
                out.append(name.lexeme.as_str());
            },
            Expr::Assign { name, value } => {
                out.append("(= ");
                out.append(name.lexeme.as_str());
                out.append(" ");
                value.write_text(unit, out);
                out.append(")");
                proof {
                    if deterministic(unit) || !holds_float(self@) {
                        assert(out@ =~= old(out)@ + expr_text(unit, self@));
                    }
                }
            },
        }
    }

    /// The printed form of the expression.
    pub fn to_string<U: FloatUnit>(&self, unit: &U) -> (s: String)
        ensures
            deterministic(unit) || !holds_float(self@) ==> s@ == expr_text(unit, self@),
    {
        let mut s = String::new();
        self.write_text(unit, &mut s);
        proof {
            if deterministic(unit) || !holds_float(self@) {
                assert(s@ =~= expr_text(unit, self@));
            }
        }
        s
    }
}

/// Every problem in `issues` leaves a default and lets the work go on.
pub open spec fn none_fatal(issues: Seq<DiagnosticView>) -> bool {
    forall|i: int| 0 <= i < issues.len() ==> !(#[trigger] issues[i]).problem.is_fatal()
}

/// Evaluation ends early only in a fatal problem, and what it gives notice of
/// is never fatal.
pub proof fn evaluation_sorts_problems<U: FloatUnit>(unit: &U, e: ExprView, env: Scopes)
    ensures
        eval(unit, e, env).result matches Err(d) ==> d.problem.is_fatal(),
        none_fatal(eval(unit, e, env).notices),
    decreases e,
{
    match e {
        ExprView::Literal { value } => {},
        ExprView::Grouping { expression } => {
            evaluation_sorts_problems(unit, *expression, env);
        },
        ExprView::Variable { name } => {},
        ExprView::Assign { name, value } => {
            evaluation_sorts_problems(unit, *value, env);
        },
        ExprView::Unary { operator, expression } => {
            evaluation_sorts_problems(unit, *expression, env);
        },
        ExprView::Binary { left, operator, right } => {
            evaluation_sorts_problems(unit, *left, env);
            evaluation_sorts_problems(unit, *right, eval(unit, *left, env).env);
        },
        ExprView::Logical { left, operator, right } => {
            evaluation_sorts_problems(unit, *left, env);
            evaluation_sorts_problems(unit, *right, eval(unit, *left, env).env);
        },
    }
}

} // verus!
