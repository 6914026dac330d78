//! Tokens and the values that they, and the evaluator, carry.
use vstd::prelude::*;
use crate::float::{deterministic, float_text, render_yields, write_float, FloatUnit};
use crate::text::{decimal_text, render_int};
use crate::token_type::TokenType;

verus! {

/// A literal of the source text, and a value at run time. A double is held as
/// its bit pattern.
#[derive(Debug, PartialEq)]
pub enum LiteralValue {
    IntValue(i64),
    FValue(u64),
    StringValue(String),
    IdentifierValue(String),
    True,
    False,
    Nil,
}

/// What a [`LiteralValue`] stands for.
pub enum Value {
    Int(i64),
    Float(u64),
    Str(Seq<char>),
    Ident(Seq<char>),
    True,
    False,
    Nil,
}

impl View for LiteralValue {
    type V = Value;

    open spec fn view(&self) -> Value {
        match self {
            LiteralValue::IntValue(i) => Value::Int(*i),
            LiteralValue::FValue(b) => Value::Float(*b),
            LiteralValue::StringValue(s) => Value::Str(s@),
            LiteralValue::IdentifierValue(s) => Value::Ident(s@),
            LiteralValue::True => Value::True,
            LiteralValue::False => Value::False,
            LiteralValue::Nil => Value::Nil,
        }
    }
}

impl DeepView for LiteralValue {
    type V = Value;

    open spec fn deep_view(&self) -> Value {
        self@
    }
}

impl Clone for LiteralValue {
    fn clone(&self) -> (r: Self)
        ensures
            r@ == self@,
    {
        match self {
            LiteralValue::IntValue(i) => LiteralValue::IntValue(*i),
            LiteralValue::FValue(b) => LiteralValue::FValue(*b),
            LiteralValue::StringValue(s) => LiteralValue::StringValue(s.clone()),
            LiteralValue::IdentifierValue(s) => LiteralValue::IdentifierValue(s.clone()),
            LiteralValue::True => LiteralValue::True,
            LiteralValue::False => LiteralValue::False,
            LiteralValue::Nil => LiteralValue::Nil,
        }
    }
}

/// The text that stands for a value when it is printed.
pub open spec fn value_text<U: FloatUnit>(unit: &U, v: Value) -> Seq<char> {
    match v {
        Value::Int(i) => decimal_text(i as int),
        Value::Float(b) => float_text(unit, b),
        Value::Str(s) => s,
        Value::Ident(s) => s,
        Value::True => "true"@,
        Value::False => "false"@,
        Value::Nil => "nil"@,
    }
}

/// The Boolean value for a truth value.
pub open spec fn truth(b: bool) -> Value {
    if b {
        Value::True
    } else {
        Value::False
    }
}

impl LiteralValue {
    /// The canonical text of the value: an integer as its decimal numeral, a
    /// double as the unit writes it, a text as it is, `true`, `false`, `nil`.
    pub fn to_string<U: FloatUnit>(&self, unit: &U) -> (s: String)
        ensures
            self@ matches Value::Float(b) ==> render_yields(unit, b, s@),
            deterministic(unit) || !(self@ is Float) ==> s@ == value_text(unit, self@),
    {
        match self {
            LiteralValue::IntValue(i) => render_int(*i),
            LiteralValue::FValue(b) => write_float(unit, *b),
            LiteralValue::StringValue(s) => s.clone(),
            LiteralValue::IdentifierValue(s) => s.clone(),
            LiteralValue::True => String::from_str("true"),
            LiteralValue::False => String::from_str("false"),
            LiteralValue::Nil => String::from_str("nil"),
        }
    }

    pub fn of_truth(b: bool) -> (r: LiteralValue)
        ensures
            r@ == truth(b),
    {
        if b {
            LiteralValue::True
        } else {
            LiteralValue::False
        }
    }
}

/// A classified, positioned piece of the source text.
#[derive(Debug, PartialEq)]
pub struct Token {
    pub lexeme: String,
    pub line: usize,
    pub literal: Option<LiteralValue>,
    pub token_type: TokenType,
}

/// What a [`Token`] stands for.
pub struct TokenView {
    pub lexeme: Seq<char>,
    pub line: usize,
    pub literal: Option<Value>,
    pub token_type: TokenType,
}

impl View for Token {
    type V = TokenView;

    open spec fn view(&self) -> TokenView {
        TokenView {
            lexeme: self.lexeme@,
            line: self.line,
            literal: match self.literal {
                Some(l) => Some(l@),
                None => None,
            },
            token_type: self.token_type,
        }
    }
}

impl DeepView for Token {
    type V = TokenView;

    open spec fn deep_view(&self) -> TokenView {
        self@
    }
}

impl Clone for Token {
    fn clone(&self) -> (r: Self)
        ensures
            r@ == self@,
    {
        Token {
            lexeme: self.lexeme.clone(),
            line: self.line,
            literal: match &self.literal {
                Some(l) => Some(l.clone()),
                None => None,
            },
            token_type: self.token_type,
        }
    }
}

impl Token {
    pub fn new(
        token_type: TokenType,
        literal: Option<LiteralValue>,
        lexeme: String,
        line: usize,
    ) -> (t: Token)
        ensures
            t.token_type == token_type,
            t.literal == literal,
            t.lexeme == lexeme,
            t.line == line,
    {
        Token { token_type, lexeme, literal, line }
    }
}

} // verus!
