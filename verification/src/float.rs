//! Floating-point numbers as the interpreter sees them.
//!
//! The library holds a double only as its 64-bit pattern and never looks
//! inside one. Whatever has to be computed on doubles is asked of a
//! [`FloatUnit`] that the embedding program supplies. The library is verified
//! for every unit; what it promises about doubles is stated over the results
//! that the unit gives, for a unit that answers the same question the same
//! way each time ([`deterministic`]).
use vstd::prelude::*;
use crate::text::all_digits;

verus! {

/// The four arithmetic operations of the language.
#[derive(Debug, Clone, Copy, PartialEq, Eq, Structural)]
pub enum Arith {
    Add,
    Subtract,
    Multiply,
    Divide,
}

/// The six comparisons of the language.
#[derive(Debug, Clone, Copy, PartialEq, Eq, Structural)]
pub enum Relation {
    Less,
    LessEqual,
    Greater,
    GreaterEqual,
    Equal,
    NotEqual,
}

/// Digits, a dot at index `k`, digits: the only form of literal that a unit
/// is asked to read.
pub open spec fn is_float_literal_at(s: Seq<char>, k: int) -> bool {
    &&& 0 < k < s.len() - 1
    &&& s[k] == '.'
    &&& all_digits(s.subrange(0, k))
    &&& all_digits(s.subrange(k + 1, s.len() as int))
}

pub open spec fn is_float_literal(s: Seq<char>) -> bool {
    exists|k: int| is_float_literal_at(s, k)
}

/// Arithmetic on doubles, each given and returned as its bit pattern.
pub trait FloatUnit {
    /// Reads a literal of the form digits, dot, digits.
    fn parse(&self, text: &str) -> u64
        requires
            is_float_literal(text@),
    ;

    /// Writes a double out as text.
    fn render(&self, x: u64) -> String;

    fn negate(&self, x: u64) -> u64;

    fn arith(&self, op: Arith, a: u64, b: u64) -> u64;

    fn compare(&self, op: Relation, a: u64, b: u64) -> bool;
}

/// The unit may answer `bits` when asked to read `text`.
pub open spec fn parse_yields<U: FloatUnit>(unit: &U, text: Seq<char>, bits: u64) -> bool {
    exists|t: &str| t@ == text && #[trigger] call_ensures(U::parse, (unit, t), bits)
}

/// The unit may answer `text` when asked to write `bits`.
pub open spec fn render_yields<U: FloatUnit>(unit: &U, bits: u64, text: Seq<char>) -> bool {
    exists|s: String| s@ == text && #[trigger] call_ensures(U::render, (unit, bits), s)
}

/// A unit that gives one answer to each question.
pub open spec fn deterministic<U: FloatUnit>(unit: &U) -> bool {
    &&& forall|text: Seq<char>, x: u64, y: u64|
        #[trigger] parse_yields(unit, text, x) && #[trigger] parse_yields(unit, text, y) ==> x == y
    &&& forall|bits: u64, s: Seq<char>, t: Seq<char>|
        #[trigger] render_yields(unit, bits, s) && #[trigger] render_yields(unit, bits, t) ==> s == t
    &&& forall|a: u64, x: u64, y: u64|
        #[trigger] call_ensures(U::negate, (unit, a), x) && #[trigger] call_ensures(
            U::negate,
            (unit, a),
            y,
        ) ==> x == y
    &&& forall|op: Arith, a: u64, b: u64, x: u64, y: u64|
        #[trigger] call_ensures(U::arith, (unit, op, a, b), x) && #[trigger] call_ensures(
            U::arith,
            (unit, op, a, b),
            y,
        ) ==> x == y
    &&& forall|op: Relation, a: u64, b: u64, x: bool, y: bool|
        #[trigger] call_ensures(U::compare, (unit, op, a, b), x) && #[trigger] call_ensures(
            U::compare,
            (unit, op, a, b),
            y,
        ) ==> x == y
}

/// The double that the unit reads from `text`.
pub open spec fn float_of<U: FloatUnit>(unit: &U, text: Seq<char>) -> u64 {
    choose|bits: u64| parse_yields(unit, text, bits)
}

/// The text that the unit writes for `bits`.
pub open spec fn float_text<U: FloatUnit>(unit: &U, bits: u64) -> Seq<char> {
    choose|text: Seq<char>| render_yields(unit, bits, text)
}

pub open spec fn float_negated<U: FloatUnit>(unit: &U, a: u64) -> u64 {
    choose|r: u64| call_ensures(U::negate, (unit, a), r)
}

pub open spec fn float_result<U: FloatUnit>(unit: &U, op: Arith, a: u64, b: u64) -> u64 {
    choose|r: u64| call_ensures(U::arith, (unit, op, a, b), r)
}

pub open spec fn float_holds<U: FloatUnit>(unit: &U, op: Relation, a: u64, b: u64) -> bool {
    choose|r: bool| call_ensures(U::compare, (unit, op, a, b), r)
}

/// A zero of either sign.
pub open spec fn is_float_zero(bits: u64) -> bool {
    bits == 0 || bits == 0x8000_0000_0000_0000
}

pub fn read_float<U: FloatUnit>(unit: &U, text: &str) -> (bits: u64)
    requires
        is_float_literal(text@),
    ensures
        parse_yields(unit, text@, bits),
        deterministic(unit) ==> bits == float_of(unit, text@),
{
    let bits = unit.parse(text);
    assert(parse_yields(unit, text@, bits));
    assert(parse_yields(unit, text@, float_of(unit, text@)));
    bits
}

pub fn write_float<U: FloatUnit>(unit: &U, bits: u64) -> (s: String)
    ensures
        render_yields(unit, bits, s@),
        deterministic(unit) ==> s@ == float_text(unit, bits),
{
    let s = unit.render(bits);
    assert(render_yields(unit, bits, s@));
    assert(render_yields(unit, bits, float_text(unit, bits)));
    s
}

pub fn negate_float<U: FloatUnit>(unit: &U, a: u64) -> (r: u64)
    ensures
        call_ensures(U::negate, (unit, a), r),
        deterministic(unit) ==> r == float_negated(unit, a),
{
    unit.negate(a)
}

pub fn combine_floats<U: FloatUnit>(unit: &U, op: Arith, a: u64, b: u64) -> (r: u64)
    ensures
        call_ensures(U::arith, (unit, op, a, b), r),
        deterministic(unit) ==> r == float_result(unit, op, a, b),
{
    unit.arith(op, a, b)
}

pub fn compare_floats<U: FloatUnit>(unit: &U, op: Relation, a: u64, b: u64) -> (r: bool)
    ensures
        call_ensures(U::compare, (unit, op, a, b), r),
        deterministic(unit) ==> r == float_holds(unit, op, a, b),
{
    unit.compare(op, a, b)
}

pub fn float_zero(bits: u64) -> (r: bool)
    ensures
        r == is_float_zero(bits),
{
    bits == 0 || bits == 0x8000_0000_0000_0000
}

} // verus!
