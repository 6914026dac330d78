//! What comes back when a text is scanned and written out again.
use vstd::prelude::*;
use crate::error::DiagnosticView;
use crate::float::FloatUnit;
use crate::parser::parse_program;
use crate::scanner::{
    end_token, in_class, lemma_lex_advances, lemma_run_end, lex, lex_number, lex_string, lex_word,
    option_seq, paired_of, punctuation_of, run_end, scan, scan_from, CharClass,
};
use crate::shape::{bare_issues, bare_stmts, bare_tokens, lemma_bare_program};
use crate::text::{
    decimal_value, is_alpha, is_canonical_decimal, is_digit, lemma_decimal_digits_of_value,
};
use crate::token::{value_text, TokenView, Value};
use crate::token_type::TokenType;

verus! {

/// A run that holds only characters of its class, and is followed by none,
/// ends where it is said to end.
pub proof fn lemma_run_end_is(src: Seq<char>, from: int, end: int, class: CharClass)
    requires
        0 <= from <= end <= src.len(),
        forall|i: int| from <= i < end ==> in_class(class, #[trigger] src[i]),
        end < src.len() ==> !in_class(class, src[end]),
    ensures
        run_end(src, from, class) == end,
    decreases end - from,
{
    if from < end {
        lemma_run_end_is(src, from + 1, end, class);
    }
}

/// An integer literal without redundant digits, which a 64-bit integer can
/// hold, is scanned to one token that carries its value, and the value is
/// written out as the literal itself.
pub proof fn integer_literal_round_trip<U: FloatUnit>(unit: &U, s: Seq<char>)
    requires
        is_canonical_decimal(s),
        decimal_value(s) <= i64::MAX,
    ensures
        scan(unit, s).tokens == seq![
            TokenView {
                lexeme: s,
                line: 1,
                literal: Some(Value::Int(decimal_value(s) as i64)),
                token_type: TokenType::INumber,
            },
            end_token(1),
        ],
        scan(unit, s).issues == Seq::<DiagnosticView>::empty(),
        value_text(unit, Value::Int(decimal_value(s) as i64)) == s,
{
    lemma_decimal_digits_of_value(s);
    assert(is_digit(s[0]));
    assert forall|i: int| 0 <= i < s.len() implies in_class(
        CharClass::Digit,
        #[trigger] s[i],
    ) by {
        assert(is_digit(s[i]));
    }
    lemma_run_end_is(s, 0, s.len() as int, CharClass::Digit);
    let step = lex(unit, s, 0, 1);
    assert(step == lex_number(unit, s, 0, 1));
    assert(s.subrange(0, s.len() as int) =~= s);
    let rest = scan_from(unit, s, s.len() as int, 1);
    assert(rest.tokens == seq![end_token(1)]);
    assert(scan(unit, s).tokens =~= option_seq(step.token) + rest.tokens);
    assert(scan(unit, s).tokens =~= seq![step.token->0, end_token(1)]);
    assert(scan(unit, s).issues =~= Seq::<DiagnosticView>::empty());
}

/// Two tokens of one kind, with one text and one literal. Their lines are
/// not compared.
pub open spec fn same_token(a: TokenView, b: TokenView) -> bool {
    a.token_type == b.token_type && a.lexeme == b.lexeme && a.literal == b.literal
}

/// Two lists of tokens that agree token by token, but for the lines.
pub open spec fn same_tokens(a: Seq<TokenView>, b: Seq<TokenView>) -> bool {
    &&& a.len() == b.len()
    &&& forall|i: int| 0 <= i < a.len() ==> same_token(#[trigger] a[i], b[i])
}

/// The texts of the tokens, in order, with one space between every two.
pub open spec fn spaced(tokens: Seq<TokenView>) -> Seq<char>
    decreases tokens.len(),
{
    if tokens.len() == 0 {
        seq![]
    } else if tokens.len() == 1 {
        tokens[0].lexeme
    } else {
        tokens[0].lexeme + seq![' '] + spaced(tokens.drop_first())
    }
}

/// A text that is empty or starts with a space.
pub open spec fn delimited(rest: Seq<char>) -> bool {
    rest.len() == 0 || rest[0] == ' '
}

/// Where the text of `t` stands behind `before` and in front of `rest`,
/// the scanner finds a token like `t`, made of that text and no more.
pub open spec fn stands_in<U: FloatUnit>(
    unit: &U,
    t: TokenView,
    before: Seq<char>,
    rest: Seq<char>,
    line: usize,
) -> bool {
    let l = lex(unit, before + t.lexeme + rest, before.len() as int, line);
    l.next == before.len() + t.lexeme.len() && l.token is Some && same_token(l.token->0, t)
}

/// The text of `t` is found again as a token like `t` wherever it stands in
/// front of a space or at the end of a text.
pub open spec fn stands_alone<U: FloatUnit>(unit: &U, t: TokenView) -> bool {
    &&& t.lexeme.len() > 0
    &&& forall|before: Seq<char>, rest: Seq<char>, line: usize|
        delimited(rest) ==> #[trigger] stands_in(unit, t, before, rest, line)
}

/// The tokens of a scan but the last stand alone, and the last is the
/// end-of-input token.
pub open spec fn rescannable<U: FloatUnit>(unit: &U, tokens: Seq<TokenView>) -> bool {
    &&& tokens.len() > 0
    &&& same_token(tokens.last(), end_token(0))
    &&& forall|i: int| 0 <= i < tokens.len() - 1 ==> stands_alone(unit, #[trigger] tokens[i])
}

proof fn lemma_stands_in<U: FloatUnit>(
    unit: &U,
    src: Seq<char>,
    pos: int,
    line: usize,
    before: Seq<char>,
    rest: Seq<char>,
    line2: usize,
)
    requires
        0 <= pos < src.len(),
        lex(unit, src, pos, line).token is Some,
        delimited(rest),
    ensures
        lex(unit, src, pos, line).token->0.lexeme == src.subrange(
            pos,
            lex(unit, src, pos, line).next,
        ),
        stands_in(unit, lex(unit, src, pos, line).token->0, before, rest, line2),
{
    let l = lex(unit, src, pos, line);
    let t = l.token->0;
    lemma_lex_advances(unit, src, pos, line);
    let n = l.next - pos;
    let b = before.len() as int;
    let text = before + t.lexeme + rest;
    let c = src[pos];
    assert(t.lexeme == src.subrange(pos, l.next));
    assert(text.len() == b + n + rest.len());
    assert forall|i: int| 0 <= i < n implies #[trigger] text[b + i] == src[pos + i] by {
        assert(text[b + i] == t.lexeme[i]);
    }
    assert(rest.len() > 0 ==> text[b + n] == ' ') by {
        if rest.len() > 0 {
            assert(text[b + n] == rest[0]);
        }
    }
    assert(text[b] == c) by {
        assert(text[b + 0] == src[pos + 0]);
    }
    let l2 = lex(unit, text, b, line2);
    if punctuation_of(c) is Some {
        assert(text.subrange(b, b + 1) =~= t.lexeme);
    } else if paired_of(c) is Some {
        if pos + 1 < src.len() && src[pos + 1] == '=' {
            assert(text[b + 1] == src[pos + 1]);
            assert(text.subrange(b, b + 2) =~= t.lexeme);
        } else {
            assert(text.subrange(b, b + 1) =~= t.lexeme);
        }
    } else if c == '/' {
        assert(text.subrange(b, b + 1) =~= t.lexeme);
    } else if c == '"' {
        let close = run_end(src, pos + 1, CharClass::Quoted);
        lemma_run_end(src, pos + 1, CharClass::Quoted);
        assert(l == lex_string(src, pos, line));
        assert(close < src.len());
        assert forall|i: int| b + 1 <= i < b + n - 1 implies in_class(
            CharClass::Quoted,
            #[trigger] text[i],
        ) by {
            assert(text[b + (i - b)] == src[pos + (i - b)]);
        }
        assert(text[b + (n - 1)] == src[pos + (n - 1)]);
        lemma_run_end_is(text, b + 1, b + n - 1, CharClass::Quoted);
        assert(l2 == lex_string(text, b, line2));
        assert(text.subrange(b, b + n) =~= t.lexeme);
        assert(text.subrange(b + 1, b + n - 1) =~= src.subrange(pos + 1, close));
    } else if is_digit(c) {
        let whole = run_end(src, pos, CharClass::Digit);
        lemma_run_end(src, pos, CharClass::Digit);
        assert(l == lex_number(unit, src, pos, line));
        assert(l2 == lex_number(unit, text, b, line2));
        if whole + 1 < src.len() && src[whole] == '.' && is_digit(src[whole + 1]) {
            let end = run_end(src, whole + 1, CharClass::Digit);
            lemma_run_end(src, whole + 1, CharClass::Digit);
            let w = whole - pos;
            assert forall|i: int| b <= i < b + w implies in_class(
                CharClass::Digit,
                #[trigger] text[i],
            ) by {
                assert(text[b + (i - b)] == src[pos + (i - b)]);
            }
            assert(text[b + w] == src[pos + w]);
            lemma_run_end_is(text, b, b + w, CharClass::Digit);
            assert(text[b + (w + 1)] == src[pos + (w + 1)]);
            assert forall|i: int| b + w + 1 <= i < b + n implies in_class(
                CharClass::Digit,
                #[trigger] text[i],
            ) by {
                assert(text[b + (i - b)] == src[pos + (i - b)]);
            }
            lemma_run_end_is(text, b + w + 1, b + n, CharClass::Digit);
            assert(text.subrange(b, b + n) =~= t.lexeme);
        } else {
            assert forall|i: int| b <= i < b + n implies in_class(
                CharClass::Digit,
                #[trigger] text[i],
            ) by {
                assert(text[b + (i - b)] == src[pos + (i - b)]);
            }
            lemma_run_end_is(text, b, b + n, CharClass::Digit);
            assert(text.subrange(b, b + n) =~= t.lexeme);
        }
    } else if is_alpha(c) {
        lemma_run_end(src, pos, CharClass::Word);
        assert(l == lex_word(src, pos, line));
        assert forall|i: int| b <= i < b + n implies in_class(CharClass::Word, #[trigger] text[i]) by {
            assert(text[b + (i - b)] == src[pos + (i - b)]);
        }
        lemma_run_end_is(text, b, b + n, CharClass::Word);
        assert(l2 == lex_word(text, b, line2));
        assert(text.subrange(b, b + n) =~= t.lexeme);
    }
}

/// A token that the scanner finds stands alone.
pub proof fn lemma_token_stands_alone<U: FloatUnit>(unit: &U, src: Seq<char>, pos: int, line: usize)
    requires
        0 <= pos < src.len(),
        lex(unit, src, pos, line).token is Some,
    ensures
        stands_alone(unit, lex(unit, src, pos, line).token->0),
{
    let t = lex(unit, src, pos, line).token->0;
    lemma_lex_advances(unit, src, pos, line);
    lemma_stands_in(unit, src, pos, line, Seq::empty(), Seq::empty(), 0);
    assert forall|before: Seq<char>, rest: Seq<char>, line2: usize| delimited(rest) implies #[trigger] stands_in(
        unit,
        t,
        before,
        rest,
        line2,
    ) by {
        lemma_stands_in(unit, src, pos, line, before, rest, line2);
    }
}

/// The tokens of a scan can be scanned again from their texts.
pub proof fn lemma_scan_is_rescannable<U: FloatUnit>(unit: &U, src: Seq<char>, pos: int, line: usize)
    ensures
        rescannable(unit, scan_from(unit, src, pos, line).tokens),
    decreases src.len() - pos,
{
    if 0 <= pos < src.len() {
        let step = lex(unit, src, pos, line);
        lemma_lex_advances(unit, src, pos, line);
        lemma_scan_is_rescannable(unit, src, step.next, step.line);
        let rest = scan_from(unit, src, step.next, step.line).tokens;
        let all = scan_from(unit, src, pos, line).tokens;
        assert(all == option_seq(step.token) + rest);
        if step.token is Some {
            lemma_token_stands_alone(unit, src, pos, line);
            assert forall|i: int| 0 <= i < all.len() - 1 implies stands_alone(unit, #[trigger] all[i]) by {
                if i > 0 {
                    assert(all[i] == rest[i - 1]);
                }
            }
            assert(all.last() == rest.last());
        } else {
            assert(all =~= rest);
        }
    }
}

/// The last token of every scan is the end-of-input token, with no text and
/// no literal, and no token before it is one: each has a text.
pub proof fn scan_ends_at_end_token<U: FloatUnit>(unit: &U, src: Seq<char>)
    ensures
        scan(unit, src).tokens.len() > 0,
        same_token(scan(unit, src).tokens.last(), end_token(0)),
        forall|i: int|
            0 <= i < scan(unit, src).tokens.len() - 1 ==> (#[trigger] scan(unit, src).tokens[i]).lexeme.len()
                > 0,
{
    lemma_scan_is_rescannable(unit, src, 0, 1);
}

/// Scanning the spaced texts of rescannable tokens, from behind any text
/// `before`, finds the tokens again.
pub proof fn lemma_rescan<U: FloatUnit>(
    unit: &U,
    before: Seq<char>,
    tokens: Seq<TokenView>,
    line: usize,
)
    requires
        rescannable(unit, tokens),
    ensures
        same_tokens(
            scan_from(unit, before + spaced(tokens), before.len() as int, line).tokens,
            tokens,
        ),
    decreases tokens.len(),
{
    let text = before + spaced(tokens);
    let b = before.len() as int;
    if tokens.len() == 1 {
        assert(tokens[0].lexeme.len() == 0);
        assert(text =~= before);
        assert(scan_from(unit, text, b, line).tokens == seq![end_token(line)]);
    } else {
        let t = tokens[0];
        let others = tokens.drop_first();
        let rest = seq![' '] + spaced(others);
        assert(stands_alone(unit, t));
        assert(delimited(rest)) by {
            assert(rest[0] == ' ');
        }
        assert(stands_in(unit, t, before, rest, line));
        assert(text =~= before + t.lexeme + rest);
        let first = lex(unit, text, b, line);
        let gap = b + t.lexeme.len();
        assert(first.next == gap);
        assert(text[gap] == ' ') by {
            assert(text[gap] == rest[0]);
        }
        let second = lex(unit, text, gap, first.line);
        assert(second.next == gap + 1 && second.token is None && second.line == first.line);
        let longer = before + t.lexeme + seq![' '];
        assert(text =~= longer + spaced(others));
        assert(rescannable(unit, others)) by {
            assert(others.last() == tokens.last());
            assert forall|i: int| 0 <= i < others.len() - 1 implies stands_alone(
                unit,
                #[trigger] others[i],
            ) by {
                assert(others[i] == tokens[i + 1]);
            }
        }
        lemma_rescan(unit, longer, others, first.line);
        let tail = scan_from(unit, text, gap + 1, first.line).tokens;
        assert(same_tokens(tail, others));
        let middle = scan_from(unit, text, gap, first.line).tokens;
        assert(middle =~= tail);
        let all = scan_from(unit, text, b, line).tokens;
        assert(all =~= seq![first.token->0] + tail);
        assert forall|i: int| 0 <= i < all.len() implies same_token(#[trigger] all[i], tokens[i]) by {
            if i > 0 {
                assert(all[i] == tail[i - 1]);
                assert(tokens[i] == others[i - 1]);
                assert(same_token(tail[i - 1], others[i - 1]));
            }
        }
    }
}

/// Writing the texts of the tokens of a program out with single spaces
/// between them and scanning what was written gives the same tokens again:
/// as many, each of the same kind, with the same text and the same literal.
/// Comments, blanks and line breaks leave no token, and so do not count.
pub proof fn rescan_round_trip<U: FloatUnit>(unit: &U, src: Seq<char>)
    ensures
        same_tokens(scan(unit, spaced(scan(unit, src).tokens)).tokens, scan(unit, src).tokens),
{
    let tokens = scan(unit, src).tokens;
    lemma_scan_is_rescannable(unit, src, 0, 1);
    lemma_rescan(unit, Seq::empty(), tokens, 1);
    assert(Seq::<char>::empty() + spaced(tokens) =~= spaced(tokens));
}

/// Writing the texts of the tokens of a program out with single spaces
/// between them, scanning what was written and parsing it gives statements
/// of the same shape as parsing the program itself, and diagnostics of the
/// same shape: all is equal but the line numbers.
pub proof fn reparse_round_trip<U: FloatUnit>(unit: &U, src: Seq<char>)
    ensures
        ({
            let first = parse_program(scan(unit, src).tokens, 0);
            let second = parse_program(scan(unit, spaced(scan(unit, src).tokens)).tokens, 0);
            &&& first.node is Some
            &&& second.node is Some
            &&& bare_stmts(second.node->0) == bare_stmts(first.node->0)
            &&& bare_issues(second.issues) == bare_issues(first.issues)
        }),
{
    let first = scan(unit, src).tokens;
    let second = scan(unit, spaced(first)).tokens;
    rescan_round_trip(unit, src);
    assert(bare_tokens(second) =~= bare_tokens(first)) by {
        assert forall|i: int| 0 <= i < second.len() implies bare_tokens(second)[i] == bare_tokens(
            first,
        )[i] by {
            assert(same_token(second[i], first[i]));
        }
    }
    lemma_bare_program(first, 0);
    lemma_bare_program(second, 0);
}

} // verus!
