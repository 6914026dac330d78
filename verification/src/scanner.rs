//! The scanner: from source text to tokens.
//!
//! One pass from left to right, looking one character ahead (two for the
//! fraction of a number). Blanks and comments give no token; a character
//! that starts no token, a string that is not closed and an integer that is
//! too large are reported, and scanning goes on. The end-of-input token
//! always comes last.
//!
//! [`lex`] states what one step of the scanner does, and [`scan`] what the
//! whole scan gives; [`Scanner::scan_tokens`] computes exactly that. Line
//! numbers count from 1 and stop counting at the largest number.
use vstd::prelude::*;
use crate::error::{note, Diagnostic, DiagnosticView, Problem};
use crate::float::{
    deterministic, float_of, is_float_literal_at, read_float, FloatUnit,
};
use crate::text::{
    all_digits, alpha, alphanumeric, chars_of, decimal_value, digit, is_alpha, is_alphanumeric,
    is_digit, parse_decimal, text_of,
};
use crate::token::{LiteralValue, Token, TokenView, Value};
use crate::token_type::TokenType;

verus! {

/// The runs of characters that the scanner takes as a whole.
#[derive(Debug, Clone, Copy, PartialEq, Eq, Structural)]
pub enum CharClass {
    /// Decimal digits.
    Digit,
    /// Letters, digits and the underscore.
    Word,
    /// Everything but the double quote.
    Quoted,
    /// Everything but the line feed.
    Comment,
}

pub open spec fn in_class(class: CharClass, c: char) -> bool {
    match class {
        CharClass::Digit => is_digit(c),
        CharClass::Word => is_alphanumeric(c),
        CharClass::Quoted => c != '"',
        CharClass::Comment => c != '\n',
    }
}

/// Where the longest run of characters of `class` that starts at `from` ends.
pub open spec fn run_end(src: Seq<char>, from: int, class: CharClass) -> int
    decreases src.len() - from,
{
    if 0 <= from < src.len() && in_class(class, src[from]) {
        run_end(src, from + 1, class)
    } else {
        from
    }
}

/// The next line number; the count stops at the largest number.
pub open spec fn bump(line: usize) -> usize {
    if line < usize::MAX {
        (line + 1) as usize
    } else {
        line
    }
}

/// The line number after the characters from `from` up to `to` have been
/// passed with the line number `line` at `from`.
pub open spec fn line_after(src: Seq<char>, from: int, to: int, line: usize) -> usize
    decreases to - from,
{
    if from >= to {
        line
    } else {
        line_after(
            src,
            from + 1,
            to,
            if src[from] == '\n' {
                bump(line)
            } else {
                line
            },
        )
    }
}

/// The tokens of one character.
pub open spec fn punctuation_of(c: char) -> Option<TokenType> {
    if c == '(' {
        Some(TokenType::LeftParen)
    } else if c == ')' {
        Some(TokenType::RightParen)
    } else if c == '{' {
        Some(TokenType::LeftBrace)
    } else if c == '}' {
        Some(TokenType::RightBrace)
    } else if c == ',' {
        Some(TokenType::Comma)
    } else if c == '.' {
        Some(TokenType::Dot)
    } else if c == '-' {
        Some(TokenType::Minus)
    } else if c == '+' {
        Some(TokenType::Plus)
    } else if c == ';' {
        Some(TokenType::Semicolon)
    } else if c == '*' {
        Some(TokenType::Star)
    } else {
        None
    }
}

/// The characters that make one token alone and another with `=` behind
/// them: the two kinds, in that order.
pub open spec fn paired_of(c: char) -> Option<(TokenType, TokenType)> {
    if c == '!' {
        Some((TokenType::Bang, TokenType::BangEqual))
    } else if c == '=' {
        Some((TokenType::Equal, TokenType::EqualEqual))
    } else if c == '<' {
        Some((TokenType::Less, TokenType::LessEqual))
    } else if c == '>' {
        Some((TokenType::Greater, TokenType::GreaterEqual))
    } else {
        None
    }
}

/// The kind of a word: one of the sixteen keywords, or an identifier.
pub open spec fn keyword_of(text: Seq<char>) -> TokenType {
    if text == "and"@ {
        TokenType::And
    } else if text == "class"@ {
        TokenType::Class
    } else if text == "else"@ {
        TokenType::Else
    } else if text == "false"@ {
        TokenType::False
    } else if text == "for"@ {
        TokenType::For
    } else if text == "fun"@ {
        TokenType::Fun
    } else if text == "if"@ {
        TokenType::If
    } else if text == "nil"@ {
        TokenType::Nil
    } else if text == "or"@ {
        TokenType::Or
    } else if text == "print"@ {
        TokenType::Print
    } else if text == "return"@ {
        TokenType::Return
    } else if text == "super"@ {
        TokenType::Super
    } else if text == "this"@ {
        TokenType::This
    } else if text == "true"@ {
        TokenType::True
    } else if text == "var"@ {
        TokenType::Var
    } else if text == "while"@ {
        TokenType::While
    } else {
        TokenType::Identifier
    }
}

/// One step of the scanner: where it goes on, on which line, the token or
/// the diagnostic that the step gave, if any, and whether the unit was asked
/// to read a double.
pub struct Lexed {
    pub next: int,
    pub line: usize,
    pub token: Option<TokenView>,
    pub issue: Option<DiagnosticView>,
    pub asked: bool,
}

/// A step that gives the token of `kind` made of the characters from `pos`
/// up to `next`.
pub open spec fn lexed_token(
    src: Seq<char>,
    pos: int,
    next: int,
    line: usize,
    kind: TokenType,
    literal: Option<Value>,
) -> Lexed {
    Lexed {
        next,
        line,
        token: Some(
            TokenView { lexeme: src.subrange(pos, next), line, literal, token_type: kind },
        ),
        issue: None,
        asked: kind == TokenType::FNumber,
    }
}

/// A string literal: from the quote at `pos` to the next quote. Line feeds
/// inside it count, and the token stands on the line where it ends. Without
/// a closing quote the rest of the text is passed over and reported.
pub open spec fn lex_string(src: Seq<char>, pos: int, line: usize) -> Lexed {
    let close = run_end(src, pos + 1, CharClass::Quoted);
    let last = line_after(src, pos + 1, close, line);
    if close >= src.len() {
        Lexed {
            next: close,
            line: last,
            token: None,
            issue: Some(Diagnostic::plain(last, Problem::UnterminatedString)),
            asked: false,
        }
    } else {
        lexed_token(
            src,
            pos,
            close + 1,
            last,
            TokenType::String,
            Some(Value::Str(src.subrange(pos + 1, close))),
        )
    }
}

/// A number: the longest run of digits and, if a dot and a digit follow it,
/// the dot and the longest run of digits behind it. With a fraction it is a
/// double, which the unit reads; without, an integer, which is reported and
/// gives no token when a 64-bit integer cannot hold it.
pub open spec fn lex_number<U: FloatUnit>(unit: &U, src: Seq<char>, pos: int, line: usize) -> Lexed {
    let whole = run_end(src, pos, CharClass::Digit);
    if whole + 1 < src.len() && src[whole] == '.' && is_digit(src[whole + 1]) {
        let end = run_end(src, whole + 1, CharClass::Digit);
        lexed_token(
            src,
            pos,
            end,
            line,
            TokenType::FNumber,
            Some(Value::Float(float_of(unit, src.subrange(pos, end)))),
        )
    } else if decimal_value(src.subrange(pos, whole)) <= i64::MAX {
        lexed_token(
            src,
            pos,
            whole,
            line,
            TokenType::INumber,
            Some(Value::Int(decimal_value(src.subrange(pos, whole)) as i64)),
        )
    } else {
        Lexed {
            next: whole,
            line,
            token: None,
            issue: Some(Diagnostic::plain(line, Problem::IntegerTooLarge)),
            asked: false,
        }
    }
}

/// A word: the longest run of letters, digits and underscores. It carries
/// its text, and is a keyword when the text is one.
pub open spec fn lex_word(src: Seq<char>, pos: int, line: usize) -> Lexed {
    let end = run_end(src, pos, CharClass::Word);
    let text = src.subrange(pos, end);
    lexed_token(src, pos, end, line, keyword_of(text), Some(Value::Ident(text)))
}

/// The step of the scanner at `pos`, a position inside the text.
pub open spec fn lex<U: FloatUnit>(unit: &U, src: Seq<char>, pos: int, line: usize) -> Lexed {
    let c = src[pos];
    match punctuation_of(c) {
        Some(kind) => lexed_token(src, pos, pos + 1, line, kind, None),
        None => match paired_of(c) {
            Some((one, two)) => if pos + 1 < src.len() && src[pos + 1] == '=' {
                lexed_token(src, pos, pos + 2, line, two, None)
            } else {
                lexed_token(src, pos, pos + 1, line, one, None)
            },
            None => if c == '/' {
                if pos + 1 < src.len() && src[pos + 1] == '/' {
                    Lexed {
                        next: run_end(src, pos + 2, CharClass::Comment),
                        line,
                        token: None,
                        issue: None,
                        asked: false,
                    }
                } else {
                    lexed_token(src, pos, pos + 1, line, TokenType::Slash, None)
                }
            } else if c == ' ' || c == '\r' || c == '\t' {
                Lexed { next: pos + 1, line, token: None, issue: None, asked: false }
            } else if c == '\n' {
                Lexed { next: pos + 1, line: bump(line), token: None, issue: None, asked: false }
            } else if c == '"' {
                lex_string(src, pos, line)
            } else if is_digit(c) {
                lex_number(unit, src, pos, line)
            } else if is_alpha(c) {
                lex_word(src, pos, line)
            } else {
                Lexed {
                    next: pos + 1,
                    line,
                    token: None,
                    issue: Some(Diagnostic::plain(line, Problem::UnexpectedCharacter(c))),
                    asked: false,
                }
            },
        },
    }
}

/// What scanning gives: the tokens, the diagnostics, and whether the unit
/// was asked to read a double.
pub struct Scanned {
    pub tokens: Seq<TokenView>,
    pub issues: Seq<DiagnosticView>,
    pub asked: bool,
}

/// The end-of-input token: no text, no literal.
pub open spec fn end_token(line: usize) -> TokenView {
    TokenView { lexeme: Seq::empty(), line, literal: None, token_type: TokenType::Eof }
}

pub open spec fn option_seq<T>(o: Option<T>) -> Seq<T> {
    match o {
        Some(t) => seq![t],
        None => seq![],
    }
}

/// The tokens and diagnostics of the text from `pos` on, where the line
/// number is `line`: step by step to the end, and the end-of-input token last.
pub open spec fn scan_from<U: FloatUnit>(unit: &U, src: Seq<char>, pos: int, line: usize) -> Scanned
    decreases src.len() - pos,
{
    if 0 <= pos < src.len() {
        let step = lex(unit, src, pos, line);
        proof {
            lemma_lex_advances(unit, src, pos, line);
        }
        let rest = scan_from(unit, src, step.next, step.line);
        Scanned {
            tokens: option_seq(step.token) + rest.tokens,
            issues: option_seq(step.issue) + rest.issues,
            asked: step.asked || rest.asked,
        }
    } else {
        Scanned { tokens: seq![end_token(line)], issues: seq![], asked: false }
    }
}

/// The tokens and diagnostics of a whole text, which starts on line 1.
pub open spec fn scan<U: FloatUnit>(unit: &U, src: Seq<char>) -> Scanned {
    scan_from(unit, src, 0, 1)
}

/// A run ends inside the text; all that it holds is of its class, and what
/// follows it is not.
pub proof fn lemma_run_end(src: Seq<char>, from: int, class: CharClass)
    requires
        0 <= from <= src.len(),
    ensures
        from <= run_end(src, from, class) <= src.len(),
        forall|i: int| from <= i < run_end(src, from, class) ==> in_class(class, #[trigger] src[i]),
        run_end(src, from, class) < src.len() ==> !in_class(class, src[run_end(src, from, class)]),
    decreases src.len() - from,
{
    if from < src.len() && in_class(class, src[from]) {
        lemma_run_end(src, from + 1, class);
    }
}

/// Every step of the scanner passes at least one character and stays inside
/// the text.
pub proof fn lemma_lex_advances<U: FloatUnit>(unit: &U, src: Seq<char>, pos: int, line: usize)
    requires
        0 <= pos < src.len(),
    ensures
        pos < lex(unit, src, pos, line).next <= src.len(),
{
    lemma_run_end(src, pos + 1, CharClass::Quoted);
    lemma_run_end(src, pos, CharClass::Digit);
    lemma_run_end(src, pos, CharClass::Word);
    if pos + 2 <= src.len() {
        lemma_run_end(src, pos + 2, CharClass::Comment);
    }
    let whole = run_end(src, pos, CharClass::Digit);
    if whole + 1 < src.len() {
        lemma_run_end(src, whole + 1, CharClass::Digit);
    }
}

pub struct Scanner {
    source: Vec<char>,
    tokens: Vec<Token>,
    diagnostics: Vec<Diagnostic>,
    start: usize,
    current: usize,
    line: usize,
}

impl Scanner {
    /// The text that is scanned.
    pub closed spec fn text(&self) -> Seq<char> {
        self.source@
    }

    /// Where the next step starts.
    pub closed spec fn position(&self) -> int {
        self.current as int
    }

    /// The line number at that position.
    pub closed spec fn line_number(&self) -> usize {
        self.line
    }

    /// The tokens found so far.
    pub closed spec fn found(&self) -> Seq<TokenView> {
        self.tokens.deep_view()
    }

    /// The diagnostics given so far.
    pub closed spec fn issues(&self) -> Seq<DiagnosticView> {
        self.diagnostics.deep_view()
    }

    /// The position lies inside the text or at its end.
    pub closed spec fn wf(&self) -> bool {
        self.start <= self.current <= self.source.len()
    }

    /// A scanner at the start of `source`, on line 1, with nothing scanned.
    pub fn new(source: &str) -> (s: Scanner)
        ensures
            s.wf(),
            s.text() == source@,
            s.position() == 0,
            s.line_number() == 1,
            s.found() == Seq::<TokenView>::empty(),
            s.issues() == Seq::<DiagnosticView>::empty(),
    {
        let s =
        Scanner {
            source: chars_of(source),
            tokens: Vec::new(),
            diagnostics: Vec::new(),
            start: 0,
            current: 0,
            line: 1,
        };
        assert(s.tokens.deep_view() =~= Seq::<TokenView>::empty());
        assert(s.diagnostics.deep_view() =~= Seq::<DiagnosticView>::empty());
        s
    }

    /// The tokens found so far.
    pub fn tokens(&self) -> (r: &[Token])
        ensures
            r.deep_view() == self.found(),
    {
        let r = self.tokens.as_slice();
        assert(r.deep_view() =~= self.tokens.deep_view());
        r
    }

    /// The diagnostics given so far.
    pub fn diagnostics(&self) -> (r: &[Diagnostic])
        ensures
            r.deep_view() == self.issues(),
    {
        let r = self.diagnostics.as_slice();
        assert(r.deep_view() =~= self.diagnostics.deep_view());
        r
    }

    /// Adds the token of the characters from `start` up to `current`.
    fn add_token(&mut self, token: TokenType, literal: Option<LiteralValue>)
        requires
            old(self).wf(),
        ensures
            final(self).wf(),
            final(self).source == old(self).source,
            final(self).start == old(self).start,
            final(self).current == old(self).current,
            final(self).line == old(self).line,
            final(self).diagnostics == old(self).diagnostics,
            final(self).tokens.deep_view() == old(self).tokens.deep_view().push(
                TokenView {
                    lexeme: old(self).source@.subrange(
                        old(self).start as int,
                        old(self).current as int,
                    ),
                    line: old(self).line,
                    literal: literal.deep_view(),
                    token_type: token,
                },
            ),
    {
        let lexeme = text_of(&self.source, self.start, self.current);
        let t = Token::new(token, literal, lexeme, self.line);
        self.tokens.push(t);
        assert(self.tokens.deep_view() =~= old(self).tokens.deep_view().push(t@));
    }

    /// Scans to the end of the text and adds the end-of-input token.
    pub fn scan_tokens<U: FloatUnit>(&mut self, unit: &U) -> (r: &[Token])
        requires
            old(self).wf(),
        ensures
            final(self).wf(),
            final(self).text() == old(self).text(),
            final(self).position() == old(self).text().len(),
            r.deep_view() == final(self).found(),
            deterministic(unit) || !scan_from(
                unit,
                old(self).text(),
                old(self).position(),
                old(self).line_number(),
            ).asked ==> ({
                let all = scan_from(
                    unit,
                    old(self).text(),
                    old(self).position(),
                    old(self).line_number(),
                );
                &&& final(self).found() == old(self).found() + all.tokens
                &&& final(self).issues() == old(self).issues() + all.issues
            }),
    {
        while !self.is_at_end()
            invariant
                self.wf(),
                self.source == old(self).source,
                deterministic(unit) || !scan_from(
                    unit,
                    old(self).text(),
                    old(self).position(),
                    old(self).line_number(),
                ).asked ==> ({
                    let all = scan_from(
                        unit,
                        old(self).text(),
                        old(self).position(),
                        old(self).line_number(),
                    );
                    let rest = scan_from(unit, self.source@, self.current as int, self.line);
                    &&& rest.asked ==> all.asked
                    &&& old(self).tokens.deep_view() + all.tokens == self.tokens.deep_view()
                        + rest.tokens
                    &&& old(self).diagnostics.deep_view() + all.issues
                        == self.diagnostics.deep_view() + rest.issues
                }),
            decreases self.source.len() - self.current,
        {
            let ghost tokens = self.tokens.deep_view();
            let ghost issues = self.diagnostics.deep_view();
            let ghost rest = scan_from(unit, self.source@, self.current as int, self.line);
            proof {
                lemma_lex_advances(unit, self.source@, self.current as int, self.line);
            }
            self.start = self.current;
            self.scan_token(unit);
            proof {
                if deterministic(unit) || !scan_from(
                    unit,
                    old(self).text(),
                    old(self).position(),
                    old(self).line_number(),
                ).asked {
                    let next = scan_from(unit, self.source@, self.current as int, self.line);
                    assert(self.tokens.deep_view() + next.tokens =~= tokens + rest.tokens);
                    assert(self.diagnostics.deep_view() + next.issues =~= issues + rest.issues);
                }
            }
        }
        let t = Token::new(TokenType::Eof, None, String::new(), self.line);
        let ghost tokens = self.tokens.deep_view();
        self.tokens.push(t);
        proof {
            assert(t@ == end_token(self.line));
            assert(self.tokens.deep_view() =~= tokens + seq![end_token(self.line)]);
            assert(self.diagnostics.deep_view() + Seq::<DiagnosticView>::empty()
                =~= self.diagnostics.deep_view());
        }
        let r = self.tokens.as_slice();
        assert(r.deep_view() =~= self.tokens.deep_view());
        r
    }

    fn is_at_end(&self) -> (b: bool)
        ensures
            b == (self.current >= self.source.len()),
    {
        self.current >= self.source.len()
    }

    /// One step: a token, a diagnostic, or text passed over.
    fn scan_token<U: FloatUnit>(&mut self, unit: &U)
        requires
            old(self).wf(),
            old(self).start == old(self).current,
            old(self).current < old(self).source.len(),
        ensures
            final(self).wf(),
            final(self).source == old(self).source,
            final(self).current > old(self).current,
            deterministic(unit) || !lex(
                unit,
                old(self).source@,
                old(self).current as int,
                old(self).line,
            ).asked ==> ({
                let step = lex(unit, old(self).source@, old(self).current as int, old(self).line);
                &&& final(self).current == step.next
                &&& final(self).line == step.line
                &&& final(self).tokens.deep_view() == old(self).tokens.deep_view() + option_seq(
                    step.token,
                )
                &&& final(self).diagnostics.deep_view() == old(self).diagnostics.deep_view()
                    + option_seq(step.issue)
            }),
    {
        proof {
            assert(self.tokens.deep_view() + Seq::<TokenView>::empty() =~= self.tokens.deep_view());
            assert(self.diagnostics.deep_view() + Seq::<DiagnosticView>::empty()
                =~= self.diagnostics.deep_view());
        }
        let ghost tokens = self.tokens.deep_view();
        let c = self.advance();
        match c {
            '(' => self.add_token(TokenType::LeftParen, None),
            ')' => self.add_token(TokenType::RightParen, None),
            '{' => self.add_token(TokenType::LeftBrace, None),
            '}' => self.add_token(TokenType::RightBrace, None),
            ',' => self.add_token(TokenType::Comma, None),
            '.' => self.add_token(TokenType::Dot, None),
            '-' => self.add_token(TokenType::Minus, None),
            '+' => self.add_token(TokenType::Plus, None),
            ';' => self.add_token(TokenType::Semicolon, None),
            '*' => self.add_token(TokenType::Star, None),
            '!' => {
                if self.match_char('=') {
                    self.add_token(TokenType::BangEqual, None)
                } else {
                    self.add_token(TokenType::Bang, None)
                }
            },
            '<' => {
                if self.match_char('=') {
                    self.add_token(TokenType::LessEqual, None)
                } else {
                    self.add_token(TokenType::Less, None)
                }
            },
            '>' => {
                if self.match_char('=') {
                    self.add_token(TokenType::GreaterEqual, None)
                } else {
                    self.add_token(TokenType::Greater, None)
                }
            },
            '=' => {
                if self.match_char('=') {
                    self.add_token(TokenType::EqualEqual, None)
                } else {
                    self.add_token(TokenType::Equal, None)
                }
            },
            '/' => {
                if self.match_char('/') {
                    while self.peek() != '\n' && !self.is_at_end()
                        invariant
                            self.wf(),
                            self.source == old(self).source,
                            self.line == old(self).line,
                            self.tokens == old(self).tokens,
                            self.diagnostics == old(self).diagnostics,
                            old(self).current + 2 <= self.current,
                            run_end(self.source@, old(self).current + 2, CharClass::Comment)
                                == run_end(self.source@, self.current as int, CharClass::Comment),
                        decreases self.source.len() - self.current,
                    {
                        self.advance();
                    }
                } else {
                    self.add_token(TokenType::Slash, None)
                }
            },
            ' ' | '\r' | '\t' => {},
            '\n' => {
                if self.line < usize::MAX {
                    self.line += 1;
                }
            },
            '"' => self.handle_string(),
            _ => {
                if digit(c) {
                    self.number(unit);
                } else if alpha(c) {
                    self.identifier();
                } else {
                    note(
                        &mut self.diagnostics,
                        Diagnostic::new(self.line, Problem::UnexpectedCharacter(c)),
                    );
                    assert(self.diagnostics.deep_view() =~= old(self).diagnostics.deep_view() + seq![
                        Diagnostic::plain(self.line, Problem::UnexpectedCharacter(c)),
                    ]);
                }
            },
        }
        proof {
            let step = lex(unit, old(self).source@, old(self).current as int, old(self).line);
            if step.token is Some {
                assert(tokens.push(step.token->0) =~= tokens + option_seq(step.token));
            }
        }
    }

    /// A word, whose first character has been passed.
    fn identifier(&mut self)
        requires
            old(self).wf(),
            old(self).start < old(self).current,
            run_end(old(self).source@, old(self).start as int, CharClass::Word) == run_end(
                old(self).source@,
                old(self).current as int,
                CharClass::Word,
            ),
        ensures
            final(self).wf(),
            final(self).source == old(self).source,
            final(self).line == old(self).line,
            final(self).diagnostics == old(self).diagnostics,
            final(self).current > old(self).start,
            final(self).current == run_end(
                old(self).source@,
                old(self).start as int,
                CharClass::Word,
            ),
            final(self).tokens.deep_view() == old(self).tokens.deep_view().push(
                lex_word(old(self).source@, old(self).start as int, old(self).line).token->0,
            ),
    {
        while alphanumeric(self.peek())
            invariant
                self.wf(),
                self.source == old(self).source,
                self.start == old(self).start,
                self.start < self.current,
                self.line == old(self).line,
                self.tokens == old(self).tokens,
                self.diagnostics == old(self).diagnostics,
                run_end(self.source@, self.start as int, CharClass::Word) == run_end(
                    self.source@,
                    self.current as int,
                    CharClass::Word,
                ),
            decreases self.source.len() - self.current,
        {
            self.advance();
        }
        let text = text_of(&self.source, self.start, self.current);
        let token_type = keyword(&text);
        self.add_token(token_type, Some(LiteralValue::IdentifierValue(text)));
    }

    /// A number, whose first digit has been passed.
    fn number<U: FloatUnit>(&mut self, unit: &U)
        requires
            old(self).wf(),
            old(self).start < old(self).current,
            run_end(old(self).source@, old(self).start as int, CharClass::Digit) == run_end(
                old(self).source@,
                old(self).current as int,
                CharClass::Digit,
            ),
        ensures
            final(self).wf(),
            final(self).source == old(self).source,
            final(self).line == old(self).line,
            final(self).current > old(self).start,
            deterministic(unit) || !lex_number(
                unit,
                old(self).source@,
                old(self).start as int,
                old(self).line,
            ).asked ==> ({
                let step = lex_number(
                    unit,
                    old(self).source@,
                    old(self).start as int,
                    old(self).line,
                );
                &&& final(self).current == step.next
                &&& final(self).tokens.deep_view() == old(self).tokens.deep_view() + option_seq(
                    step.token,
                )
                &&& final(self).diagnostics.deep_view() == old(self).diagnostics.deep_view()
                    + option_seq(step.issue)
            }),
    {
        let mut is_float = false;
        while self.is_digit(self.peek())
            invariant
                self.wf(),
                self.source == old(self).source,
                self.start == old(self).start,
                self.start < self.current,
                self.line == old(self).line,
                self.tokens == old(self).tokens,
                self.diagnostics == old(self).diagnostics,
                run_end(self.source@, self.start as int, CharClass::Digit) == run_end(
                    self.source@,
                    self.current as int,
                    CharClass::Digit,
                ),
            decreases self.source.len() - self.current,
        {
            self.advance();
        }
        let whole: usize = self.current;
        if self.peek() == '.' && self.current + 1 < self.source.len() && self.is_digit(
            self.peek_nth(self.current + 1),
        ) {
            is_float = true;
            self.advance();
            while self.is_digit(self.peek())
                invariant
                    self.wf(),
                    self.source == old(self).source,
                    self.start == old(self).start,
                    self.line == old(self).line,
                    self.tokens == old(self).tokens,
                    self.diagnostics == old(self).diagnostics,
                    self.start < whole,
                    whole + 1 <= self.current,
                    run_end(self.source@, whole + 1, CharClass::Digit) == run_end(
                        self.source@,
                        self.current as int,
                        CharClass::Digit,
                    ),
                decreases self.source.len() - self.current,
            {
                self.advance();
            }
        }
        let ghost src = self.source@;
        let ghost tokens = self.tokens.deep_view();
        let ghost issues = self.diagnostics.deep_view();
        proof {
            lemma_run_end(src, self.start as int, CharClass::Digit);
            assert(issues + Seq::<DiagnosticView>::empty() =~= issues);
            assert(tokens + Seq::<TokenView>::empty() =~= tokens);
        }
        if is_float {
            let text = text_of(&self.source, self.start, self.current);
            proof {
                lemma_run_end(src, whole + 1, CharClass::Digit);
                lemma_run_end(src, whole + 2, CharClass::Digit);
                let k = whole - self.start;
                assert(text@[k] == src[whole as int]);
                assert(all_digits(text@.subrange(0, k))) by {
                    assert forall|i: int| 0 <= i < k implies is_digit(
                        #[trigger] text@.subrange(0, k)[i],
                    ) by {
                        assert(in_class(CharClass::Digit, src[self.start + i]));
                    }
                }
                assert(all_digits(text@.subrange(k + 1, text@.len() as int))) by {
                    assert forall|i: int| 0 <= i < text@.len() - k - 1 implies is_digit(
                        #[trigger] text@.subrange(k + 1, text@.len() as int)[i],
                    ) by {
                        assert(in_class(CharClass::Digit, src[whole + 1 + i]));
                    }
                }
                assert(is_float_literal_at(text@, k));
            }
            let bits = read_float(unit, text.as_str());
            self.add_token(TokenType::FNumber, Some(LiteralValue::FValue(bits)));
            proof {
                let step = lex_number(unit, src, self.start as int, self.line);
                if deterministic(unit) {
                    assert(self.tokens.deep_view() =~= tokens + option_seq(step.token));
                }
            }
        } else {
            proof {
                assert(all_digits(src.subrange(self.start as int, self.current as int))) by {
                    assert forall|i: int| 0 <= i < self.current - self.start implies is_digit(
                        #[trigger] src.subrange(self.start as int, self.current as int)[i],
                    ) by {
                        assert(in_class(CharClass::Digit, src[self.start + i]));
                    }
                }
            }
            match parse_decimal(&self.source, self.start, self.current) {
                Some(n) => {
                    self.add_token(TokenType::INumber, Some(LiteralValue::IntValue(n)));
                    proof {
                        let step = lex_number(unit, src, self.start as int, self.line);
                        assert(self.tokens.deep_view() =~= tokens + option_seq(step.token));
                    }
                },
                None => {
                    note(&mut self.diagnostics, Diagnostic::new(self.line, Problem::IntegerTooLarge));
                    proof {
                        let step = lex_number(unit, src, self.start as int, self.line);
                        assert(self.diagnostics.deep_view() =~= issues + option_seq(step.issue));
                    }
                },
            }
        }
    }

    fn is_digit(&self, c: char) -> (b: bool)
        ensures
            b == is_digit(c),
    {
        digit(c)
    }

    /// The character at the position, or the null character at the end.
    fn peek(&self) -> (c: char)
        requires
            self.wf(),
        ensures
            c == if self.current < self.source.len() {
                self.source@[self.current as int]
            } else {
                '\0'
            },
    {
        if self.is_at_end() {
            return '\0';
        }
        self.char_at(self.current)
    }

    /// The character at index `n`, or the null character behind the end.
    fn peek_nth(&self, n: usize) -> (c: char)
        ensures
            c == if n < self.source.len() {
                self.source@[n as int]
            } else {
                '\0'
            },
    {
        if self.source.len() <= n {
            return '\0';
        }
        self.char_at(n)
    }

    /// Passes the character at the position when it is `expect`.
    fn match_char(&mut self, expect: char) -> (b: bool)
        requires
            old(self).wf(),
        ensures
            final(self).wf(),
            b == (old(self).current < old(self).source.len() && old(self).source@[old(
                self,
            ).current as int] == expect),
            final(self).current == if b {
                old(self).current + 1
            } else {
                old(self).current as int
            },
            final(self).source == old(self).source,
            final(self).start == old(self).start,
            final(self).line == old(self).line,
            final(self).tokens == old(self).tokens,
            final(self).diagnostics == old(self).diagnostics,
    {
        if self.is_at_end() || self.char_at(self.current) != expect {
            return false;
        }
        self.current += 1;
        true
    }

    fn char_at(&self, index: usize) -> (c: char)
        requires
            index < self.source.len(),
        ensures
            c == self.source@[index as int],
    {
        self.source[index]
    }

    /// Passes one character and returns it.
    fn advance(&mut self) -> (c: char)
        requires
            old(self).wf(),
            old(self).current < old(self).source.len(),
        ensures
            final(self).wf(),
            c == old(self).source@[old(self).current as int],
            final(self).current == old(self).current + 1,
            final(self).source == old(self).source,
            final(self).start == old(self).start,
            final(self).line == old(self).line,
            final(self).tokens == old(self).tokens,
            final(self).diagnostics == old(self).diagnostics,
    {
        let c = self.char_at(self.current);
        self.current += 1;
        c
    }

    /// A string literal, whose opening quote has been passed.
    fn handle_string(&mut self)
        requires
            old(self).wf(),
            old(self).current == old(self).start + 1,
        ensures
            final(self).wf(),
            final(self).source == old(self).source,
            final(self).current > old(self).start,
            ({
                let step = lex_string(old(self).source@, old(self).start as int, old(self).line);
                &&& final(self).current == step.next
                &&& final(self).line == step.line
                &&& final(self).tokens.deep_view() == old(self).tokens.deep_view() + option_seq(
                    step.token,
                )
                &&& final(self).diagnostics.deep_view() == old(self).diagnostics.deep_view()
                    + option_seq(step.issue)
            }),
    {
        while self.peek() != '"' && !self.is_at_end()
            invariant
                self.wf(),
                self.source == old(self).source,
                self.start == old(self).start,
                self.start + 1 <= self.current,
                self.tokens == old(self).tokens,
                self.diagnostics == old(self).diagnostics,
                run_end(self.source@, self.start + 1, CharClass::Quoted) == run_end(
                    self.source@,
                    self.current as int,
                    CharClass::Quoted,
                ),
                line_after(
                    self.source@,
                    self.start + 1,
                    run_end(self.source@, self.start + 1, CharClass::Quoted),
                    old(self).line,
                ) == line_after(
                    self.source@,
                    self.current as int,
                    run_end(self.source@, self.start + 1, CharClass::Quoted),
                    self.line,
                ),
            decreases self.source.len() - self.current,
        {
            proof {
                lemma_run_end(self.source@, self.current as int, CharClass::Quoted);
            }
            if self.peek() == '\n' {
                if self.line < usize::MAX {
                    self.line += 1;
                }
            }
            self.advance();
        }
        let ghost tokens = self.tokens.deep_view();
        let ghost issues = self.diagnostics.deep_view();
        proof {
            assert(issues + Seq::<DiagnosticView>::empty() =~= issues);
            assert(tokens + Seq::<TokenView>::empty() =~= tokens);
        }
        if self.is_at_end() {
            note(&mut self.diagnostics, Diagnostic::new(self.line, Problem::UnterminatedString));
            proof {
                let step = lex_string(self.source@, self.start as int, old(self).line);
                assert(self.diagnostics.deep_view() =~= issues + option_seq(step.issue));
            }
            return ;
        }
        self.advance();
        let body = text_of(&self.source, self.start + 1, self.current - 1);
        self.add_token(TokenType::String, Some(LiteralValue::StringValue(body)));
        proof {
            let step = lex_string(self.source@, self.start as int, old(self).line);
            assert(self.tokens.deep_view() =~= tokens + option_seq(step.token));
        }
    }
}

/// The kind of a word.
pub fn keyword(text: &String) -> (kind: TokenType)
    ensures
        kind == keyword_of(text@),
{
    if *text == String::from_str("and") {
        TokenType::And
    } else if *text == String::from_str("class") {
        TokenType::Class
    } else if *text == String::from_str("else") {
        TokenType::Else
    } else if *text == String::from_str("false") {
        TokenType::False
    } else if *text == String::from_str("for") {
        TokenType::For
    } else if *text == String::from_str("fun") {
        TokenType::Fun
    } else if *text == String::from_str("if") {
        TokenType::If
    } else if *text == String::from_str("nil") {
        TokenType::Nil
    } else if *text == String::from_str("or") {
        TokenType::Or
    } else if *text == String::from_str("print") {
        TokenType::Print
    } else if *text == String::from_str("return") {
        TokenType::Return
    } else if *text == String::from_str("super") {
        TokenType::Super
    } else if *text == String::from_str("this") {
        TokenType::This
    } else if *text == String::from_str("true") {
        TokenType::True
    } else if *text == String::from_str("var") {
        TokenType::Var
    } else if *text == String::from_str("while") {
        TokenType::While
    } else {
        TokenType::Identifier
    }
}

} // verus!
