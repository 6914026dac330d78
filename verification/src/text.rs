//! Character classes, decimal numerals and the order of texts.
use vstd::prelude::*;

verus! {

/// `String::push` of the standard library: the string afterwards is the string
/// before with the given character appended at its end.
pub assume_specification[ std::string::String::push ](s: &mut std::string::String, ch: char)
    ensures
        final(s)@ == old(s)@.push(ch),
;

pub open spec fn is_digit(c: char) -> bool {
    '0' <= c && c <= '9'
}

pub open spec fn is_alpha(c: char) -> bool {
    ('a' <= c && c <= 'z') || ('A' <= c && c <= 'Z') || c == '_'
}

pub open spec fn is_alphanumeric(c: char) -> bool {
    is_alpha(c) || is_digit(c)
}

pub open spec fn all_digits(s: Seq<char>) -> bool {
    forall|i: int| 0 <= i < s.len() ==> is_digit(#[trigger] s[i])
}

/// The number that a decimal digit stands for.
pub open spec fn digit_value(c: char) -> int {
    c as int - 48
}

/// The decimal digit that stands for `d`, for `d` from 0 to 9.
pub open spec fn digit_char(d: int) -> char {
    (d + 48) as char
}

/// The number that a run of decimal digits denotes; the empty run denotes 0.
pub open spec fn decimal_value(s: Seq<char>) -> int
    decreases s.len(),
{
    if s.len() == 0 {
        0
    } else {
        10 * decimal_value(s.drop_last()) + digit_value(s.last())
    }
}

/// The decimal numeral of a natural number, without leading zeros.
pub open spec fn decimal_digits(n: nat) -> Seq<char>
    decreases n,
{
    if n < 10 {
        seq![digit_char(n as int)]
    } else {
        decimal_digits(n / 10).push(digit_char((n % 10) as int))
    }
}

/// The decimal numeral of an integer: a minus sign before the numeral of the
/// magnitude when the integer is negative.
pub open spec fn decimal_text(n: int) -> Seq<char> {
    if n < 0 {
        seq!['-'] + decimal_digits((-n) as nat)
    } else {
        decimal_digits(n as nat)
    }
}

/// A non-empty run of digits that starts with `0` only when it is `0` itself.
pub open spec fn is_canonical_decimal(s: Seq<char>) -> bool {
    &&& s.len() > 0
    &&& all_digits(s)
    &&& s.len() > 1 ==> s[0] != '0'
}

/// Whether `a` comes before `b` when the two are compared character by
/// character from index `i` on, the earlier position deciding and a proper
/// prefix coming first.
pub open spec fn text_before_from(a: Seq<char>, b: Seq<char>, i: int) -> bool
    decreases a.len() - i,
{
    if i >= b.len() {
        false
    } else if i >= a.len() {
        true
    } else if a[i] != b[i] {
        a[i] < b[i]
    } else {
        text_before_from(a, b, i + 1)
    }
}

/// The lexicographic order of texts by code point.
pub open spec fn text_before(a: Seq<char>, b: Seq<char>) -> bool {
    text_before_from(a, b, 0)
}

pub proof fn lemma_decimal_value_bounds(s: Seq<char>)
    requires
        all_digits(s),
    ensures
        0 <= decimal_value(s),
        s.len() > 0 && s[0] != '0' ==> 1 <= decimal_value(s),
    decreases s.len(),
{
    if s.len() > 0 {
        let p = s.drop_last();
        assert(all_digits(p)) by {
            assert forall|i: int| 0 <= i < p.len() implies is_digit(#[trigger] p[i]) by {
                assert(p[i] == s[i]);
            }
        }
        lemma_decimal_value_bounds(p);
        assert(is_digit(s[s.len() - 1]));
        if p.len() > 0 {
            assert(p[0] == s[0]);
        } else {
            assert(s.last() == s[0]);
        }
    }
}

/// The value of a prefix of a digit run is at most the value of the run.
pub proof fn lemma_decimal_value_prefix(s: Seq<char>, k: int)
    requires
        all_digits(s),
        0 <= k <= s.len(),
    ensures
        0 <= decimal_value(s.take(k)) <= decimal_value(s),
    decreases s.len() - k,
{
    assert(all_digits(s.take(k))) by {
        assert forall|i: int| 0 <= i < s.take(k).len() implies is_digit(#[trigger] s.take(k)[i]) by {
            assert(s.take(k)[i] == s[i]);
        }
    }
    lemma_decimal_value_bounds(s.take(k));
    if k == s.len() {
        assert(s.take(k) =~= s);
    } else {
        lemma_decimal_value_prefix(s, k + 1);
        assert(s.take(k + 1).drop_last() =~= s.take(k));
        assert(is_digit(s[k]));
        assert(s.take(k + 1).last() == s[k]);
    }
}

/// Writing a canonical numeral's value out again gives the numeral back.
pub proof fn lemma_decimal_digits_of_value(s: Seq<char>)
    requires
        is_canonical_decimal(s),
    ensures
        decimal_value(s) >= 0,
        decimal_digits(decimal_value(s) as nat) == s,
    decreases s.len(),
{
    let p = s.drop_last();
    let d = s.last();
    assert(is_digit(s[s.len() - 1]));
    assert(all_digits(p)) by {
        assert forall|i: int| 0 <= i < p.len() implies is_digit(#[trigger] p[i]) by {
            assert(p[i] == s[i]);
        }
    }
    lemma_decimal_value_bounds(s);
    if p.len() == 0 {
        assert(decimal_value(p) == 0);
        assert(decimal_value(s) == digit_value(d));
        assert(digit_char(digit_value(d)) == d);
        assert(decimal_digits(decimal_value(s) as nat) =~= s);
    } else {
        assert(p[0] == s[0]);
        lemma_decimal_value_bounds(p);
        lemma_decimal_digits_of_value(p);
        let v = decimal_value(s);
        assert(v == 10 * decimal_value(p) + digit_value(d));
        assert(v >= 10);
        assert(v / 10 == decimal_value(p));
        assert(v % 10 == digit_value(d));
        assert(digit_char(digit_value(d)) == d);
        assert(decimal_digits(v as nat) == decimal_digits((v / 10) as nat).push(digit_char(v % 10)));
        assert(p.push(d) =~= s);
    }
}

pub fn digit(c: char) -> (b: bool)
    ensures
        b == is_digit(c),
{
    c >= '0' && c <= '9'
}

pub fn alpha(c: char) -> (b: bool)
    ensures
        b == is_alpha(c),
{
    (c >= 'a' && c <= 'z') || (c >= 'A' && c <= 'Z') || c == '_'
}

pub fn alphanumeric(c: char) -> (b: bool)
    ensures
        b == is_alphanumeric(c),
{
    alpha(c) || digit(c)
}

/// The characters of a text, in order.
pub fn chars_of(s: &str) -> (v: Vec<char>)
    ensures
        v@ == s@,
{
    let mut v: Vec<char> = Vec::new();
    for c in it: s.chars()
        invariant
            v@ == it.seq().take(it.index() as int),
            it.seq() == s@,
    {
        v.push(c);
    }
    v
}

/// The text made of the characters of `chars` from `from` up to `to`.
pub fn text_of(chars: &Vec<char>, from: usize, to: usize) -> (s: String)
    requires
        from <= to <= chars.len(),
    ensures
        s@ == chars@.subrange(from as int, to as int),
{
    let mut s = String::new();
    let mut i: usize = from;
    while i < to
        invariant
            from <= i <= to <= chars.len(),
            s@ == chars@.subrange(from as int, i as int),
        decreases to - i,
    {
        s.push(chars[i]);
        i += 1;
        assert(s@ =~= chars@.subrange(from as int, i as int));
    }
    s
}

/// The value of the digit run `chars[from..to]`, when it fits.
pub fn parse_decimal(chars: &Vec<char>, from: usize, to: usize) -> (r: Option<i64>)
    requires
        from <= to <= chars.len(),
        all_digits(chars@.subrange(from as int, to as int)),
    ensures
        r == if decimal_value(chars@.subrange(from as int, to as int)) <= i64::MAX {
            Some(decimal_value(chars@.subrange(from as int, to as int)) as i64)
        } else {
            None
        },
{
    let ghost run = chars@.subrange(from as int, to as int);
    let mut acc: i64 = 0;
    let mut i: usize = from;
    while i < to
        invariant
            from <= i <= to <= chars.len(),
            run == chars@.subrange(from as int, to as int),
            all_digits(run),
            acc == decimal_value(run.take(i - from)),
            0 <= acc,
        decreases to - i,
    {
        let ghost k = i - from;
        assert(run[k] == chars[i as int]);
        assert(is_digit(run[k]));
        let d: i64 = (chars[i] as u32 - '0' as u32) as i64;
        proof {
            assert(run.take(k + 1).drop_last() =~= run.take(k));
            assert(run.take(k + 1).last() == run[k]);
            assert(decimal_value(run.take(k + 1)) == 10 * acc + d);
            lemma_decimal_value_prefix(run, k + 1);
        }
        if acc > (i64::MAX - d) / 10 {
            assert(10 * acc + d > i64::MAX);
            return None;
        }
        acc = acc * 10 + d;
        i += 1;
    }
    assert(run.take(to - from) =~= run);
    Some(acc)
}

/// Appends the decimal numeral of `n` to `out`.
pub fn push_decimal(out: &mut String, n: u64)
    ensures
        final(out)@ == old(out)@ + decimal_digits(n as nat),
    decreases n,
{
    if n >= 10 {
        push_decimal(out, n / 10);
    }
    let d: u32 = (n % 10) as u32;
    let c: char = match d {
        0 => '0',
        1 => '1',
        2 => '2',
        3 => '3',
        4 => '4',
        5 => '5',
        6 => '6',
        7 => '7',
        8 => '8',
        _ => '9',
    };
    assert(c == digit_char((n % 10) as int));
    out.push(c);
    assert(out@ =~= old(out)@ + decimal_digits(n as nat));
}

/// The decimal numeral of a signed integer.
pub fn render_int(n: i64) -> (s: String)
    ensures
        s@ == decimal_text(n as int),
{
    let mut s = String::new();
    if n < 0 {
        s.push('-');
        let m: u64 = (-(n + 1)) as u64 + 1;
        push_decimal(&mut s, m);
        assert(s@ =~= decimal_text(n as int));
    } else {
        push_decimal(&mut s, n as u64);
        assert(s@ =~= decimal_text(n as int));
    }
    s
}

/// Whether `a` comes before `b` in the lexicographic order by code point.
pub fn less_text(a: &str, b: &str) -> (r: bool)
    ensures
        r == text_before(a@, b@),
{
    let x = chars_of(a);
    let y = chars_of(b);
    let mut i: usize = 0;
    loop
        invariant
            x@ == a@,
            y@ == b@,
            i <= x.len(),
            i <= y.len(),
            text_before(a@, b@) == text_before_from(a@, b@, i as int),
        decreases x.len() - i,
    {
        if i >= y.len() {
            return false;
        }
        if i >= x.len() {
            return true;
        }
        if x[i] != y[i] {
            return x[i] < y[i];
        }
        i += 1;
    }
}

} // verus!
