//! Character-level helpers for the manifest's line grammar: whitespace
//! fields and decimal numbers.

use vstd::prelude::*;
use vstd::std_specs::iter::IteratorSpec;

verus! {

/// The characters that `char::is_whitespace` accepts (Unicode `White_Space`).
pub open spec fn is_space(c: char) -> bool {
    ||| '\u{9}' <= c <= '\u{d}'
    ||| c == ' '
    ||| c == '\u{85}'
    ||| c == '\u{a0}'
    ||| c == '\u{1680}'
    ||| '\u{2000}' <= c <= '\u{200a}'
    ||| c == '\u{2028}'
    ||| c == '\u{2029}'
    ||| c == '\u{202f}'
    ||| c == '\u{205f}'
    ||| c == '\u{3000}'
}

pub fn space(c: char) -> (r: bool)
    ensures
        r == is_space(c),
{
    ('\u{9}' <= c && c <= '\u{d}') || c == ' ' || c == '\u{85}' || c == '\u{a0}' || c == '\u{1680}'
        || ('\u{2000}' <= c && c <= '\u{200a}') || c == '\u{2028}' || c == '\u{2029}' || c
        == '\u{202f}' || c == '\u{205f}' || c == '\u{3000}'
}

/// The characters of `s`, in order.
pub fn chars_of(s: &str) -> (r: Vec<char>)
    ensures
        r@ == s@,
{
    let mut r: Vec<char> = Vec::new();
    proof {
        broadcast use vstd::string::group_string_axioms;
    }
    for c in it: s.chars()
        invariant
            r@ == it.seq().take(it.index() as int),
    {
        r.push(c);
    }
    assert(r@ =~= s@);
    r
}

/// Number of leading characters of `s` that are not whitespace.
pub open spec fn word_len(s: Seq<char>) -> nat
    decreases s.len(),
{
    if s.len() == 0 || is_space(s[0]) {
        0
    } else {
        1 + word_len(s.drop_first())
    }
}

pub proof fn lemma_word_len_bounds(s: Seq<char>)
    ensures
        word_len(s) <= s.len(),
        s.len() > 0 && !is_space(s[0]) ==> word_len(s) > 0,
    decreases s.len(),
{
    if s.len() > 0 && !is_space(s[0]) {
        lemma_word_len_bounds(s.drop_first());
    }
}

/// The whitespace-separated fields of `s`, in order, as
/// `str::split_whitespace` yields them.
pub open spec fn fields(s: Seq<char>) -> Seq<Seq<char>>
    decreases s.len() via lemma_fields_decreases
{
    if s.len() == 0 {
        seq![]
    } else if is_space(s[0]) {
        fields(s.drop_first())
    } else {
        seq![s.take(word_len(s) as int)] + fields(s.skip(word_len(s) as int))
    }
}

#[via_fn]
proof fn lemma_fields_decreases(s: Seq<char>) {
    lemma_word_len_bounds(s);
}

/// A word of `k` characters that is not followed by another non-space
/// character has word length `k`.
pub(crate) proof fn lemma_word_len_exact(t: Seq<char>, k: nat)
    requires
        k <= t.len(),
        forall|m: int| 0 <= m < k ==> !is_space(#[trigger] t[m]),
        k == t.len() || is_space(t[k as int]),
    ensures
        word_len(t) == k,
    decreases k,
{
    if k > 0 {
        lemma_word_len_exact(t.drop_first(), (k - 1) as nat);
    }
}

pub open spec fn views_of(v: Seq<Vec<char>>) -> Seq<Seq<char>> {
    v.map_values(|w: Vec<char>| w@)
}

/// Split `s` into its whitespace-separated fields.
pub fn split_fields(s: &Vec<char>) -> (r: Vec<Vec<char>>)
    ensures
        views_of(r@) == fields(s@),
{
    let mut r: Vec<Vec<char>> = Vec::new();
    let mut i: usize = 0;
    assert(s@.skip(0) =~= s@);
    assert(views_of(r@) + fields(s@) =~= fields(s@));
    while i < s.len()
        invariant
            i <= s@.len(),
            fields(s@) == views_of(r@) + fields(s@.skip(i as int)),
        decreases s@.len() - i,
    {
        assert(s@.skip(i as int).drop_first() =~= s@.skip(i + 1));
        if space(s[i]) {
            i = i + 1;
        } else {
            let start: usize = i;
            let mut word: Vec<char> = Vec::new();
            while i < s.len() && !space(s[i])
                invariant
                    start <= i <= s@.len(),
                    word@ == s@.subrange(start as int, i as int),
                    forall|m: int| start <= m < i ==> !is_space(#[trigger] s@[m]),
                decreases s@.len() - i,
            {
                word.push(s[i]);
                i = i + 1;
            }
            proof {
                let t = s@.skip(start as int);
                assert forall|m: int| 0 <= m < (i - start) implies !is_space(#[trigger] t[m]) by {
                    assert(t[m] == s@[start + m]);
                }
                lemma_word_len_exact(t, (i - start) as nat);
                assert(t.take((i - start) as int) =~= word@);
                assert(t.skip((i - start) as int) =~= s@.skip(i as int));
                assert(views_of(r@.push(word)) =~= views_of(r@).push(word@));
            }
            r.push(word);
        }
    }
    assert(s@.skip(i as int) =~= Seq::<char>::empty());
    assert(views_of(r@) + fields(s@.skip(i as int)) =~= views_of(r@));
    r
}

/// Relies on `String::push`: appends one character.
#[verifier::external_body]
pub(crate) fn push_char(s: &mut String, c: char)
    ensures
        final(s)@ == old(s)@.push(c),
{
    s.push(c)
}

pub open spec fn is_digit(c: char) -> bool {
    '0' <= c <= '9'
}

pub open spec fn digit_value(c: char) -> nat {
    (c as u32 - '0' as u32) as nat
}

pub open spec fn digit_char(d: nat) -> char {
    ((d + '0' as u32) as u8) as char
}

/// Decimal text of `n`, without leading zeros.
pub open spec fn decimal(n: nat) -> Seq<char>
    decreases n,
{
    if n < 10 {
        seq![digit_char(n)]
    } else {
        decimal(n / 10).push(digit_char(n % 10))
    }
}

/// Value of a string of decimal digits.
pub open spec fn digits_value(s: Seq<char>) -> nat
    decreases s.len(),
{
    if s.len() == 0 {
        0
    } else {
        digits_value(s.drop_last()) * 10 + digit_value(s.last())
    }
}

pub open spec fn all_digits(s: Seq<char>) -> bool {
    s.len() > 0 && forall|i: int| 0 <= i < s.len() ==> is_digit(#[trigger] s[i])
}

/// What `str::parse::<usize>` accepts: an optional `+` and decimal digits
/// whose value fits in `usize`.
pub open spec fn parse_size_spec(s: Seq<char>) -> Option<usize> {
    let digits = if s.len() > 0 && s[0] == '+' {
        s.drop_first()
    } else {
        s
    };
    if all_digits(digits) && digits_value(digits) <= usize::MAX {
        Some(digits_value(digits) as usize)
    } else {
        None
    }
}

proof fn lemma_digit_char(d: nat)
    requires
        d < 10,
    ensures
        is_digit(digit_char(d)),
        digit_value(digit_char(d)) == d,
{
}

/// The decimal text of a number is all digits, and reads back as that number.
pub proof fn lemma_decimal_digits(n: nat)
    ensures
        all_digits(decimal(n)),
        digits_value(decimal(n)) == n,
        decimal(n)[0] != '+',
    decreases n,
{
    lemma_digit_char(n % 10);
    if n >= 10 {
        lemma_decimal_digits(n / 10);
        let d = decimal(n);
        assert(d.drop_last() =~= decimal(n / 10));
        assert(n == (n / 10) * 10 + n % 10);
        assert(digits_value(d) == digits_value(decimal(n / 10)) * 10 + digit_value(d.last()));
        assert forall|i: int| 0 <= i < d.len() implies is_digit(#[trigger] d[i]) by {
            if i < d.len() - 1 {
                assert(d[i] == decimal(n / 10)[i]);
            }
        }
    } else {
        assert(decimal(n).drop_last() =~= Seq::<char>::empty());
        assert(digits_value(Seq::<char>::empty()) == 0);
    }
}

/// Parsing the decimal text of a number gives the number back.
pub proof fn lemma_parse_decimal(n: usize)
    ensures
        parse_size_spec(decimal(n as nat)) == Some(n),
{
    lemma_decimal_digits(n as nat);
}

proof fn lemma_decimal_step(m: nat)
    ensures
        m < 10 ==> decimal(m) == seq![digit_char(m)],
        m >= 10 ==> decimal(m) == decimal(m / 10).push(digit_char(m % 10)),
{
}

/// The decimal text of `n`.
pub fn decimal_string(n: usize) -> (r: String)
    ensures
        r@ == decimal(n as nat),
{
    let mut rev: Vec<char> = Vec::new();
    let mut m: usize = n;
    loop
        invariant_except_break
            decimal(n as nat) == decimal(m as nat) + rev@.reverse(),
        ensures
            decimal(n as nat) == rev@.reverse(),
        decreases m,
    {
        let d: u8 = (m % 10) as u8;
        let c: char = (d + 48u8) as char;
        proof {
            lemma_decimal_step(m as nat);
            assert(c == digit_char((m % 10) as nat));
            assert(rev@.push(c).reverse() =~= seq![c] + rev@.reverse());
        }
        if m < 10 {
            rev.push(c);
            break;
        }
        proof {
            assert(decimal((m / 10) as nat).push(c) + rev@.reverse() =~= decimal((m / 10) as nat)
                + rev@.push(c).reverse());
        }
        rev.push(c);
        m = m / 10;
    }
    let mut r = String::new();
    let mut k: usize = rev.len();
    while k > 0
        invariant
            k <= rev@.len(),
            r@ =~= rev@.skip(k as int).reverse(),
            decimal(n as nat) == rev@.reverse(),
        decreases k,
    {
        k = k - 1;
        assert(rev@.skip(k as int).reverse() =~= rev@.skip(k + 1).reverse().push(rev@[k as int]));
        push_char(&mut r, rev[k]);
    }
    assert(rev@.skip(0) =~= rev@);
    r
}

/// Parse a byte count as `str::parse::<usize>` does.
pub fn parse_size(s: &Vec<char>) -> (r: Option<usize>)
    ensures
        r == parse_size_spec(s@),
{
    let mut i: usize = 0;
    if s.len() > 0 && s[0] == '+' {
        i = 1;
    }
    let ghost digits = s@.skip(i as int);
    assert(digits =~= (if s@.len() > 0 && s@[0] == '+' { s@.drop_first() } else { s@ }));
    if i >= s.len() {
        return None;
    }
    let start: usize = i;
    let mut value: usize = 0;
    while i < s.len()
        invariant
            start < s@.len(),
            start <= i <= s@.len(),
            digits == s@.skip(start as int),
            digits == (if s@.len() > 0 && s@[0] == '+' { s@.drop_first() } else { s@ }),
            forall|m: int| start <= m < i ==> is_digit(#[trigger] s@[m]),
            value == digits_value(s@.subrange(start as int, i as int)),
        decreases s@.len() - i,
    {
        let c = s[i];
        if !('0' <= c && c <= '9') {
            assert(!is_digit(digits[i - start]));
            assert(!all_digits(digits));
            return None;
        }
        let d: usize = (c as u32 - 48u32) as usize;
        assert(s@.subrange(start as int, i + 1).drop_last() =~= s@.subrange(start as int, i as int));
        assert(digits_value(s@.subrange(start as int, i + 1)) == value * 10 + d);
        if value > (usize::MAX - d) / 10 {
            proof {
                assert(value * 10 + d > usize::MAX) by (nonlinear_arith)
                    requires
                        value > (usize::MAX - d) / 10,
                        d <= 9,
                ;
                lemma_digits_value_prefix(digits, (i + 1 - start) as nat);
            }
            assert(s@.subrange(start as int, i + 1) =~= digits.take(i + 1 - start));
            return None;
        }
        value = value * 10 + d;
        i = i + 1;
    }
    assert(s@.subrange(start as int, i as int) =~= digits);
    Some(value)
}

/// A number's digits are worth at least as much as any prefix of them.
proof fn lemma_digits_value_prefix(s: Seq<char>, k: nat)
    requires
        k <= s.len(),
    ensures
        digits_value(s.take(k as int)) <= digits_value(s),
    decreases s.len(),
{
    if k < s.len() {
        assert(s.drop_last().take(k as int) =~= s.take(k as int));
        lemma_digits_value_prefix(s.drop_last(), k);
        assert(digits_value(s.drop_last()) <= digits_value(s)) by (nonlinear_arith)
            requires
                digits_value(s) == digits_value(s.drop_last()) * 10 + digit_value(s.last()),
        ;
    } else {
        assert(s.take(k as int) =~= s);
    }
}

} // verus!
