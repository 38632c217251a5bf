//! Scanning SVG text: path `d` attributes and the numbers inside them.
use vstd::prelude::*;

use crate::text::{chars_of, string_of};

verus! {

// ── Numbers in a path `d` attribute ─────────────────────────────────────

pub open spec fn is_digit(c: char) -> bool {
    '0' <= c && c <= '9'
}

pub open spec fn is_sign(c: char) -> bool {
    c == '-' || c == '+'
}

/// A number starts at `i`: a digit, a dot, or a sign followed by a digit or a dot.
pub open spec fn num_start(d: Seq<char>, i: int) -> bool {
    ||| is_digit(d[i])
    ||| d[i] == '.'
    ||| (is_sign(d[i]) && i + 1 < d.len() && (is_digit(d[i + 1]) || d[i + 1] == '.'))
}

/// The end of the run of digits and dots that starts at `j`.
pub open spec fn skip_mantissa(d: Seq<char>, j: int) -> int
    decreases d.len() - j,
{
    if 0 <= j < d.len() && (is_digit(d[j]) || d[j] == '.') {
        skip_mantissa(d, j + 1)
    } else {
        j
    }
}

/// The end of the run of digits that starts at `j`.
pub open spec fn skip_digits(d: Seq<char>, j: int) -> int
    decreases d.len() - j,
{
    if 0 <= j < d.len() && is_digit(d[j]) {
        skip_digits(d, j + 1)
    } else {
        j
    }
}

/// Where the digits and dots of a number starting at `i` begin (after its sign).
pub open spec fn mantissa_start(d: Seq<char>, i: int) -> int {
    if is_sign(d[i]) {
        i + 1
    } else {
        i
    }
}

/// Whether an exponent marker follows the digits and dots ending at `j1`.
pub open spec fn has_exponent(d: Seq<char>, j1: int) -> bool {
    0 <= j1 < d.len() && (d[j1] == 'e' || d[j1] == 'E')
}

/// Where the exponent digits begin, after the marker at `j1` and its sign.
pub open spec fn exponent_start(d: Seq<char>, j1: int) -> int {
    if j1 + 1 < d.len() && is_sign(d[j1 + 1]) {
        j1 + 2
    } else {
        j1 + 1
    }
}

/// The end of the number token that starts at `i`: sign, digits and dots, then
/// an optional exponent marker, sign and digits.
pub open spec fn token_end(d: Seq<char>, i: int) -> int {
    let j1 = skip_mantissa(d, mantissa_start(d, i));
    if has_exponent(d, j1) {
        skip_digits(d, exponent_start(d, j1))
    } else {
        j1
    }
}

/// How many characters of `d[a..b]` are `c`.
pub open spec fn count_char(d: Seq<char>, a: int, b: int, c: char) -> nat
    decreases b - a,
{
    if b <= a {
        0
    } else {
        count_char(d, a, b - 1, c) + (if d[b - 1] == c {
            1nat
        } else {
            0nat
        })
    }
}

/// How many characters of `d[a..b]` are digits.
pub open spec fn count_digits(d: Seq<char>, a: int, b: int) -> nat
    decreases b - a,
{
    if b <= a {
        0
    } else {
        count_digits(d, a, b - 1) + (if is_digit(d[b - 1]) {
            1nat
        } else {
            0nat
        })
    }
}

/// The token starting at `i` is a decimal number as `f64::from_str` documents
/// its grammar: at most one dot and at least one digit before the exponent,
/// and at least one digit after an exponent marker.
pub open spec fn valid_number(d: Seq<char>, i: int) -> bool {
    let m = mantissa_start(d, i);
    let j1 = skip_mantissa(d, m);
    &&& count_char(d, m, j1, '.') <= 1
    &&& count_digits(d, m, j1) >= 1
    &&& has_exponent(d, j1) ==> token_end(d, i) > exponent_start(d, j1)
}

pub proof fn lemma_skip_mantissa_ge(d: Seq<char>, j: int)
    ensures
        skip_mantissa(d, j) >= j,
        0 <= j < d.len() && (is_digit(d[j]) || d[j] == '.') ==> skip_mantissa(d, j) > j,
        0 <= j <= d.len() ==> skip_mantissa(d, j) <= d.len(),
    decreases d.len() - j,
{
    if 0 <= j < d.len() && (is_digit(d[j]) || d[j] == '.') {
        lemma_skip_mantissa_ge(d, j + 1);
    }
}

pub proof fn lemma_skip_digits_ge(d: Seq<char>, j: int)
    ensures
        skip_digits(d, j) >= j,
        0 <= j <= d.len() ==> skip_digits(d, j) <= d.len(),
    decreases d.len() - j,
{
    if 0 <= j < d.len() && is_digit(d[j]) {
        lemma_skip_digits_ge(d, j + 1);
    }
}

/// A number token is never empty and never runs past the text.
pub proof fn lemma_token_end_bounds(d: Seq<char>, i: int)
    requires
        0 <= i < d.len(),
        num_start(d, i),
    ensures
        i < token_end(d, i) <= d.len(),
{
    let m = mantissa_start(d, i);
    lemma_skip_mantissa_ge(d, m);
    let j1 = skip_mantissa(d, m);
    if has_exponent(d, j1) {
        lemma_skip_digits_ge(d, exponent_start(d, j1));
    }
}

/// The spans `(start, end)` of the numbers of `d` from position `i` on, as the
/// scanner finds them: non-number characters are skipped one at a time, each
/// token is consumed whole, and tokens that are not valid numbers are dropped.
pub open spec fn number_spans_from(d: Seq<char>, i: int) -> Seq<(usize, usize)>
    decreases d.len() - i,
{
    if i < 0 || i >= d.len() {
        Seq::empty()
    } else if !num_start(d, i) {
        number_spans_from(d, i + 1)
    } else {
        let e = token_end(d, i);
        proof {
            lemma_token_end_bounds(d, i);
        }
        if valid_number(d, i) {
            seq![(i as usize, e as usize)] + number_spans_from(d, e)
        } else {
            number_spans_from(d, e)
        }
    }
}

/// The spans of all numbers of `d`.
pub open spec fn number_spans(d: Seq<char>) -> Seq<(usize, usize)> {
    number_spans_from(d, 0)
}

/// The sign before position `a` is accounted for: either no sign stands
/// right before a digit or dot at `a`, or that sign follows an exponent
/// marker.
pub open spec fn sign_accounted(d: Seq<char>, a: int) -> bool {
    (a > 0 && is_sign(d[a - 1]) && !is_sign(d[a])) ==> (a >= 2 && (d[a - 2] == 'e' || d[a - 2] == 'E'))
}

proof fn lemma_skip_mantissa_last(d: Seq<char>, j: int)
    requires
        0 <= j < d.len(),
        is_digit(d[j]) || d[j] == '.',
    ensures
        j < skip_mantissa(d, j) <= d.len(),
        is_digit(d[skip_mantissa(d, j) - 1]) || d[skip_mantissa(d, j) - 1] == '.',
    decreases d.len() - j,
{
    assert(skip_mantissa(d, j) == skip_mantissa(d, j + 1));
    if j + 1 < d.len() && (is_digit(d[j + 1]) || d[j + 1] == '.') {
        lemma_skip_mantissa_last(d, j + 1);
    } else {
        assert(skip_mantissa(d, j + 1) == j + 1);
    }
}

proof fn lemma_skip_digits_last(d: Seq<char>, j: int)
    requires
        0 <= j,
    ensures
        skip_digits(d, j) >= j,
        skip_digits(d, j) > j ==> is_digit(d[skip_digits(d, j) - 1]),
    decreases d.len() - j,
{
    if 0 <= j < d.len() && is_digit(d[j]) {
        lemma_skip_digits_last(d, j + 1);
    }
}

/// A number token never ends with a sign, except the sign of an empty
/// exponent (`1e-`).
proof fn lemma_token_last_char(d: Seq<char>, i: int)
    requires
        0 <= i < d.len(),
        num_start(d, i),
    ensures
        sign_accounted(d, token_end(d, i)) || token_end(d, i) >= d.len(),
        is_sign(d[token_end(d, i) - 1]) ==> token_end(d, i) >= i + 2 && (d[token_end(d, i) - 2] == 'e'
            || d[token_end(d, i) - 2] == 'E'),
{
    let m = mantissa_start(d, i);
    lemma_skip_mantissa_last(d, m);
    let j1 = skip_mantissa(d, m);
    if has_exponent(d, j1) {
        let es = exponent_start(d, j1);
        lemma_skip_digits_last(d, es);
    }
}

proof fn lemma_sign_accounted_from(d: Seq<char>, i: int)
    requires
        0 <= i,
        d.len() <= usize::MAX,
    ensures
        forall|k: int|
            0 <= k < number_spans_from(d, i).len() ==> {
                let a = (#[trigger] number_spans_from(d, i)[k]).0 as int;
                &&& i <= a < d.len()
                &&& num_start(d, a)
                &&& (a == i || sign_accounted(d, a))
            },
    decreases d.len() - i,
{
    if i < d.len() {
        if !num_start(d, i) {
            lemma_sign_accounted_from(d, i + 1);
            let sp = number_spans_from(d, i + 1);
            assert(number_spans_from(d, i) == sp);
            assert forall|k: int| 0 <= k < sp.len() implies {
                let a = (#[trigger] sp[k]).0 as int;
                &&& i <= a < d.len()
                &&& num_start(d, a)
                &&& (a == i || sign_accounted(d, a))
            } by {
                let a = sp[k].0 as int;
                if a == i + 1 && is_sign(d[i]) && !is_sign(d[a]) {
                    assert(num_start(d, a));
                    assert(is_digit(d[i + 1]) || d[i + 1] == '.');
                    assert(num_start(d, i));
                }
            }
        } else {
            let e = token_end(d, i);
            lemma_token_end_bounds(d, i);
            lemma_token_last_char(d, i);
            lemma_sign_accounted_from(d, e);
            let rest = number_spans_from(d, e);
            assert(e < d.len() ==> sign_accounted(d, e));
            if valid_number(d, i) {
                let all = seq![(i as usize, e as usize)] + rest;
                assert(number_spans_from(d, i) == all);
                assert forall|k: int| 0 <= k < all.len() implies {
                    let a = (#[trigger] all[k]).0 as int;
                    &&& i <= a < d.len()
                    &&& num_start(d, a)
                    &&& (a == i || sign_accounted(d, a))
                } by {
                    if k > 0 {
                        assert(all[k] == rest[k - 1]);
                    }
                }
            } else {
                assert(number_spans_from(d, i) == rest);
            }
        }
    }
}

/// A sign in front of a number stays with it: a number read from `d` never
/// starts at a digit or dot right after a sign, unless that sign belongs to an
/// exponent marker (`e`/`E`) before it. So `-.5`, like `-0.5`, is read
/// with its sign, whatever stands before it.
pub proof fn lemma_sign_stays_with_number(d: Seq<char>, k: int)
    requires
        d.len() <= usize::MAX,
        0 <= k < number_spans(d).len(),
    ensures
        ({
            let a = number_spans(d)[k].0 as int;
            a > 0 && is_sign(d[a - 1]) && !is_sign(d[a]) ==> a >= 2 && (d[a - 2] == 'e' || d[a
                - 2] == 'E')
        }),
{
    lemma_sign_accounted_from(d, 0);
    assert(number_spans(d)[k] == number_spans_from(d, 0)[k]);
}

/// A sign directly followed by a digit or a dot, where a number could start,
/// opens a number that includes the sign.
pub proof fn lemma_signed_number_token(d: Seq<char>, i: int)
    requires
        0 <= i < d.len() - 1,
        is_sign(d[i]),
        is_digit(d[i + 1]) || d[i + 1] == '.',
    ensures
        num_start(d, i),
        token_end(d, i) > i + 1,
{
    lemma_skip_mantissa_last(d, i + 1);
    let j1 = skip_mantissa(d, i + 1);
    if has_exponent(d, j1) {
        lemma_skip_digits_ge(d, exponent_start(d, j1));
    }
}

fn is_digit_char(c: char) -> (r: bool)
    ensures
        r == is_digit(c),
{
    '0' <= c && c <= '9'
}

fn is_sign_char(c: char) -> (r: bool)
    ensures
        r == is_sign(c),
{
    c == '-' || c == '+'
}

/// The spans of the numbers of `d` (character positions).
pub fn scan_numbers(d: &[char]) -> (spans: Vec<(usize, usize)>)
    ensures
        spans@ == number_spans(d@),
{
    let n = d.len();
    let mut spans: Vec<(usize, usize)> = Vec::new();
    let mut i: usize = 0;
    while i < n
        invariant
            n == d@.len(),
            i <= n,
            spans@ + number_spans_from(d@, i as int) == number_spans(d@),
        decreases n - i,
    {
        let ch = d[i];
        let is_num_start = is_digit_char(ch) || ch == '.' || (is_sign_char(ch) && i + 1 < n && (
        is_digit_char(d[i + 1]) || d[i + 1] == '.'));
        if !is_num_start {
            i += 1;
            continue;
        }
        proof {
            lemma_token_end_bounds(d@, i as int);
        }
        let start = i;
        if is_sign_char(d[i]) {
            i += 1;
        }
        let m = i;
        let mut dots: usize = 0;
        let mut digits: usize = 0;
        while i < n && (is_digit_char(d[i]) || d[i] == '.')
            invariant
                n == d@.len(),
                m <= i <= n,
                m == mantissa_start(d@, start as int),
                skip_mantissa(d@, i as int) == skip_mantissa(d@, m as int),
                dots == count_char(d@, m as int, i as int, '.'),
                digits == count_digits(d@, m as int, i as int),
                dots <= i - m,
                digits <= i - m,
            decreases n - i,
        {
            if d[i] == '.' {
                dots += 1;
            } else {
                digits += 1;
            }
            i += 1;
        }
        let j1 = i;
        let mut exp_ok = true;
        if i < n && (d[i] == 'e' || d[i] == 'E') {
            i += 1;
            if i < n && is_sign_char(d[i]) {
                i += 1;
            }
            let j3 = i;
            while i < n && is_digit_char(d[i])
                invariant
                    n == d@.len(),
                    j3 <= i <= n,
                    j3 == exponent_start(d@, j1 as int),
                    skip_digits(d@, i as int) == skip_digits(d@, j3 as int),
                decreases n - i,
            {
                i += 1;
            }
            exp_ok = i > j3;
        }
        assert(i == token_end(d@, start as int));
        let ghost rest = number_spans_from(d@, i as int);
        if dots <= 1 && digits >= 1 && exp_ok {
            spans.push((start, i));
            proof {
                assert(valid_number(d@, start as int));
                assert(number_spans_from(d@, start as int) == seq![(start, i)] + rest);
                assert(spans@ + rest =~= number_spans(d@));
            }
        } else {
            assert(!valid_number(d@, start as int));
        }
    }
    assert(spans@ =~= number_spans(d@));
    spans
}


// ── Path `d` attributes ──────────────────────────────────────────────────

/// The four characters ` d="` start at `i`.
pub open spec fn pattern_at(s: Seq<char>, i: int) -> bool {
    &&& 0 <= i
    &&& i + 4 <= s.len()
    &&& s[i] == ' '
    &&& s[i + 1] == 'd'
    &&& s[i + 2] == '='
    &&& s[i + 3] == '"'
}

/// The first position at or after `from` where ` d="` starts.
pub open spec fn next_pattern(s: Seq<char>, from: int) -> Option<int>
    decreases s.len() - from,
{
    if from < 0 || from + 4 > s.len() {
        None
    } else if pattern_at(s, from) {
        Some(from)
    } else {
        next_pattern(s, from + 1)
    }
}

/// The first position at or after `from` that holds a double quote.
pub open spec fn next_quote(s: Seq<char>, from: int) -> Option<int>
    decreases s.len() - from,
{
    if from < 0 || from >= s.len() {
        None
    } else if s[from] == '"' {
        Some(from)
    } else {
        next_quote(s, from + 1)
    }
}

pub proof fn lemma_next_pattern(s: Seq<char>, from: int)
    ensures
        next_pattern(s, from) matches Some(p) ==> from <= p && p + 4 <= s.len() && pattern_at(s, p),
    decreases s.len() - from,
{
    if !(from < 0 || from + 4 > s.len()) && !pattern_at(s, from) {
        lemma_next_pattern(s, from + 1);
    }
}

pub proof fn lemma_next_quote(s: Seq<char>, from: int)
    ensures
        next_quote(s, from) matches Some(e) ==> 0 <= from <= e < s.len() && s[e] == '"',
    decreases s.len() - from,
{
    if !(from < 0 || from >= s.len()) && s[from] != '"' {
        lemma_next_quote(s, from + 1);
    }
}

/// The spans of the values of the ` d="..."` attributes found from `from` on.
/// After a match the search resumes `step` characters past the start of the
/// value.
pub open spec fn attr_spans_from(s: Seq<char>, from: int, step: int) -> Seq<(usize, usize)>
    decreases s.len() + 1 - from,
{
    if step < 0 || step > 1 {
        Seq::empty()
    } else {
        match next_pattern(s, from) {
            None => Seq::empty(),
            Some(p) => {
                proof {
                    lemma_next_pattern(s, from);
                }
                let a = p + 4;
                let rest = attr_spans_from(s, a + step, step);
                match next_quote(s, a) {
                    Some(e) => seq![(a as usize, e as usize)] + rest,
                    None => rest,
                }
            },
        }
    }
}

/// The spans of all ` d="..."` values of `s` (search resuming at the value).
pub open spec fn d_attr_spans(s: Seq<char>) -> Seq<(usize, usize)> {
    attr_spans_from(s, 0, 0)
}

/// The ` d="..."` values of `s`.
pub open spec fn d_attr_values(s: Seq<char>) -> Seq<Seq<char>> {
    d_attr_spans(s).map_values(|sp: (usize, usize)| s.subrange(sp.0 as int, sp.1 as int))
}

/// Every span lies inside the text and starts at or before its end.
pub open spec fn spans_within(spans: Seq<(usize, usize)>, len: nat) -> bool {
    forall|k: int| 0 <= k < spans.len() ==> #[trigger] spans[k].0 <= spans[k].1 && spans[k].1 <= len
}

#[verifier::spinoff_prover]
proof fn lemma_attr_spans_within(s: Seq<char>, from: int, step: int)
    requires
        0 <= from,
        s.len() <= usize::MAX,
    ensures
        spans_within(attr_spans_from(s, from, step), s.len()),
    decreases s.len() + 1 - from,
{
    if 0 <= step <= 1 {
        lemma_next_pattern(s, from);
        if let Some(p) = next_pattern(s, from) {
            let a = p + 4;
            lemma_next_quote(s, a);
            lemma_attr_spans_within(s, a + step, step);
            let rest = attr_spans_from(s, a + step, step);
            if let Some(e) = next_quote(s, a) {
                let all = seq![(a as usize, e as usize)] + rest;
                assert(attr_spans_from(s, from, step) == all);
                assert forall|k: int| 0 <= k < all.len() implies #[trigger] all[k].0 <= all[k].1
                    && all[k].1 <= s.len() by {
                    if k > 0 {
                        assert(all[k] == rest[k - 1]);
                    }
                }
            } else {
                assert(attr_spans_from(s, from, step) == rest);
            }
        } else {
            assert(attr_spans_from(s, from, step) =~= Seq::<(usize, usize)>::empty());
        }
    } else {
        assert(attr_spans_from(s, from, step) =~= Seq::<(usize, usize)>::empty());
    }
}

/// The spans of the ` d="..."` values of `s` (character positions); after a
/// match the search resumes `step` characters past the start of the value.
pub fn attr_spans(s: &[char], step: usize) -> (spans: Vec<(usize, usize)>)
    requires
        step <= 1,
    ensures
        spans@ == attr_spans_from(s@, 0, step as int),
        spans_within(spans@, s@.len()),
{
    let n = s.len();
    proof {
        lemma_attr_spans_within(s@, 0, step as int);
    }
    let mut spans: Vec<(usize, usize)> = Vec::new();
    let mut from: usize = 0;
    while from <= n && n - from >= 4
        invariant
            n == s@.len(),
            step <= 1,
            from <= n,
            spans@ + attr_spans_from(s@, from as int, step as int) == attr_spans_from(s@, 0, step as int),
        decreases n + 1 - from,
    {
        let mut j = from;
        while n - j >= 4 && !(s[j] == ' ' && s[j + 1] == 'd' && s[j + 2] == '=' && s[j + 3] == '"')
            invariant
                n == s@.len(),
                from <= j,
                j <= n,
                next_pattern(s@, j as int) == next_pattern(s@, from as int),
            decreases n - j,
        {
            j += 1;
        }
        if n - j < 4 {
            assert(attr_spans_from(s@, from as int, step as int) =~= Seq::<(usize, usize)>::empty());
            assert(attr_spans_from(s@, n as int, step as int) =~= Seq::<(usize, usize)>::empty());
            from = n;
        } else {
            let a = j + 4;
            let ghost rest = attr_spans_from(s@, (a + step) as int, step as int);
            let mut k = a;
            while k < n && s[k] != '"'
                invariant
                    n == s@.len(),
                    a <= k <= n,
                    next_quote(s@, k as int) == next_quote(s@, a as int),
                decreases n - k,
            {
                k += 1;
            }
            if k < n {
                spans.push((a, k));
                assert(spans@ + rest =~= attr_spans_from(s@, 0, step as int));
            }
            if a < n {
                from = a + step;
            } else {
                assert(attr_spans_from(s@, (a + step) as int, step as int) =~= Seq::<
                    (usize, usize),
                >::empty());
                assert(attr_spans_from(s@, n as int, step as int) =~= Seq::<(usize, usize)>::empty());
                from = n;
            }
        }
    }
    assert(attr_spans_from(s@, from as int, step as int) =~= Seq::<(usize, usize)>::empty());
    assert(spans@ =~= attr_spans_from(s@, 0, step as int));
    spans
}

/// Find all `d="..."` attribute values in the SVG text.
pub fn find_path_d_attrs(svg: &str) -> (attrs: Vec<String>)
    ensures
        attrs@.len() == d_attr_values(svg@).len(),
        forall|k: int| 0 <= k < attrs@.len() ==> #[trigger] attrs@[k]@ == d_attr_values(svg@)[k],
{
    let chars = chars_of(svg);
    let spans = attr_spans(chars.as_slice(), 0);
    let mut attrs: Vec<String> = Vec::new();
    let mut k: usize = 0;
    while k < spans.len()
        invariant
            chars@ == svg@,
            spans@ == d_attr_spans(svg@),
            spans_within(spans@, svg@.len()),
            k <= spans@.len(),
            attrs@.len() == k,
            forall|q: int| 0 <= q < k ==> #[trigger] attrs@[q]@ == d_attr_values(svg@)[q],
        decreases spans@.len() - k,
    {
        let (a, e) = spans[k];
        assert(spans@[k as int].0 <= spans@[k as int].1 <= svg@.len());
        attrs.push(string_of(chars.as_slice(), a, e));
        k += 1;
    }
    attrs
}


// ── Number tokens ────────────────────────────────────────────────────────

/// A number found in SVG text: its characters and its character positions.
pub struct NumberToken {
    pub text: String,
    pub start: usize,
    pub end: usize,
}

/// `toks` are the tokens of `s` at `spans`.
pub open spec fn tokens_at(toks: Seq<NumberToken>, spans: Seq<(usize, usize)>, s: Seq<char>) -> bool {
    &&& toks.len() == spans.len()
    &&& forall|k: int|
        0 <= k < toks.len() ==> {
            &&& #[trigger] toks[k].start == spans[k].0
            &&& toks[k].end == spans[k].1
            &&& toks[k].text@ == s.subrange(spans[k].0 as int, spans[k].1 as int)
        }
}

pub proof fn lemma_number_spans_within(d: Seq<char>, i: int)
    requires
        0 <= i,
        d.len() <= usize::MAX,
    ensures
        spans_within(number_spans_from(d, i), d.len()),
        forall|k: int| 0 <= k < number_spans_from(d, i).len() ==> i <= #[trigger] number_spans_from(d, i)[k].0,
    decreases d.len() - i,
{
    if 0 <= i < d.len() {
        if !num_start(d, i) {
            lemma_number_spans_within(d, i + 1);
        } else {
            let e = token_end(d, i);
            lemma_token_end_bounds(d, i);
            lemma_number_spans_within(d, e);
            let rest = number_spans_from(d, e);
            if valid_number(d, i) {
                let all = seq![(i as usize, e as usize)] + rest;
                assert(number_spans_from(d, i) == all);
                assert forall|k: int| 0 <= k < all.len() implies #[trigger] all[k].0 <= all[k].1
                    && all[k].1 <= d.len() && i <= all[k].0 by {
                    if k > 0 {
                        assert(all[k] == rest[k - 1]);
                    }
                }
            } else {
                assert(number_spans_from(d, i) == rest);
            }
        }
    } else {
        assert(number_spans_from(d, i) =~= Seq::<(usize, usize)>::empty());
    }
}

/// The numbers of a path `d` attribute, with their positions.
pub fn parse_number_tokens(d: &str) -> (toks: Vec<NumberToken>)
    ensures
        tokens_at(toks@, number_spans(d@), d@),
{
    let chars = chars_of(d);
    let n = chars.len();
    proof {
        lemma_number_spans_within(d@, 0);
    }
    let spans = scan_numbers(chars.as_slice());
    let mut toks: Vec<NumberToken> = Vec::new();
    let mut k: usize = 0;
    while k < spans.len()
        invariant
            chars@ == d@,
            n == d@.len(),
            spans@ == number_spans(d@),
            spans_within(spans@, d@.len()),
            k <= spans@.len(),
            tokens_at(toks@, spans@.take(k as int), d@),
        decreases spans@.len() - k,
    {
        let (a, e) = spans[k];
        assert(spans@[k as int].0 <= spans@[k as int].1 <= d@.len());
        let text = string_of(chars.as_slice(), a, e);
        let ghost old_toks = toks@;
        toks.push(NumberToken { text, start: a, end: e });
        k += 1;
        proof {
            let sp = spans@.take(k as int);
            assert(sp =~= spans@.take(k - 1).push(spans@[k - 1]));
            assert forall|q: int| 0 <= q < toks@.len() implies {
                &&& #[trigger] toks@[q].start == sp[q].0
                &&& toks@[q].end == sp[q].1
                &&& toks@[q].text@ == d@.subrange(sp[q].0 as int, sp[q].1 as int)
            } by {
                if q < k - 1 {
                    assert(toks@[q] == old_toks[q]);
                    assert(sp[q] == spans@.take(k - 1)[q]);
                    assert(old_toks[q].start == spans@.take(k - 1)[q].0);
                }
            }
            assert(tokens_at(toks@, sp, d@));
        }
    }
    assert(spans@.take(spans@.len() as int) =~= spans@);
    toks
}

/// Count the numbers of a path `d` attribute.
pub fn count_numbers(d: &str) -> (r: usize)
    ensures
        r == number_spans(d@).len(),
{
    let chars = chars_of(d);
    scan_numbers(chars.as_slice()).len()
}

/// How many of the first `k` attribute values hold at least `min` numbers.
pub open spec fn qualifying_prefix(vals: Seq<Seq<char>>, min: nat, k: int) -> nat
    decreases k,
{
    if k <= 0 {
        0
    } else {
        qualifying_prefix(vals, min, k - 1) + (if number_spans(vals[k - 1]).len() >= min {
            1nat
        } else {
            0nat
        })
    }
}

/// Count paths that have at least `min_coords` numeric values.
pub fn count_qualifying_paths(svg: &str, min_coords: usize) -> (r: usize)
    ensures
        r == qualifying_prefix(d_attr_values(svg@), min_coords as nat, d_attr_values(svg@).len() as int),
{
    let attrs = find_path_d_attrs(svg);
    let mut count: usize = 0;
    let mut k: usize = 0;
    while k < attrs.len()
        invariant
            attrs@.len() == d_attr_values(svg@).len(),
            forall|q: int| 0 <= q < attrs@.len() ==> #[trigger] attrs@[q]@ == d_attr_values(svg@)[q],
            k <= attrs@.len(),
            count <= k,
            count == qualifying_prefix(d_attr_values(svg@), min_coords as nat, k as int),
        decreases attrs@.len() - k,
    {
        if count_numbers(attrs[k].as_str()) >= min_coords {
            count += 1;
        }
        k += 1;
    }
    count
}

// ── Embedding targets and text surgery ───────────────────────────────────

/// Spans moved right by `off`.
pub open spec fn shifted(spans: Seq<(usize, usize)>, off: nat) -> Seq<(usize, usize)> {
    spans.map_values(|sp: (usize, usize)| ((sp.0 + off) as usize, (sp.1 + off) as usize))
}

/// For the first `k` attribute spans, the positions in `s` of the first
/// `needed` numbers of each value that holds at least `needed` numbers.
pub open spec fn targets_prefix(s: Seq<char>, attrs: Seq<(usize, usize)>, needed: nat, k: int) -> Seq<Seq<(usize, usize)>>
    decreases k,
{
    if k <= 0 {
        Seq::empty()
    } else {
        let prev = targets_prefix(s, attrs, needed, k - 1);
        let a = attrs[k - 1].0;
        let ns = number_spans(s.subrange(a as int, attrs[k - 1].1 as int));
        if ns.len() >= needed {
            prev.push(shifted(ns.take(needed as int), a as nat))
        } else {
            prev
        }
    }
}

/// Where the watermark goes in `s`: for each ` d="..."` value holding at least
/// `needed` numbers (the search resuming one character into each value), the
/// positions of its first `needed` numbers.
pub open spec fn embedding_target_spans(s: Seq<char>, needed: nat) -> Seq<Seq<(usize, usize)>> {
    targets_prefix(s, attr_spans_from(s, 0, 1), needed, attr_spans_from(s, 0, 1).len() as int)
}

/// The numbers that carry the watermark: for each qualifying path, the first
/// `needed` numbers of its `d` value, with their positions in `svg`.
pub fn embedding_targets(svg: &str, needed: usize) -> (targets: Vec<Vec<NumberToken>>)
    ensures
        targets@.len() == embedding_target_spans(svg@, needed as nat).len(),
        forall|p: int| 0 <= p < targets@.len() ==> tokens_at(#[trigger] targets@[p]@, embedding_target_spans(svg@, needed as nat)[p], svg@),
{
    let chars = chars_of(svg);
    let n = chars.len();
    let attrs = attr_spans(chars.as_slice(), 1);
    let mut targets: Vec<Vec<NumberToken>> = Vec::new();
    let mut k: usize = 0;
    while k < attrs.len()
        invariant
            chars@ == svg@,
            n == svg@.len(),
            attrs@ == attr_spans_from(svg@, 0, 1),
            spans_within(attrs@, svg@.len()),
            k <= attrs@.len(),
            targets@.len() == targets_prefix(svg@, attrs@, needed as nat, k as int).len(),
            forall|p: int| 0 <= p < targets@.len() ==> tokens_at(#[trigger] targets@[p]@, targets_prefix(svg@, attrs@, needed as nat, k as int)[p], svg@),
        decreases attrs@.len() - k,
    {
        let (a, e) = attrs[k];
        assert(attrs@[k as int].0 <= attrs@[k as int].1 <= svg@.len());
        let cs = chars.as_slice();
        let d = &cs[a..e];
        assert(d@ == svg@.subrange(a as int, e as int));
        proof {
            lemma_number_spans_within(d@, 0);
        }
        let ns = scan_numbers(d);
        let ghost prev = targets_prefix(svg@, attrs@, needed as nat, k as int);
        if ns.len() >= needed {
            let ghost want = shifted(ns@.take(needed as int), a as nat);
            let mut toks: Vec<NumberToken> = Vec::new();
            let mut t: usize = 0;
            while t < needed
                invariant
                    chars@ == svg@,
                    a <= e <= svg@.len(),
                    ns@ == number_spans(svg@.subrange(a as int, e as int)),
                    spans_within(ns@, (e - a) as nat),
                    needed <= ns@.len(),
                    want == shifted(ns@.take(needed as int), a as nat),
                    t <= needed,
                    tokens_at(toks@, want.take(t as int), svg@),
                decreases needed - t,
            {
                let (s0, s1) = ns[t];
                assert(ns@[t as int].0 <= ns@[t as int].1 <= e - a);
                let text = string_of(chars.as_slice(), a + s0, a + s1);
                let ghost old_toks = toks@;
                toks.push(NumberToken { text, start: a + s0, end: a + s1 });
                t += 1;
                proof {
                    let sp = want.take(t as int);
                    assert(sp =~= want.take(t - 1).push(want[t - 1]));
                    assert(want[t - 1] == ((a + s0) as usize, (a + s1) as usize));
                    assert forall|q: int| 0 <= q < toks@.len() implies {
                        &&& #[trigger] toks@[q].start == sp[q].0
                        &&& toks@[q].end == sp[q].1
                        &&& toks@[q].text@ == svg@.subrange(sp[q].0 as int, sp[q].1 as int)
                    } by {
                        if q < t - 1 {
                            assert(toks@[q] == old_toks[q]);
                            assert(sp[q] == want.take(t - 1)[q]);
                            assert(old_toks[q].start == want.take(t - 1)[q].0);
                        } else {
                            assert(q == t - 1);
                            assert(sp[q] == want[t - 1]);
                            assert(toks@[q].text@ == svg@.subrange(a + s0, a + s1));
                        }
                    }
                    assert(tokens_at(toks@, sp, svg@));
                }
            }
            assert(want.take(needed as int) =~= want);
            targets.push(toks);
            proof {
                assert(targets_prefix(svg@, attrs@, needed as nat, (k + 1) as int) == prev.push(want));
                assert forall|p: int| 0 <= p < targets@.len() implies tokens_at(#[trigger] targets@[p]@, prev.push(want)[p], svg@) by {
                    if p < targets@.len() - 1 {
                    }
                }
            }
        } else {
            assert(targets_prefix(svg@, attrs@, needed as nat, (k + 1) as int) == prev);
        }
        k += 1;
    }
    targets
}

proof fn lemma_next_pattern_skips_pattern(s: Seq<char>, a: int)
    requires
        pattern_at(s, a),
    ensures
        next_pattern(s, a + 1) == next_pattern(s, a + 4),
{
    if a + 5 <= s.len() {
        assert(!pattern_at(s, a + 1));
        if a + 6 <= s.len() {
            assert(!pattern_at(s, a + 2));
            if a + 7 <= s.len() {
                assert(!pattern_at(s, a + 3));
                assert(next_pattern(s, a + 3) == next_pattern(s, a + 4));
            }
            assert(next_pattern(s, a + 2) == next_pattern(s, a + 3));
        }
        assert(next_pattern(s, a + 1) == next_pattern(s, a + 2));
    }
}

proof fn lemma_attr_spans_same_start(s: Seq<char>, x: int, y: int, step: int)
    requires
        next_pattern(s, x) == next_pattern(s, y),
    ensures
        attr_spans_from(s, x, step) == attr_spans_from(s, y, step),
{
}

proof fn lemma_contains_tail<A>(x: A, rest: Seq<A>, e: A)
    requires
        rest.contains(e),
    ensures
        (seq![x] + rest).contains(e),
{
    let i = choose|i: int| 0 <= i < rest.len() && rest[i] == e;
    assert((seq![x] + rest)[i + 1] == e);
}

/// Resuming the search one character further finds no attribute that
/// resuming at the value misses: a value cannot start a new ` d="` one
/// character in.
proof fn lemma_step_one_within_step_zero(s: Seq<char>, from: int, e: (usize, usize))
    requires
        0 <= from,
        attr_spans_from(s, from, 1).contains(e),
    ensures
        attr_spans_from(s, from, 0).contains(e),
    decreases s.len() + 1 - from,
{
    lemma_next_pattern(s, from);
    match next_pattern(s, from) {
        None => {},
        Some(p) => {
            let a = p + 4;
            let rest1 = attr_spans_from(s, a + 1, 1);
            let rest0 = attr_spans_from(s, a, 0);
            let q = next_quote(s, a);
            let head: Seq<(usize, usize)> = match q {
                Some(qe) => seq![(a as usize, qe as usize)],
                None => Seq::empty(),
            };
            assert(attr_spans_from(s, from, 1) == head + rest1) by {
                if q is None {
                    assert(head + rest1 =~= rest1);
                }
            }
            assert(attr_spans_from(s, from, 0) == head + rest0) by {
                if q is None {
                    assert(head + rest0 =~= rest0);
                }
            }
            let i = choose|i: int| 0 <= i < (head + rest1).len() && (head + rest1)[i] == e;
            if i < head.len() {
                assert((head + rest0)[i] == e);
            } else {
                assert(rest1[i - head.len()] == e);
                assert(rest1.contains(e));
                lemma_step_one_within_step_zero(s, a + 1, e);
                // `attr_spans_from(s, a + 1, 0)` lies within `rest0`.
                if pattern_at(s, a) {
                    lemma_next_pattern_skips_pattern(s, a);
                    lemma_attr_spans_same_start(s, a + 1, a + 4, 0);
                    let q2 = next_quote(s, a + 4);
                    let tail = attr_spans_from(s, a + 4, 0);
                    assert(tail.contains(e));
                    match q2 {
                        Some(qe) => {
                            assert(rest0 == seq![((a + 4) as usize, qe as usize)] + tail);
                            lemma_contains_tail(((a + 4) as usize, qe as usize), tail, e);
                        },
                        None => {
                            assert(rest0 == tail);
                        },
                    }
                } else {
                    assert(next_pattern(s, a) == next_pattern(s, a + 1));
                    lemma_attr_spans_same_start(s, a, a + 1, 0);
                }
                assert(rest0.contains(e));
                let j = choose|j: int| 0 <= j < rest0.len() && rest0[j] == e;
                assert((head + rest0)[head.len() + j] == e);
            }
        },
    }
}

proof fn lemma_targets_have_a_long_value(s: Seq<char>, attrs: Seq<(usize, usize)>, needed: nat, k: int)
    requires
        0 <= k <= attrs.len(),
        targets_prefix(s, attrs, needed, k).len() > 0,
    ensures
        exists|j: int| 0 <= j < k && number_spans(s.subrange(attrs[j].0 as int, attrs[j].1 as int)).len() >= needed,
    decreases k,
{
    let a = attrs[k - 1].0;
    let ns = number_spans(s.subrange(a as int, attrs[k - 1].1 as int));
    if ns.len() < needed {
        lemma_targets_have_a_long_value(s, attrs, needed, k - 1);
    }
}

proof fn lemma_qualifying_positive(vals: Seq<Seq<char>>, min: nat, k: int, i: int)
    requires
        0 <= i < k,
        number_spans(vals[i]).len() >= min,
    ensures
        qualifying_prefix(vals, min, k) > 0,
    decreases k,
{
    if i < k - 1 {
        lemma_qualifying_positive(vals, min, k - 1, i);
    }
}

/// Whenever some path is found to carry the watermark, the count of paths
/// with enough numbers is not zero.
pub proof fn lemma_targets_imply_qualifying(s: Seq<char>, needed: nat)
    requires
        embedding_target_spans(s, needed).len() > 0,
    ensures
        qualifying_prefix(d_attr_values(s), needed, d_attr_values(s).len() as int) > 0,
{
    let a1 = attr_spans_from(s, 0, 1);
    let a0 = attr_spans_from(s, 0, 0);
    lemma_targets_have_a_long_value(s, a1, needed, a1.len() as int);
    let j = choose|j: int| 0 <= j < a1.len() && number_spans(s.subrange(a1[j].0 as int, a1[j].1 as int)).len() >= needed;
    assert(a1.contains(a1[j]));
    lemma_step_one_within_step_zero(s, 0, a1[j]);
    let i = choose|i: int| 0 <= i < a0.len() && a0[i] == a1[j];
    let vals = d_attr_values(s);
    assert(vals[i] == s.subrange(a0[i].0 as int, a0[i].1 as int));
    lemma_qualifying_positive(vals, needed, vals.len() as int, i);
}

proof fn lemma_step_one_equals_step_zero(s: Seq<char>, from: int)
    requires
        0 <= from,
        s.len() <= usize::MAX,
        forall|k: int| 0 <= k < attr_spans_from(s, from, 0).len() ==> !pattern_at(
            s,
            #[trigger] attr_spans_from(s, from, 0)[k].0 as int,
        ),
    ensures
        attr_spans_from(s, from, 1) == attr_spans_from(s, from, 0),
    decreases s.len() + 1 - from,
{
    lemma_next_pattern(s, from);
    match next_pattern(s, from) {
        None => {},
        Some(p) => {
            let a = p + 4;
            let rest0 = attr_spans_from(s, a, 0);
            let q = next_quote(s, a);
            let head: Seq<(usize, usize)> = match q {
                Some(qe) => seq![(a as usize, qe as usize)],
                None => Seq::empty(),
            };
            assert(attr_spans_from(s, from, 0) == head + rest0) by {
                if q is None {
                    assert(head + rest0 =~= rest0);
                }
            }
            assert(attr_spans_from(s, from, 1) == head + attr_spans_from(s, a + 1, 1)) by {
                if q is None {
                    assert(head + attr_spans_from(s, a + 1, 1) =~= attr_spans_from(s, a + 1, 1));
                }
            }
            // The value cannot start a new ` d="`: when it is found, it is the
            // head, which the requirement covers; when it is not, nothing is.
            if pattern_at(s, a) {
                lemma_next_quote(s, a);
                assert(q is Some) by {
                    assert(s[a + 3] == '"');
                    if q is None {
                        lemma_next_quote_none(s, a, a + 3);
                    }
                }
                assert(attr_spans_from(s, from, 0)[0].0 == a);
                assert(!pattern_at(s, attr_spans_from(s, from, 0)[0].0 as int));
            }
            assert(next_pattern(s, a) == next_pattern(s, a + 1));
            lemma_attr_spans_same_start(s, a, a + 1, 0);
            assert forall|k: int| 0 <= k < rest0.len() implies !pattern_at(s, #[trigger] rest0[k].0 as int) by {
                assert(attr_spans_from(s, from, 0)[head.len() + k] == rest0[k]);
            }
            lemma_step_one_equals_step_zero(s, a + 1);
        },
    }
}

proof fn lemma_next_quote_none(s: Seq<char>, from: int, q: int)
    requires
        0 <= from <= q < s.len(),
        s[q] == '"',
    ensures
        next_quote(s, from) is Some,
    decreases q - from,
{
    if s[from] != '"' {
        lemma_next_quote_none(s, from + 1, q);
    }
}

proof fn lemma_targets_count(s: Seq<char>, attrs: Seq<(usize, usize)>, needed: nat, k: int)
    requires
        0 <= k <= attrs.len(),
    ensures
        targets_prefix(s, attrs, needed, k).len() == qualifying_prefix(
            attrs.map_values(|sp: (usize, usize)| s.subrange(sp.0 as int, sp.1 as int)),
            needed,
            k,
        ),
    decreases k,
{
    if k > 0 {
        lemma_targets_count(s, attrs, needed, k - 1);
    }
}

/// Every qualifying path carries the watermark: when no ` d="` value itself
/// begins with ` d="` (as in any ordinary SVG text), there is one target list
/// for each path whose `d` value holds at least `needed` numbers, that is,
/// as many as `count_qualifying_paths` counts. In every text there are never
/// more target lists than qualifying paths, and each holds `needed` spans.
pub proof fn lemma_every_qualifying_path_is_a_target(s: Seq<char>, needed: nat)
    requires
        s.len() <= usize::MAX,
    ensures
        (forall|k: int| 0 <= k < d_attr_spans(s).len() ==> !pattern_at(s, #[trigger] d_attr_spans(s)[k].0 as int))
            ==> embedding_target_spans(s, needed).len() == qualifying_prefix(
            d_attr_values(s),
            needed,
            d_attr_values(s).len() as int,
        ),
        forall|p: int| 0 <= p < embedding_target_spans(s, needed).len() ==> (#[trigger] embedding_target_spans(s, needed)[p]).len() == needed,
{
    let a1 = attr_spans_from(s, 0, 1);
    lemma_targets_count(s, a1, needed, a1.len() as int);
    lemma_target_lengths(s, a1, needed, a1.len() as int);
    if forall|k: int| 0 <= k < d_attr_spans(s).len() ==> !pattern_at(s, #[trigger] d_attr_spans(s)[k].0 as int) {
        let a0 = attr_spans_from(s, 0, 0);
        assert(d_attr_spans(s) == a0);
        assert forall|k: int| 0 <= k < a0.len() implies !pattern_at(s, #[trigger] a0[k].0 as int) by {
            assert(d_attr_spans(s)[k] == a0[k]);
        }
        lemma_step_one_equals_step_zero(s, 0);
        assert(a1.map_values(|sp: (usize, usize)| s.subrange(sp.0 as int, sp.1 as int)) =~= d_attr_values(s));
    }
}

proof fn lemma_target_lengths(s: Seq<char>, attrs: Seq<(usize, usize)>, needed: nat, k: int)
    requires
        0 <= k <= attrs.len(),
    ensures
        forall|p: int| 0 <= p < targets_prefix(s, attrs, needed, k).len() ==> (#[trigger] targets_prefix(s, attrs, needed, k)[p]).len() == needed,
    decreases k,
{
    if k > 0 {
        lemma_target_lengths(s, attrs, needed, k - 1);
        let prev = targets_prefix(s, attrs, needed, k - 1);
        let a = attrs[k - 1].0;
        let ns = number_spans(s.subrange(a as int, attrs[k - 1].1 as int));
        if ns.len() >= needed {
            let t = shifted(ns.take(needed as int), a as nat);
            assert(targets_prefix(s, attrs, needed, k) == prev.push(t));
            assert forall|p: int| 0 <= p < prev.len() + 1 implies (#[trigger] prev.push(t)[p]).len() == needed by {
                if p < prev.len() {
                    assert(prev.push(t)[p] == prev[p]);
                }
            }
        }
    }
}

/// `t` with, for `k` in order, the characters of span `spans[k]` replaced by
/// `reps[k]`; a span that starts before the end of the previous replacement
/// or runs past the text is left alone. Surplus spans or replacements are
/// ignored.
pub open spec fn splice_from(t: Seq<char>, spans: Seq<(usize, usize)>, reps: Seq<Seq<char>>, k: int, pos: int) -> Seq<char>
    decreases spans.len() - k,
{
    if k < 0 || k >= spans.len() || k >= reps.len() {
        t.subrange(pos, t.len() as int)
    } else if pos <= spans[k].0 && spans[k].0 <= spans[k].1 && spans[k].1 <= t.len() {
        t.subrange(pos, spans[k].0 as int) + reps[k] + splice_from(t, spans, reps, k + 1, spans[k].1 as int)
    } else {
        splice_from(t, spans, reps, k + 1, pos)
    }
}

/// Replaces the characters at each span of `text` by the matching
/// replacement, spans taken in order.
pub fn replace_spans(text: &str, spans: &[(usize, usize)], replacements: &[String]) -> (r: String)
    ensures
        r@ == splice_from(text@, spans@, replacements@.map_values(|x: String| x@), 0, 0),
{
    let chars = chars_of(text);
    let n = chars.len();
    let ghost reps = replacements@.map_values(|x: String| x@);
    let mut out = String::new();
    let mut pos: usize = 0;
    let mut k: usize = 0;
    while k < spans.len() && k < replacements.len()
        invariant
            chars@ == text@,
            n == text@.len(),
            reps == replacements@.map_values(|x: String| x@),
            pos <= n,
            k <= spans@.len(),
            out@ + splice_from(text@, spans@, reps, k as int, pos as int) == splice_from(text@, spans@, reps, 0, 0),
        decreases spans@.len() - k,
    {
        let (a, e) = spans[k];
        if pos <= a && a <= e && e <= n {
            let piece = string_of(chars.as_slice(), pos, a);
            let ghost before = out@;
            out.append(piece.as_str());
            out.append(replacements[k].as_str());
            assert(reps[k as int] == replacements@[k as int]@);
            assert(out@ + splice_from(text@, spans@, reps, (k + 1) as int, e as int) =~= before + splice_from(text@, spans@, reps, k as int, pos as int));
            pos = e;
        }
        k += 1;
    }
    let tail = string_of(chars.as_slice(), pos, n);
    out.append(tail.as_str());
    out
}

} // verus!
