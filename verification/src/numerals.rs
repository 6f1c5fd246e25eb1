//! Which lexemes are numbers: the strings that `str::parse::<f64>` accepts.
//!
//! The standard library documents the accepted strings by a grammar; this
//! module states that grammar and decides it. Numbers themselves are kept as
//! the numerals they were written with, so nothing here computes a value.

use vstd::prelude::*;

verus! {

pub open spec fn is_digit(c: char) -> bool {
    '0' <= c && c <= '9'
}

pub open spec fn all_digits(s: Seq<char>) -> bool {
    forall|i: int| 0 <= i < s.len() ==> is_digit(#[trigger] s[i])
}

pub open spec fn is_sign(c: char) -> bool {
    c == '+' || c == '-'
}

/// `Digit+ | Digit+ '.' Digit* | Digit* '.' Digit+`
pub open spec fn is_decimal(s: Seq<char>) -> bool {
    ||| s.len() > 0 && all_digits(s)
    ||| exists|k: int|
        0 <= k < s.len() && #[trigger] s[k] == '.' && s.len() > 1 && all_digits(s.take(k))
            && all_digits(s.skip(k + 1))
}

/// `'e' Sign? Digit+`, the `e` in either case.
pub open spec fn is_exponent(s: Seq<char>) -> bool {
    &&& s.len() > 1
    &&& (s[0] == 'e' || s[0] == 'E')
    &&& if is_sign(s[1]) {
        s.len() > 2 && all_digits(s.skip(2))
    } else {
        all_digits(s.skip(1))
    }
}

/// `Decimal Exponent?`
pub open spec fn is_number(s: Seq<char>) -> bool {
    ||| is_decimal(s)
    ||| exists|k: int| 0 <= k < s.len() && is_decimal(s.take(k)) && #[trigger] is_exponent(s.skip(k))
}

/// `s` spells `word` (a word of lower-case ASCII letters) in any mix of cases.
pub open spec fn spells_ignoring_case(s: Seq<char>, word: Seq<char>) -> bool {
    &&& s.len() == word.len()
    &&& forall|i: int|
        0 <= i < s.len() ==> s[i] == word[i] || (s[i] as u32) + 32 == #[trigger] (word[i] as u32)
}

/// The text after an optional leading sign.
pub open spec fn unsigned_part(s: Seq<char>) -> Seq<char> {
    if s.len() > 0 && is_sign(s[0]) {
        s.skip(1)
    } else {
        s
    }
}

/// The strings that `f64::from_str` accepts:
/// `Sign? ('inf' | 'infinity' | 'nan' | Number)`, letters in any case.
pub open spec fn is_float_literal(s: Seq<char>) -> bool {
    let body = unsigned_part(s);
    ||| spells_ignoring_case(body, seq!['i', 'n', 'f'])
    ||| spells_ignoring_case(body, seq!['i', 'n', 'f', 'i', 'n', 'i', 't', 'y'])
    ||| spells_ignoring_case(body, seq!['n', 'a', 'n'])
    ||| is_number(body)
}

/// The characters that can occur in a string `f64` parsing accepts: the ten
/// ASCII digits, the point, the signs, `e` and the letters of `inf`,
/// `infinity` and `nan`, in either case.
pub open spec fn float_char(c: char) -> bool {
    ||| '0' <= c <= '9'
    ||| c == '.' || c == '+' || c == '-'
    ||| c == 'e' || c == 'E'
    ||| either_case(c, 'i') || either_case(c, 'n') || either_case(c, 'f')
    ||| either_case(c, 't') || either_case(c, 'y') || either_case(c, 'a')
}

/// `c` is the lower-case ASCII letter `lower` or its upper-case form, which
/// comes 32 code points before it.
pub open spec fn either_case(c: char, lower: char) -> bool {
    c == lower || (c as u32) + 32 == (lower as u32)
}

/// The digits of the grammar are the ten ASCII digits.
pub proof fn lemma_digits(c: char)
    ensures
        is_digit(c) <==> ('0' <= c && c <= '9'),
{
}

/// A non-empty run of ASCII digits is a number, with or without a sign in
/// front.
pub proof fn lemma_digit_runs(d: Seq<char>)
    requires
        d.len() > 0,
        forall|i: int| 0 <= i < d.len() ==> '0' <= #[trigger] d[i] <= '9',
    ensures
        is_float_literal(d),
        is_float_literal(seq!['-'] + d),
        is_float_literal(seq!['+'] + d),
{
    assert(all_digits(d));
    assert(unsigned_part(d) == d);
    assert(unsigned_part(seq!['-'] + d) =~= d);
    assert(unsigned_part(seq!['+'] + d) =~= d);
}

/// Digits, a point and digits, with a digit on at least one side, are a
/// number.
pub proof fn lemma_decimal_points(a: Seq<char>, b: Seq<char>)
    requires
        a.len() + b.len() > 0,
        forall|i: int| 0 <= i < a.len() ==> '0' <= #[trigger] a[i] <= '9',
        forall|i: int| 0 <= i < b.len() ==> '0' <= #[trigger] b[i] <= '9',
    ensures
        is_float_literal(a + seq!['.'] + b),
{
    let s = a + seq!['.'] + b;
    let k = a.len() as int;
    assert(s[k] == '.');
    assert(s.take(k) =~= a);
    assert(s.skip(k + 1) =~= b);
    assert(all_digits(s.take(k)));
    assert(all_digits(s.skip(k + 1)));
    assert(is_decimal(s));
    if s.len() > 0 && is_sign(s[0]) {
        if a.len() > 0 {
            assert(s[0] == a[0]);
        }
    }
    assert(unsigned_part(s) == s);
}

/// Digits followed by an exponent, `e` or `E`, an optional sign and digits,
/// are a number.
pub proof fn lemma_exponents(a: Seq<char>, e: char, sign: Seq<char>, b: Seq<char>)
    requires
        a.len() > 0,
        b.len() > 0,
        e == 'e' || e == 'E',
        sign == Seq::<char>::empty() || sign == seq!['+'] || sign == seq!['-'],
        forall|i: int| 0 <= i < a.len() ==> '0' <= #[trigger] a[i] <= '9',
        forall|i: int| 0 <= i < b.len() ==> '0' <= #[trigger] b[i] <= '9',
    ensures
        is_float_literal(a + seq![e] + sign + b),
{
    let s = a + seq![e] + sign + b;
    let k = a.len() as int;
    assert(s.take(k) =~= a);
    assert(all_digits(a));
    assert(is_decimal(s.take(k)));
    let x = s.skip(k);
    assert(x =~= seq![e] + sign + b);
    if sign.len() > 0 {
        assert(x.skip(2) =~= b);
    } else {
        assert(x.skip(1) =~= b);
        assert(x[1] == b[0]);
    }
    assert(is_exponent(x));
    assert(is_number(s));
    assert(s[0] == a[0]);
    assert(unsigned_part(s) == s);
}

/// `inf`, `infinity` and `nan`, in any case and with an optional sign, are
/// accepted; the empty string, a lone sign, a lone point and a word cut short
/// are not.
pub proof fn lemma_float_words()
    ensures
        is_float_literal("inf"@),
        is_float_literal("-INF"@),
        is_float_literal("+Infinity"@),
        is_float_literal("nan"@),
        is_float_literal("NaN"@),
        !is_float_literal(Seq::<char>::empty()),
        !is_float_literal(seq!['+']),
        !is_float_literal(seq!['-']),
        !is_float_literal(seq!['.']),
        !is_float_literal(seq!['i', 'n']),
        !is_float_literal(seq!['e', '5']),
{
    reveal_strlit("inf");
    reveal_strlit("-INF");
    reveal_strlit("+Infinity");
    reveal_strlit("nan");
    reveal_strlit("NaN");
    let w1 = seq!['i', 'n', 'f'];
    let w2 = seq!['i', 'n', 'f', 'i', 'n', 'i', 't', 'y'];
    let w3 = seq!['n', 'a', 'n'];
    assert(unsigned_part("inf"@) =~= w1);
    assert(unsigned_part("-INF"@) =~= seq!['I', 'N', 'F']);
    assert(spells_ignoring_case(seq!['I', 'N', 'F'], w1));
    assert(unsigned_part("+Infinity"@) =~= seq!['I', 'n', 'f', 'i', 'n', 'i', 't', 'y']);
    assert(spells_ignoring_case(seq!['I', 'n', 'f', 'i', 'n', 'i', 't', 'y'], w2));
    assert(unsigned_part("nan"@) =~= w3);
    assert(unsigned_part("NaN"@) =~= seq!['N', 'a', 'N']);
    assert(spells_ignoring_case(seq!['N', 'a', 'N'], w3));
    lemma_rejected(Seq::<char>::empty());
    lemma_rejected(seq!['+']);
    lemma_rejected(seq!['-']);
    lemma_rejected(seq!['.']);
    lemma_rejected(seq!['i', 'n']);
    lemma_rejected(seq!['e', '5']);
}

/// Short strings that are no numbers.
proof fn lemma_rejected(s: Seq<char>)
    requires
        s.len() <= 2,
        s == Seq::<char>::empty() || s == seq!['+'] || s == seq!['-'] || s == seq!['.'] || s
            == seq!['i', 'n'] || s == seq!['e', '5'],
    ensures
        !is_float_literal(s),
{
    let body = unsigned_part(s);
    assert(body.len() <= 2);
    assert(body == Seq::<char>::empty() || body == seq!['.'] || body == seq!['i', 'n'] || body
        == seq!['e', '5']) by {
        if s == seq!['+'] || s == seq!['-'] {
            assert(body =~= Seq::<char>::empty());
        }
    }
    assert(!is_decimal(body)) by {
        if body == seq!['.'] {
            assert(!is_digit(body[0]));
        }
        if body == seq!['i', 'n'] || body == seq!['e', '5'] {
            assert(!is_digit(body[0]));
            assert(forall|k: int| 0 <= k < body.len() ==> body[k] != '.');
        }
    }
    assert forall|k: int| 0 <= k < body.len() && is_decimal(body.take(k)) implies !#[trigger] is_exponent(
        body.skip(k),
    ) by {
        if k == 0 {
            assert(body.take(0) =~= Seq::<char>::empty());
        } else {
            assert(body.take(k)[0] == body[0]);
            if body == seq!['i', 'n'] || body == seq!['e', '5'] || body == seq!['.'] {
                assert(!is_digit(body[0]));
                if k == 1 {
                    assert(body.take(1) =~= seq![body[0]]);
                }
            }
        }
    }
}

/// The characters of a decimal are digits and points.
proof fn lemma_decimal_chars(t: Seq<char>, m: int)
    requires
        is_decimal(t),
        0 <= m < t.len(),
    ensures
        is_digit(t[m]) || t[m] == '.',
{
    if !(t.len() > 0 && all_digits(t)) {
        let p = choose|p: int|
            0 <= p < t.len() && #[trigger] t[p] == '.' && t.len() > 1 && all_digits(t.take(p))
                && all_digits(t.skip(p + 1));
        if m < p {
            assert(t.take(p)[m] == t[m]);
        } else if m > p {
            assert(t.skip(p + 1)[m - p - 1] == t[m]);
        }
    }
}

/// A string holding a character that no accepted string holds is not
/// accepted.
pub proof fn lemma_foreign_char(s: Seq<char>, j: int)
    requires
        0 <= j < s.len(),
        !float_char(s[j]),
    ensures
        !is_float_literal(s),
{
    let body = unsigned_part(s);
    let m = if s.len() > 0 && is_sign(s[0]) { j - 1 } else { j };
    assert(0 <= m < body.len() && body[m] == s[j]);
    let c = body[m];
    let w1 = seq!['i', 'n', 'f'];
    let w2 = seq!['i', 'n', 'f', 'i', 'n', 'i', 't', 'y'];
    let w3 = seq!['n', 'a', 'n'];
    assert(!spells_ignoring_case(body, w1)) by {
        if spells_ignoring_case(body, w1) {
            assert(c == w1[m] || (c as u32) + 32 == (w1[m] as u32));
            if m == 0 {
                assert(w1[0] == 'i');
            } else if m == 1 {
                assert(w1[1] == 'n');
            } else {
                assert(w1[2] == 'f');
            }
        }
    }
    assert(!spells_ignoring_case(body, w2)) by {
        if spells_ignoring_case(body, w2) {
            assert(c == w2[m] || (c as u32) + 32 == (w2[m] as u32));
        }
    }
    assert(!spells_ignoring_case(body, w3)) by {
        if spells_ignoring_case(body, w3) {
            assert(c == w3[m] || (c as u32) + 32 == (w3[m] as u32));
            if m == 0 {
                assert(w3[0] == 'n');
            } else if m == 1 {
                assert(w3[1] == 'a');
            } else {
                assert(w3[2] == 'n');
            }
        }
    }
    assert(!is_decimal(body)) by {
        if is_decimal(body) {
            lemma_decimal_chars(body, m);
        }
    }
    assert forall|k: int| 0 <= k < body.len() && is_decimal(body.take(k)) implies !#[trigger] is_exponent(
        body.skip(k),
    ) by {
        if is_exponent(body.skip(k)) {
            if m < k {
                lemma_decimal_chars(body.take(k), m);
                assert(body.take(k)[m] == c);
            } else {
                let x = body.skip(k);
                assert(x[m - k] == c);
                if m - k >= 2 {
                    if is_sign(x[1]) {
                        assert(x.skip(2)[m - k - 2] == c);
                    } else {
                        assert(x.skip(1)[m - k - 1] == c);
                    }
                } else if m - k == 1 && !is_sign(x[1]) {
                    assert(x.skip(1)[0] == c);
                }
            }
        }
    }
}

/// A string that starts with a letter other than `i` and `n` (in either
/// case), and not with a sign, a digit, a point or `e`, is not accepted.
pub proof fn lemma_leading_letter(s: Seq<char>)
    requires
        s.len() > 0,
        !is_sign(s[0]),
        !is_digit(s[0]),
        s[0] != '.',
        !either_case(s[0], 'i'),
        !either_case(s[0], 'n'),
    ensures
        !is_float_literal(s),
{
    let body = unsigned_part(s);
    assert(body == s);
    let w1 = seq!['i', 'n', 'f'];
    let w2 = seq!['i', 'n', 'f', 'i', 'n', 'i', 't', 'y'];
    let w3 = seq!['n', 'a', 'n'];
    assert(w1[0] == 'i' && w2[0] == 'i' && w3[0] == 'n');
    assert(!is_decimal(body)) by {
        if is_decimal(body) {
            lemma_decimal_chars(body, 0);
        }
    }
    assert forall|k: int| 0 <= k < body.len() && is_decimal(body.take(k)) implies !#[trigger] is_exponent(
        body.skip(k),
    ) by {
        if k == 0 {
            assert(body.take(0) =~= Seq::<char>::empty());
        } else {
            lemma_decimal_chars(body.take(k), 0);
            assert(body.take(k)[0] == body[0]);
        }
    }
}

/// An accepted string ends in a digit, a point, or the last letter of
/// `inf`, `infinity` or `nan`: never in a sign or an exponent's `e`.
pub proof fn lemma_last_char(s: Seq<char>)
    requires
        is_float_literal(s),
    ensures
        s.len() > 0,
        is_digit(s.last()) || s.last() == '.' || either_case(s.last(), 'f') || either_case(
            s.last(),
            'y',
        ) || either_case(s.last(), 'n'),
{
    let body = unsigned_part(s);
    let w1 = seq!['i', 'n', 'f'];
    let w2 = seq!['i', 'n', 'f', 'i', 'n', 'i', 't', 'y'];
    let w3 = seq!['n', 'a', 'n'];
    if spells_ignoring_case(body, w1) {
        assert(body[2] == w1[2] || (body[2] as u32) + 32 == (w1[2] as u32));
    } else if spells_ignoring_case(body, w2) {
        assert(body[7] == w2[7] || (body[7] as u32) + 32 == (w2[7] as u32));
    } else if spells_ignoring_case(body, w3) {
        assert(body[2] == w3[2] || (body[2] as u32) + 32 == (w3[2] as u32));
    } else if is_decimal(body) {
        lemma_decimal_chars(body, body.len() - 1);
    } else {
        let k = choose|k: int|
            0 <= k < body.len() && is_decimal(body.take(k)) && #[trigger] is_exponent(body.skip(k));
        let x = body.skip(k);
        if is_sign(x[1]) {
            assert(x.skip(2)[x.len() - 3] == x.last());
        } else {
            assert(x.skip(1)[x.len() - 2] == x.last());
        }
        assert(x.last() == body.last());
    }
    assert(body.len() > 0);
    assert(body.last() == s.last());
}

/// A decimal holds at most one point.
proof fn lemma_decimal_one_point(t: Seq<char>, p: int, q: int)
    requires
        is_decimal(t),
        0 <= p < t.len(),
        0 <= q < t.len(),
        t[p] == '.',
        t[q] == '.',
    ensures
        p == q,
{
    lemma_decimal_chars(t, p);
    if t.len() > 0 && all_digits(t) {
        assert(is_digit(t[p]));
    } else {
        let r = choose|r: int|
            0 <= r < t.len() && #[trigger] t[r] == '.' && t.len() > 1 && all_digits(t.take(r))
                && all_digits(t.skip(r + 1));
        if p < r {
            assert(t.take(r)[p] == t[p]);
        } else if p > r {
            assert(t.skip(r + 1)[p - r - 1] == t[p]);
        }
        if q < r {
            assert(t.take(r)[q] == t[q]);
        } else if q > r {
            assert(t.skip(r + 1)[q - r - 1] == t[q]);
        }
    }
}

/// No exponent holds a point.
proof fn lemma_exponent_no_point(x: Seq<char>, m: int)
    requires
        is_exponent(x),
        0 <= m < x.len(),
    ensures
        x[m] != '.',
{
    if m >= 2 {
        if is_sign(x[1]) {
            assert(x.skip(2)[m - 2] == x[m]);
        } else {
            assert(x.skip(1)[m - 1] == x[m]);
        }
    } else if m == 1 && !is_sign(x[1]) {
        assert(x.skip(1)[0] == x[m]);
    }
}

/// A string with two points is not accepted.
pub proof fn lemma_two_points(s: Seq<char>, i: int, j: int)
    requires
        0 <= i < j < s.len(),
        s[i] == '.',
        s[j] == '.',
    ensures
        !is_float_literal(s),
{
    let body = unsigned_part(s);
    let d = if s.len() > 0 && is_sign(s[0]) { 1int } else { 0int };
    let mi = i - d;
    let mj = j - d;
    assert(0 <= mi < mj < body.len() && body[mi] == '.' && body[mj] == '.');
    let w1 = seq!['i', 'n', 'f'];
    let w2 = seq!['i', 'n', 'f', 'i', 'n', 'i', 't', 'y'];
    let w3 = seq!['n', 'a', 'n'];
    assert(!spells_ignoring_case(body, w1)) by {
        if spells_ignoring_case(body, w1) {
            assert(body[mi] == w1[mi] || (body[mi] as u32) + 32 == (w1[mi] as u32));
            if mi == 0 {
                assert(w1[0] == 'i');
            } else {
                assert(w1[1] == 'n');
            }
        }
    }
    assert(!spells_ignoring_case(body, w2)) by {
        if spells_ignoring_case(body, w2) {
            assert(body[mi] == w2[mi] || (body[mi] as u32) + 32 == (w2[mi] as u32));
        }
    }
    assert(!spells_ignoring_case(body, w3)) by {
        if spells_ignoring_case(body, w3) {
            assert(body[mi] == w3[mi] || (body[mi] as u32) + 32 == (w3[mi] as u32));
            if mi == 0 {
                assert(w3[0] == 'n');
            } else {
                assert(w3[1] == 'a');
            }
        }
    }
    assert(!is_decimal(body)) by {
        if is_decimal(body) {
            lemma_decimal_one_point(body, mi, mj);
        }
    }
    assert forall|k: int| 0 <= k < body.len() && is_decimal(body.take(k)) implies !#[trigger] is_exponent(
        body.skip(k),
    ) by {
        if is_exponent(body.skip(k)) {
            if mj < k {
                assert(body.take(k)[mi] == '.' && body.take(k)[mj] == '.');
                lemma_decimal_one_point(body.take(k), mi, mj);
            } else {
                assert(body.skip(k)[mj - k] == '.');
                lemma_exponent_no_point(body.skip(k), mj - k);
            }
        }
    }
}

/// The characters of a string slice.
pub fn chars_of(s: &str) -> (res: Vec<char>)
    ensures
        res@ == s@,
{
    let n = s.unicode_len();
    let mut res: Vec<char> = Vec::new();
    let mut i: usize = 0;
    while i < n
        invariant
            n == s@.len(),
            i <= n,
            res@ == s@.take(i as int),
        decreases n - i,
    {
        res.push(s.get_char(i));
        i = i + 1;
        proof {
            assert(res@ =~= s@.take(i as int));
        }
    }
    proof {
        assert(res@ =~= s@);
    }
    res
}

fn is_digit_exec(c: char) -> (res: bool)
    ensures
        res == is_digit(c),
{
    '0' <= c && c <= '9'
}

/// Whether `c[lo..hi]` is all digits.
fn digits_between(c: &Vec<char>, lo: usize, hi: usize) -> (res: bool)
    requires
        lo <= hi <= c@.len(),
    ensures
        res == all_digits(c@.subrange(lo as int, hi as int)),
{
    let mut i = lo;
    while i < hi
        invariant
            lo <= i <= hi <= c@.len(),
            all_digits(c@.subrange(lo as int, i as int)),
        decreases hi - i,
    {
        if !is_digit_exec(c[i]) {
            assert(c@.subrange(lo as int, hi as int)[i - lo] == c@[i as int]);
            return false;
        }
        i = i + 1;
        assert forall|j: int| 0 <= j < i - lo implies is_digit(
            #[trigger] c@.subrange(lo as int, i as int)[j],
        ) by {
            if j < i - 1 - lo {
                assert(c@.subrange(lo as int, i as int)[j] == c@.subrange(lo as int, i - 1)[j]);
            }
        }
    }
    true
}

/// Whether `c[lo..hi]` is a decimal: digits with at most one point, and at
/// least one digit.
fn decimal_between(c: &Vec<char>, lo: usize, hi: usize) -> (res: bool)
    requires
        lo <= hi <= c@.len(),
    ensures
        res == is_decimal(c@.subrange(lo as int, hi as int)),
{
    let ghost s = c@.subrange(lo as int, hi as int);
    let mut i = lo;
    while i < hi
        invariant
            lo <= i <= hi <= c@.len(),
            s == c@.subrange(lo as int, hi as int),
            forall|j: int| lo <= j < i ==> c@[j] != '.',
        ensures
            lo <= i <= hi,
            forall|j: int| lo <= j < i ==> c@[j] != '.',
            i < hi ==> c@[i as int] == '.',
        decreases hi - i,
    {
        if c[i] == '.' {
            break;
        }
        i = i + 1;
    }
    if i == hi {
        // no point
        let res = lo < hi && digits_between(c, lo, hi);
        proof {
            assert forall|k: int| 0 <= k < s.len() implies #[trigger] s[k] != '.' by {
                assert(s[k] == c@[lo + k]);
            }
        }
        return res;
    }
    // a point at i
    let before = digits_between(c, lo, i);
    let after = digits_between(c, i + 1, hi);
    let res = before && after && hi - lo > 1;
    proof {
        let k = i - lo;
        assert(s[k] == '.');
        assert(s.take(k) =~= c@.subrange(lo as int, i as int));
        assert(s.skip(k + 1) =~= c@.subrange(i + 1, hi as int));
        if res {
            assert(is_decimal(s));
        } else {
            // a point is no digit, so `s` is not all digits
            assert(!is_digit(s[k]));
            assert(!all_digits(s));
            assert forall|m: int|
                0 <= m < s.len() && #[trigger] s[m] == '.' && s.len() > 1 && all_digits(s.take(m))
                    implies !all_digits(s.skip(m + 1)) by {
                if m < k {
                    assert(c@[lo + m] == '.');
                    assert(false);
                } else if m > k {
                    assert(s.take(m)[k] == '.');
                    assert(!is_digit(s.take(m)[k]));
                } else {
                    assert(!(before && after));
                }
            }
        }
    }
    res
}

/// Whether `c[lo..hi]` is an exponent.
fn exponent_between(c: &Vec<char>, lo: usize, hi: usize) -> (res: bool)
    requires
        lo <= hi <= c@.len(),
    ensures
        res == is_exponent(c@.subrange(lo as int, hi as int)),
{
    let ghost s = c@.subrange(lo as int, hi as int);
    if hi - lo < 2 || !(c[lo] == 'e' || c[lo] == 'E') {
        return false;
    }
    assert(s[0] == c@[lo as int] && s[1] == c@[lo + 1]);
    if c[lo + 1] == '+' || c[lo + 1] == '-' {
        let res = hi - lo > 2 && digits_between(c, lo + 2, hi);
        assert(s.skip(2) =~= c@.subrange(lo + 2, hi as int));
        res
    } else {
        let res = digits_between(c, lo + 1, hi);
        assert(s.skip(1) =~= c@.subrange(lo + 1, hi as int));
        res
    }
}

/// Whether `c[lo..hi]` is a number.
fn number_between(c: &Vec<char>, lo: usize, hi: usize) -> (res: bool)
    requires
        lo <= hi <= c@.len(),
    ensures
        res == is_number(c@.subrange(lo as int, hi as int)),
{
    let ghost s = c@.subrange(lo as int, hi as int);
    let mut k = lo;
    while k < hi
        invariant
            lo <= k <= hi <= c@.len(),
            s == c@.subrange(lo as int, hi as int),
            forall|j: int| lo <= j < k ==> c@[j] != 'e' && c@[j] != 'E',
        ensures
            lo <= k <= hi,
            forall|j: int| lo <= j < k ==> c@[j] != 'e' && c@[j] != 'E',
            k < hi ==> c@[k as int] == 'e' || c@[k as int] == 'E',
        decreases hi - k,
    {
        if c[k] == 'e' || c[k] == 'E' {
            break;
        }
        k = k + 1;
    }
    proof {
        assert forall|m: int| 0 <= m < k - lo implies #[trigger] s[m] != 'e' && s[m] != 'E' by {
            assert(s[m] == c@[lo + m]);
        }
        // a decimal holds no `e`, and an exponent starts with one
        assert forall|t: Seq<char>, m: int|
            0 <= m < t.len() && is_decimal(t) implies #[trigger] t[m] != 'e' && t[m] != 'E' by {
            if t.len() > 0 && all_digits(t) {
                assert(is_digit(t[m]));
            } else {
                let p = choose|p: int|
                    0 <= p < t.len() && #[trigger] t[p] == '.' && t.len() > 1 && all_digits(
                        t.take(p),
                    ) && all_digits(t.skip(p + 1));
                if m < p {
                    assert(t.take(p)[m] == t[m]);
                    assert(is_digit(t.take(p)[m]));
                } else if m > p {
                    assert(t.skip(p + 1)[m - p - 1] == t[m]);
                    assert(is_digit(t.skip(p + 1)[m - p - 1]));
                }
            }
        }
    }
    if k == hi {
        let res = decimal_between(c, lo, hi);
        proof {
            assert forall|m: int|
                0 <= m < s.len() && is_decimal(s.take(m)) implies !#[trigger] is_exponent(
                s.skip(m),
            ) by {
                assert(s.skip(m)[0] == s[m]);
            }
        }
        return res;
    }
    let res = decimal_between(c, lo, k) && exponent_between(c, k, hi);
    proof {
        let e = k - lo;
        assert(s[e] == 'e' || s[e] == 'E');
        assert(s.take(e) =~= c@.subrange(lo as int, k as int));
        assert(s.skip(e) =~= c@.subrange(k as int, hi as int));
        assert(!is_decimal(s));
        assert forall|m: int|
            0 <= m < s.len() && is_decimal(s.take(m)) && #[trigger] is_exponent(s.skip(m))
                implies m == e by {
            assert(s.skip(m)[0] == s[m]);
            if m < e {
                assert(s[m] != 'e' && s[m] != 'E');
            } else if m > e {
                assert(s.take(m)[e] == s[e]);
            }
        }
    }
    res
}

/// Whether `c[lo..hi]` spells `word` in any mix of cases.
fn spells_between(c: &Vec<char>, lo: usize, hi: usize, word: &str) -> (res: bool)
    requires
        lo <= hi <= c@.len(),
        forall|i: int| 0 <= i < word@.len() ==> 'a' <= #[trigger] word@[i] <= 'z',
    ensures
        res == spells_ignoring_case(c@.subrange(lo as int, hi as int), word@),
{
    let ghost s = c@.subrange(lo as int, hi as int);
    let n = word.unicode_len();
    if hi - lo != n {
        return false;
    }
    let mut i: usize = 0;
    while i < n
        invariant
            n == word@.len(),
            hi - lo == n,
            lo <= hi <= c@.len(),
            s == c@.subrange(lo as int, hi as int),
            forall|j: int| 0 <= j < word@.len() ==> 'a' <= #[trigger] word@[j] <= 'z',
            i <= n,
            forall|j: int|
                0 <= j < i ==> s[j] == word@[j] || (s[j] as u32) + 32 == #[trigger] (word@[j] as u32),
        decreases n - i,
    {
        let w = word.get_char(i);
        let x = c[lo + i];
        assert(s[i as int] == x);
        assert('a' <= word@[i as int] <= 'z');
        let same = x == w || (x as u32) == (w as u32) - 32;
        if !same {
            assert('a' <= word@[i as int] <= 'z');
            return false;
        }
        i = i + 1;
    }
    true
}

/// Whether `str::parse::<f64>` accepts `s`: a sign, then `inf`, `infinity`,
/// `nan` or a number.
pub fn is_float_literal_exec(s: &str) -> (res: bool)
    ensures
        res == is_float_literal(s@),
{
    let c = chars_of(s);
    let n = c.len();
    let start: usize = if n > 0 && (c[0] == '+' || c[0] == '-') {
        1
    } else {
        0
    };
    proof {
        assert(unsigned_part(s@) =~= c@.subrange(start as int, n as int));
        reveal_strlit("inf");
        reveal_strlit("infinity");
        reveal_strlit("nan");
        assert("inf"@ =~= seq!['i', 'n', 'f']);
        assert("infinity"@ =~= seq!['i', 'n', 'f', 'i', 'n', 'i', 't', 'y']);
        assert("nan"@ =~= seq!['n', 'a', 'n']);
    }
    spells_between(&c, start, n, "inf") || spells_between(&c, start, n, "infinity")
        || spells_between(&c, start, n, "nan") || number_between(&c, start, n)
}

} // verus!
