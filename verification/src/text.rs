//! Small facts about string slices that the rest of the library relies on.

use vstd::prelude::*;

verus! {

/// Compares two string slices by content, character by character.
pub fn same_text(a: &str, b: &str) -> (res: bool)
    ensures
        res == (a@ == b@),
{
    let n = a.unicode_len();
    if n != b.unicode_len() {
        return false;
    }
    let mut i: usize = 0;
    while i < n
        invariant
            n == a@.len(),
            n == b@.len(),
            i <= n,
            forall|j: int| 0 <= j < i ==> a@[j] == b@[j],
        decreases n - i,
    {
        if a.get_char(i) != b.get_char(i) {
            return false;
        }
        i = i + 1;
    }
    assert(a@ =~= b@);
    true
}

/// The characters with the Unicode property `White_Space`.
pub open spec fn is_white_space(c: char) -> bool {
    let v = c as u32;
    ||| 0x09 <= v <= 0x0d
    ||| v == 0x20
    ||| v == 0x85
    ||| v == 0xa0
    ||| v == 0x1680
    ||| 0x2000 <= v <= 0x200a
    ||| v == 0x2028
    ||| v == 0x2029
    ||| v == 0x202f
    ||| v == 0x205f
    ||| v == 0x3000
}

/// `s` without its leading white space.
pub open spec fn trim_start(s: Seq<char>) -> Seq<char>
    decreases s.len(),
{
    if s.len() > 0 && is_white_space(s[0]) {
        trim_start(s.drop_first())
    } else {
        s
    }
}

/// `s` without its trailing white space.
pub open spec fn trim_end(s: Seq<char>) -> Seq<char>
    decreases s.len(),
{
    if s.len() > 0 && is_white_space(s.last()) {
        trim_end(s.drop_last())
    } else {
        s
    }
}

/// `s` without leading and trailing white space.
pub open spec fn trimmed(s: Seq<char>) -> Seq<char> {
    trim_end(trim_start(s))
}

/// Removes leading and trailing white space, as `str::trim` does.
pub fn trim<'a>(s: &'a str) -> (res: &'a str)
    ensures
        res@ == trimmed(s@),
{
    let n = s.unicode_len();
    let mut start: usize = 0;
    while start < n && is_white_space_exec(s.get_char(start))
        invariant
            n == s@.len(),
            start <= n,
            forall|j: int| 0 <= j < start ==> is_white_space(#[trigger] s@[j]),
        decreases n - start,
    {
        start = start + 1;
    }
    proof {
        lemma_leading_space_count(s@, start as int);
        lemma_trim_start_skips(s@);
    }
    let mut end: usize = n;
    while end > start && is_white_space_exec(s.get_char(end - 1))
        invariant
            n == s@.len(),
            start <= end <= n,
            forall|j: int| end <= j < n ==> is_white_space(#[trigger] s@[j]),
        decreases end,
    {
        end = end - 1;
    }
    proof {
        lemma_trailing_space(s@.skip(start as int), (end - start) as int);
        assert(s@.skip(start as int).take((end - start) as int) =~= s@.subrange(
            start as int,
            end as int,
        ));
    }
    s.substring_char(start, end)
}

/// Cutting white space off the end of `t` down to `m` characters, where the
/// character before them is not white space, is what `trim_end` does.
proof fn lemma_trailing_space(t: Seq<char>, m: int)
    requires
        0 <= m <= t.len(),
        forall|j: int| m <= j < t.len() ==> is_white_space(#[trigger] t[j]),
        m > 0 ==> !is_white_space(t[m - 1]),
    ensures
        trim_end(t) == t.take(m),
    decreases t.len(),
{
    if t.len() > m {
        assert(is_white_space(t[t.len() - 1]));
        assert forall|j: int| m <= j < t.drop_last().len() implies is_white_space(
            #[trigger] t.drop_last()[j],
        ) by {
            assert(t.drop_last()[j] == t[j]);
        }
        if m > 0 {
            assert(t.drop_last()[m - 1] == t[m - 1]);
        }
        lemma_trailing_space(t.drop_last(), m);
        assert(t.drop_last().take(m) =~= t.take(m));
    } else {
        assert(t.take(m) =~= t);
    }
}

/// `trim_end` keeps a prefix without trailing white space and cuts off only
/// white space.
proof fn lemma_trim_end_cuts(t: Seq<char>)
    ensures
        trim_end(t).len() <= t.len(),
        trim_end(t) == t.take(trim_end(t).len() as int),
        forall|k: int| trim_end(t).len() <= k < t.len() ==> is_white_space(#[trigger] t[k]),
        trim_end(t).len() > 0 ==> !is_white_space(trim_end(t).last()),
    decreases t.len(),
{
    lemma_trim_end_prefix(t);
    if t.len() > 0 && is_white_space(t.last()) {
        lemma_trim_end_cuts(t.drop_last());
        assert forall|k: int| trim_end(t).len() <= k < t.len() implies is_white_space(
            #[trigger] t[k],
        ) by {
            if k < t.len() - 1 {
                assert(t.drop_last()[k] == t[k]);
            }
        }
    }
}

/// Trimming keeps the part of the text between its leading and its trailing
/// white space: everything before and after that part is white space, and
/// the part neither starts nor ends with white space.
pub proof fn lemma_trimmed(s: Seq<char>)
    ensures
        exists|i: int, j: int|
            0 <= i <= j <= s.len() && #[trigger] s.subrange(i, j) == trimmed(s) && (forall|k: int|
                0 <= k < i ==> is_white_space(#[trigger] s[k])) && (forall|k: int|
                j <= k < s.len() ==> is_white_space(#[trigger] s[k])),
        trimmed(s).len() > 0 ==> !is_white_space(trimmed(s)[0]) && !is_white_space(
            trimmed(s).last(),
        ),
{
    lemma_trim_start_skips(s);
    let i = leading_space(s) as int;
    let t = s.skip(i);
    lemma_trim_end_cuts(t);
    let j = i + trim_end(t).len();
    assert(s.subrange(i, j) =~= trimmed(s));
    assert forall|k: int| j <= k < s.len() implies is_white_space(#[trigger] s[k]) by {
        assert(t[k - i] == s[k]);
    }
    if trimmed(s).len() > 0 {
        assert(trimmed(s)[0] == s[i]);
    }
}

/// The bytes of the leading white space and those of the rest of the text
/// make up the text's bytes.
pub proof fn lemma_leading_space_bytes(s: Seq<char>)
    ensures
        leading_space_bytes(s) + bytes_of(trim_start(s)).len() == bytes_of(s).len(),
{
    lemma_trim_start_skips(s);
    let k = leading_space(s) as int;
    assert(s =~= s.take(k) + s.skip(k));
    lemma_bytes_of_concat(s.take(k), s.skip(k));
}

/// The white-space characters among the ASCII characters are the tab, the
/// line feed, the vertical tab, the form feed, the carriage return and the
/// space; beyond ASCII they are the next line, the no-break space, the
/// Ogham space mark, the spaces from U+2000 to U+200A, the line and
/// paragraph separators, the narrow no-break space, the medium mathematical
/// space and the ideographic space (the zero-width space is none).
pub proof fn lemma_ascii_white_space(c: char)
    ensures
        (c as u32) < 0x80 ==> (is_white_space(c) <==> ((c as u32) == 0x09 || (c as u32) == 0x0a
            || (c as u32) == 0x0b || (c as u32) == 0x0c || (c as u32) == 0x0d || (c as u32)
            == 0x20)),
        (c as u32) >= 0x80 ==> (is_white_space(c) <==> ((c as u32) == 0x85 || (c as u32) == 0xa0
            || (c as u32) == 0x1680 || (0x2000 <= (c as u32) && (c as u32) <= 0x200a) || (c as u32)
            == 0x2028 || (c as u32) == 0x2029 || (c as u32) == 0x202f || (c as u32) == 0x205f || (
        c as u32) == 0x3000)),
{
}

/// The UTF-8 bytes of a text.
pub open spec fn bytes_of(s: Seq<char>) -> Seq<u8> {
    vstd::utf8::encode_utf8(s)
}

/// The number of white-space characters `s` starts with.
pub open spec fn leading_space(s: Seq<char>) -> nat
    decreases s.len(),
{
    if s.len() > 0 && is_white_space(s[0]) {
        1 + leading_space(s.drop_first())
    } else {
        0
    }
}

/// The number of bytes of the white space `s` starts with.
pub open spec fn leading_space_bytes(s: Seq<char>) -> nat {
    bytes_of(s.take(leading_space(s) as int)).len()
}

/// The bytes of two texts one after the other are the bytes of each.
pub proof fn lemma_bytes_of_concat(a: Seq<char>, b: Seq<char>)
    ensures
        bytes_of(a + b) == bytes_of(a) + bytes_of(b),
    decreases a.len(),
{
    if a.len() > 0 {
        assert((a + b).drop_first() =~= a.drop_first() + b);
        lemma_bytes_of_concat(a.drop_first(), b);
        assert(bytes_of(a + b) =~= bytes_of(a) + bytes_of(b));
    } else {
        assert(a + b =~= b);
    }
}

/// Leading white space is what `trim_start` removes.
proof fn lemma_trim_start_skips(s: Seq<char>)
    ensures
        leading_space(s) <= s.len(),
        trim_start(s) == s.skip(leading_space(s) as int),
        forall|j: int| 0 <= j < leading_space(s) ==> is_white_space(#[trigger] s[j]),
        leading_space(s) < s.len() ==> !is_white_space(s[leading_space(s) as int]),
    decreases s.len(),
{
    if s.len() > 0 && is_white_space(s[0]) {
        lemma_trim_start_skips(s.drop_first());
        assert(s.drop_first().skip(leading_space(s.drop_first()) as int) =~= s.skip(
            leading_space(s) as int,
        ));
        assert forall|j: int| 0 <= j < leading_space(s) implies is_white_space(#[trigger] s[j]) by {
            if j > 0 {
                assert(s[j] == s.drop_first()[j - 1]);
            }
        }
    } else {
        assert(s.skip(0) =~= s);
    }
}

/// `trim_end` keeps a prefix.
proof fn lemma_trim_end_prefix(t: Seq<char>)
    ensures
        trim_end(t).len() <= t.len(),
        trim_end(t) == t.take(trim_end(t).len() as int),
    decreases t.len(),
{
    if t.len() > 0 && is_white_space(t.last()) {
        lemma_trim_end_prefix(t.drop_last());
        assert(t.drop_last().take(trim_end(t).len() as int) =~= t.take(trim_end(t).len() as int));
    } else {
        assert(t.take(t.len() as int) =~= t);
    }
}

/// The trimmed text stands in the text's bytes right after the leading
/// white space.
pub proof fn lemma_trimmed_in_source(s: Seq<char>)
    ensures
        leading_space_bytes(s) + bytes_of(trimmed(s)).len() <= bytes_of(s).len(),
        bytes_of(s).subrange(
            leading_space_bytes(s) as int,
            (leading_space_bytes(s) + bytes_of(trimmed(s)).len()) as int,
        ) == bytes_of(trimmed(s)),
{
    let k = leading_space(s) as int;
    lemma_trim_start_skips(s);
    let t = s.skip(k);
    lemma_trim_end_prefix(t);
    let m = trim_end(t).len() as int;
    assert(s =~= s.take(k) + t);
    assert(t =~= t.take(m) + t.skip(m));
    lemma_bytes_of_concat(s.take(k), t);
    lemma_bytes_of_concat(t.take(m), t.skip(m));
    let b1 = bytes_of(s.take(k));
    let b2 = bytes_of(trimmed(s));
    assert(bytes_of(s) == b1 + (b2 + bytes_of(t.skip(m))));
    assert(bytes_of(s).subrange(b1.len() as int, (b1.len() + b2.len()) as int) =~= b2);
}

/// The number of bytes of a string slice.
///
/// Calls `str::len`. Trusted: std documents it as the length in bytes, and a
/// string slice, like any slice, spans at most `isize::MAX` bytes.
#[verifier::external_body]
pub fn byte_length(s: &str) -> (res: usize)
    ensures
        res == bytes_of(s@).len(),
        res <= isize::MAX,
{
    s.len()
}

/// The number of bytes of the UTF-8 encoding of a white-space character.
fn white_space_width(c: char) -> (res: usize)
    requires
        is_white_space(c),
    ensures
        res == vstd::utf8::encode_scalar(c as u32).len(),
{
    if (c as u32) < 0x80 {
        1
    } else if (c as u32) < 0x800 {
        2
    } else {
        3
    }
}

/// The number of bytes of the white space `s` starts with.
pub fn leading_space_bytes_exec(s: &str) -> (res: usize)
    ensures
        res == leading_space_bytes(s@),
{
    let n = s.unicode_len();
    let total = byte_length(s);
    let mut i: usize = 0;
    let mut count: usize = 0;
    proof {
        lemma_trim_start_skips(s@);
        assert(s@.take(0) =~= Seq::<char>::empty());
    }
    while i < n && is_white_space_exec(s.get_char(i))
        invariant
            n == s@.len(),
            total == bytes_of(s@).len(),
            total <= isize::MAX,
            i <= n,
            forall|j: int| 0 <= j < i ==> is_white_space(#[trigger] s@[j]),
            count == bytes_of(s@.take(i as int)).len(),
        decreases n - i,
    {
        let c = s.get_char(i);
        let w = white_space_width(c);
        proof {
            assert(s@.take(i + 1) =~= s@.take(i as int) + seq![c]);
            lemma_bytes_of_concat(s@.take(i as int), seq![c]);
            assert(seq![c].drop_first() =~= Seq::<char>::empty());
            assert(bytes_of(Seq::<char>::empty()) =~= Seq::<u8>::empty());
            assert(bytes_of(seq![c]) =~= vstd::utf8::encode_scalar(c as u32));
            assert(s@ =~= s@.take(i + 1) + s@.skip(i + 1));
            lemma_bytes_of_concat(s@.take(i + 1), s@.skip(i + 1));
        }
        count = count + w;
        i = i + 1;
    }
    proof {
        lemma_leading_space_count(s@, i as int);
    }
    count
}

/// A run of white space that ends the text or a non-space character is all
/// the leading white space.
proof fn lemma_leading_space_count(s: Seq<char>, i: int)
    requires
        0 <= i <= s.len(),
        forall|j: int| 0 <= j < i ==> is_white_space(#[trigger] s[j]),
        i < s.len() ==> !is_white_space(s[i]),
    ensures
        leading_space(s) == i,
    decreases i,
{
    if i > 0 {
        assert forall|j: int| 0 <= j < i - 1 implies is_white_space(#[trigger] s.drop_first()[j]) by {
            assert(s.drop_first()[j] == s[j + 1]);
        }
        if i - 1 < s.drop_first().len() {
            assert(s.drop_first()[i - 1] == s[i]);
        }
        lemma_leading_space_count(s.drop_first(), i - 1);
    }
}

/// Whether a character has the Unicode property `White_Space`.
pub fn is_white_space_exec(c: char) -> (res: bool)
    ensures
        res == is_white_space(c),
{
    let v = c as u32;
    (0x09 <= v && v <= 0x0d) || v == 0x20 || v == 0x85 || v == 0xa0 || v == 0x1680 || (0x2000 <= v
        && v <= 0x200a) || v == 0x2028 || v == 0x2029 || v == 0x202f || v == 0x205f || v == 0x3000
}

} // verus!
