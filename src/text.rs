//! Character-level helpers over string views.
use vstd::prelude::*;
use vstd::string::*;

verus! {

/// Whether `c` is an ASCII decimal digit.
pub open spec fn is_digit(c: char) -> bool {
    '0' <= c && c <= '9'
}

pub open spec fn digit_value(c: char) -> int {
    (c as int) - ('0' as int)
}

pub open spec fn all_digits(s: Seq<char>) -> bool {
    forall|i: int| 0 <= i < s.len() ==> is_digit(#[trigger] s[i])
}

/// The number written by the decimal digits `s` (most significant first).
pub open spec fn digits_value(s: Seq<char>) -> int
    decreases s.len(),
{
    if s.len() == 0 {
        0
    } else {
        digits_value(s.drop_last()) * 10 + digit_value(s.last())
    }
}

/// What `u8`'s `FromStr` reads from `s`: an optional `+`, then one or more
/// decimal digits whose value fits in a byte.
pub open spec fn u8_of(s: Seq<char>) -> Option<u8> {
    let d = if s.len() > 0 && s[0] == '+' { s.drop_first() } else { s };
    if d.len() > 0 && all_digits(d) && digits_value(d) <= 255 {
        Some(digits_value(d) as u8)
    } else {
        None
    }
}

/// Index of the first `a` or `b` in `s` at or after `i`, or `s.len()` if none.
pub open spec fn first_char_from(s: Seq<char>, a: char, b: char, i: int) -> int
    decreases s.len() - i,
{
    if i < 0 || i >= s.len() {
        s.len() as int
    } else if s[i] == a || s[i] == b {
        i
    } else {
        first_char_from(s, a, b, i + 1)
    }
}

/// Index of the first `a` or `b` in `s`, or `s.len()` if neither occurs.
pub open spec fn first_char(s: Seq<char>, a: char, b: char) -> int {
    first_char_from(s, a, b, 0)
}

pub open spec fn occurs_at(s: Seq<char>, pat: Seq<char>, i: int) -> bool {
    0 <= i && i + pat.len() <= s.len() && s.subrange(i, i + pat.len()) == pat
}

/// Index of the first occurrence of `pat` in `s` at or after `i`.
pub open spec fn find_from(s: Seq<char>, pat: Seq<char>, i: int) -> Option<int>
    decreases s.len() + 1 - i,
{
    if i < 0 || i + pat.len() > s.len() {
        None
    } else if occurs_at(s, pat, i) {
        Some(i)
    } else {
        find_from(s, pat, i + 1)
    }
}

/// Index of the first occurrence of `pat` in `s`.
pub open spec fn find(s: Seq<char>, pat: Seq<char>) -> Option<int> {
    find_from(s, pat, 0)
}

/// `first_char_from` stops at the first `a` or `b` at or after `i`.
pub proof fn lemma_first_char_at(s: Seq<char>, a: char, b: char, i: int, k: int)
    requires
        0 <= i <= k <= s.len(),
        forall|j: int| i <= j < k ==> s[j] != a && s[j] != b,
        k < s.len() ==> (s[k] == a || s[k] == b),
    ensures
        first_char_from(s, a, b, i) == k,
    decreases k - i,
{
    if i < k {
        lemma_first_char_at(s, a, b, i + 1, k);
    }
}

/// `find_from` stops at the first occurrence at or after `i`.
pub proof fn lemma_find_at(s: Seq<char>, pat: Seq<char>, i: int, k: int)
    requires
        0 <= i <= k,
        forall|j: int| i <= j < k ==> !occurs_at(s, pat, j),
        occurs_at(s, pat, k),
    ensures
        find_from(s, pat, i) == Some(k),
    decreases k - i,
{
    if i < k {
        lemma_find_at(s, pat, i + 1, k);
    }
}

/// A pattern whose first character does not occur is not found.
pub proof fn lemma_find_none(s: Seq<char>, pat: Seq<char>, i: int)
    requires
        0 <= i,
        pat.len() > 0,
        forall|j: int| 0 <= j < s.len() ==> s[j] != pat[0],
    ensures
        find_from(s, pat, i) is None,
    decreases s.len() + 1 - i,
{
    if i + pat.len() <= s.len() {
        assert(s.subrange(i, i + pat.len())[0] == s[i]);
        lemma_find_none(s, pat, i + 1);
    }
}

proof fn lemma_digits_step(s: Seq<char>, i: int)
    requires
        0 <= i < s.len(),
    ensures
        digits_value(s.take(i + 1)) == digits_value(s.take(i)) * 10 + digit_value(s[i]),
{
    assert(s.take(i + 1).drop_last() =~= s.take(i));
}

/// Reads a byte written in decimal, as `u8`'s `FromStr` does.
pub fn parse_u8(s: &str) -> (r: Option<u8>)
    ensures
        r == u8_of(s@),
{
    let n = s.unicode_len();
    let mut i: usize = 0;
    if n > 0 && s.get_char(0) == '+' {
        i = 1;
    }
    let start = i;
    let ghost d = if s@.len() > 0 && s@[0] == '+' { s@.drop_first() } else { s@ };
    assert(d =~= s@.skip(start as int));
    if i >= n {
        return None;
    }
    let mut acc: u32 = 0;
    while i < n
        invariant
            start <= i <= n,
            n == s@.len(),
            d =~= s@.skip(start as int),
            d == (if s@.len() > 0 && s@[0] == '+' { s@.drop_first() } else { s@ }),
            all_digits(d.take(i - start)),
            acc as int == if digits_value(d.take(i - start)) < 256 {
                digits_value(d.take(i - start))
            } else {
                256
            },
        decreases n - i,
    {
        let c = s.get_char(i);
        if c < '0' || c > '9' {
            proof {
                assert(d[i - start] == s@[i as int]);
                assert(!is_digit(d[i - start]));
                assert(!all_digits(d));
                assert(u8_of(s@) is None);
            }
            return None;
        }
        let dv: u32 = (c as u32) - ('0' as u32);
        proof {
            lemma_digits_step(d, i - start);
            assert(d[i - start] == s@[i as int]);
            assert(d[i - start] == c);
            assert(d.take(i - start + 1) =~= d.take(i - start).push(c));
            assert(digits_value(d.take(i - start)) >= 0) by {
                lemma_digits_nonneg(d.take(i - start));
            }
        }
        if acc * 10 + dv < 256 {
            acc = acc * 10 + dv;
        } else {
            acc = 256;
        }
        i = i + 1;
    }
    assert(d.take(n - start) =~= d);
    if acc < 256 {
        Some(acc as u8)
    } else {
        None
    }
}

proof fn lemma_digits_nonneg(s: Seq<char>)
    requires
        all_digits(s),
    ensures
        digits_value(s) >= 0,
    decreases s.len(),
{
    if s.len() > 0 {
        assert(all_digits(s.drop_last())) by {
            assert forall|i: int| 0 <= i < s.drop_last().len() implies is_digit(
                #[trigger] s.drop_last()[i],
            ) by {
                assert(s.drop_last()[i] == s[i]);
            }
        }
        lemma_digits_nonneg(s.drop_last());
        assert(is_digit(s[s.len() - 1]));
    }
}

/// Whether two strings hold the same characters.
pub fn str_eq(a: &str, b: &str) -> (r: bool)
    ensures
        r == (a@ == b@),
{
    let n = a.unicode_len();
    if n != b.unicode_len() {
        return false;
    }
    let mut i: usize = 0;
    while i < n
        invariant
            n == a@.len() == b@.len(),
            i <= n,
            a@.take(i as int) == b@.take(i as int),
        decreases n - i,
    {
        if a.get_char(i) != b.get_char(i) {
            return false;
        }
        assert(a@.take(i + 1) =~= a@.take(i as int).push(a@[i as int]));
        assert(b@.take(i + 1) =~= b@.take(i as int).push(b@[i as int]));
        i = i + 1;
    }
    assert(a@ =~= a@.take(n as int));
    assert(b@ =~= b@.take(n as int));
    true
}

/// Index of the first `a` or `b` in `s`, or its length if neither occurs.
pub fn find_char(s: &str, a: char, b: char) -> (r: usize)
    ensures
        r as int == first_char(s@, a, b),
        r <= s@.len(),
{
    let n = s.unicode_len();
    let mut i: usize = 0;
    while i < n
        invariant
            n == s@.len(),
            i <= n,
            first_char(s@, a, b) == first_char_from(s@, a, b, i as int),
        decreases n - i,
    {
        let c = s.get_char(i);
        if c == a || c == b {
            return i;
        }
        i = i + 1;
    }
    i
}

/// Index of the first occurrence of `pat` in `s`.
pub fn find_str(s: &str, pat: &str) -> (r: Option<usize>)
    ensures
        r matches Some(i) ==> i + pat@.len() <= s@.len(),
        r matches Some(i) ==> find(s@, pat@) == Some(i as int),
        r is None ==> find(s@, pat@) is None,
{
    let n = s.unicode_len();
    let m = pat.unicode_len();
    if m > n {
        return None;
    }
    let mut i: usize = 0;
    while i <= n - m
        invariant
            n == s@.len(),
            m == pat@.len(),
            m <= n,
            i <= n - m + 1,
            find(s@, pat@) == find_from(s@, pat@, i as int),
        decreases n + 1 - i,
    {
        let mut j: usize = 0;
        let mut same = true;
        assert(s@.subrange(i as int, i as int) =~= pat@.take(0));
        while j < m
            invariant
                i + m <= n,
                n == s@.len(),
                m == pat@.len(),
                j <= m,
                same == (s@.subrange(i as int, i + j) == pat@.take(j as int)),
            decreases m - j,
        {
            if same {
                let c = s.get_char(i + j);
                let p = pat.get_char(j);
                if c != p {
                    same = false;
                    assert(s@.subrange(i as int, i + j + 1)[j as int] != pat@.take(j + 1)[j as int]);
                } else {
                    assert(s@.subrange(i as int, i + j + 1) =~= s@.subrange(i as int, i + j).push(c));
                    assert(pat@.take(j + 1) =~= pat@.take(j as int).push(p));
                }
            } else {
                assert(s@.subrange(i as int, i + j + 1).take(j as int) =~= s@.subrange(i as int, i + j));
                assert(pat@.take(j + 1).take(j as int) =~= pat@.take(j as int));
            }
            j = j + 1;
        }
        assert(pat@.take(m as int) =~= pat@);
        if same {
            return Some(i);
        }
        i = i + 1;
    }
    None
}

/// The first two pieces of `s` split on `sep`: what stands before the first
/// occurrence, and what follows it up to the next occurrence or the end.
/// `None` when `sep` does not occur.
pub open spec fn split_two(s: Seq<char>, sep: Seq<char>) -> Option<(Seq<char>, Seq<char>)> {
    match find(s, sep) {
        None => None,
        Some(i) => {
            let after = s.skip(i + sep.len());
            let second = match find(after, sep) {
                Some(j) => after.take(j),
                None => after,
            };
            Some((s.take(i), second))
        },
    }
}

/// Splits `s` on `sep` and keeps the first two pieces.
pub fn split_pair<'a>(s: &'a str, sep: &str) -> (r: Option<(&'a str, &'a str)>)
    ensures
        r matches Some(p) ==> split_two(s@, sep@) == Some((p.0@, p.1@)),
        r is None ==> split_two(s@, sep@) is None,
{
    let n = s.unicode_len();
    let i = match find_str(s, sep) {
        Some(i) => i,
        None => return None,
    };
    let first = s.substring_char(0, i);
    let after = s.substring_char(i + sep.unicode_len(), n);
    assert(after@ =~= s@.skip(i + sep@.len()));
    let an = after.unicode_len();
    let second = match find_str(after, sep) {
        Some(j) => after.substring_char(0, j),
        None => after,
    };
    assert(after@.take(an as int) =~= after@);
    Some((first, second))
}

/// Relies on `FromIterator<char>` for `String`: the characters, in order.
#[verifier::external_body]
pub(crate) fn string_of_chars(cs: &Vec<char>) -> (r: String)
    ensures
        r@ == cs@,
{
    cs.iter().collect()
}

} // verus!
