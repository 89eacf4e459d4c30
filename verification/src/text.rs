//! Character-level helpers shared by the string algorithms of the crate.

use vstd::prelude::*;
use vstd::string::*;

verus! {

/// The characters `str::trim` strips: the Unicode white-space set.
pub open spec fn is_space_char(c: char) -> bool {
    ||| c == ' '
    ||| c == '\t'
    ||| c == '\n'
    ||| c == '\u{000B}'
    ||| c == '\u{000C}'
    ||| c == '\r'
    ||| c == '\u{0085}'
    ||| c == '\u{00A0}'
    ||| c == '\u{1680}'
    ||| ('\u{2000}' as u32 <= c as u32 && c as u32 <= '\u{200A}' as u32)
    ||| c == '\u{2028}'
    ||| c == '\u{2029}'
    ||| c == '\u{202F}'
    ||| c == '\u{205F}'
    ||| c == '\u{3000}'
}

/// A decimal digit.
pub open spec fn is_digit_char(c: char) -> bool {
    '0' as u32 <= c as u32 && c as u32 <= '9' as u32
}

/// An identifier-like character: a letter, a digit or an underscore.
pub open spec fn is_word_char(c: char) -> bool {
    ||| is_digit_char(c)
    ||| ('A' as u32 <= c as u32 && c as u32 <= 'Z' as u32)
    ||| ('a' as u32 <= c as u32 && c as u32 <= 'z' as u32)
    ||| c == '_'
}

/// Runtime test for `is_space_char`.
pub fn is_space(c: char) -> (r: bool)
    ensures
        r == is_space_char(c),
{
    c == ' ' || c == '\t' || c == '\n' || c == '\u{000B}' || c == '\u{000C}' || c == '\r'
        || c == '\u{0085}' || c == '\u{00A0}' || c == '\u{1680}' || (c as u32 >= 0x2000 && c
        as u32 <= 0x200A) || c == '\u{2028}' || c == '\u{2029}' || c == '\u{202F}' || c
        == '\u{205F}' || c == '\u{3000}'
}

/// Runtime test for `is_digit_char`.
pub fn is_digit(c: char) -> (r: bool)
    ensures
        r == is_digit_char(c),
{
    c as u32 >= 0x30 && c as u32 <= 0x39
}

/// Runtime test for `is_word_char`.
pub fn is_word(c: char) -> (r: bool)
    ensures
        r == is_word_char(c),
{
    let u = c as u32;
    (u >= 0x30 && u <= 0x39) || (u >= 0x41 && u <= 0x5A) || (u >= 0x61 && u <= 0x7A) || c == '_'
}

/// The first index at or after `i` holding the character `c`, or -1.
pub open spec fn first_char_from(s: Seq<char>, c: char, i: int) -> int
    decreases s.len() - i,
{
    if i < 0 || i >= s.len() {
        -1
    } else if s[i] == c {
        i
    } else {
        first_char_from(s, c, i + 1)
    }
}

/// A scan that saw no `c` on `[from, n)` and stopped at `n` (the end, or an
/// occurrence of `c`) has found `first_char_from`.
pub proof fn lemma_first_char_from_is(s: Seq<char>, c: char, from: int, n: int)
    requires
        0 <= from <= n <= s.len(),
        forall|j: int| from <= j < n ==> s[j] != c,
        n == s.len() || s[n] == c,
    ensures
        first_char_from(s, c, from) == (if n == s.len() {
            -1
        } else {
            n
        }),
    decreases n - from,
{
    if from < n {
        lemma_first_char_from_is(s, c, from + 1, n);
    }
}

/// The first index at or after `i` holding a non-identifier character, or -1.
pub open spec fn first_nonword_from(s: Seq<char>, i: int) -> int
    decreases s.len() - i,
{
    if i < 0 || i >= s.len() {
        -1
    } else if !is_word_char(s[i]) {
        i
    } else {
        first_nonword_from(s, i + 1)
    }
}

/// A scan that saw only identifier characters on `[from, n)` and stopped at
/// `n` (the end, or a non-identifier character) has found
/// `first_nonword_from`.
pub proof fn lemma_first_nonword_from_is(s: Seq<char>, from: int, n: int)
    requires
        0 <= from <= n <= s.len(),
        forall|j: int| from <= j < n ==> is_word_char(s[j]),
        n == s.len() || !is_word_char(s[n]),
    ensures
        first_nonword_from(s, from) == (if n == s.len() {
            -1
        } else {
            n
        }),
    decreases n - from,
{
    if from < n {
        lemma_first_nonword_from_is(s, from + 1, n);
    }
}

/// The last index holding the character `c`, or -1.
pub open spec fn last_char(s: Seq<char>, c: char) -> int
    decreases s.len(),
{
    if s.len() == 0 {
        -1
    } else if s.last() == c {
        s.len() - 1
    } else {
        last_char(s.drop_last(), c)
    }
}

/// A scan that saw no `c` after `n`, and `c` at `n` unless `n` is -1, has
/// found `last_char`.
pub proof fn lemma_last_char_is(s: Seq<char>, c: char, n: int)
    requires
        -1 <= n < s.len(),
        forall|j: int| n < j < s.len() ==> s[j] != c,
        n == -1 || s[n] == c,
    ensures
        last_char(s, c) == n,
    decreases s.len(),
{
    if s.len() > 0 {
        if s.last() == c {
            assert(n == s.len() - 1);
        } else {
            assert(n < s.len() - 1);
            lemma_last_char_is(s.drop_last(), c, n);
        }
    }
}

/// What is left of a string after the surrounding white space goes.
pub open spec fn trim_spec(s: Seq<char>) -> Seq<char>
    decreases s.len(),
{
    if s.len() == 0 {
        s
    } else if is_space_char(s[0]) {
        trim_spec(s.drop_first())
    } else if is_space_char(s.last()) {
        trim_spec(s.drop_last())
    } else {
        s
    }
}

/// Trimming keeps exactly the subrange between the leading and the trailing
/// run of white space.
pub proof fn lemma_trim_subrange(s: Seq<char>, a: int, b: int)
    requires
        0 <= a <= b <= s.len(),
        forall|j: int| 0 <= j < a ==> is_space_char(s[j]),
        forall|j: int| b <= j < s.len() ==> is_space_char(s[j]),
        a == b || (!is_space_char(s[a]) && !is_space_char(s[b - 1])),
    ensures
        trim_spec(s) == s.subrange(a, b),
    decreases s.len(),
{
    if s.len() == 0 {
        assert(s.subrange(a, b) =~= s);
    } else if is_space_char(s[0]) {
        if a == 0 {
            assert(a == b);
            lemma_trim_subrange(s.drop_first(), 0, 0);
            assert(s.subrange(0, 0) =~= s.drop_first().subrange(0, 0));
        } else {
            lemma_trim_subrange(s.drop_first(), a - 1, b - 1);
            assert(s.subrange(a, b) =~= s.drop_first().subrange(a - 1, b - 1));
        }
    } else if is_space_char(s.last()) {
        if b == s.len() {
            assert(a == b);
            assert(is_space_char(s[b - 1]));
            assert(false);
        } else {
            lemma_trim_subrange(s.drop_last(), a, b);
            assert(s.subrange(a, b) =~= s.drop_last().subrange(a, b));
        }
    } else {
        assert(a == 0);
        assert(b == s.len());
        assert(s.subrange(a, b) =~= s);
    }
}

/// Returns the string without its leading and trailing white space.
pub fn trim_str(s: &str) -> (r: String)
    ensures
        r@ == trim_spec(s@),
{
    let len = s.unicode_len();
    let mut a: usize = 0;
    while a < len && is_space(s.get_char(a))
        invariant
            len == s@.len(),
            a <= len,
            forall|j: int| 0 <= j < a ==> is_space_char(s@[j]),
        decreases len - a,
    {
        a += 1;
    }
    let mut b: usize = len;
    while b > a && is_space(s.get_char(b - 1))
        invariant
            len == s@.len(),
            a <= b <= len,
            forall|j: int| b <= j < len ==> is_space_char(s@[j]),
        decreases b,
    {
        b -= 1;
    }
    proof {
        lemma_trim_subrange(s@, a as int, b as int);
    }
    String::from_str(s.substring_char(a, b))
}

/// True when `pat` occurs in `s` starting at character index `i`.
pub fn matches_at(s: &str, i: usize, pat: &str) -> (r: bool)
    requires
        i <= s@.len(),
    ensures
        r == (i + pat@.len() <= s@.len() && s@.subrange(i as int, i + pat@.len()) == pat@),
{
    let len = s.unicode_len();
    let plen = pat.unicode_len();
    if plen > len - i {
        return false;
    }
    let mut j: usize = 0;
    while j < plen
        invariant
            len == s@.len(),
            plen == pat@.len(),
            i + plen <= len,
            j <= plen,
            forall|k: int| 0 <= k < j ==> s@[i + k] == pat@[k],
        decreases plen - j,
    {
        if s.get_char(i + j) != pat.get_char(j) {
            assert(s@.subrange(i as int, i + pat@.len())[j as int] != pat@[j as int]);
            return false;
        }
        j += 1;
    }
    proof {
        assert(s@.subrange(i as int, i + pat@.len()) =~= pat@);
    }
    true
}

/// True when the two strings hold the same characters.
pub fn str_eq(a: &str, b: &str) -> (r: bool)
    ensures
        r == (a@ == b@),
{
    let alen = a.unicode_len();
    let blen = b.unicode_len();
    if alen != blen {
        return false;
    }
    let mut i: usize = 0;
    while i < alen
        invariant
            alen == a@.len(),
            blen == b@.len(),
            alen == blen,
            i <= alen,
            forall|j: int| 0 <= j < i ==> a@[j] == b@[j],
        decreases alen - i,
    {
        if a.get_char(i) != b.get_char(i) {
            return false;
        }
        i += 1;
    }
    proof {
        assert(a@ =~= b@);
    }
    true
}

} // verus!
