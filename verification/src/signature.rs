//! The signature algebra: a representation of a C++ type name (for example
//! `std::vector<int>`) decomposed into namespace path, template-stripped base
//! name and classified template arguments, with externally accumulated
//! pointer and modifier decorations. Pure and total: malformed input
//! degrades to best-effort partial output, it never fails.

use vstd::prelude::*;
use vstd::string::*;
use crate::text::{
    first_char_from, first_nonword_from, is_digit, is_digit_char, is_word, is_word_char, last_char,
    lemma_first_char_from_is, lemma_first_nonword_from_is, lemma_last_char_is, matches_at,
    trim_spec, trim_str,
};

verus! {

/// The mathematical value of a symbol's name.
pub enum NameModel {
    /// A type name that takes part in the algebra.
    Named(Seq<char>),
    /// Literal text carried through unchanged.
    Literal(Seq<char>),
    /// No type at all; rendering it is an error remark.
    Absent,
}

/// The mathematical value of a `Symbol`: its name, the externally
/// accumulated pointer depth, and the externally accumulated modifier text.
pub struct SymbolModel {
    pub name: NameModel,
    pub pointers: nat,
    pub modifiers: Seq<char>,
}

/// The remark rendered in place of an absent type.
pub open spec fn invalid_type_text() -> Seq<char> {
    "/* error: attempt to display invalid type */"@
}

/// True when a `<unnamed-tag>` placeholder sits at index `i`.
pub open spec fn tag_at(s: Seq<char>, i: int) -> bool {
    0 <= i && i + 13 <= s.len() && s.subrange(i, i + 13) == "<unnamed-tag>"@
}

/// The index of the `>` closing a `<lambda_...>` placeholder at `i` — a
/// nonempty run of identifier characters delimited by the angle brackets —
/// or -1 when no such placeholder sits at `i`.
pub open spec fn lambda_end_at(s: Seq<char>, i: int) -> int {
    if 0 <= i && i + 8 <= s.len() && s.subrange(i, i + 8) == "<lambda_"@ {
        let k = first_nonword_from(s, i + 8);
        if k > i + 8 && k < s.len() && s[k] == '>' {
            k
        } else {
            -1
        }
    } else {
        -1
    }
}

/// The index of the `>` closing a `<unnamed-type-...>` or `<unnamed-enum-...>`
/// placeholder at `i` — the first `>` after at least one character of
/// content — or -1 when no such placeholder sits at `i`.
pub open spec fn unnamed_end_at(s: Seq<char>, i: int) -> int {
    if 0 <= i && i + 14 <= s.len() && (s.subrange(i, i + 14) == "<unnamed-type-"@ || s.subrange(
        i,
        i + 14,
    ) == "<unnamed-enum-"@) {
        let k = first_char_from(s, '>', i + 15);
        if k >= i + 15 && k < s.len() {
            k
        } else {
            -1
        }
    } else {
        -1
    }
}

/// The text from index `i` on after every `<unnamed-tag>` placeholder is
/// rewritten to `unnamed_tag`.
pub open spec fn rewrite_tag_from(s: Seq<char>, i: int) -> Seq<char>
    decreases s.len() - i,
{
    if i < 0 || i >= s.len() {
        Seq::empty()
    } else if tag_at(s, i) {
        "unnamed_tag"@ + rewrite_tag_from(s, i + 13)
    } else {
        seq![s[i]] + rewrite_tag_from(s, i + 1)
    }
}

/// The text from index `i` on after every `<lambda_...>` placeholder loses
/// its angle brackets.
pub open spec fn rewrite_lambda_from(s: Seq<char>, i: int) -> Seq<char>
    decreases s.len() - i,
{
    if i < 0 || i >= s.len() {
        Seq::empty()
    } else if lambda_end_at(s, i) != -1 {
        let k = lambda_end_at(s, i);
        "lambda_"@ + s.subrange(i + 8, k) + rewrite_lambda_from(s, k + 1)
    } else {
        seq![s[i]] + rewrite_lambda_from(s, i + 1)
    }
}

/// The text from index `i` on after every `<unnamed-type-...>` and
/// `<unnamed-enum-...>` placeholder is rewritten to its bare content.
pub open spec fn rewrite_unnamed_from(s: Seq<char>, i: int) -> Seq<char>
    decreases s.len() - i,
{
    if i < 0 || i >= s.len() {
        Seq::empty()
    } else if unnamed_end_at(s, i) != -1 {
        let k = unnamed_end_at(s, i);
        s.subrange(i + 14, k) + rewrite_unnamed_from(s, k + 1)
    } else {
        seq![s[i]] + rewrite_unnamed_from(s, i + 1)
    }
}

/// All compiler-synthesized placeholders rewritten to identifier-like text,
/// so that their angle brackets are never confused with template-argument
/// delimiters downstream: first anonymous tags, then lambda closures, then
/// anonymous types and enums.
pub open spec fn spec_replace_unnamed_types(s: Seq<char>) -> Seq<char> {
    rewrite_unnamed_from(rewrite_lambda_from(rewrite_tag_from(s, 0), 0), 0)
}

/// Rewrites every `<unnamed-tag>` placeholder to `unnamed_tag`.
fn replace_tag_pass(s: &str) -> (r: String)
    ensures
        r@ == rewrite_tag_from(s@, 0),
{
    let len = s.unicode_len();
    let mut out = String::new();
    let mut i: usize = 0;
    while i < len
        invariant
            len == s@.len(),
            i <= len,
            out@ + rewrite_tag_from(s@, i as int) == rewrite_tag_from(s@, 0),
        decreases len - i,
    {
        proof {
            reveal_strlit("<unnamed-tag>");
        }
        let ghost out0 = out@;
        let ghost ii = i as int;
        if matches_at(s, i, "<unnamed-tag>") {
            out.append("unnamed_tag");
            i += 13;
            proof {
                assert(tag_at(s@, ii));
                assert(out0 + ("unnamed_tag"@ + rewrite_tag_from(s@, i as int)) =~= (out0
                    + "unnamed_tag"@) + rewrite_tag_from(s@, i as int));
            }
        } else {
            proof {
                assert(!tag_at(s@, ii));
                assert(s@.subrange(ii, ii + 1) =~= seq![s@[ii]]);
            }
            out.append(s.substring_char(i, i + 1));
            i += 1;
            proof {
                assert(out0 + (seq![s@[ii]] + rewrite_tag_from(s@, i as int)) =~= (out0 + seq![
                    s@[ii],
                ]) + rewrite_tag_from(s@, i as int));
            }
        }
    }
    out
}

/// Rewrites every `<lambda_...>` placeholder to `lambda_...`.
fn replace_lambda_pass(s: &str) -> (r: String)
    ensures
        r@ == rewrite_lambda_from(s@, 0),
{
    let len = s.unicode_len();
    let mut out = String::new();
    let mut i: usize = 0;
    while i < len
        invariant
            len == s@.len(),
            i <= len,
            out@ + rewrite_lambda_from(s@, i as int) == rewrite_lambda_from(s@, 0),
        decreases len - i,
    {
        proof {
            reveal_strlit("<lambda_");
        }
        let ghost out0 = out@;
        let ghost ii = i as int;
        let mut matched = false;
        if matches_at(s, i, "<lambda_") {
            let mut k: usize = i + 8;
            while k < len && is_word(s.get_char(k))
                invariant
                    len == s@.len(),
                    i + 8 <= k <= len,
                    forall|j: int| i + 8 <= j < k ==> is_word_char(s@[j]),
                decreases len - k,
            {
                k += 1;
            }
            proof {
                lemma_first_nonword_from_is(s@, i + 8, k as int);
            }
            if k > i + 8 && k < len && s.get_char(k) == '>' {
                proof {
                    assert(lambda_end_at(s@, ii) == k as int);
                }
                out.append("lambda_");
                out.append(s.substring_char(i + 8, k));
                i = k + 1;
                matched = true;
                proof {
                    assert(out@ =~= out0 + ("lambda_"@ + s@.subrange(ii + 8, k as int)));
                    assert(out0 + (("lambda_"@ + s@.subrange(ii + 8, k as int))
                        + rewrite_lambda_from(s@, i as int)) =~= (out0 + ("lambda_"@ + s@.subrange(
                        ii + 8,
                        k as int,
                    ))) + rewrite_lambda_from(s@, i as int));
                }
            } else {
                proof {
                    assert(lambda_end_at(s@, ii) == -1);
                }
            }
        } else {
            proof {
                assert(lambda_end_at(s@, ii) == -1);
            }
        }
        if !matched {
            proof {
                assert(s@.subrange(ii, ii + 1) =~= seq![s@[ii]]);
            }
            out.append(s.substring_char(i, i + 1));
            i += 1;
            proof {
                assert(out0 + (seq![s@[ii]] + rewrite_lambda_from(s@, i as int)) =~= (out0 + seq![
                    s@[ii],
                ]) + rewrite_lambda_from(s@, i as int));
            }
        }
    }
    out
}

/// Rewrites every `<unnamed-type-...>` and `<unnamed-enum-...>` placeholder
/// to its bare content.
fn replace_unnamed_pass(s: &str) -> (r: String)
    ensures
        r@ == rewrite_unnamed_from(s@, 0),
{
    let len = s.unicode_len();
    let mut out = String::new();
    let mut i: usize = 0;
    while i < len
        invariant
            len == s@.len(),
            i <= len,
            out@ + rewrite_unnamed_from(s@, i as int) == rewrite_unnamed_from(s@, 0),
        decreases len - i,
    {
        proof {
            reveal_strlit("<unnamed-type-");
            reveal_strlit("<unnamed-enum-");
        }
        let ghost out0 = out@;
        let ghost ii = i as int;
        let mut matched = false;
        let type_here = matches_at(s, i, "<unnamed-type-");
        let enum_here = matches_at(s, i, "<unnamed-enum-");
        if type_here || enum_here {
            if i + 14 < len {
                let mut k: usize = i + 15;
                while k < len && s.get_char(k) != '>'
                    invariant
                        len == s@.len(),
                        i + 15 <= k <= len,
                        forall|j: int| i + 15 <= j < k ==> s@[j] != '>',
                    decreases len - k,
                {
                    k += 1;
                }
                proof {
                    lemma_first_char_from_is(s@, '>', i + 15, k as int);
                }
                if k < len {
                    proof {
                        assert(unnamed_end_at(s@, ii) == k as int);
                    }
                    out.append(s.substring_char(i + 14, k));
                    i = k + 1;
                    matched = true;
                    proof {
                        assert(out0 + (s@.subrange(ii + 14, k as int) + rewrite_unnamed_from(
                            s@,
                            i as int,
                        )) =~= (out0 + s@.subrange(ii + 14, k as int)) + rewrite_unnamed_from(
                            s@,
                            i as int,
                        ));
                    }
                } else {
                    proof {
                        assert(unnamed_end_at(s@, ii) == -1);
                    }
                }
            } else {
                proof {
                    assert(first_char_from(s@, '>', ii + 15) == -1);
                    assert(unnamed_end_at(s@, ii) == -1);
                }
            }
        } else {
            proof {
                assert(unnamed_end_at(s@, ii) == -1);
            }
        }
        if !matched {
            proof {
                assert(s@.subrange(ii, ii + 1) =~= seq![s@[ii]]);
            }
            out.append(s.substring_char(i, i + 1));
            i += 1;
            proof {
                assert(out0 + (seq![s@[ii]] + rewrite_unnamed_from(s@, i as int)) =~= (out0 + seq![
                    s@[ii],
                ]) + rewrite_unnamed_from(s@, i as int));
            }
        }
    }
    out
}

/// How a symbol's name is held.
#[derive(Debug, Clone)]
enum NameKind {
    /// A type name that takes part in the algebra.
    Named(String),
    /// Literal text carried through unchanged.
    Literal(String),
    /// No type at all.
    Absent,
}

/// A representation of a C++ type name, with the pointer depth and modifier
/// prefix an external caller accumulates while walking a broader type tree.
#[derive(Debug, Clone)]
pub struct Symbol {
    name: NameKind,
    pointer_count: usize,
    modifiers: String,
}

impl View for Symbol {
    type V = SymbolModel;

    closed spec fn view(&self) -> SymbolModel {
        SymbolModel {
            name: match self.name {
                NameKind::Named(s) => NameModel::Named(s@),
                NameKind::Literal(s) => NameModel::Literal(s@),
                NameKind::Absent => NameModel::Absent,
            },
            pointers: self.pointer_count as nat,
            modifiers: self.modifiers@,
        }
    }
}

/// The namespace-qualified, template-stripped base name: the text up to the
/// first `<`. The policy is deliberately that blunt — a `<` outside a
/// template context misleads it, a known sharp edge tolerated as best effort.
pub open spec fn base_name_of(s: Seq<char>) -> Seq<char> {
    let i = first_char_from(s, '<', 0);
    if i == -1 {
        s
    } else {
        s.subrange(0, i)
    }
}

/// True when the text ends in the namespace separator `::`.
pub open spec fn ends_with_sep(s: Seq<char>) -> bool {
    s.len() >= 2 && s[s.len() - 1] == ':' && s[s.len() - 2] == ':'
}

/// The text `as_str` returns: the template-stripped base name of a type
/// name, literal text unchanged, or the error remark for an absent type.
pub open spec fn spec_as_str(m: SymbolModel) -> Seq<char> {
    match m.name {
        NameModel::Named(s) => base_name_of(s),
        NameModel::Literal(s) => s,
        NameModel::Absent => invalid_type_text(),
    }
}

/// The namespace segments of the text from index `i` on, tracking bracket
/// depth: a `::` at depth zero separates segments (both characters are
/// consumed and the segment is trimmed); a `::` inside any bracketed region
/// is literal text. `start` marks where the running segment began; a
/// nonempty trailing segment is kept, trimmed.
pub open spec fn namespace_split_from(s: Seq<char>, i: int, depth: int, start: int) -> Seq<
    Seq<char>,
>
    decreases s.len() - i,
{
    if i < 0 || i >= s.len() {
        if start < s.len() {
            seq![trim_spec(s.subrange(start, s.len() as int))]
        } else {
            Seq::empty()
        }
    } else if s[i] == '<' {
        namespace_split_from(s, i + 1, depth + 1, start)
    } else if s[i] == '>' {
        namespace_split_from(s, i + 1, depth - 1, start)
    } else if s[i] == ':' && depth == 0 && i + 1 < s.len() && s[i + 1] == ':' {
        seq![trim_spec(s.subrange(start, i))] + namespace_split_from(s, i + 2, depth, i + 2)
    } else {
        namespace_split_from(s, i + 1, depth, start)
    }
}

/// The namespace segments of a name.
pub open spec fn namespace_split(s: Seq<char>) -> Seq<Seq<char>> {
    namespace_split_from(s, 0, 0, 0)
}

/// The text the namespace split walks: the full name of a type, literal
/// text unchanged, or the error remark for an absent type.
pub open spec fn spec_namespace_input(m: SymbolModel) -> Seq<char> {
    match m.name {
        NameModel::Named(s) => s,
        NameModel::Literal(s) => s,
        NameModel::Absent => invalid_type_text(),
    }
}

/// The raw template-argument text of a declaration, when it has one: the
/// text between the first `<` (preceded by at least one character) and the
/// last `>`. A name ending in `::` before its bracket is a compiler
/// placeholder, not a template — no arguments.
pub open spec fn template_args_text(s: Seq<char>) -> Option<Seq<char>> {
    let j = last_char(s, '>');
    let i = first_char_from(s, '<', 1);
    if i == -1 || j == -1 || j <= i {
        None
    } else if ends_with_sep(s.subrange(0, i)) {
        None
    } else {
        Some(s.subrange(i + 1, j))
    }
}

/// Splits argument text on the commas at bracket/paren depth zero. `<` and
/// `(` push depth, `>` and `)` pop it, clamped at zero to tolerate
/// malformed input; a comma inside any nesting is part of its argument.
/// A separator pushes the running segment even when empty; a trailing
/// segment is pushed only when nonempty.
pub open spec fn comma_split_from(s: Seq<char>, i: int, depth: int, start: int) -> Seq<Seq<char>>
    decreases s.len() - i,
{
    if i < 0 || i >= s.len() {
        if start < s.len() {
            seq![s.subrange(start, s.len() as int)]
        } else {
            Seq::empty()
        }
    } else if s[i] == '<' || s[i] == '(' {
        comma_split_from(s, i + 1, depth + 1, start)
    } else if s[i] == '>' || s[i] == ')' {
        comma_split_from(s, i + 1, if depth <= 0 { 0int } else { depth - 1 }, start)
    } else if s[i] == ',' && depth == 0 {
        seq![s.subrange(start, i)] + comma_split_from(s, i + 1, 0, i + 1)
    } else {
        comma_split_from(s, i + 1, depth, start)
    }
}

/// The template arguments of a declaration: the top-level comma split of
/// its raw argument text, or nothing where it has none.
pub open spec fn template_args_of(s: Seq<char>) -> Seq<Seq<char>> {
    match template_args_text(s) {
        None => Seq::empty(),
        Some(t) => comma_split_from(t, 0, 0, 0),
    }
}

/// The template arguments of a symbol: only a type name has any.
pub open spec fn spec_template_args(m: SymbolModel) -> Seq<Seq<char>> {
    match m.name {
        NameModel::Named(s) => template_args_of(s),
        NameModel::Literal(_) => Seq::empty(),
        NameModel::Absent => Seq::empty(),
    }
}

/// One or more decimal digits.
pub open spec fn all_digits(s: Seq<char>) -> bool {
    s.len() > 0 && forall|j: int| 0 <= j < s.len() ==> is_digit_char(s[j])
}

/// A plain decimal literal: digits, one dot, digits.
pub open spec fn is_float_text(s: Seq<char>) -> bool {
    exists|k: int|
        0 < k < s.len() && s[k] == '.' && all_digits(s.subrange(0, k)) && all_digits(
            s.subrange(k + 1, s.len() as int),
        )
}

/// Runtime test for `all_digits`.
fn is_integer_literal(s: &str) -> (r: bool)
    ensures
        r == all_digits(s@),
{
    let len = s.unicode_len();
    if len == 0 {
        return false;
    }
    let mut a: usize = 0;
    while a < len && is_digit(s.get_char(a))
        invariant
            len == s@.len(),
            a <= len,
            forall|j: int| 0 <= j < a ==> is_digit_char(s@[j]),
        decreases len - a,
    {
        a += 1;
    }
    a == len
}

/// Runtime test for `is_float_text`.
fn is_float_literal(s: &str) -> (r: bool)
    ensures
        r == is_float_text(s@),
{
    let len = s.unicode_len();
    let mut d: usize = 0;
    while d < len && s.get_char(d) != '.'
        invariant
            len == s@.len(),
            d <= len,
            forall|j: int| 0 <= j < d ==> s@[j] != '.',
        decreases len - d,
    {
        d += 1;
    }
    if d >= len {
        proof {
            assert forall|k: int|
                !(0 < k < s@.len() && s@[k] == '.' && all_digits(s@.subrange(0, k)) && all_digits(
                    s@.subrange(k + 1, s@.len() as int),
                )) by {
                if 0 < k < s@.len() {
                    assert(s@[k] != '.');
                }
            }
        }
        return false;
    }
    if d == 0 {
        proof {
            assert forall|k: int|
                !(0 < k < s@.len() && s@[k] == '.' && all_digits(s@.subrange(0, k)) && all_digits(
                    s@.subrange(k + 1, s@.len() as int),
                )) by {
                if 0 < k < s@.len() && s@[k] == '.' && all_digits(s@.subrange(0, k)) {
                    assert(s@.subrange(0, k)[0] == s@[0]);
                    assert(is_digit_char('.'));
                    assert(false);
                }
            }
        }
        return false;
    }
    let mut a: usize = 0;
    while a < d && is_digit(s.get_char(a))
        invariant
            len == s@.len(),
            d < len,
            a <= d,
            forall|j: int| 0 <= j < a ==> is_digit_char(s@[j]),
        decreases d - a,
    {
        a += 1;
    }
    if a < d {
        proof {
            assert forall|k: int|
                !(0 < k < s@.len() && s@[k] == '.' && all_digits(s@.subrange(0, k)) && all_digits(
                    s@.subrange(k + 1, s@.len() as int),
                )) by {
                if 0 < k < s@.len() && s@[k] == '.' {
                    assert(k >= d);
                    if all_digits(s@.subrange(0, k)) {
                        assert(s@.subrange(0, k)[a as int] == s@[a as int]);
                        assert(false);
                    }
                }
            }
        }
        return false;
    }
    if d + 1 == len {
        proof {
            assert forall|k: int|
                !(0 < k < s@.len() && s@[k] == '.' && all_digits(s@.subrange(0, k)) && all_digits(
                    s@.subrange(k + 1, s@.len() as int),
                )) by {
                if 0 < k < s@.len() && s@[k] == '.' {
                    assert(k == d);
                    assert(s@.subrange(k + 1, s@.len() as int).len() == 0);
                }
            }
        }
        return false;
    }
    let mut b: usize = d + 1;
    while b < len && is_digit(s.get_char(b))
        invariant
            len == s@.len(),
            d + 1 <= b <= len,
            forall|j: int| d + 1 <= j < b ==> is_digit_char(s@[j]),
        decreases len - b,
    {
        b += 1;
    }
    if b < len {
        proof {
            assert forall|k: int|
                !(0 < k < s@.len() && s@[k] == '.' && all_digits(s@.subrange(0, k)) && all_digits(
                    s@.subrange(k + 1, s@.len() as int),
                )) by {
                if 0 < k < s@.len() && s@[k] == '.' {
                    if k > d {
                        assert(s@.subrange(0, k)[d as int] == s@[d as int]);
                        assert(!all_digits(s@.subrange(0, k)));
                    } else {
                        assert(k == d);
                        if all_digits(s@.subrange(k + 1, s@.len() as int)) {
                            assert(s@.subrange(k + 1, s@.len() as int)[b - d - 1] == s@[b as int]);
                            assert(false);
                        }
                    }
                }
            }
        }
        return false;
    }
    proof {
        assert(all_digits(s@.subrange(0, d as int))) by {
            assert forall|j: int| 0 <= j < d ==> is_digit_char(
                #[trigger] s@.subrange(0, d as int)[j],
            ) by {
                if 0 <= j < d {
                    assert(s@.subrange(0, d as int)[j] == s@[j]);
                }
            }
        }
        assert(all_digits(s@.subrange(d + 1, s@.len() as int))) by {
            assert forall|j: int| 0 <= j < s@.len() - d - 1 ==> is_digit_char(
                #[trigger] s@.subrange(d + 1, s@.len() as int)[j],
            ) by {
                if 0 <= j < s@.len() - d - 1 {
                    assert(s@.subrange(d + 1, s@.len() as int)[j] == s@[d + 1 + j]);
                }
            }
        }
        assert(is_float_text(s@)) by {
            assert(0 < d < s@.len() && s@[d as int] == '.' && all_digits(s@.subrange(0, d as int))
                && all_digits(s@.subrange(d + 1, s@.len() as int)));
        }
    }
    true
}

/// The letter for one base-7 digit over the ordered alphabet T..Z.
pub open spec fn letter_of(i: int) -> char {
    if i == 0 {
        'T'
    } else if i == 1 {
        'U'
    } else if i == 2 {
        'V'
    } else if i == 3 {
        'W'
    } else if i == 4 {
        'X'
    } else if i == 5 {
        'Y'
    } else {
        'Z'
    }
}

/// The synthesized identifier for the template argument at position `i`:
/// the position read as a base-7 numeral over T..Z, positions 0–6 a single
/// letter, higher positions composing additional letters to the left.
pub open spec fn spec_template_ident(i: nat) -> Seq<char>
    decreases i,
{
    if i < 7 {
        seq![letter_of(i as int)]
    } else {
        spec_template_ident((i / 7 - 1) as nat) + seq![letter_of((i % 7) as int)]
    }
}

/// The single letter for a base-7 digit.
fn letter_str(i: usize) -> (r: &'static str)
    requires
        i < 7,
    ensures
        r@ == seq![letter_of(i as int)],
{
    proof {
        reveal_strlit("T");
        reveal_strlit("U");
        reveal_strlit("V");
        reveal_strlit("W");
        reveal_strlit("X");
        reveal_strlit("Y");
        reveal_strlit("Z");
    }
    let r = if i == 0 {
        "T"
    } else if i == 1 {
        "U"
    } else if i == 2 {
        "V"
    } else if i == 3 {
        "W"
    } else if i == 4 {
        "X"
    } else if i == 5 {
        "Y"
    } else {
        "Z"
    };
    proof {
        assert(r@ =~= seq![letter_of(i as int)]);
    }
    r
}

/// Builds the synthesized identifier for the template argument at position
/// `i`.
pub fn number_to_template_type_name(i: usize) -> (r: String)
    ensures
        r@ == spec_template_ident(i as nat),
    decreases i,
{
    if i < 7 {
        String::from_str(letter_str(i))
    } else {
        let mut s = number_to_template_type_name(i / 7 - 1);
        s.append(letter_str(i % 7));
        s
    }
}

/// The kind keyword an argument is classified under: a plain decimal
/// literal is a `double`, a digit string a `long long`, anything else a
/// `typename`.
pub open spec fn spec_kind(s: Seq<char>) -> Seq<char> {
    if is_float_text(s) {
        "double"@
    } else if all_digits(s) {
        "long long"@
    } else {
        "typename"@
    }
}

/// Each template argument classified and named: its kind keyword, its
/// synthesized positional identifier, and its raw text.
pub open spec fn spec_classified(args: Seq<Seq<char>>) -> Seq<(Seq<char>, Seq<char>, Seq<char>)> {
    Seq::new(args.len(), |i: int| (spec_kind(args[i]), spec_template_ident(i as nat), args[i]))
}

/// The character sequences behind a list of string triples.
pub open spec fn views_of(list: Seq<(String, String, String)>) -> Seq<
    (Seq<char>, Seq<char>, Seq<char>),
> {
    Seq::new(list.len(), |i: int| (list[i].0@, list[i].1@, list[i].2@))
}

/// The rendered declaration text for the first `n` classified arguments:
/// kind and identifier, comma-separated.
pub open spec fn render_prefix(list: Seq<(Seq<char>, Seq<char>, Seq<char>)>, n: int) -> Seq<char>
    decreases n,
{
    if n <= 0 {
        Seq::empty()
    } else {
        render_prefix(list, n - 1) + (if n == 1 {
            Seq::<char>::empty()
        } else {
            ", "@
        }) + list[n - 1].0 + seq![' '] + list[n - 1].1
    }
}

/// The template-parameter declaration rendered from a classified list:
/// `template <K0 I0, K1 I1, ...> `, or nothing at all for an empty list.
pub open spec fn spec_templates_decl(list: Seq<(Seq<char>, Seq<char>, Seq<char>)>) -> Seq<char> {
    if list.len() == 0 {
        Seq::empty()
    } else {
        "template <"@ + render_prefix(list, list.len() as int) + "> "@
    }
}

/// `n` stars.
pub open spec fn repeat_char(c: char, n: nat) -> Seq<char>
    decreases n,
{
    if n == 0 {
        Seq::empty()
    } else {
        repeat_char(c, (n - 1) as nat).push(c)
    }
}

/// The fully decorated rendering: accumulated modifiers, then the name, then
/// one `*` per pointer-depth unit. Literal text ignores decorations, and an
/// absent type renders as the error remark.
pub open spec fn spec_fully_qualified(m: SymbolModel) -> Seq<char> {
    match m.name {
        NameModel::Named(s) => m.modifiers + s + repeat_char('*', m.pointers),
        NameModel::Literal(s) => s,
        NameModel::Absent => invalid_type_text(),
    }
}

impl Symbol {
    /// Rewrites the compiler's placeholder tokens for anonymous tags,
    /// lambda closures and anonymous types/enums into ordinary
    /// identifier-like text.
    pub fn replace_unnamed_types(name: &str) -> (r: String)
        ensures
            r@ == spec_replace_unnamed_types(name@),
    {
        let pass1 = replace_tag_pass(name);
        let pass2 = replace_lambda_pass(pass1.as_str());
        replace_unnamed_pass(pass2.as_str())
    }

    /// Wraps a type name into the algebra, first rewriting the compiler's
    /// placeholder tokens so their angle brackets cannot be mistaken for
    /// template delimiters. No decorations yet.
    pub fn new(name: String) -> (r: Symbol)
        ensures
            r@.name == NameModel::Named(spec_replace_unnamed_types(name@)),
            r@.pointers == 0,
            r@.modifiers == Seq::<char>::empty(),
    {
        let unlambdad = Self::replace_unnamed_types(name.as_str());
        Symbol { name: NameKind::Named(unlambdad), pointer_count: 0, modifiers: String::new() }
    }

    /// Wraps literal text that passes through the algebra unchanged.
    pub fn from_string(name: String) -> (r: Symbol)
        ensures
            r@.name == NameModel::Literal(name@),
            r@.pointers == 0,
            r@.modifiers == Seq::<char>::empty(),
    {
        Symbol { name: NameKind::Literal(name), pointer_count: 0, modifiers: String::new() }
    }

    /// The absent type.
    pub fn none() -> (r: Symbol)
        ensures
            r@.name == NameModel::Absent,
            r@.pointers == 0,
            r@.modifiers == Seq::<char>::empty(),
    {
        Symbol { name: NameKind::Absent, pointer_count: 0, modifiers: String::new() }
    }

    /// The template-stripped, namespace-qualified base name (or the literal
    /// text, or the error remark). A base name may not end in a namespace
    /// separator — such a name is a placeholder the rewriting step should
    /// have consumed.
    pub fn as_str<'a>(&'a self) -> (r: &'a str)
        requires
            self@.name matches NameModel::Named(s) ==> !ends_with_sep(base_name_of(s)),
        ensures
            r@ == spec_as_str(self@),
    {
        match &self.name {
            NameKind::Named(s) => {
                let st = s.as_str();
                let len = st.unicode_len();
                let mut i: usize = 0;
                while i < len && st.get_char(i) != '<'
                    invariant
                        len == st@.len(),
                        i <= len,
                        forall|j: int| 0 <= j < i ==> st@[j] != '<',
                    decreases len - i,
                {
                    i += 1;
                }
                proof {
                    lemma_first_char_from_is(st@, '<', 0, i as int);
                    if i == len {
                        assert(st@.subrange(0, len as int) =~= st@);
                    }
                }
                st.substring_char(0, i)
            },
            NameKind::Literal(s) => s.as_str(),
            NameKind::Absent => "/* error: attempt to display invalid type */",
        }
    }

    /// One more level of pointer indirection, accumulated by the caller as
    /// it walks the surrounding type tree.
    pub fn increment_pointer_count(&mut self)
        requires
            old(self)@.pointers < usize::MAX,
        ensures
            final(self)@.name == old(self)@.name,
            final(self)@.pointers == old(self)@.pointers + 1,
            final(self)@.modifiers == old(self)@.modifiers,
    {
        self.pointer_count = self.pointer_count + 1;
    }

    /// Appends modifier text (such as `"const "`), accumulated by the caller
    /// as it walks the surrounding type tree.
    pub fn add_modifiers(&mut self, modifiers: &str)
        ensures
            final(self)@.name == old(self)@.name,
            final(self)@.pointers == old(self)@.pointers,
            final(self)@.modifiers == old(self)@.modifiers + modifiers@,
    {
        self.modifiers.append(modifiers);
    }

    /// The namespace segments of the full name: split on the `::`
    /// separators that stand at bracket depth zero, each segment trimmed.
    /// A `::` inside a bracketed region — a template argument of its own —
    /// is literal text, so `ns::Outer<T1,T2>::Inner` splits into `ns`,
    /// `Outer<T1,T2>` and `Inner`.
    pub fn namespace_vec(&self) -> (r: Vec<String>)
        ensures
            r.deep_view() == namespace_split(spec_namespace_input(self@)),
    {
        let st = match &self.name {
            NameKind::Named(s) => s.as_str(),
            NameKind::Literal(s) => s.as_str(),
            NameKind::Absent => "/* error: attempt to display invalid type */",
        };
        let len = st.unicode_len();
        let mut result: Vec<String> = Vec::new();
        let mut seg_start: usize = 0;
        let mut i: usize = 0;
        let mut depth: i128 = 0;
        while i < len
            invariant
                len == st@.len(),
                seg_start <= i <= len,
                -(i as int) <= depth as int <= i as int,
                result.deep_view() + namespace_split_from(
                    st@,
                    i as int,
                    depth as int,
                    seg_start as int,
                ) == namespace_split(st@),
            decreases len - i,
        {
            let ghost dv0 = result.deep_view();
            let c = st.get_char(i);
            if c == '<' {
                depth = depth + 1;
                i += 1;
            } else if c == '>' {
                depth = depth - 1;
                i += 1;
            } else if c == ':' && depth == 0 && i + 1 < len && st.get_char(i + 1) == ':' {
                let seg = trim_str(st.substring_char(seg_start, i));
                let ghost segv = seg@;
                result.push(seg);
                proof {
                    assert(result.deep_view() =~= dv0.push(segv));
                    assert(dv0.push(segv) + namespace_split_from(
                        st@,
                        i + 2,
                        depth as int,
                        i + 2,
                    ) =~= dv0 + (seq![segv] + namespace_split_from(st@, i + 2, depth as int, i + 2)));
                }
                i += 2;
                seg_start = i;
            } else {
                i += 1;
            }
        }
        if seg_start < len {
            let seg = trim_str(st.substring_char(seg_start, len));
            let ghost segv = seg@;
            let ghost dv0 = result.deep_view();
            result.push(seg);
            proof {
                assert(result.deep_view() =~= dv0.push(segv));
                assert(dv0.push(segv) =~= dv0 + seq![segv]);
            }
        }
        result
    }

    /// The raw template arguments: the text between the first `<` and the
    /// last `>`, split on the commas at nesting depth zero, so that a comma
    /// inside a nested template or parenthesis never separates. Empty for
    /// a bracket that belongs to a compiler placeholder rather than a real
    /// template, and for malformed text, as best effort.
    fn templates_vec(&self) -> (r: Vec<String>)
        ensures
            r.deep_view() == spec_template_args(self@),
    {
        let st = match &self.name {
            NameKind::Named(s) => s.as_str(),
            NameKind::Literal(_) => {
                let r: Vec<String> = Vec::new();
                proof {
                    assert(r.deep_view() =~= Seq::<Seq<char>>::empty());
                }
                return r;
            },
            NameKind::Absent => {
                let r: Vec<String> = Vec::new();
                proof {
                    assert(r.deep_view() =~= Seq::<Seq<char>>::empty());
                }
                return r;
            },
        };
        let len = st.unicode_len();
        // The last `>` sits at j - 1, if j > 0.
        let mut j: usize = len;
        while j > 0 && st.get_char(j - 1) != '>'
            invariant
                len == st@.len(),
                j <= len,
                forall|t: int| j <= t < len ==> st@[t] != '>',
            decreases j,
        {
            j -= 1;
        }
        proof {
            lemma_last_char_is(st@, '>', j - 1);
        }
        // The first `<` preceded by at least one character sits at i < len.
        let mut i: usize = 1;
        if len == 0 {
            i = 0;
        }
        while i < len && st.get_char(i) != '<'
            invariant
                len == st@.len(),
                len == 0 ==> i == 0,
                len > 0 ==> 1 <= i <= len,
                forall|t: int| 1 <= t < i ==> st@[t] != '<',
            decreases len - i,
        {
            i += 1;
        }
        proof {
            if len > 0 {
                lemma_first_char_from_is(st@, '<', 1, i as int);
            }
        }
        if !(i < len && j > 0 && i < j - 1) {
            let r: Vec<String> = Vec::new();
            proof {
                assert(template_args_text(st@) is None);
                assert(r.deep_view() =~= Seq::<Seq<char>>::empty());
            }
            return r;
        }
        // The bracketed text of a name ending in `::` belongs to a compiler
        // placeholder, not a real template.
        if i >= 2 && st.get_char(i - 1) == ':' && st.get_char(i - 2) == ':' {
            let r: Vec<String> = Vec::new();
            proof {
                assert(st@.subrange(0, i as int)[i - 1] == st@[i - 1]);
                assert(st@.subrange(0, i as int)[i - 2] == st@[i - 2]);
                assert(ends_with_sep(st@.subrange(0, i as int)));
                assert(template_args_text(st@) is None);
                assert(r.deep_view() =~= Seq::<Seq<char>>::empty());
            }
            return r;
        }
        proof {
            if i >= 2 {
                assert(st@.subrange(0, i as int)[i - 1] == st@[i - 1]);
                assert(st@.subrange(0, i as int)[i - 2] == st@[i - 2]);
            }
            assert(!ends_with_sep(st@.subrange(0, i as int)));
            assert(template_args_text(st@) == Some(st@.subrange(i + 1, j - 1)));
        }
        let t = st.substring_char(i + 1, j - 1);
        let tlen = t.unicode_len();
        let mut result: Vec<String> = Vec::new();
        let mut seg_start: usize = 0;
        let mut p: usize = 0;
        let mut depth: usize = 0;
        while p < tlen
            invariant
                tlen == t@.len(),
                seg_start <= p <= tlen,
                depth <= p,
                result.deep_view() + comma_split_from(
                    t@,
                    p as int,
                    depth as int,
                    seg_start as int,
                ) == comma_split_from(t@, 0, 0, 0),
            decreases tlen - p,
        {
            let ghost dv0 = result.deep_view();
            let c = t.get_char(p);
            if c == '<' || c == '(' {
                depth = depth + 1;
                p += 1;
            } else if c == '>' || c == ')' {
                if depth > 0 {
                    depth = depth - 1;
                }
                p += 1;
            } else if c == ',' && depth == 0 {
                let seg = String::from_str(t.substring_char(seg_start, p));
                let ghost segv = seg@;
                result.push(seg);
                proof {
                    assert(result.deep_view() =~= dv0.push(segv));
                    assert(dv0.push(segv) + comma_split_from(t@, p + 1, 0, p + 1) =~= dv0 + (seq![
                        segv,
                    ] + comma_split_from(t@, p + 1, 0, p + 1)));
                }
                p += 1;
                seg_start = p;
            } else {
                p += 1;
            }
        }
        if seg_start < tlen {
            let seg = String::from_str(t.substring_char(seg_start, tlen));
            let ghost segv = seg@;
            let ghost dv0 = result.deep_view();
            result.push(seg);
            proof {
                assert(result.deep_view() =~= dv0.push(segv));
                assert(dv0.push(segv) =~= dv0 + seq![segv]);
            }
        }
        result
    }

    /// The template arguments of the stored class name, classified and
    /// named: for `my_namespace::MyClass<int, 4>` the kinds are `typename`
    /// and `long long`, the identifiers `T` and `U`, the raw texts `int`
    /// and `4`.
    pub fn templates_by_type(&self) -> (r: Vec<(String, String, String)>)
        ensures
            views_of(r@) == spec_classified(spec_template_args(self@)),
    {
        let args = self.templates_vec();
        let mut result: Vec<(String, String, String)> = Vec::new();
        let mut i: usize = 0;
        while i < args.len()
            invariant
                i <= args.len(),
                args.deep_view() == spec_template_args(self@),
                views_of(result@) == spec_classified(args.deep_view()).subrange(0, i as int),
            decreases args.len() - i,
        {
            proof {
                reveal_strlit("double");
                reveal_strlit("long long");
                reveal_strlit("typename");
            }
            let arg = &args[i];
            let kind = if is_float_literal(arg.as_str()) {
                String::from_str("double")
            } else if is_integer_literal(arg.as_str()) {
                String::from_str("long long")
            } else {
                String::from_str("typename")
            };
            let ident = number_to_template_type_name(i);
            let argc = arg.clone();
            let ghost vs0 = views_of(result@);
            let ghost vec0 = result@;
            let ghost kindv = kind@;
            let ghost identv = ident@;
            let ghost argcv = argc@;
            let ghost ii = i as int;
            result.push((kind, ident, argc));
            i += 1;
            proof {
                let cls = spec_classified(args.deep_view());
                assert(args.deep_view().len() == args@.len());
                assert(cls.len() == args.deep_view().len());
                assert(cls.subrange(0, ii).len() == ii);
                assert(vs0.len() == vec0.len());
                assert(vec0.len() == ii);
                assert(args.deep_view()[ii] == arg@);
                assert(kindv == spec_kind(args.deep_view()[ii]));
                assert(identv == spec_template_ident(ii as nat));
                assert(argcv == args.deep_view()[ii]);
                assert(result@[ii].0@ == kindv);
                assert(result@[ii].1@ == identv);
                assert(result@[ii].2@ == argcv);
                assert forall|j: int| 0 <= j < i as int implies views_of(result@)[j]
                    == cls.subrange(0, i as int)[j] by {
                    assert(views_of(result@)[j] == (result@[j].0@, result@[j].1@, result@[j].2@));
                    if j < ii {
                        assert(result@[j] == vec0[j]);
                        assert(vs0[j] == (vec0[j].0@, vec0[j].1@, vec0[j].2@));
                        assert(vs0[j] == cls.subrange(0, ii)[j]);
                    } else {
                        assert(cls[j] == (
                            spec_kind(args.deep_view()[j]),
                            spec_template_ident(j as nat),
                            args.deep_view()[j],
                        ));
                    }
                }
                assert(views_of(result@) =~= cls.subrange(0, i as int));
            }
        }
        proof {
            assert(spec_classified(args.deep_view()).subrange(
                0,
                spec_classified(args.deep_view()).len() as int,
            ) =~= spec_classified(args.deep_view()));
        }
        result
    }

    /// Renders the declaration that introduces a class's template
    /// parameters, for example `template <typename T, long long U> `, or
    /// nothing at all when the list is empty.
    pub fn templates(templates_by_type: &[(String, String, String)]) -> (r: String)
        ensures
            r@ == spec_templates_decl(views_of(templates_by_type@)),
    {
        let n = templates_by_type.len();
        if n == 0 {
            let r = String::new();
            return r;
        }
        let mut out = String::from_str("template <");
        let mut i: usize = 0;
        while i < n
            invariant
                n == templates_by_type@.len(),
                i <= n,
                out@ == "template <"@ + render_prefix(views_of(templates_by_type@), i as int),
            decreases n - i,
        {
            proof {
                reveal_strlit(", ");
                reveal_strlit(" ");
            }
            let ghost dv = views_of(templates_by_type@);
            let ghost out0 = out@;
            let item = &templates_by_type[i];
            if i != 0 {
                out.append(", ");
            }
            out.append(item.0.as_str());
            out.append(" ");
            out.append(item.1.as_str());
            i += 1;
            proof {
                assert(" "@ =~= seq![' ']);
                assert(out@ =~= "template <"@ + render_prefix(dv, i as int));
            }
        }
        out.append("> ");
        proof {
            assert(out@ =~= spec_templates_decl(views_of(templates_by_type@)));
        }
        out
    }

    /// Renders the fully decorated name: modifiers, base text and one `*`
    /// per accumulated pointer-depth unit.
    pub fn fully_qualifed(&self) -> (r: String)
        ensures
            r@ == spec_fully_qualified(self@),
    {
        match &self.name {
            NameKind::Named(s) => {
                let mut out = self.modifiers.clone();
                out.append(s.as_str());
                let mut k: usize = 0;
                while k < self.pointer_count
                    invariant
                        k <= self.pointer_count,
                        out@ == self.modifiers@ + s@ + repeat_char('*', k as nat),
                    decreases self.pointer_count - k,
                {
                    proof {
                        reveal_strlit("*");
                    }
                    let ghost out0 = out@;
                    out.append("*");
                    k += 1;
                    proof {
                        assert("*"@ =~= seq!['*']);
                        assert(out0 + seq!['*'] =~= self.modifiers@ + s@ + repeat_char(
                            '*',
                            k as nat,
                        ));
                    }
                }
                out
            },
            NameKind::Literal(s) => s.clone(),
            NameKind::Absent => {
                let r = String::from_str("/* error: attempt to display invalid type */");
                r
            },
        }
    }
}

/// A fresh signature — no pointer increments, no modifiers — renders
/// identical to its stored name text.
pub proof fn lemma_fresh_symbol_renders_plain(m: SymbolModel, s: Seq<char>)
    requires
        m.name == NameModel::Named(s),
        m.pointers == 0,
        m.modifiers == Seq::<char>::empty(),
    ensures
        spec_fully_qualified(m) == s,
{
    assert(spec_fully_qualified(m) =~= s);
}

} // verus!
