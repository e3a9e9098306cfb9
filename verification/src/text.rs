//! Character-level text helpers: ASCII case folding, case-insensitive
//! membership in a list of names, and trimming of pasted input.

use vstd::prelude::*;
use vstd::string::StrSliceExecFns;
use vstd::string::StringExecFns;

verus! {

/// ASCII-only case folding of a single character: `'A'..='Z'` map to
/// `'a'..='z'`, every other character is left unchanged.
pub open spec fn lower_char_spec(c: char) -> char {
    if 'A' <= c && c <= 'Z' {
        ((c as u32) + 32) as char
    } else {
        c
    }
}

/// ASCII-only case folding of a whole string.
pub open spec fn lower_spec(s: Seq<char>) -> Seq<char> {
    s.map_values(|c: char| lower_char_spec(c))
}

/// Two names are the same parameter name when they agree up to ASCII case.
pub open spec fn eq_ci_spec(a: Seq<char>, b: Seq<char>) -> bool {
    lower_spec(a) == lower_spec(b)
}

/// A name occurs in a list, compared case-insensitively.
pub open spec fn in_list_ci(list: Seq<Seq<char>>, key: Seq<char>) -> bool {
    exists|i: int| 0 <= i < list.len() && eq_ci_spec(list[i], key)
}

/// Executable ASCII case folding of one character.
pub fn lower_char(c: char) -> (r: char)
    ensures
        r == lower_char_spec(c),
{
    if 'A' <= c && c <= 'Z' {
        (((c as u32) + 32) as u8) as char
    } else {
        c
    }
}

/// Copies a borrowed string.
pub fn copy_str(s: &str) -> (r: String)
    ensures
        r@ == s@,
{
    String::from_str(s)
}

/// Lowercases a string, folding only ASCII letters.
pub fn to_lower(s: &str) -> (r: String)
    ensures
        r@ == lower_spec(s@),
{
    let n = s.unicode_len();
    let mut out = String::new();
    let mut i: usize = 0;
    while i < n
        invariant
            n == s@.len(),
            i <= n,
            out@ == lower_spec(s@.take(i as int)),
        decreases n - i,
    {
        let c = lower_char(s.get_char(i));
        push_char(&mut out, c);
        proof {
            assert(lower_spec(s@.take(i + 1)) =~= lower_spec(s@.take(i as int)).push(
                lower_char_spec(s@[i as int]),
            ));
        }
        i = i + 1;
    }
    proof {
        assert(s@.take(n as int) =~= s@);
    }
    out
}

/// Relies on `String::push`: appends one character at the end.
#[verifier::external_body]
fn push_char(s: &mut String, c: char)
    ensures
        final(s)@ == old(s)@.push(c),
{
    s.push(c)
}

/// Whether two strings agree up to ASCII case.
pub fn eq_ignore_case(a: &str, b: &str) -> (r: bool)
    ensures
        r == eq_ci_spec(a@, b@),
{
    let na = a.unicode_len();
    let nb = b.unicode_len();
    if na != nb {
        proof {
            assert(lower_spec(a@).len() != lower_spec(b@).len());
        }
        return false;
    }
    let mut i: usize = 0;
    while i < na
        invariant
            na == a@.len(),
            na == b@.len(),
            i <= na,
            forall|j: int| 0 <= j < i ==> lower_char_spec(a@[j]) == lower_char_spec(b@[j]),
        decreases na - i,
    {
        if lower_char(a.get_char(i)) != lower_char(b.get_char(i)) {
            proof {
                assert(lower_spec(a@)[i as int] != lower_spec(b@)[i as int]);
            }
            return false;
        }
        i = i + 1;
    }
    proof {
        assert(lower_spec(a@) =~= lower_spec(b@));
    }
    true
}

/// Whether `key` occurs in `list`, compared case-insensitively.
pub fn contains_case_insensitive(list: &Vec<String>, key: &str) -> (r: bool)
    ensures
        r == in_list_ci(list.deep_view(), key@),
{
    let mut i: usize = 0;
    while i < list.len()
        invariant
            i <= list@.len(),
            forall|j: int| 0 <= j < i ==> !eq_ci_spec(list.deep_view()[j], key@),
        decreases list@.len() - i,
    {
        if eq_ignore_case(list[i].as_str(), key) {
            proof {
                assert(list.deep_view()[i as int] == list@[i as int]@);
                assert(eq_ci_spec(list.deep_view()[i as int], key@));
            }
            return true;
        }
        i = i + 1;
    }
    false
}

/// The Unicode `White_Space` characters, as `str::trim` removes them.
pub open spec fn is_space_spec(c: char) -> bool {
    c == ' ' || c == '\t' || c == '\n' || c == '\r' || c == '\u{b}' || c == '\u{c}' || c
        == '\u{85}' || c == '\u{a0}' || c == '\u{1680}' || ('\u{2000}' <= c && c <= '\u{200a}') || c
        == '\u{2028}' || c == '\u{2029}' || c == '\u{202f}' || c == '\u{205f}' || c == '\u{3000}'
}

/// Executable test for a `White_Space` character.
pub fn is_space(c: char) -> (r: bool)
    ensures
        r == is_space_spec(c),
{
    c == ' ' || c == '\t' || c == '\n' || c == '\r' || c == '\u{b}' || c == '\u{c}' || c
        == '\u{85}' || c == '\u{a0}' || c == '\u{1680}' || ('\u{2000}' <= c && c <= '\u{200a}') || c
        == '\u{2028}' || c == '\u{2029}' || c == '\u{202f}' || c == '\u{205f}' || c == '\u{3000}'
}

/// Drops leading characters satisfying `p`.
pub open spec fn drop_front_while(s: Seq<char>, p: spec_fn(char) -> bool) -> Seq<char>
    decreases s.len(),
{
    if s.len() > 0 && p(s[0]) {
        drop_front_while(s.drop_first(), p)
    } else {
        s
    }
}

/// Drops trailing characters satisfying `p`.
pub open spec fn drop_back_while(s: Seq<char>, p: spec_fn(char) -> bool) -> Seq<char>
    decreases s.len(),
{
    if s.len() > 0 && p(s.last()) {
        drop_back_while(s.drop_last(), p)
    } else {
        s
    }
}

/// Drops characters satisfying `p` from both ends.
pub open spec fn strip_ends(s: Seq<char>, p: spec_fn(char) -> bool) -> Seq<char> {
    drop_back_while(drop_front_while(s, p), p)
}

/// Pasted input normalization: surrounding whitespace goes first, then any
/// leading `<` and trailing `>` left over from angle-bracketed links.
pub open spec fn trim_spec(s: Seq<char>) -> Seq<char> {
    let w = strip_ends(s, |c: char| is_space_spec(c));
    drop_back_while(drop_front_while(w, |c: char| c == '<'), |c: char| c == '>')
}

proof fn lemma_drop_front_step(s: Seq<char>, p: spec_fn(char) -> bool, lo: int)
    requires
        0 <= lo < s.len(),
        p(s[lo]),
    ensures
        drop_front_while(s.subrange(lo, s.len() as int), p) == drop_front_while(
            s.subrange(lo + 1, s.len() as int),
            p,
        ),
{
    assert(s.subrange(lo, s.len() as int).drop_first() =~= s.subrange(lo + 1, s.len() as int));
}

proof fn lemma_drop_back_step(s: Seq<char>, p: spec_fn(char) -> bool, lo: int, hi: int)
    requires
        0 <= lo < hi <= s.len(),
        p(s[hi - 1]),
    ensures
        drop_back_while(s.subrange(lo, hi), p) == drop_back_while(s.subrange(lo, hi - 1), p),
{
    assert(s.subrange(lo, hi).drop_last() =~= s.subrange(lo, hi - 1));
}

/// Strips whitespace from both ends of a string.
fn strip_spaces<'a>(s: &'a str) -> (r: &'a str)
    ensures
        r@ == strip_ends(s@, |c: char| is_space_spec(c)),
{
    strip_both(s, 0)
}

/// Strips leading `<` and trailing `>` from a string.
fn strip_brackets<'a>(s: &'a str) -> (r: &'a str)
    ensures
        r@ == drop_back_while(drop_front_while(s@, |c: char| c == '<'), |c: char| c == '>'),
{
    strip_both(s, 1)
}

/// Whether the character at `i` is one that the front pass strips.
fn front_matches(s: &str, i: usize, which: u8) -> (r: bool)
    requires
        i < s@.len(),
    ensures
        which == 0 ==> r == is_space_spec(s@[i as int]),
        which != 0 ==> r == (s@[i as int] == '<'),
{
    if which == 0 {
        is_space(s.get_char(i))
    } else {
        s.get_char(i) == '<'
    }
}

/// Whether the character at `i` is one that the back pass strips.
fn back_matches(s: &str, i: usize, which: u8) -> (r: bool)
    requires
        i < s@.len(),
    ensures
        which == 0 ==> r == is_space_spec(s@[i as int]),
        which != 0 ==> r == (s@[i as int] == '>'),
{
    if which == 0 {
        is_space(s.get_char(i))
    } else {
        s.get_char(i) == '>'
    }
}

/// Strips, from both ends, either whitespace (`which == 0`) or the copy-paste
/// bracket characters (`which != 0`: `<` in front, `>` at the back).
fn strip_both<'a>(s: &'a str, which: u8) -> (r: &'a str)
    ensures
        which == 0 ==> r@ == strip_ends(s@, |c: char| is_space_spec(c)),
        which != 0 ==> r@ == drop_back_while(
            drop_front_while(s@, |c: char| c == '<'),
            |c: char| c == '>',
        ),
{
    let ghost fp: spec_fn(char) -> bool = if which == 0 {
        |c: char| is_space_spec(c)
    } else {
        |c: char| c == '<'
    };
    let ghost bp: spec_fn(char) -> bool = if which == 0 {
        |c: char| is_space_spec(c)
    } else {
        |c: char| c == '>'
    };
    let n = s.unicode_len();
    proof {
        assert(s@.subrange(0, n as int) =~= s@);
    }
    let mut lo: usize = 0;
    while lo < n && front_matches(s, lo, which)
        invariant
            n == s@.len(),
            lo <= n,
            which == 0 ==> fp == (|c: char| is_space_spec(c)),
            which != 0 ==> fp == (|c: char| c == '<'),
            drop_front_while(s@, fp) == drop_front_while(s@.subrange(lo as int, n as int), fp),
        decreases n - lo,
    {
        proof {
            if which == 0 {
                assert(fp == (|c: char| is_space_spec(c)));
                assert(fp(s@[lo as int]));
            } else {
                assert(fp == (|c: char| c == '<'));
                assert(fp(s@[lo as int]));
            }
            lemma_drop_front_step(s@, fp, lo as int);
        }
        lo = lo + 1;
    }
    proof {
        assert(s@.subrange(0, n as int) =~= s@);
        assert(drop_front_while(s@.subrange(lo as int, n as int), fp) == s@.subrange(
            lo as int,
            n as int,
        ));
    }
    let mut hi: usize = n;
    while lo < hi && back_matches(s, hi - 1, which)
        invariant
            n == s@.len(),
            lo <= hi <= n,
            which == 0 ==> bp == (|c: char| is_space_spec(c)),
            which != 0 ==> bp == (|c: char| c == '>'),
            drop_front_while(s@, fp) == s@.subrange(lo as int, n as int),
            drop_back_while(s@.subrange(lo as int, n as int), bp) == drop_back_while(
                s@.subrange(lo as int, hi as int),
                bp,
            ),
        decreases hi,
    {
        proof {
            if which == 0 {
                assert(bp == (|c: char| is_space_spec(c)));
                assert(bp(s@[hi - 1]));
            } else {
                assert(bp == (|c: char| c == '>'));
                assert(bp(s@[hi - 1]));
            }
            lemma_drop_back_step(s@, bp, lo as int, hi as int);
        }
        hi = hi - 1;
    }
    proof {
        assert(drop_back_while(s@.subrange(lo as int, hi as int), bp) == s@.subrange(
            lo as int,
            hi as int,
        ));
    }
    s.substring_char(lo, hi)
}

/// Normalizes pasted input: trims whitespace, then surrounding `<`/`>`.
pub fn trim_input<'a>(s: &'a str) -> (r: &'a str)
    ensures
        r@ == trim_spec(s@),
{
    strip_brackets(strip_spaces(s))
}

} // verus!
