//! Page-boundary reconciliation: recognising chapter headings that OCR glues
//! to the bottom of the previous page, and carrying them over to the page
//! they introduce.

use vstd::prelude::*;
use vstd::string::StrSliceExecFns;

use crate::text::{
    chars_of, copy_chars, is_digit_char, is_space_char, join_with, slice_lines, spec_is_digit,
    spec_is_lower_latin, spec_is_space, spec_join_with, spec_lines, spec_trim, split_lines,
    string_of, trim_chars, spec_is_blank,
};

verus! {

// --- case-insensitive letter matching (ASCII and Cyrillic) ---

/// `c` equals the lowercase letter `lower`, ignoring case.
pub open spec fn spec_ci_eq(c: char, lower: char) -> bool {
    c == lower || (spec_is_lower_latin(lower) && c as u32 + 32 == lower as u32) || (0x430
        <= lower as u32 && lower as u32 <= 0x44F && c as u32 + 0x20 == lower as u32) || (
    lower as u32 == 0x451 && c as u32 == 0x401)
}

pub fn ci_eq(c: char, lower: char) -> (b: bool)
    ensures
        b == spec_ci_eq(c, lower),
{
    let cu = c as u32;
    let lu = lower as u32;
    c == lower || (97 <= lu && lu <= 122 && cu + 32 == lu) || (0x430 <= lu && lu <= 0x44F && cu
        + 0x20 == lu) || (lu == 0x451 && cu == 0x401)
}

// --- the chapter-heading shape ---

/// Character that may stand in the chapter token (`5`, `IV`, ...).
pub open spec fn spec_is_token_char(c: char) -> bool {
    !spec_is_space(c) && c != '.' && c != ':'
}

pub fn is_token_char(c: char) -> (b: bool)
    ensures
        b == spec_is_token_char(c),
{
    !is_space_char(c) && c != '.' && c != ':'
}

/// Roman-numeral letter, either case.
pub open spec fn spec_is_roman_ci(c: char) -> bool {
    spec_ci_eq(c, 'i') || spec_ci_eq(c, 'v') || spec_ci_eq(c, 'x') || spec_ci_eq(c, 'l')
        || spec_ci_eq(c, 'c') || spec_ci_eq(c, 'd') || spec_ci_eq(c, 'm')
}

pub fn is_roman_ci(c: char) -> (b: bool)
    ensures
        b == spec_is_roman_ci(c),
{
    ci_eq(c, 'i') || ci_eq(c, 'v') || ci_eq(c, 'x') || ci_eq(c, 'l') || ci_eq(c, 'c') || ci_eq(
        c,
        'd',
    ) || ci_eq(c, 'm')
}

/// First index at or after `i` holding a non-space character.
pub open spec fn spec_skip_spaces(s: Seq<char>, i: int) -> int
    decreases s.len() - i,
{
    if i < 0 || i >= s.len() {
        i
    } else if spec_is_space(s[i]) {
        spec_skip_spaces(s, i + 1)
    } else {
        i
    }
}

/// First index at or after `i` that ends the chapter token.
pub open spec fn spec_token_end(s: Seq<char>, i: int) -> int
    decreases s.len() - i,
{
    if i < 0 || i >= s.len() {
        i
    } else if spec_is_token_char(s[i]) {
        spec_token_end(s, i + 1)
    } else {
        i
    }
}

pub proof fn lemma_skip_spaces_bounds(s: Seq<char>, i: int)
    requires
        0 <= i <= s.len(),
    ensures
        i <= spec_skip_spaces(s, i) <= s.len(),
    decreases s.len() - i,
{
    if i < s.len() && spec_is_space(s[i]) {
        lemma_skip_spaces_bounds(s, i + 1);
    }
}

pub proof fn lemma_token_end_bounds(s: Seq<char>, i: int)
    requires
        0 <= i <= s.len(),
    ensures
        i <= spec_token_end(s, i) <= s.len(),
    decreases s.len() - i,
{
    if i < s.len() && spec_is_token_char(s[i]) {
        lemma_token_end_bounds(s, i + 1);
    }
}

/// A line is a chapter heading when, after trimming, it reads `Глава`
/// (any case), then optional spaces, then a token made wholly of digits or
/// wholly of Roman numerals.
pub open spec fn spec_is_chapter_heading(line: Seq<char>) -> bool {
    let t = spec_trim(line);
    &&& t.len() >= 5
    &&& spec_ci_eq(t[0], '\u{0433}')
    &&& spec_ci_eq(t[1], '\u{043B}')
    &&& spec_ci_eq(t[2], '\u{0430}')
    &&& spec_ci_eq(t[3], '\u{0432}')
    &&& spec_ci_eq(t[4], '\u{0430}')
    &&& {
        let j = spec_skip_spaces(t, 5);
        let e = spec_token_end(t, j);
        &&& e > j
        &&& ((forall|k: int| j <= k < e ==> spec_is_digit(#[trigger] t[k])) || (forall|k: int|
            j <= k < e ==> spec_is_roman_ci(#[trigger] t[k])))
    }
}

/// Chapter-heading test on a line held as characters.
pub fn is_chapter_heading_chars(line: &Vec<char>) -> (b: bool)
    ensures
        b == spec_is_chapter_heading(line@),
{
    let t = trim_chars(line);
    let n = t.len();
    if n < 5 {
        return false;
    }
    if !(ci_eq(t[0], '\u{0433}') && ci_eq(t[1], '\u{043B}') && ci_eq(t[2], '\u{0430}') && ci_eq(
        t[3],
        '\u{0432}',
    ) && ci_eq(t[4], '\u{0430}')) {
        return false;
    }
    let mut j: usize = 5;
    while j < n && is_space_char(t[j])
        invariant
            5 <= j <= n,
            n == t@.len(),
            spec_skip_spaces(t@, 5) == spec_skip_spaces(t@, j as int),
        decreases n - j,
    {
        j = j + 1;
    }
    proof {
        assert(spec_skip_spaces(t@, j as int) == j);
    }
    let mut e: usize = j;
    while e < n && is_token_char(t[e])
        invariant
            j <= e <= n,
            n == t@.len(),
            spec_token_end(t@, j as int) == spec_token_end(t@, e as int),
        decreases n - e,
    {
        e = e + 1;
    }
    proof {
        assert(spec_token_end(t@, e as int) == e);
    }
    if e == j {
        return false;
    }
    let mut all_digits = true;
    let mut all_roman = true;
    let mut k: usize = j;
    while k < e
        invariant
            j <= k <= e <= n,
            n == t@.len(),
            all_digits == (forall|m: int| j <= m < k ==> spec_is_digit(#[trigger] t@[m])),
            all_roman == (forall|m: int| j <= m < k ==> spec_is_roman_ci(#[trigger] t@[m])),
        decreases e - k,
    {
        if !is_digit_char(t[k]) {
            all_digits = false;
        }
        if !is_roman_ci(t[k]) {
            all_roman = false;
        }
        k = k + 1;
    }
    all_digits || all_roman
}

/// Chapter-heading test on a string line.
pub fn is_chapter_heading_line(line: &str) -> (b: bool)
    ensures
        b == spec_is_chapter_heading(line@),
{
    let v = chars_of(line);
    is_chapter_heading_chars(&v)
}

// --- trailing-heading carryover ---

/// Index of the last line that is not blank; `-1` when every line is blank.
pub open spec fn spec_last_nonblank(lines: Seq<Seq<char>>) -> int
    decreases lines.len(),
{
    if lines.len() == 0 {
        -1
    } else if !spec_is_blank(lines[lines.len() - 1]) {
        lines.len() - 1
    } else {
        spec_last_nonblank(lines.drop_last())
    }
}

/// The newline separator used when lines are joined back together.
pub open spec fn spec_nl() -> Seq<char> {
    seq!['\n']
}

/// View of an optional string.
pub open spec fn opt_view(o: Option<String>) -> Option<Seq<char>> {
    match o {
        Some(s) => Some(s@),
        None => None,
    }
}

/// What `split_trailing_chapter_heading` returns: the page's own text, and
/// the heading carried over to the next page, if the last non-blank line is
/// a chapter heading.
pub open spec fn spec_split_trailing_heading(s: Seq<char>) -> (Seq<char>, Option<Seq<char>>) {
    let lines = spec_lines(s);
    let k = spec_last_nonblank(lines);
    if k < 0 {
        (Seq::<char>::empty(), None::<Seq<char>>)
    } else if !spec_is_chapter_heading(lines[k]) {
        (spec_trim(s), None::<Seq<char>>)
    } else {
        let cur = spec_trim(spec_join_with(lines.subrange(0, k), spec_nl()));
        let carry = spec_trim(spec_join_with(lines.subrange(k, lines.len() as int), spec_nl()));
        if carry.len() == 0 {
            (cur, None::<Seq<char>>)
        } else {
            (cur, Some(carry))
        }
    }
}

/// Split a page's text from a trailing chapter heading.
///
/// When the last non-blank line is a chapter heading, everything from that
/// line on is returned separately, to be prepended to the next page's text;
/// otherwise the text comes back trimmed, with no carryover.
pub fn split_trailing_chapter_heading(text: &str) -> (r: (String, Option<String>))
    ensures
        r.0@ == spec_split_trailing_heading(text@).0,
        opt_view(r.1) == spec_split_trailing_heading(text@).1,
{
    let v = chars_of(text);
    let lines = split_lines(&v);
    let ghost lseq = lines@.map_values(|l: Vec<char>| l@);
    let n = lines.len();
    let mut last_nb: Option<usize> = None;
    let mut j: usize = 0;
    proof {
        assert(lseq.subrange(0, 0) =~= Seq::<Seq<char>>::empty());
    }
    while j < n
        invariant
            j <= n,
            n == lseq.len(),
            lseq == lines@.map_values(|l: Vec<char>| l@),
            match last_nb {
                None => spec_last_nonblank(lseq.subrange(0, j as int)) == -1,
                Some(k) => k < j && spec_last_nonblank(lseq.subrange(0, j as int)) == k,
            },
        decreases n - j,
    {
        proof {
            assert(lseq.subrange(0, j + 1).drop_last() =~= lseq.subrange(0, j as int));
            assert(lseq.subrange(0, j + 1)[j as int] == lseq[j as int]);
            assert(lseq[j as int] == lines@[j as int]@);
        }
        let t = trim_chars(&lines[j]);
        if t.len() > 0 {
            last_nb = Some(j);
        }
        j = j + 1;
    }
    proof {
        assert(lseq.subrange(0, n as int) =~= lseq);
    }
    let k = match last_nb {
        None => {
            return (String::new(), None);
        },
        Some(k) => k,
    };
    if !is_chapter_heading_chars(&lines[k]) {
        let t = trim_chars(&v);
        return (string_of(&t), None);
    }
    let nl: Vec<char> = vec!['\n'];
    proof {
        assert(nl@ =~= spec_nl());
    }
    let before = slice_lines(&lines, 0, k);
    let after = slice_lines(&lines, k, n);
    let cur_joined = join_with(&before, &nl);
    let carry_joined = join_with(&after, &nl);
    let cur = trim_chars(&cur_joined);
    let carry = trim_chars(&carry_joined);
    if carry.len() == 0 {
        (string_of(&cur), None)
    } else {
        (string_of(&cur), Some(string_of(&carry)))
    }
}

// --- continuation tails ---

/// Sentence-ending punctuation for the continuation-tail judgement.
pub open spec fn spec_tail_terminated(c: char) -> bool {
    c == '.' || c == ';' || c == '!' || c == '?' || c == ')'
}

/// The trailing lines of a problem judged to spill onto the next page:
/// everything after the first line, provided the content has at least two
/// lines and its last line does not end in sentence punctuation.
pub open spec fn spec_continuation_tail(content: Seq<char>, continues_to_next: bool) -> Option<
    Seq<char>,
> {
    if !continues_to_next {
        None::<Seq<char>>
    } else {
        let t = spec_trim(content);
        if t.len() == 0 {
            None::<Seq<char>>
        } else {
            let lines = spec_lines(t);
            if lines.len() < 2 {
                None::<Seq<char>>
            } else {
                let last = spec_trim(lines[lines.len() - 1]);
                if last.len() > 0 && spec_tail_terminated(last[last.len() - 1]) {
                    None::<Seq<char>>
                } else {
                    let tail = spec_trim(
                        spec_join_with(lines.subrange(1, lines.len() as int), spec_nl()),
                    );
                    if tail.len() == 0 {
                        None::<Seq<char>>
                    } else {
                        Some(tail)
                    }
                }
            }
        }
    }
}

/// Compute the continuation tail of a problem's content.
pub fn continuation_tail_chars(content: &str, continues_to_next: bool) -> (r: Option<String>)
    ensures
        opt_view(r) == spec_continuation_tail(content@, continues_to_next),
{
    if !continues_to_next {
        return None;
    }
    let cv = chars_of(content);
    let t = trim_chars(&cv);
    if t.len() == 0 {
        return None;
    }
    let lines = split_lines(&t);
    let n = lines.len();
    proof {
        crate::text::lemma_lines_nonempty(t@);
        assert(lines@.map_values(|l: Vec<char>| l@)[n - 1] == lines@[n - 1]@);
    }
    if n < 2 {
        return None;
    }
    let last = trim_chars(&lines[n - 1]);
    if last.len() > 0 {
        let c = last[last.len() - 1];
        if c == '.' || c == ';' || c == '!' || c == '?' || c == ')' {
            return None;
        }
    }
    let nl: Vec<char> = vec!['\n'];
    proof {
        assert(nl@ =~= spec_nl());
    }
    let rest = slice_lines(&lines, 1, n);
    let joined = join_with(&rest, &nl);
    let tail = trim_chars(&joined);
    if tail.len() == 0 {
        None
    } else {
        Some(string_of(&tail))
    }
}

/// Prepend the previous page's unfinished tail onto this page's content.
pub open spec fn spec_merge_with_prev(content: Seq<char>, tail: Option<Seq<char>>) -> Seq<char> {
    match tail {
        Some(t) => if t.len() > 0 {
            t + seq!['\n', '\n'] + content
        } else {
            content
        },
        None => content,
    }
}

/// Merge content from the previous page with the current content.
pub fn merge_with_prev_chars(content: &str, tail: Option<&str>) -> (r: String)
    ensures
        r@ == spec_merge_with_prev(
            content@,
            match tail {
                Some(t) => Some(t@),
                None => None,
            },
        ),
{
    if let Some(t) = tail {
        if t.unicode_len() > 0 {
            let mut out = chars_of(t);
            out.push('\n');
            out.push('\n');
            let cv = chars_of(content);
            crate::text::push_all(&mut out, &cv);
            proof {
                assert(out@ =~= t@ + seq!['\n', '\n'] + content@);
            }
            return string_of(&out);
        }
    }
    let cv = chars_of(content);
    string_of(&cv)
}

} // verus!
