//! The looser, number-prefix-based fallback parser: line-oriented
//! extraction of problems and theory blocks from OCR text of any book.

use vstd::prelude::*;

use crate::models::{Problem, TheoryBlock, TheoryType};
use crate::parse::spec_digits_end;
use crate::reconcile::{ci_eq, spec_ci_eq, spec_skip_spaces};
use crate::text::{
    chars_of, is_digit_char, is_space_char, spec_is_digit, spec_is_space, split_lines, string_of,
    trim_chars, spec_trim, spec_lines, parse_u32, copy_chars, push_all,
};

verus! {

// --- character walks shared by the detectors ---

/// First index at or after `i` past any `#` characters.
pub open spec fn spec_skip_hashes(s: Seq<char>, i: int) -> int
    decreases s.len() - i,
{
    if i < 0 || i >= s.len() {
        i
    } else if s[i] == '#' {
        spec_skip_hashes(s, i + 1)
    } else {
        i
    }
}

fn skip_hashes_from(v: &Vec<char>, i: usize) -> (j: usize)
    requires
        i <= v@.len(),
    ensures
        j == spec_skip_hashes(v@, i as int),
        i <= j <= v@.len(),
{
    let n = v.len();
    let mut j: usize = i;
    while j < n && v[j] == '#'
        invariant
            i <= j <= n,
            n == v@.len(),
            spec_skip_hashes(v@, i as int) == spec_skip_hashes(v@, j as int),
        decreases n - j,
    {
        j = j + 1;
    }
    j
}

fn skip_spaces_at(v: &Vec<char>, i: usize) -> (j: usize)
    requires
        i <= v@.len(),
    ensures
        j == spec_skip_spaces(v@, i as int),
        i <= j <= v@.len(),
{
    let n = v.len();
    let mut j: usize = i;
    while j < n && is_space_char(v[j])
        invariant
            i <= j <= n,
            n == v@.len(),
            spec_skip_spaces(v@, i as int) == spec_skip_spaces(v@, j as int),
        decreases n - j,
    {
        j = j + 1;
    }
    j
}

fn digits_end_at(v: &Vec<char>, i: usize) -> (j: usize)
    requires
        i <= v@.len(),
    ensures
        j == spec_digits_end(v@, i as int),
        i <= j <= v@.len(),
{
    let n = v.len();
    let mut j: usize = i;
    while j < n && is_digit_char(v[j])
        invariant
            i <= j <= n,
            n == v@.len(),
            spec_digits_end(v@, i as int) == spec_digits_end(v@, j as int),
        decreases n - j,
    {
        j = j + 1;
    }
    j
}

/// A word matched case-insensitively at position `i`.
pub open spec fn spec_ci_word_at(s: Seq<char>, i: int, word: Seq<char>) -> bool {
    &&& 0 <= i
    &&& i + word.len() <= s.len()
    &&& forall|k: int| 0 <= k < word.len() ==> spec_ci_eq(s[i + k], #[trigger] word[k])
}

pub fn ci_word_at(v: &Vec<char>, i: usize, word: &Vec<char>) -> (b: bool)
    requires
        i <= v@.len(),
    ensures
        b == spec_ci_word_at(v@, i as int, word@),
{
    let n = v.len();
    let m = word.len();
    if m > n - i {
        return false;
    }
    let mut k: usize = 0;
    while k < m
        invariant
            k <= m,
            m == word@.len(),
            n == v@.len(),
            i + m <= n,
            forall|q: int| 0 <= q < k ==> spec_ci_eq(v@[i + q], #[trigger] word@[q]),
        decreases m - k,
    {
        if !ci_eq(v[i + k], word[k]) {
            return false;
        }
        k = k + 1;
    }
    true
}

// --- detecting a problem start ---

/// Word-ish character allowed after the leading digits of a problem
/// number: a digit, a dot, a Latin or Cyrillic letter, or an underscore.
pub open spec fn spec_is_numtail_char(c: char) -> bool {
    spec_is_digit(c) || c == '.' || c == '_' || crate::parse::spec_is_letter(c)
}

fn is_numtail_char(c: char) -> (b: bool)
    ensures
        b == spec_is_numtail_char(c),
{
    is_digit_char(c) || c == '.' || c == '_' || crate::parse::is_letter_char(c)
}

/// First index at or after `i` past the number tail.
pub open spec fn spec_numtail_end(s: Seq<char>, i: int) -> int
    decreases s.len() - i,
{
    if i < 0 || i >= s.len() {
        i
    } else if spec_is_numtail_char(s[i]) {
        spec_numtail_end(s, i + 1)
    } else {
        i
    }
}

fn numtail_end_at(v: &Vec<char>, i: usize) -> (j: usize)
    requires
        i <= v@.len(),
    ensures
        j == spec_numtail_end(v@, i as int),
        i <= j <= v@.len(),
{
    let n = v.len();
    let mut j: usize = i;
    while j < n && is_numtail_char(v[j])
        invariant
            i <= j <= n,
            n == v@.len(),
            spec_numtail_end(v@, i as int) == spec_numtail_end(v@, j as int),
        decreases n - j,
    {
        j = j + 1;
    }
    j
}

/// Dot-or-digit tail, for the bare `12.3` numbering.
pub open spec fn spec_is_dotnum_char(c: char) -> bool {
    spec_is_digit(c) || c == '.'
}

pub open spec fn spec_dotnum_end(s: Seq<char>, i: int) -> int
    decreases s.len() - i,
{
    if i < 0 || i >= s.len() {
        i
    } else if spec_is_dotnum_char(s[i]) {
        spec_dotnum_end(s, i + 1)
    } else {
        i
    }
}

fn dotnum_end_at(v: &Vec<char>, i: usize) -> (j: usize)
    requires
        i <= v@.len(),
    ensures
        j == spec_dotnum_end(v@, i as int),
        i <= j <= v@.len(),
{
    let n = v.len();
    let mut j: usize = i;
    while j < n && (is_digit_char(v[j]) || v[j] == '.')
        invariant
            i <= j <= n,
            n == v@.len(),
            spec_dotnum_end(v@, i as int) == spec_dotnum_end(v@, j as int),
        decreases n - j,
    {
        j = j + 1;
    }
    j
}

/// Delimiter that must follow a numbered heading: `:`, `.`, `)` or space.
pub open spec fn spec_is_after_num(c: char) -> bool {
    c == ':' || c == '.' || c == ')' || spec_is_space(c)
}

/// A keyword-led problem heading: optional spaces and `#`s, the word, a
/// `№` or `#` marker, the number, and a closing delimiter. The number
/// runs over `tail_end`; `digits_only` restricts its tail to digits.
pub open spec fn spec_keyword_problem(s: Seq<char>, word: Seq<char>, digits_only: bool) -> Option<
    Seq<char>,
> {
    let a = spec_skip_spaces(s, 0);
    let b = spec_skip_hashes(s, a);
    let c = spec_skip_spaces(s, b);
    if !spec_ci_word_at(s, c, word) {
        None::<Seq<char>>
    } else {
        let d = c + word.len();
        let e = spec_skip_spaces(s, d);
        let f = if e < s.len() && (s[e] == '\u{2116}' || s[e] == '#') {
            e + 1
        } else {
            e
        };
        let g = spec_skip_spaces(s, f);
        let h = spec_digits_end(s, g);
        if h == g {
            None::<Seq<char>>
        } else {
            let t = if digits_only {
                h
            } else {
                spec_numtail_end(s, h)
            };
            if t < s.len() && spec_is_after_num(s[t]) {
                Some(s.subrange(g, t))
            } else {
                None::<Seq<char>>
            }
        }
    }
}

/// The rest of a bare numeric heading works from position `e` on: spaces,
/// a `.`/`)`/`]` delimiter, spaces, then `$` or an uppercase letter.
pub open spec fn spec_bare_ok(s: Seq<char>, e: int) -> bool {
    let w = spec_skip_spaces(s, e);
    &&& w < s.len()
    &&& (s[w] == '.' || s[w] == ')' || s[w] == ']')
    &&& {
        let x = spec_skip_spaces(s, w + 1);
        x < s.len() && (s[x] == '$' || spec_is_upper_letter(s[x]))
    }
}

/// The longest number ending in `[h, e]` whose remainder reads as a
/// heading; dots at the end of the run yield to the delimiter.
pub open spec fn spec_bare_search(s: Seq<char>, a: int, h: int, e: int) -> Option<Seq<char>>
    decreases e - h + 1,
{
    if e < h {
        None::<Seq<char>>
    } else if spec_bare_ok(s, e) {
        Some(s.subrange(a, e))
    } else {
        spec_bare_search(s, a, h, e - 1)
    }
}

/// A bare numeric heading: `12.` / `3)` / `4]` followed by `$` or an
/// uppercase letter, as printed problem statements start. The number may
/// carry a dotted tail (`1.2`).
pub open spec fn spec_bare_number_problem(s: Seq<char>) -> Option<Seq<char>> {
    let a = spec_skip_spaces(s, 0);
    let h = spec_digits_end(s, a);
    if h == a {
        None::<Seq<char>>
    } else {
        spec_bare_search(s, a, h, spec_dotnum_end(s, h))
    }
}

/// Uppercase Latin or Cyrillic letter.
pub open spec fn spec_is_upper_letter(c: char) -> bool {
    (65 <= c as u32 && c as u32 <= 90) || (0x410 <= c as u32 && c as u32 <= 0x42F) || c as u32
        == 0x401
}

fn is_upper_letter(c: char) -> (b: bool)
    ensures
        b == spec_is_upper_letter(c),
{
    let u = c as u32;
    (65 <= u && u <= 90) || (0x410 <= u && u <= 0x42F) || u == 0x401
}

/// A marker-led heading: `№12.` or `#12:`.
pub open spec fn spec_marker_problem(s: Seq<char>) -> Option<Seq<char>> {
    let a = spec_skip_spaces(s, 0);
    if a < s.len() && (s[a] == '\u{2116}' || s[a] == '#') {
        let b = spec_skip_spaces(s, a + 1);
        let h = spec_digits_end(s, b);
        if h == b {
            None::<Seq<char>>
        } else if h < s.len() && spec_is_after_num(s[h]) {
            Some(s.subrange(b, h))
        } else {
            None::<Seq<char>>
        }
    } else {
        None::<Seq<char>>
    }
}

/// The problem-number word for `Задача`-like headings.
pub open spec fn spec_word_zadacha() -> Seq<char> {
    seq!['\u{0437}', '\u{0430}', '\u{0434}', '\u{0430}', '\u{0447}', '\u{0430}']
}

pub open spec fn spec_word_uprazhnenie() -> Seq<char> {
    seq![
        '\u{0443}',
        '\u{043F}',
        '\u{0440}',
        '\u{0430}',
        '\u{0436}',
        '\u{043D}',
        '\u{0435}',
        '\u{043D}',
        '\u{0438}',
        '\u{0435}',
    ]
}

/// What a line yields as a problem start: the first heading shape that
/// matches, in the order the parser tries them.
pub open spec fn spec_detect_problem_start(s: Seq<char>) -> Option<Seq<char>> {
    if spec_keyword_problem(s, spec_word_zadacha(), false) is Some {
        spec_keyword_problem(s, spec_word_zadacha(), false)
    } else if spec_keyword_problem(s, spec_word_uprazhnenie(), true) is Some {
        spec_keyword_problem(s, spec_word_uprazhnenie(), true)
    } else if spec_keyword_problem(s, seq!['e', 'x', 'a', 'm', 'p', 'l', 'e'], true) is Some {
        spec_keyword_problem(s, seq!['e', 'x', 'a', 'm', 'p', 'l', 'e'], true)
    } else if spec_keyword_problem(s, seq!['p', 'r', 'o', 'b', 'l', 'e', 'm'], true) is Some {
        spec_keyword_problem(s, seq!['p', 'r', 'o', 'b', 'l', 'e', 'm'], true)
    } else if spec_keyword_problem(s, seq!['e', 'x', 'e', 'r', 'c', 'i', 's', 'e'], true) is Some {
        spec_keyword_problem(s, seq!['e', 'x', 'e', 'r', 'c', 'i', 's', 'e'], true)
    } else if spec_bare_number_problem(s) is Some {
        spec_bare_number_problem(s)
    } else {
        spec_marker_problem(s)
    }
}

/// Recognise a keyword-led heading.
fn keyword_problem(v: &Vec<char>, word: &Vec<char>, digits_only: bool) -> (r: Option<Vec<char>>)
    ensures
        match r {
            Some(num) => spec_keyword_problem(v@, word@, digits_only) == Some(num@),
            None => spec_keyword_problem(v@, word@, digits_only) is None,
        },
{
    let a = skip_spaces_at(v, 0);
    let b = skip_hashes_from(v, a);
    let c = skip_spaces_at(v, b);
    if !ci_word_at(v, c, word) {
        return None;
    }
    let n = v.len();
    proof {
        assert(c + word@.len() <= v@.len());
        assert(n == v@.len());
    }
    let d = c + word.len();
    let e = skip_spaces_at(v, d);
    let f = if e < v.len() && (v[e] == '\u{2116}' || v[e] == '#') {
        e + 1
    } else {
        e
    };
    let g = skip_spaces_at(v, f);
    let h = digits_end_at(v, g);
    if h == g {
        return None;
    }
    let t = if digits_only {
        h
    } else {
        numtail_end_at(v, h)
    };
    if t < v.len() {
        let c2 = v[t];
        if c2 == ':' || c2 == '.' || c2 == ')' || is_space_char(c2) {
            let mut num: Vec<char> = Vec::new();
            let mut k: usize = g;
            while k < t
                invariant
                    g <= k <= t <= v@.len(),
                    num@ =~= v@.subrange(g as int, k as int),
                decreases t - k,
            {
                num.push(v[k]);
                proof {
                    assert(num@ =~= v@.subrange(g as int, k + 1));
                }
                k = k + 1;
            }
            return Some(num);
        }
    }
    None
}

/// Does the remainder at `e` read as a heading?
fn bare_ok_at(v: &Vec<char>, e: usize) -> (b: bool)
    requires
        e <= v@.len(),
    ensures
        b == spec_bare_ok(v@, e as int),
{
    let w = skip_spaces_at(v, e);
    if w < v.len() {
        let c = v[w];
        if c == '.' || c == ')' || c == ']' {
            let x = skip_spaces_at(v, w + 1);
            if x < v.len() && (v[x] == '$' || is_upper_letter(v[x])) {
                return true;
            }
        }
    }
    false
}

/// Recognise a bare numeric heading.
fn bare_number_problem(v: &Vec<char>) -> (r: Option<Vec<char>>)
    ensures
        match r {
            Some(num) => spec_bare_number_problem(v@) == Some(num@),
            None => spec_bare_number_problem(v@) is None,
        },
{
    let a = skip_spaces_at(v, 0);
    let h = digits_end_at(v, a);
    if h == a {
        return None;
    }
    let t0 = dotnum_end_at(v, h);
    proof {
        assert(spec_bare_number_problem(v@) == spec_bare_search(v@, a as int, h as int, t0 as int));
    }
    let mut e = t0;
    while e >= h
        invariant
            1 <= h <= e + 1,
            e <= t0 <= v@.len(),
            a < h,
            spec_bare_number_problem(v@) == spec_bare_search(v@, a as int, h as int, e as int),
        decreases e,
    {
        if bare_ok_at(v, e) {
            let num = crate::text::slice_chars(v, a, e);
            return Some(num);
        }
        e = e - 1;
    }
    proof {
        assert(spec_bare_search(v@, a as int, h as int, e as int) is None);
    }
    None
}

/// Recognise a `№`/`#`-marker heading.
fn marker_problem(v: &Vec<char>) -> (r: Option<Vec<char>>)
    ensures
        match r {
            Some(num) => spec_marker_problem(v@) == Some(num@),
            None => spec_marker_problem(v@) is None,
        },
{
    let a = skip_spaces_at(v, 0);
    if a < v.len() && (v[a] == '\u{2116}' || v[a] == '#') {
        let b = skip_spaces_at(v, a + 1);
        let h = digits_end_at(v, b);
        if h == b {
            return None;
        }
        if h < v.len() {
            let c = v[h];
            if c == ':' || c == '.' || c == ')' || is_space_char(c) {
                let mut num: Vec<char> = Vec::new();
                let mut k: usize = b;
                while k < h
                    invariant
                        b <= k <= h <= v@.len(),
                        num@ =~= v@.subrange(b as int, k as int),
                    decreases h - k,
                {
                    num.push(v[k]);
                    proof {
                        assert(num@ =~= v@.subrange(b as int, k + 1));
                    }
                    k = k + 1;
                }
                return Some(num);
            }
        }
    }
    None
}

// --- lowercasing single letters ---

/// Relies on std's char::from_u32: the character with that scalar value;
/// only surrogates and values past the last scalar have none.
#[verifier::external_body]
fn char_from_u32(u: u32) -> (r: Option<char>)
    ensures
        match r {
            Some(c) => c as u32 == u,
            None => u > 0x10FFFF || (0xD800 <= u && u <= 0xDFFF),
        },
{
    char::from_u32(u)
}

/// The lowercase counterpart of a Latin or Cyrillic letter.
pub open spec fn spec_lower_letter(c: char) -> char {
    if 65 <= c as u32 && c as u32 <= 90 {
        ((c as u32) + 32) as char
    } else if 0x410 <= c as u32 && c as u32 <= 0x42F {
        ((c as u32) + 0x20) as char
    } else if c as u32 == 0x401 {
        '\u{0451}'
    } else {
        c
    }
}

fn lower_letter(c: char) -> (r: char)
    ensures
        r == spec_lower_letter(c),
{
    let u = c as u32;
    if (65 <= u && u <= 90) || (0x410 <= u && u <= 0x42F) {
        match char_from_u32(u + 32) {
            Some(l) => {
                proof {
                    assert(l as u32 == u + 32);
                    vstd::utf8::char_u32_cast(l, (u + 32) as u32);
                    assert(l == ((u + 32) as u32) as char);
                }
                l
            },
            None => {
                proof {
                    assert(false);
                }
                c
            },
        }
    } else if u == 0x401 {
        '\u{0451}'
    } else {
        c
    }
}

// --- detecting theory blocks ---

/// Character that separates a theory heading from its inline title.
pub open spec fn spec_is_title_sep(c: char) -> bool {
    c == ':' || c == '.' || spec_is_space(c)
}

pub open spec fn spec_title_sep_end(s: Seq<char>, i: int) -> int
    decreases s.len() - i,
{
    if i < 0 || i >= s.len() {
        i
    } else if spec_is_title_sep(s[i]) {
        spec_title_sep_end(s, i + 1)
    } else {
        i
    }
}

fn title_sep_end_at(v: &Vec<char>, i: usize) -> (j: usize)
    requires
        i <= v@.len(),
    ensures
        j == spec_title_sep_end(v@, i as int),
        i <= j <= v@.len(),
{
    let n = v.len();
    let mut j: usize = i;
    while j < n && (v[j] == ':' || v[j] == '.' || is_space_char(v[j]))
        invariant
            i <= j <= n,
            n == v@.len(),
            spec_title_sep_end(v@, i as int) == spec_title_sep_end(v@, j as int),
        decreases n - j,
    {
        j = j + 1;
    }
    j
}

/// What a matched theory keyword yields: number digits, inline title, and
/// the block type.
pub open spec fn spec_theory_after_kw(s: Seq<char>, d: int) -> (Option<Seq<char>>, Option<
    Seq<char>,
>) {
    let e = spec_skip_spaces(s, d);
    let h = spec_digits_end(s, e);
    let g = spec_title_sep_end(s, h);
    let rest = spec_trim(s.subrange(g, s.len() as int));
    let num = if h == e {
        None::<Seq<char>>
    } else {
        Some(s.subrange(e, h))
    };
    let title = if rest.len() == 0 {
        None::<Seq<char>>
    } else {
        Some(rest)
    };
    (num, title)
}

/// The combined title of a theory block: its number, its inline title, or
/// both joined with a space.
pub open spec fn spec_theory_title(num: Option<Seq<char>>, title: Option<Seq<char>>) -> Option<
    Seq<char>,
> {
    match (num, title) {
        (Some(n), Some(t)) => Some(n + seq![' '] + t),
        (Some(n), None) => Some(n),
        (None, Some(t)) => Some(t),
        (None, None) => None::<Seq<char>>,
    }
}

/// Where the theory keyword of a line ends, with its block type; the
/// keywords are tried in a fixed order, case-insensitively.
pub open spec fn spec_theory_kw(s: Seq<char>) -> Option<(int, TheoryType)> {
    let a = spec_skip_spaces(s, 0);
    let b = spec_skip_hashes(s, a);
    let c = spec_skip_spaces(s, b);
    if spec_ci_word_at(s, c, spec_word_teorema()) {
        Some((c + 7, TheoryType::Theorem))
    } else if spec_ci_word_at(s, c, spec_word_opredelenie()) {
        Some((c + 11, TheoryType::Definition))
    } else if spec_ci_word_at(s, c, spec_word_svoistvo()) {
        Some((c + 8, TheoryType::Property))
    } else if spec_ci_word_at(s, c, spec_word_formula_ru()) {
        Some((c + 7, TheoryType::Formula))
    } else if spec_ci_word_at(s, c, spec_word_dokazatelstvo()) {
        Some((c + 14, TheoryType::Proof))
    } else if spec_ci_word_at(s, c, seq!['t', 'h', 'e', 'o', 'r', 'e', 'm']) {
        Some((c + 7, TheoryType::Theorem))
    } else if spec_ci_word_at(s, c, seq!['d', 'e', 'f', 'i', 'n', 'i', 't', 'i', 'o', 'n']) {
        Some((c + 10, TheoryType::Definition))
    } else if spec_ci_word_at(s, c, seq!['p', 'r', 'o', 'p', 'e', 'r', 't', 'y']) {
        Some((c + 8, TheoryType::Property))
    } else if spec_ci_word_at(s, c, seq!['f', 'o', 'r', 'm', 'u', 'l', 'a']) {
        Some((c + 7, TheoryType::Formula))
    } else if spec_ci_word_at(s, c, seq!['p', 'r', 'o', 'o', 'f']) {
        Some((c + 5, TheoryType::Other))
    } else {
        None::<(int, TheoryType)>
    }
}

pub open spec fn spec_word_teorema() -> Seq<char> {
    seq!['\u{0442}', '\u{0435}', '\u{043E}', '\u{0440}', '\u{0435}', '\u{043C}', '\u{0430}']
}

pub open spec fn spec_word_opredelenie() -> Seq<char> {
    seq![
        '\u{043E}',
        '\u{043F}',
        '\u{0440}',
        '\u{0435}',
        '\u{0434}',
        '\u{0435}',
        '\u{043B}',
        '\u{0435}',
        '\u{043D}',
        '\u{0438}',
        '\u{0435}',
    ]
}

pub open spec fn spec_word_svoistvo() -> Seq<char> {
    seq![
        '\u{0441}',
        '\u{0432}',
        '\u{043E}',
        '\u{0439}',
        '\u{0441}',
        '\u{0442}',
        '\u{0432}',
        '\u{043E}',
    ]
}

pub open spec fn spec_word_formula_ru() -> Seq<char> {
    seq!['\u{0444}', '\u{043E}', '\u{0440}', '\u{043C}', '\u{0443}', '\u{043B}', '\u{0430}']
}

pub open spec fn spec_word_dokazatelstvo() -> Seq<char> {
    seq![
        '\u{0434}',
        '\u{043E}',
        '\u{043A}',
        '\u{0430}',
        '\u{0437}',
        '\u{0430}',
        '\u{0442}',
        '\u{0435}',
        '\u{043B}',
        '\u{044C}',
        '\u{0441}',
        '\u{0442}',
        '\u{0432}',
        '\u{043E}',
    ]
}

/// What a line yields as a theory-block start.
pub open spec fn spec_detect_theory(s: Seq<char>) -> Option<(TheoryType, Option<Seq<char>>)> {
    match spec_theory_kw(s) {
        Some((d, ty)) => {
            let (num, title) = spec_theory_after_kw(s, d);
            Some((ty, spec_theory_title(num, title)))
        },
        None => None::<(TheoryType, Option<Seq<char>>)>,
    }
}

/// Recognise a theory-block heading.
pub fn detect_theory_start(v: &Vec<char>) -> (r: Option<(TheoryType, Option<Vec<char>>)>)
    ensures
        match r {
            Some((ty, title)) => spec_detect_theory(v@) matches Some(st) && st.0 == ty && (match (
                title,
                st.1,
            ) {
                (Some(a), Some(b)) => a@ == b,
                (None, None) => true,
                _ => false,
            }),
            None => spec_detect_theory(v@) is None,
        },
{
    let a = skip_spaces_at(v, 0);
    let b = skip_hashes_from(v, a);
    let c = skip_spaces_at(v, b);
    let kw = theory_kw_at(v, c);
    let (wlen, ty) = match kw {
        Some(p) => p,
        None => {
            return None;
        },
    };
    let nn = v.len();
    proof {
        assert(c + wlen <= v@.len());
        assert(nn == v@.len());
    }
    let d = c + wlen;
    let e = skip_spaces_at(v, d);
    let h = digits_end_at(v, e);
    let g = title_sep_end_at(v, h);
    let rest_raw = crate::text::slice_chars(v, g, v.len());
    let rest = trim_chars(&rest_raw);
    let has_num = h > e;
    let has_title = rest.len() > 0;
    let title: Option<Vec<char>> = if has_num && has_title {
        let mut out = crate::text::slice_chars(v, e, h);
        out.push(' ');
        push_all(&mut out, &rest);
        proof {
            assert(out@ =~= v@.subrange(e as int, h as int) + seq![' '] + rest@);
        }
        Some(out)
    } else if has_num {
        Some(crate::text::slice_chars(v, e, h))
    } else if has_title {
        Some(rest)
    } else {
        None
    };
    Some((ty, title))
}

/// Match the theory keyword at `c`, yielding its length and block type.
fn theory_kw_at(v: &Vec<char>, c: usize) -> (r: Option<(usize, TheoryType)>)
    requires
        c <= v@.len(),
        c == spec_skip_spaces(v@, spec_skip_hashes(v@, spec_skip_spaces(v@, 0))),
    ensures
        match r {
            Some((wlen, ty)) => spec_theory_kw(v@) == Some((c + wlen, ty)),
            None => spec_theory_kw(v@) is None,
        },
{
    let w1: Vec<char> = vec![
        '\u{0442}',
        '\u{0435}',
        '\u{043E}',
        '\u{0440}',
        '\u{0435}',
        '\u{043C}',
        '\u{0430}',
    ];
    proof {
        assert(w1@ =~= spec_word_teorema());
    }
    if ci_word_at(v, c, &w1) {
        return Some((7, TheoryType::Theorem));
    }
    let w2: Vec<char> = vec![
        '\u{043E}',
        '\u{043F}',
        '\u{0440}',
        '\u{0435}',
        '\u{0434}',
        '\u{0435}',
        '\u{043B}',
        '\u{0435}',
        '\u{043D}',
        '\u{0438}',
        '\u{0435}',
    ];
    proof {
        assert(w2@ =~= spec_word_opredelenie());
    }
    if ci_word_at(v, c, &w2) {
        return Some((11, TheoryType::Definition));
    }
    let w3: Vec<char> = vec![
        '\u{0441}',
        '\u{0432}',
        '\u{043E}',
        '\u{0439}',
        '\u{0441}',
        '\u{0442}',
        '\u{0432}',
        '\u{043E}',
    ];
    proof {
        assert(w3@ =~= spec_word_svoistvo());
    }
    if ci_word_at(v, c, &w3) {
        return Some((8, TheoryType::Property));
    }
    let w4: Vec<char> = vec![
        '\u{0444}',
        '\u{043E}',
        '\u{0440}',
        '\u{043C}',
        '\u{0443}',
        '\u{043B}',
        '\u{0430}',
    ];
    proof {
        assert(w4@ =~= spec_word_formula_ru());
    }
    if ci_word_at(v, c, &w4) {
        return Some((7, TheoryType::Formula));
    }
    let w5: Vec<char> = vec![
        '\u{0434}',
        '\u{043E}',
        '\u{043A}',
        '\u{0430}',
        '\u{0437}',
        '\u{0430}',
        '\u{0442}',
        '\u{0435}',
        '\u{043B}',
        '\u{044C}',
        '\u{0441}',
        '\u{0442}',
        '\u{0432}',
        '\u{043E}',
    ];
    proof {
        assert(w5@ =~= spec_word_dokazatelstvo());
    }
    if ci_word_at(v, c, &w5) {
        return Some((14, TheoryType::Proof));
    }
    let w6: Vec<char> = vec!['t', 'h', 'e', 'o', 'r', 'e', 'm'];
    proof {
        assert(w6@ =~= seq!['t', 'h', 'e', 'o', 'r', 'e', 'm']);
    }
    if ci_word_at(v, c, &w6) {
        return Some((7, TheoryType::Theorem));
    }
    let w7: Vec<char> = vec!['d', 'e', 'f', 'i', 'n', 'i', 't', 'i', 'o', 'n'];
    proof {
        assert(w7@ =~= seq!['d', 'e', 'f', 'i', 'n', 'i', 't', 'i', 'o', 'n']);
    }
    if ci_word_at(v, c, &w7) {
        return Some((10, TheoryType::Definition));
    }
    let w8: Vec<char> = vec!['p', 'r', 'o', 'p', 'e', 'r', 't', 'y'];
    proof {
        assert(w8@ =~= seq!['p', 'r', 'o', 'p', 'e', 'r', 't', 'y']);
    }
    if ci_word_at(v, c, &w8) {
        return Some((8, TheoryType::Property));
    }
    let w9: Vec<char> = vec!['f', 'o', 'r', 'm', 'u', 'l', 'a'];
    proof {
        assert(w9@ =~= seq!['f', 'o', 'r', 'm', 'u', 'l', 'a']);
    }
    if ci_word_at(v, c, &w9) {
        return Some((7, TheoryType::Formula));
    }
    let w10: Vec<char> = vec!['p', 'r', 'o', 'o', 'f'];
    proof {
        assert(w10@ =~= seq!['p', 'r', 'o', 'o', 'f']);
    }
    if ci_word_at(v, c, &w10) {
        return Some((5, TheoryType::Other));
    }
    None
}

// --- detecting sub-problems ---

/// Cyrillic letter of either case, `ё` and `Ё` included.
pub open spec fn spec_is_cyr_letter(c: char) -> bool {
    (0x430 <= c as u32 && c as u32 <= 0x44F) || (0x410 <= c as u32 && c as u32 <= 0x42F) || c
        as u32 == 0x451 || c as u32 == 0x401
}

pub fn is_cyr_letter(c: char) -> (b: bool)
    ensures
        b == spec_is_cyr_letter(c),
{
    let u = c as u32;
    (0x430 <= u && u <= 0x44F) || (0x410 <= u && u <= 0x42F) || u == 0x451 || u == 0x401
}

/// Latin letter of either case.
pub open spec fn spec_is_lat_letter(c: char) -> bool {
    (97 <= c as u32 && c as u32 <= 122) || (65 <= c as u32 && c as u32 <= 90)
}

pub fn is_lat_letter(c: char) -> (b: bool)
    ensures
        b == spec_is_lat_letter(c),
{
    let u = c as u32;
    (97 <= u && u <= 122) || (65 <= u && u <= 90)
}

/// What a line yields as a sub-problem marker: a single letter before a
/// `.`, `)` or `]` delimiter, or one in parentheses, lowercased.
pub open spec fn spec_detect_sub(s: Seq<char>) -> Option<char> {
    let a = spec_skip_spaces(s, 0);
    if a < s.len() && (spec_is_cyr_letter(s[a]) || spec_is_lat_letter(s[a])) && {
        let b = spec_skip_spaces(s, a + 1);
        b < s.len() && (s[b] == '.' || s[b] == ')' || s[b] == ']')
    } {
        Some(spec_lower_letter(s[a]))
    } else if a + 2 < s.len() && s[a] == '(' && (spec_is_cyr_letter(s[a + 1])
        || spec_is_lat_letter(s[a + 1])) && s[a + 2] == ')' {
        Some(spec_lower_letter(s[a + 1]))
    } else {
        None::<char>
    }
}

/// Recognise a sub-problem marker.
pub fn detect_sub_problem(v: &Vec<char>) -> (r: Option<char>)
    ensures
        r == spec_detect_sub(v@),
{
    let a = skip_spaces_at(v, 0);
    if a < v.len() && (is_cyr_letter(v[a]) || is_lat_letter(v[a])) {
        let b = skip_spaces_at(v, a + 1);
        if b < v.len() && (v[b] == '.' || v[b] == ')' || v[b] == ']') {
            return Some(lower_letter(v[a]));
        }
    }
    if a < v.len() && v[a] == '(' {
        let n = v.len();
        if n - a > 2 && (is_cyr_letter(v[a + 1]) || is_lat_letter(v[a + 1])) && v[a + 2] == ')' {
            return Some(lower_letter(v[a + 1]));
        }
    }
    None
}

/// Recognise the first problem heading shape that matches.
pub fn detect_problem_start(v: &Vec<char>) -> (r: Option<Vec<char>>)
    ensures
        match r {
            Some(num) => spec_detect_problem_start(v@) == Some(num@),
            None => spec_detect_problem_start(v@) is None,
        },
{
    let wz: Vec<char> = vec![
        '\u{0437}',
        '\u{0430}',
        '\u{0434}',
        '\u{0430}',
        '\u{0447}',
        '\u{0430}',
    ];
    proof {
        assert(wz@ =~= spec_word_zadacha());
    }
    let r = keyword_problem(v, &wz, false);
    if r.is_some() {
        return r;
    }
    let wu: Vec<char> = vec![
        '\u{0443}',
        '\u{043F}',
        '\u{0440}',
        '\u{0430}',
        '\u{0436}',
        '\u{043D}',
        '\u{0435}',
        '\u{043D}',
        '\u{0438}',
        '\u{0435}',
    ];
    proof {
        assert(wu@ =~= spec_word_uprazhnenie());
    }
    let r = keyword_problem(v, &wu, true);
    if r.is_some() {
        return r;
    }
    let we: Vec<char> = vec!['e', 'x', 'a', 'm', 'p', 'l', 'e'];
    proof {
        assert(we@ =~= seq!['e', 'x', 'a', 'm', 'p', 'l', 'e']);
    }
    let r = keyword_problem(v, &we, true);
    if r.is_some() {
        return r;
    }
    let wp: Vec<char> = vec!['p', 'r', 'o', 'b', 'l', 'e', 'm'];
    proof {
        assert(wp@ =~= seq!['p', 'r', 'o', 'b', 'l', 'e', 'm']);
    }
    let r = keyword_problem(v, &wp, true);
    if r.is_some() {
        return r;
    }
    let wx: Vec<char> = vec!['e', 'x', 'e', 'r', 'c', 'i', 's', 'e'];
    proof {
        assert(wx@ =~= seq!['e', 'x', 'e', 'r', 'c', 'i', 's', 'e']);
    }
    let r = keyword_problem(v, &wx, true);
    if r.is_some() {
        return r;
    }
    let r = bare_number_problem(v);
    if r.is_some() {
        return r;
    }
    marker_problem(v)
}

// --- the page-number scan ---

/// Words announcing a page number somewhere in a line.
pub open spec fn spec_word_stranitsa() -> Seq<char> {
    seq![
        '\u{0441}',
        '\u{0442}',
        '\u{0440}',
        '\u{0430}',
        '\u{043D}',
        '\u{0438}',
        '\u{0446}',
        '\u{0430}',
    ]
}

pub open spec fn spec_word_str() -> Seq<char> {
    seq!['\u{0441}', '\u{0442}', '\u{0440}']
}

/// Digits of a page marker starting exactly at `i`, if one starts there.
pub open spec fn spec_page_marker_at(s: Seq<char>, i: int) -> Option<Seq<char>> {
    let d = if spec_ci_word_at(s, i, spec_word_stranitsa()) {
        i + 8
    } else if spec_ci_word_at(s, i, spec_word_str()) {
        if i + 3 < s.len() && s[i + 3] == '.' {
            i + 4
        } else {
            i + 3
        }
    } else if spec_ci_word_at(s, i, seq!['p', 'a', 'g', 'e']) {
        i + 4
    } else {
        -1
    };
    if d < 0 {
        None::<Seq<char>>
    } else {
        let g = spec_skip_spaces(s, d);
        let h = spec_digits_end(s, g);
        if h == g {
            None::<Seq<char>>
        } else {
            Some(s.subrange(g, h))
        }
    }
}

/// The first page marker found scanning left to right.
pub open spec fn spec_page_scan(s: Seq<char>, i: int) -> Option<Seq<char>>
    decreases s.len() - i,
{
    if i < 0 || i >= s.len() {
        None::<Seq<char>>
    } else if spec_page_marker_at(s, i) is Some {
        spec_page_marker_at(s, i)
    } else {
        spec_page_scan(s, i + 1)
    }
}

/// Try to read a page marker at one position.
fn page_marker_at(v: &Vec<char>, i: usize) -> (r: Option<Vec<char>>)
    requires
        i <= v@.len(),
    ensures
        match r {
            Some(num) => spec_page_marker_at(v@, i as int) == Some(num@),
            None => spec_page_marker_at(v@, i as int) is None,
        },
{
    let ws: Vec<char> = vec![
        '\u{0441}',
        '\u{0442}',
        '\u{0440}',
        '\u{0430}',
        '\u{043D}',
        '\u{0438}',
        '\u{0446}',
        '\u{0430}',
    ];
    proof {
        assert(ws@ =~= spec_word_stranitsa());
    }
    let wt: Vec<char> = vec!['\u{0441}', '\u{0442}', '\u{0440}'];
    proof {
        assert(wt@ =~= spec_word_str());
    }
    let wp: Vec<char> = vec!['p', 'a', 'g', 'e'];
    proof {
        assert(wp@ =~= seq!['p', 'a', 'g', 'e']);
    }
    let n = v.len();
    let d: usize = if ci_word_at(v, i, &ws) {
        proof {
            assert(i + 8 <= v@.len());
        }
        i + 8
    } else if ci_word_at(v, i, &wt) {
        proof {
            assert(i + 3 <= v@.len());
        }
        if i + 3 < n && v[i + 3] == '.' {
            i + 4
        } else {
            i + 3
        }
    } else if ci_word_at(v, i, &wp) {
        proof {
            assert(i + 4 <= v@.len());
        }
        i + 4
    } else {
        return None;
    };
    let g = skip_spaces_at(v, d);
    let h = digits_end_at(v, g);
    if h == g {
        return None;
    }
    Some(crate::text::slice_chars(v, g, h))
}

/// Scan a line for its first page marker.
fn page_scan(v: &Vec<char>) -> (r: Option<Vec<char>>)
    ensures
        match r {
            Some(num) => spec_page_scan(v@, 0) == Some(num@),
            None => spec_page_scan(v@, 0) is None,
        },
{
    let n = v.len();
    let mut i: usize = 0;
    while i < n
        invariant
            i <= n,
            n == v@.len(),
            spec_page_scan(v@, 0) == spec_page_scan(v@, i as int),
        decreases n - i,
    {
        let m = page_marker_at(v, i);
        if m.is_some() {
            return m;
        }
        i = i + 1;
    }
    None
}

// --- views of what the parser builds ---

pub struct TbSubView {
    pub letter: Seq<char>,
    pub content: Seq<char>,
}

pub struct TbProblemBuilderView {
    pub number: Seq<char>,
    pub content: Seq<char>,
    pub page: Option<u32>,
    pub subs: Seq<TbSubView>,
    pub cur: Option<TbSubView>,
}

pub struct TbTheoryBuilderView {
    pub num: u32,
    pub ty: TheoryType,
    pub title: Option<Seq<char>>,
    pub content: Seq<char>,
    pub page: Option<u32>,
}

/// A built problem: its stored row, and the rows of its sub-problems.
pub struct TbProblemView {
    pub row: crate::store::ProblemRowView,
    pub subs: Option<Seq<crate::store::ProblemRowView>>,
}

/// A built theory block.
pub struct TheoryRowView {
    pub id: Seq<char>,
    pub chapter_id: Seq<char>,
    pub block_num: u32,
    pub title: Option<Seq<char>>,
    pub block_type: TheoryType,
    pub content: Seq<char>,
    pub latex_formulas: Seq<Seq<char>>,
    pub page_number: Option<u32>,
    pub created_at: u64,
}

pub open spec fn spec_theory_row_of(t: TheoryBlock) -> TheoryRowView {
    TheoryRowView {
        id: t.id@,
        chapter_id: t.chapter_id@,
        block_num: t.block_num,
        title: crate::reconcile::opt_view(t.title),
        block_type: t.block_type,
        content: t.content@,
        latex_formulas: t.latex_formulas@.map_values(|s: String| s@),
        page_number: t.page_number,
        created_at: t.created_at,
    }
}

pub open spec fn spec_tb_view_of(p: Problem) -> TbProblemView {
    TbProblemView {
        row: crate::store::spec_row_of(p),
        subs: match p.sub_problems {
            Some(v) => Some(v@.map_values(|s: Problem| crate::store::spec_row_of(s))),
            None => None::<Seq<crate::store::ProblemRowView>>,
        },
    }
}

/// All formulas of a content text, the three shapes in order.
pub open spec fn spec_formulas_of(content: Seq<char>) -> Seq<Seq<char>> {
    crate::models::spec_inline_formulas(content) + crate::models::spec_display_formulas(content)
        + crate::models::spec_bracket_formulas(content)
}

/// The prefix of an id up to its second colon: the chapter part.
pub open spec fn spec_prefix2(s: Seq<char>) -> Seq<char> {
    let c1 = crate::models::spec_next_char(s, 0, ':');
    if c1 >= s.len() {
        s
    } else {
        let c2 = crate::models::spec_next_char(s, c1 + 1, ':');
        s.subrange(0, c2)
    }
}

/// The row a finished sub-problem writes.
pub open spec fn spec_tb_sub_build(sb: TbSubView, parent: Seq<char>, now: u64) -> crate::store::ProblemRowView {
    crate::store::ProblemRowView {
        id: parent + seq![':'] + sb.letter,
        chapter_id: spec_prefix2(parent),
        page_id: None,
        parent_id: Some(parent),
        number: sb.letter,
        display_name: sb.letter + seq![')'],
        content: sb.content,
        latex_formulas: spec_formulas_of(sb.content),
        page_number: None,
        difficulty: None,
        has_solution: false,
        created_at: now,
        continues_from_page: None,
        continues_to_page: None,
        is_cross_page: false,
    }
}

pub open spec fn spec_tb_all_subs(pb: TbProblemBuilderView) -> Seq<TbSubView> {
    match pb.cur {
        Some(sb) => pb.subs.push(sb),
        None => pb.subs,
    }
}

/// The problem a finished builder writes: the `Problem {number}` heading
/// name, the accumulated lines, all three formula shapes, and one row per
/// sub-problem under the generated id.
pub open spec fn spec_tb_problem_build(
    pb: TbProblemBuilderView,
    book: Seq<char>,
    ch: u32,
    now: u64,
) -> TbProblemView {
    let id = crate::models::spec_problem_id(book, ch as int, pb.number);
    let all = spec_tb_all_subs(pb);
    TbProblemView {
        row: crate::store::ProblemRowView {
            id,
            chapter_id: book + seq![':'] + crate::models::spec_u32_digits(ch as int),
            page_id: None,
            parent_id: None,
            number: pb.number,
            display_name: seq!['P', 'r', 'o', 'b', 'l', 'e', 'm', ' '] + pb.number,
            content: pb.content,
            latex_formulas: spec_formulas_of(pb.content),
            page_number: pb.page,
            difficulty: None,
            has_solution: false,
            created_at: now,
            continues_from_page: None,
            continues_to_page: None,
            is_cross_page: false,
        },
        subs: if all.len() == 0 {
            None
        } else {
            Some(all.map_values(|sb: TbSubView| spec_tb_sub_build(sb, id, now)))
        },
    }
}

/// The theory block a finished builder writes.
pub open spec fn spec_tb_theory_build(
    tb: TbTheoryBuilderView,
    book: Seq<char>,
    ch: u32,
    now: u64,
) -> TheoryRowView {
    TheoryRowView {
        id: crate::models::spec_theory_id(book, ch as int, tb.num as int),
        chapter_id: book + seq![':'] + crate::models::spec_u32_digits(ch as int),
        block_num: tb.num,
        title: tb.title,
        block_type: tb.ty,
        content: tb.content,
        latex_formulas: spec_formulas_of(tb.content),
        page_number: tb.page,
        created_at: now,
    }
}

// --- the fold the parser walks ---

pub struct TbState {
    pub problems: Seq<TbProblemView>,
    pub theories: Seq<TheoryRowView>,
    pub unclassified: Seq<Seq<char>>,
    pub curp: Option<TbProblemBuilderView>,
    pub curt: Option<TbTheoryBuilderView>,
    pub curu: Seq<char>,
    pub page: Option<u32>,
    pub tcount: u32,
}

pub open spec fn spec_tb_init() -> TbState {
    TbState {
        problems: Seq::<TbProblemView>::empty(),
        theories: Seq::<TheoryRowView>::empty(),
        unclassified: Seq::<Seq<char>>::empty(),
        curp: None::<TbProblemBuilderView>,
        curt: None::<TbTheoryBuilderView>,
        curu: Seq::<char>::empty(),
        page: None::<u32>,
        tcount: 0,
    }
}

/// Appending one content line to whichever sub-problem or problem list is
/// open.
pub open spec fn spec_pb_add_line(pb: TbProblemBuilderView, l: Seq<char>) -> TbProblemBuilderView {
    match pb.cur {
        Some(sb) => TbProblemBuilderView {
            cur: Some(TbSubView { letter: sb.letter, content: sb.content + seq!['\n'] + l }),
            ..pb
        },
        None => TbProblemBuilderView { content: pb.content + seq!['\n'] + l, ..pb },
    }
}

pub open spec fn spec_pb_start_sub(pb: TbProblemBuilderView, letter: char, l: Seq<char>) -> TbProblemBuilderView {
    TbProblemBuilderView {
        subs: spec_tb_all_subs(pb),
        cur: Some(TbSubView { letter: seq![letter], content: l }),
        ..pb
    }
}

pub open spec fn spec_tb_add_theory_line(tb: TbTheoryBuilderView, l: Seq<char>) -> TbTheoryBuilderView {
    TbTheoryBuilderView {
        content: if tb.content.len() == 0 {
            l
        } else {
            tb.content + seq!['\n'] + l
        },
        ..tb
    }
}

/// The page a scanned marker sets: the parsed number, or none when it
/// does not fit.
pub open spec fn spec_page_value(digits: Seq<char>) -> Option<u32> {
    if crate::text::spec_all_digits(digits) && digits.len() > 0 && crate::text::spec_digits_value(
        digits,
    ) <= u32::MAX {
        Some(crate::text::spec_digits_value(digits) as u32)
    } else {
        None::<u32>
    }
}

/// One line of the fold.
pub open spec fn spec_tb_step(
    st: TbState,
    raw: Seq<char>,
    book: Seq<char>,
    ch: u32,
    now: u64,
) -> TbState {
    let l = spec_trim(raw);
    if l.len() == 0 {
        st
    } else {
        let st1 = match spec_page_scan(l, 0) {
            Some(digits) => TbState { page: spec_page_value(digits), ..st },
            None => st,
        };
        if spec_detect_problem_start(l) is Some {
            let num = spec_detect_problem_start(l)->Some_0;
            let flushed = TbState {
                problems: match st1.curp {
                    Some(pb) => st1.problems.push(spec_tb_problem_build(pb, book, ch, now)),
                    None => st1.problems,
                },
                theories: match st1.curt {
                    Some(tb) => st1.theories.push(spec_tb_theory_build(tb, book, ch, now)),
                    None => st1.theories,
                },
                unclassified: if st1.curu.len() > 0 {
                    st1.unclassified.push(st1.curu)
                } else {
                    st1.unclassified
                },
                curu: Seq::<char>::empty(),
                curp: None::<TbProblemBuilderView>,
                curt: None::<TbTheoryBuilderView>,
                ..st1
            };
            TbState {
                curp: Some(
                    TbProblemBuilderView {
                        number: num,
                        content: l,
                        page: flushed.page,
                        subs: Seq::<TbSubView>::empty(),
                        cur: None::<TbSubView>,
                    },
                ),
                ..flushed
            }
        } else if spec_detect_theory(l) is Some {
            let (ty, title) = spec_detect_theory(l)->Some_0;
            let flushed = TbState {
                problems: match st1.curp {
                    Some(pb) => st1.problems.push(spec_tb_problem_build(pb, book, ch, now)),
                    None => st1.problems,
                },
                theories: match st1.curt {
                    Some(tb) => st1.theories.push(spec_tb_theory_build(tb, book, ch, now)),
                    None => st1.theories,
                },
                curp: None::<TbProblemBuilderView>,
                curt: None::<TbTheoryBuilderView>,
                ..st1
            };
            let cnt = if flushed.tcount < u32::MAX {
                (flushed.tcount + 1) as u32
            } else {
                flushed.tcount
            };
            TbState {
                tcount: cnt,
                curt: Some(
                    TbTheoryBuilderView {
                        num: cnt,
                        ty,
                        title,
                        content: Seq::<char>::empty(),
                        page: flushed.page,
                    },
                ),
                ..flushed
            }
        } else if st1.curp is Some {
            let pb = st1.curp->Some_0;
            if spec_detect_sub(l) is Some {
                TbState {
                    curp: Some(spec_pb_start_sub(pb, spec_detect_sub(l)->Some_0, l)),
                    ..st1
                }
            } else {
                TbState { curp: Some(spec_pb_add_line(pb, l)), ..st1 }
            }
        } else if st1.curt is Some {
            TbState {
                curt: Some(spec_tb_add_theory_line(st1.curt->Some_0, l)),
                ..st1
            }
        } else {
            TbState { curu: st1.curu + l + seq!['\n'], ..st1 }
        }
    }
}

/// The fold over the remaining lines.
pub open spec fn spec_tb_run(
    lines: Seq<Seq<char>>,
    st: TbState,
    book: Seq<char>,
    ch: u32,
    now: u64,
) -> TbState
    decreases lines.len(),
{
    if lines.len() == 0 {
        st
    } else {
        spec_tb_run(lines.drop_first(), spec_tb_step(st, lines[0], book, ch, now), book, ch, now)
    }
}

/// What parsing a text yields: the run over its lines, with the open
/// builders and the pending unclassified text flushed at the end.
pub open spec fn spec_tb_parse(s: Seq<char>, book: Seq<char>, ch: u32, now: u64) -> (
    Seq<TbProblemView>,
    Seq<TheoryRowView>,
    Seq<Seq<char>>,
) {
    let st = spec_tb_run(spec_lines(s), spec_tb_init(), book, ch, now);
    let problems = match st.curp {
        Some(pb) => st.problems.push(spec_tb_problem_build(pb, book, ch, now)),
        None => st.problems,
    };
    let theories = match st.curt {
        Some(tb) => st.theories.push(spec_tb_theory_build(tb, book, ch, now)),
        None => st.theories,
    };
    let unclassified = if st.curu.len() > 0 {
        st.unclassified.push(st.curu)
    } else {
        st.unclassified
    };
    (problems, theories, unclassified)
}

// --- the executable builders ---

/// Collects one sub-problem's lines.
pub struct SubProblemBuilder {
    letter: char,
    content: Vec<char>,
}

impl View for SubProblemBuilder {
    type V = TbSubView;

    closed spec fn view(&self) -> TbSubView {
        TbSubView { letter: seq![self.letter], content: self.content@ }
    }
}

impl SubProblemBuilder {
    pub fn new(letter: char, first_line: Vec<char>) -> (r: SubProblemBuilder)
        ensures
            r@ == (TbSubView { letter: seq![letter], content: first_line@ }),
    {
        SubProblemBuilder { letter, content: first_line }
    }

    pub fn add_line(&mut self, line: &Vec<char>)
        ensures
            final(self)@ == (TbSubView {
                letter: old(self)@.letter,
                content: old(self)@.content + seq!['\n'] + line@,
            }),
    {
        self.content.push('\n');
        push_all(&mut self.content, line);
        proof {
            assert(self.content@ =~= old(self).content@ + seq!['\n'] + line@);
        }
    }

    /// Build the stored sub-problem row under its parent id.
    pub fn build(self, parent_id: &Vec<char>, now: u64) -> (r: Problem)
        ensures
            crate::store::spec_row_of(r) == spec_tb_sub_build(self@, parent_id@, now),
            r.solution is None,
            r.sub_problems is None,
    {
        let mut idv = copy_chars(parent_id);
        idv.push(':');
        idv.push(self.letter);
        proof {
            assert(idv@ =~= parent_id@ + seq![':'] + seq![self.letter]);
        }
        let c1 = crate::models::next_char_from(parent_id, 0, ':');
        let chapter: Vec<char> = if c1 >= parent_id.len() {
            copy_chars(parent_id)
        } else {
            let c2 = crate::models::next_char_from(parent_id, c1 + 1, ':');
            crate::text::slice_chars(parent_id, 0, c2)
        };
        proof {
            assert(chapter@ == spec_prefix2(parent_id@));
        }
        let mut disp: Vec<char> = vec![self.letter, ')'];
        proof {
            assert(disp@ =~= seq![self.letter] + seq![')']);
        }
        let content_s = string_of(&self.content);
        let latex = crate::models::extract_all_formulas(content_s.as_str());
        let letter_s = {
            let lv: Vec<char> = vec![self.letter];
            proof {
                assert(lv@ =~= seq![self.letter]);
            }
            string_of(&lv)
        };
        Problem {
            id: string_of(&idv),
            chapter_id: string_of(&chapter),
            page_id: None,
            parent_id: Some(string_of(parent_id)),
            number: letter_s,
            display_name: string_of(&disp),
            content: content_s,
            latex_formulas: latex,
            page_number: None,
            difficulty: None,
            has_solution: false,
            created_at: now,
            solution: None,
            sub_problems: None,
            continues_from_page: None,
            continues_to_page: None,
            is_cross_page: false,
            is_bookmarked: false,
        }
    }
}

/// Collects one problem's lines and sub-problems.
pub struct ProblemBuilder {
    number: Vec<char>,
    content: Vec<char>,
    page_number: Option<u32>,
    sub_problems: Vec<SubProblemBuilder>,
    current_sub: Option<SubProblemBuilder>,
}

impl View for ProblemBuilder {
    type V = TbProblemBuilderView;

    closed spec fn view(&self) -> TbProblemBuilderView {
        TbProblemBuilderView {
            number: self.number@,
            content: self.content@,
            page: self.page_number,
            subs: self.sub_problems@.map_values(|s: SubProblemBuilder| s@),
            cur: match self.current_sub {
                Some(sb) => Some(sb@),
                None => None,
            },
        }
    }
}

impl ProblemBuilder {
    pub fn new(number: Vec<char>, first_line: Vec<char>, page_number: Option<u32>) -> (r:
        ProblemBuilder)
        ensures
            r@ == (TbProblemBuilderView {
                number: number@,
                content: first_line@,
                page: page_number,
                subs: Seq::<TbSubView>::empty(),
                cur: None::<TbSubView>,
            }),
    {
        let r = ProblemBuilder {
            number,
            content: first_line,
            page_number,
            sub_problems: Vec::new(),
            current_sub: None,
        };
        proof {
            assert(r.sub_problems@.map_values(|s: SubProblemBuilder| s@) =~= Seq::<
                TbSubView,
            >::empty());
        }
        r
    }

    pub fn add_line(&mut self, line: &Vec<char>)
        ensures
            final(self)@ == (TbProblemBuilderView {
                content: old(self)@.content + seq!['\n'] + line@,
                ..old(self)@
            }),
            old(self)@.cur is None ==> final(self)@ == spec_pb_add_line(old(self)@, line@),
    {
        self.content.push('\n');
        push_all(&mut self.content, line);
        proof {
            assert(self.content@ =~= old(self).content@ + seq!['\n'] + line@);
        }
    }

    pub fn start_sub_problem(&mut self, letter: char, line: Vec<char>)
        ensures
            final(self)@ == spec_pb_start_sub(old(self)@, letter, line@),
    {
        let prev = self.current_sub.take();
        let ghost old_subs = self.sub_problems@.map_values(|s: SubProblemBuilder| s@);
        if let Some(sb) = prev {
            let ghost sv = sb@;
            self.sub_problems.push(sb);
            proof {
                assert(self.sub_problems@.map_values(|s: SubProblemBuilder| s@) =~= old_subs.push(
                    sv,
                ));
            }
        }
        self.current_sub = Some(SubProblemBuilder::new(letter, line));
    }

    pub fn add_line_to_sub(&mut self, line: &Vec<char>)
        requires
            old(self)@.cur is Some,
        ensures
            final(self)@ == spec_pb_add_line(old(self)@, line@),
    {
        let mut cur = self.current_sub.take();
        match cur {
            Some(mut sb) => {
                sb.add_line(line);
                self.current_sub = Some(sb);
            },
            None => {},
        }
    }

    pub fn finish_sub_problems(&mut self)
        ensures
            final(self)@ == (TbProblemBuilderView {
                subs: spec_tb_all_subs(old(self)@),
                cur: None::<TbSubView>,
                ..old(self)@
            }),
    {
        let prev = self.current_sub.take();
        let ghost old_subs = self.sub_problems@.map_values(|s: SubProblemBuilder| s@);
        if let Some(sb) = prev {
            let ghost sv = sb@;
            self.sub_problems.push(sb);
            proof {
                assert(self.sub_problems@.map_values(|s: SubProblemBuilder| s@) =~= old_subs.push(
                    sv,
                ));
            }
        }
    }

    /// Build the problem with its sub-problem rows.
    pub fn build(self, book_id: &str, chapter_num: u32, now: u64) -> (r: Problem)
        ensures
            spec_tb_view_of(r) == spec_tb_problem_build(self@, book_id@, chapter_num, now),
            r.solution is None,
    {
        let ghost pbv = self@;
        let mut this = self;
        this.finish_sub_problems();
        proof {
            assert(this@.subs == spec_tb_all_subs(pbv));
        }
        let ProblemBuilder { number, content, page_number, sub_problems, current_sub } = this;
        let mut sub_problems = sub_problems;
        let id = crate::models::Problem::generate_id(
            book_id,
            chapter_num,
            string_of(&number).as_str(),
        );
        let idv = chars_of(id.as_str());
        let ghost all = spec_sub_views(sub_problems@);
        let ghost parent = idv@;
        let mut subs: Vec<Problem> = Vec::new();
        proof {
            assert(all.subrange(0, 0) =~= Seq::<TbSubView>::empty());
            assert(spec_build_subs(all.subrange(0, 0), parent, now) =~= Seq::<
                crate::store::ProblemRowView,
            >::empty());
            assert(spec_prob_rows(subs@) =~= Seq::<crate::store::ProblemRowView>::empty());
            assert(all.subrange(0, all.len() as int) =~= all);
        }
        while sub_problems.len() > 0
            invariant
                parent == idv@,
                sub_problems@.len() <= all.len(),
                spec_sub_views(sub_problems@) =~= all.subrange(
                    all.len() - sub_problems@.len(),
                    all.len() as int,
                ),
                spec_prob_rows(subs@) =~= spec_build_subs(
                    all.subrange(0, all.len() - sub_problems@.len()),
                    parent,
                    now,
                ),
            decreases sub_problems@.len(),
        {
            let ghost k = all.len() - sub_problems@.len();
            let ghost prevs = sub_problems@;
            proof {
                assert(spec_sub_views(prevs)[0] == prevs[0]@);
                assert(spec_sub_views(prevs)[0] == all[k]);
            }
            let sb = sub_problems.remove(0);
            let ghost sv = sb@;
            proof {
                assert(sv == all[k]);
                assert forall|m: int| #![trigger sub_problems@[m]]
                    0 <= m < sub_problems@.len() implies spec_sub_views(sub_problems@)[m]
                    == all.subrange(k + 1, all.len() as int)[m] by {
                    assert(sub_problems@[m] == prevs[m + 1]);
                    assert(spec_sub_views(sub_problems@)[m] == sub_problems@[m]@);
                    assert(spec_sub_views(prevs)[m + 1] == prevs[m + 1]@);
                    assert(spec_sub_views(prevs)[m + 1] == all.subrange(k, all.len() as int)[m
                        + 1]);
                }
                assert(spec_sub_views(sub_problems@) =~= all.subrange(k + 1, all.len() as int));
            }
            let ghost before_rows = spec_prob_rows(subs@);
            let built = sb.build(&idv, now);
            let ghost bv = crate::store::spec_row_of(built);
            subs.push(built);
            proof {
                assert(bv == spec_tb_sub_build(sv, parent, now));
                assert(spec_prob_rows(subs@) =~= before_rows.push(bv));
                lemma_build_subs_push(all.subrange(0, k), sv, parent, now);
                assert(all.subrange(0, k).push(sv) =~= all.subrange(0, k + 1));
                assert(spec_prob_rows(subs@) =~= spec_build_subs(
                    all.subrange(0, k + 1),
                    parent,
                    now,
                ));
            }
        }
        proof {
            assert(all.subrange(0, all.len() as int) =~= all);
        }
        let mut disp = chars_of("Problem ");
        push_all(&mut disp, &number);
        proof {
            reveal_strlit("Problem ");
            assert(disp@ =~= seq!['P', 'r', 'o', 'b', 'l', 'e', 'm', ' '] + number@);
        }
        let content_s = string_of(&content);
        let latex = crate::models::extract_all_formulas(content_s.as_str());
        let mut chap = chars_of(book_id);
        chap.push(':');
        let chd = crate::models::u32_digits(chapter_num);
        push_all(&mut chap, &chd);
        proof {
            assert(chap@ =~= book_id@ + seq![':'] + crate::models::spec_u32_digits(
                chapter_num as int,
            ));
        }
        let no_subs = subs.len() == 0;
        let r = Problem {
            id,
            chapter_id: string_of(&chap),
            page_id: None,
            parent_id: None,
            number: string_of(&number),
            display_name: string_of(&disp),
            content: content_s,
            latex_formulas: latex,
            page_number,
            difficulty: None,
            has_solution: false,
            created_at: now,
            solution: None,
            sub_problems: if no_subs {
                None
            } else {
                Some(subs)
            },
            continues_from_page: None,
            continues_to_page: None,
            is_cross_page: false,
            is_bookmarked: false,
        };
        let _ = current_sub;
        r
    }
}

/// The builder views of a builder list.
pub open spec fn spec_sub_views(v: Seq<SubProblemBuilder>) -> Seq<TbSubView> {
    v.map_values(|s: SubProblemBuilder| s@)
}

/// The rows of a problem list.
pub open spec fn spec_prob_rows(v: Seq<Problem>) -> Seq<crate::store::ProblemRowView> {
    v.map_values(|p: Problem| crate::store::spec_row_of(p))
}

/// The rows of a list of finished sub-problems.
pub open spec fn spec_build_subs(subs: Seq<TbSubView>, parent: Seq<char>, now: u64) -> Seq<
    crate::store::ProblemRowView,
> {
    subs.map_values(|sb: TbSubView| spec_tb_sub_build(sb, parent, now))
}

proof fn lemma_build_subs_push(subs: Seq<TbSubView>, x: TbSubView, parent: Seq<char>, now: u64)
    ensures
        spec_build_subs(subs.push(x), parent, now) == spec_build_subs(subs, parent, now).push(
            spec_tb_sub_build(x, parent, now),
        ),
{
    assert(spec_build_subs(subs.push(x), parent, now) =~= spec_build_subs(subs, parent, now).push(
        spec_tb_sub_build(x, parent, now),
    ));
}

/// Collects one theory block's lines.
pub struct TheoryBuilder {
    block_num: u32,
    block_type: TheoryType,
    title: Option<Vec<char>>,
    content: Vec<char>,
    page_number: Option<u32>,
}

impl View for TheoryBuilder {
    type V = TbTheoryBuilderView;

    closed spec fn view(&self) -> TbTheoryBuilderView {
        TbTheoryBuilderView {
            num: self.block_num,
            ty: self.block_type,
            title: match self.title {
                Some(t) => Some(t@),
                None => None,
            },
            content: self.content@,
            page: self.page_number,
        }
    }
}

impl TheoryBuilder {
    pub fn new(
        block_num: u32,
        block_type: TheoryType,
        title: Option<Vec<char>>,
        page_number: Option<u32>,
    ) -> (r: TheoryBuilder)
        ensures
            r@ == (TbTheoryBuilderView {
                num: block_num,
                ty: block_type,
                title: match title {
                    Some(t) => Some(t@),
                    None => None,
                },
                content: Seq::<char>::empty(),
                page: page_number,
            }),
    {
        let r = TheoryBuilder { block_num, block_type, title, content: Vec::new(), page_number };
        proof {
            assert(r.content@ =~= Seq::<char>::empty());
        }
        r
    }

    pub fn add_line(&mut self, line: &Vec<char>)
        ensures
            final(self)@ == spec_tb_add_theory_line(old(self)@, line@),
    {
        if self.content.len() == 0 {
            push_all(&mut self.content, line);
            proof {
                assert(self.content@ =~= line@);
            }
        } else {
            self.content.push('\n');
            push_all(&mut self.content, line);
            proof {
                assert(self.content@ =~= old(self).content@ + seq!['\n'] + line@);
            }
        }
    }

    /// Build the theory block.
    pub fn build(self, book_id: &str, chapter_num: u32, now: u64) -> (r: TheoryBlock)
        ensures
            spec_theory_row_of(r) == spec_tb_theory_build(self@, book_id@, chapter_num, now),
    {
        let id = crate::models::TheoryBlock::generate_id(book_id, chapter_num, self.block_num);
        let mut chap = chars_of(book_id);
        chap.push(':');
        let chd = crate::models::u32_digits(chapter_num);
        push_all(&mut chap, &chd);
        proof {
            assert(chap@ =~= book_id@ + seq![':'] + crate::models::spec_u32_digits(
                chapter_num as int,
            ));
        }
        let content_s = string_of(&self.content);
        let latex = crate::models::extract_all_formulas(content_s.as_str());
        let title_s: Option<String> = match &self.title {
            Some(t) => Some(string_of(t)),
            None => None,
        };
        TheoryBlock {
            id,
            chapter_id: string_of(&chap),
            block_num: self.block_num,
            title: title_s,
            block_type: self.block_type,
            content: content_s,
            latex_formulas: latex,
            page_number: self.page_number,
            created_at: now,
        }
    }
}

// --- the parser itself ---

/// What one parse run extracts.
pub struct ParseResult {
    pub problems: Vec<Problem>,
    pub theory_blocks: Vec<TheoryBlock>,
    /// Text that could not be attributed to a problem or a theory block.
    pub unclassified: Vec<String>,
}

pub open spec fn spec_prob_views(v: Seq<Problem>) -> Seq<TbProblemView> {
    v.map_values(|p: Problem| spec_tb_view_of(p))
}

pub open spec fn spec_theory_rows(v: Seq<TheoryBlock>) -> Seq<TheoryRowView> {
    v.map_values(|t: TheoryBlock| spec_theory_row_of(t))
}

pub open spec fn spec_str_views(v: Seq<String>) -> Seq<Seq<char>> {
    v.map_values(|s: String| s@)
}

pub open spec fn opt_pbv(c: Option<ProblemBuilder>) -> Option<TbProblemBuilderView> {
    match c {
        Some(pb) => Some(pb@),
        None => None,
    }
}

pub open spec fn opt_tbv(c: Option<TheoryBuilder>) -> Option<TbTheoryBuilderView> {
    match c {
        Some(tb) => Some(tb@),
        None => None,
    }
}

/// The fallback parser for arbitrary OCR text.
pub struct TextbookParser {}

impl TextbookParser {
    pub fn new() -> (r: TextbookParser) {
        TextbookParser {  }
    }

    /// Detect a sub-problem marker on a line, as a one-letter string.
    pub fn detect_sub_problem(&self, line: &str) -> (r: Option<String>)
        ensures
            match r {
                Some(s) => spec_detect_sub(line@) is Some && s@ == seq![
                    spec_detect_sub(line@)->Some_0,
                ],
                None => spec_detect_sub(line@) is None,
            },
    {
        let v = chars_of(line);
        match detect_sub_problem(&v) {
            Some(c) => {
                let lv: Vec<char> = vec![c];
                proof {
                    assert(lv@ =~= seq![c]);
                }
                Some(string_of(&lv))
            },
            None => None,
        }
    }

    /// Parse OCR text into problems, theory blocks and leftover text, by
    /// the fold [`spec_tb_parse`] describes.
    pub fn parse(&self, text: &str, book_id: &str, chapter_num: u32, now: u64) -> (r: ParseResult)
        ensures
            spec_prob_views(r.problems@) == spec_tb_parse(text@, book_id@, chapter_num, now).0,
            spec_theory_rows(r.theory_blocks@) == spec_tb_parse(
                text@,
                book_id@,
                chapter_num,
                now,
            ).1,
            spec_str_views(r.unclassified@) == spec_tb_parse(text@, book_id@, chapter_num, now).2,
    {
        let v = chars_of(text);
        let lines = split_lines(&v);
        let ghost lseq = lines@.map_values(|l: Vec<char>| l@);
        let n = lines.len();
        let mut problems: Vec<Problem> = Vec::new();
        let mut theories: Vec<TheoryBlock> = Vec::new();
        let mut unclassified: Vec<String> = Vec::new();
        let mut curp: Option<ProblemBuilder> = None;
        let mut curt: Option<TheoryBuilder> = None;
        let mut curu: Vec<char> = Vec::new();
        let mut page: Option<u32> = None;
        let mut tcount: u32 = 0;
        let mut i: usize = 0;
        proof {
            assert(lseq.subrange(0, n as int) =~= lseq);
            assert(spec_prob_views(problems@) =~= Seq::<TbProblemView>::empty());
            assert(spec_theory_rows(theories@) =~= Seq::<TheoryRowView>::empty());
            assert(spec_str_views(unclassified@) =~= Seq::<Seq<char>>::empty());
            assert(curu@ =~= Seq::<char>::empty());
        }
        while i < n
            invariant
                i <= n,
                n == lseq.len(),
                lseq == lines@.map_values(|l: Vec<char>| l@),
                spec_tb_run(lseq, spec_tb_init(), book_id@, chapter_num, now) == spec_tb_run(
                    lseq.subrange(i as int, n as int),
                    TbState {
                        problems: spec_prob_views(problems@),
                        theories: spec_theory_rows(theories@),
                        unclassified: spec_str_views(unclassified@),
                        curp: opt_pbv(curp),
                        curt: opt_tbv(curt),
                        curu: curu@,
                        page,
                        tcount,
                    },
                    book_id@,
                    chapter_num,
                    now,
                ),
            decreases n - i,
        {
            proof {
                let sub_i = lseq.subrange(i as int, n as int);
                assert(sub_i[0] == lseq[i as int]);
                assert(sub_i.drop_first() =~= lseq.subrange(i + 1, n as int));
                assert(lseq[i as int] == lines@[i as int]@);
            }
            let ghost st_in = TbState {
                problems: spec_prob_views(problems@),
                theories: spec_theory_rows(theories@),
                unclassified: spec_str_views(unclassified@),
                curp: opt_pbv(curp),
                curt: opt_tbv(curt),
                curu: curu@,
                page,
                tcount,
            };
            let line = trim_chars(&lines[i]);
            if line.len() == 0 {
                i = i + 1;
                continue ;
            }
            match page_scan(&line) {
                Some(digits) => {
                    page = parse_u32(&digits);
                },
                None => {},
            }
            let ghost st1 = TbState { page, ..st_in };
            proof {
                match spec_page_scan(line@, 0) {
                    Some(digits) => {
                        assert(page == spec_page_value(digits));
                    },
                    None => {},
                }
            }
            let main = detect_problem_start(&line);
            if let Some(num) = main {
                let prevp = curp.take();
                if let Some(pb) = prevp {
                    let built = pb.build(book_id, chapter_num, now);
                    let ghost bv = spec_tb_view_of(built);
                    let ghost before = spec_prob_views(problems@);
                    problems.push(built);
                    proof {
                        assert(spec_prob_views(problems@) =~= before.push(bv));
                    }
                }
                let prevt = curt.take();
                if let Some(tb) = prevt {
                    let built = tb.build(book_id, chapter_num, now);
                    let ghost bv = spec_theory_row_of(built);
                    let ghost before = spec_theory_rows(theories@);
                    theories.push(built);
                    proof {
                        assert(spec_theory_rows(theories@) =~= before.push(bv));
                    }
                }
                if curu.len() > 0 {
                    let ghost before = spec_str_views(unclassified@);
                    let ghost uv = curu@;
                    unclassified.push(string_of(&curu));
                    curu = Vec::new();
                    proof {
                        assert(spec_str_views(unclassified@) =~= before.push(uv));
                        assert(curu@ =~= Seq::<char>::empty());
                    }
                } else {
                    proof {
                        assert(curu@ =~= Seq::<char>::empty());
                    }
                }
                curp = Some(ProblemBuilder::new(num, copy_chars(&line), page));
                i = i + 1;
                continue ;
            }
            let theory = detect_theory_start(&line);
            if let Some((ty, title)) = theory {
                let prevp = curp.take();
                if let Some(pb) = prevp {
                    let built = pb.build(book_id, chapter_num, now);
                    let ghost bv = spec_tb_view_of(built);
                    let ghost before = spec_prob_views(problems@);
                    problems.push(built);
                    proof {
                        assert(spec_prob_views(problems@) =~= before.push(bv));
                    }
                }
                let prevt = curt.take();
                if let Some(tb) = prevt {
                    let built = tb.build(book_id, chapter_num, now);
                    let ghost bv = spec_theory_row_of(built);
                    let ghost before = spec_theory_rows(theories@);
                    theories.push(built);
                    proof {
                        assert(spec_theory_rows(theories@) =~= before.push(bv));
                    }
                }
                if tcount < u32::MAX {
                    tcount = tcount + 1;
                }
                curt = Some(TheoryBuilder::new(tcount, ty, title, page));
                i = i + 1;
                continue ;
            }
            let taken = curp.take();
            match taken {
                Some(mut pb) => {
                    let sub = detect_sub_problem(&line);
                    if let Some(letter) = sub {
                        pb.start_sub_problem(letter, copy_chars(&line));
                    } else {
                        let has_sub = pb.has_open_sub();
                        if has_sub {
                            pb.add_line_to_sub(&line);
                        } else {
                            pb.add_line(&line);
                        }
                    }
                    curp = Some(pb);
                    i = i + 1;
                    continue ;
                },
                None => {},
            }
            let taken_t = curt.take();
            match taken_t {
                Some(mut tb) => {
                    tb.add_line(&line);
                    curt = Some(tb);
                    i = i + 1;
                    continue ;
                },
                None => {},
            }
            let ghost before_u = curu@;
            push_all(&mut curu, &line);
            curu.push('\n');
            proof {
                assert(curu@ =~= before_u + line@ + seq!['\n']);
            }
            i = i + 1;
        }
        proof {
            assert(lseq.subrange(n as int, n as int) =~= Seq::<Seq<char>>::empty());
        }
        let prevp = curp.take();
        if let Some(pb) = prevp {
            let built = pb.build(book_id, chapter_num, now);
            let ghost bv = spec_tb_view_of(built);
            let ghost before = spec_prob_views(problems@);
            problems.push(built);
            proof {
                assert(spec_prob_views(problems@) =~= before.push(bv));
            }
        }
        let prevt = curt.take();
        if let Some(tb) = prevt {
            let built = tb.build(book_id, chapter_num, now);
            let ghost bv = spec_theory_row_of(built);
            let ghost before = spec_theory_rows(theories@);
            theories.push(built);
            proof {
                assert(spec_theory_rows(theories@) =~= before.push(bv));
            }
        }
        if curu.len() > 0 {
            let ghost before = spec_str_views(unclassified@);
            let ghost uv = curu@;
            unclassified.push(string_of(&curu));
            proof {
                assert(spec_str_views(unclassified@) =~= before.push(uv));
            }
        }
        ParseResult { problems, theory_blocks: theories, unclassified }
    }
}

impl ProblemBuilder {
    /// Is a sub-problem currently collecting lines?
    pub fn has_open_sub(&self) -> (b: bool)
        ensures
            b == (self@.cur is Some),
    {
        self.current_sub.is_some()
    }
}

} // verus!
