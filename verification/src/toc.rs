//! Table-of-contents helpers: Roman numerals and chapter titles.

use vstd::prelude::*;

use crate::reconcile::{ci_eq, spec_ci_eq};
use crate::text::{chars_of, spec_trim, split_lines, string_of, trim_chars, spec_lines};

verus! {

/// Detects a table of contents in OCR text.
pub struct TocDetector {}

/// One entry of a detected table of contents.
pub struct TocEntry {
    pub number: u32,
    pub title: String,
    pub page_number: Option<u32>,
    /// One for a chapter, two for a section, and so on.
    pub level: u8,
}

/// Imports a book with automatic chapter detection.
pub struct SmartImporter {
    toc_detector: TocDetector,
}

/// The value of one Roman letter, either case; `-1` when it is none.
pub open spec fn spec_roman_digit(c: char) -> int {
    if spec_ci_eq(c, 'i') {
        1
    } else if spec_ci_eq(c, 'v') {
        5
    } else if spec_ci_eq(c, 'x') {
        10
    } else if spec_ci_eq(c, 'l') {
        50
    } else if spec_ci_eq(c, 'c') {
        100
    } else if spec_ci_eq(c, 'd') {
        500
    } else if spec_ci_eq(c, 'm') {
        1000
    } else {
        -1
    }
}

/// Fold the numeral from its last letter to its first: a letter below the
/// one to its right subtracts, every other letter adds.
pub open spec fn spec_roman_fold(s: Seq<char>, i: int, acc: int, prev: int) -> Option<int>
    decreases i,
{
    if i <= 0 {
        Some(acc)
    } else {
        let v = spec_roman_digit(s[i - 1]);
        if v < 0 {
            None::<int>
        } else if v < prev {
            spec_roman_fold(s, i - 1, acc - v, v)
        } else {
            spec_roman_fold(s, i - 1, acc + v, v)
        }
    }
}

/// The value of a Roman numeral; `None` on a letter that is no numeral,
/// and on the rare malformed string whose value leaves `u32`.
pub open spec fn spec_roman_to_arabic(s: Seq<char>) -> Option<u32> {
    match spec_roman_fold(s, s.len() as int, 0, 0) {
        Some(v) => if 0 <= v <= u32::MAX {
            Some(v as u32)
        } else {
            None::<u32>
        },
        None => None::<u32>,
    }
}

impl TocDetector {
    pub fn new() -> (r: TocDetector) {
        TocDetector {  }
    }

    /// Convert a Roman numeral to its value.
    pub fn roman_to_arabic(roman: &str) -> (r: Option<u32>)
        ensures
            r == spec_roman_to_arabic(roman@),
    {
        let v = chars_of(roman);
        let n = v.len();
        let mut acc: i128 = 0;
        let mut prev: i128 = 0;
        let mut i: usize = n;
        while i > 0
            invariant
                i <= n,
                n == v@.len(),
                v@ == roman@,
                -1000 * (n - i) <= acc <= 1000 * (n - i),
                0 <= prev <= 1000,
                spec_roman_fold(v@, n as int, 0, 0) == spec_roman_fold(
                    v@,
                    i as int,
                    acc as int,
                    prev as int,
                ),
            decreases i,
        {
            let c = v[i - 1];
            let value: i128 = if ci_eq(c, 'i') {
                1
            } else if ci_eq(c, 'v') {
                5
            } else if ci_eq(c, 'x') {
                10
            } else if ci_eq(c, 'l') {
                50
            } else if ci_eq(c, 'c') {
                100
            } else if ci_eq(c, 'd') {
                500
            } else if ci_eq(c, 'm') {
                1000
            } else {
                proof {
                    assert(spec_roman_digit(v@[i - 1]) < 0);
                    assert(spec_roman_fold(v@, i as int, acc as int, prev as int) is None);
                }
                return None;
            };
            proof {
                assert(value as int == spec_roman_digit(v@[i - 1]));
            }
            if value < prev {
                acc = acc - value;
            } else {
                acc = acc + value;
            }
            prev = value;
            i = i - 1;
        }
        if acc < 0 || acc > u32::MAX as i128 {
            return None;
        }
        Some(acc as u32)
    }

    /// The first non-blank line of fewer than two hundred characters after
    /// a position, cleaned of leading dots and colons; a fixed name when
    /// there is none.
    pub fn extract_chapter_title(&self, text: &str, start_pos: usize) -> (r: String)
        ensures
            r@ == spec_chapter_title(text@, start_pos as int),
    {
        let v = chars_of(text);
        if start_pos > v.len() {
            return String::from_str("Untitled Chapter");
        }
        let rest = crate::text::slice_chars(&v, start_pos, v.len());
        let lines = split_lines(&rest);
        let ghost lseq = lines@.map_values(|l: Vec<char>| l@);
        let n = lines.len();
        let mut i: usize = 0;
        proof {
            assert(lseq.subrange(0, n as int) =~= lseq);
            assert(rest@ == text@.subrange(start_pos as int, text@.len() as int));
            assert(spec_chapter_title(text@, start_pos as int) == spec_first_title(lseq));
        }
        while i < n
            invariant
                i <= n,
                n == lseq.len(),
                lseq == lines@.map_values(|l: Vec<char>| l@),
                spec_chapter_title(text@, start_pos as int) == spec_first_title(lseq),
                spec_first_title(lseq) == spec_first_title(lseq.subrange(i as int, n as int)),
            decreases n - i,
        {
            proof {
                let sub_i = lseq.subrange(i as int, n as int);
                assert(sub_i[0] == lseq[i as int]);
                assert(sub_i.drop_first() =~= lseq.subrange(i + 1, n as int));
                assert(lseq[i as int] == lines@[i as int]@);
            }
            let t = trim_chars(&lines[i]);
            if t.len() > 0 && t.len() < 200 {
                let cleaned = clean_title(&t);
                proof {
                    assert(spec_first_title(lseq.subrange(i as int, n as int))
                        == spec_clean_title(t@));
                }
                return string_of(&cleaned);
            }
            i = i + 1;
        }
        proof {
            assert(lseq.subrange(n as int, n as int) =~= Seq::<Seq<char>>::empty());
        }
        String::from_str("Untitled Chapter")
    }
}

/// Leading dots, then leading colons, then whitespace are shed from a
/// title candidate.
pub open spec fn spec_clean_title(t: Seq<char>) -> Seq<char> {
    spec_trim(spec_skip_char(spec_skip_char(t, '.'), ':'))
}

/// The sequence with every leading `c` removed.
pub open spec fn spec_skip_char(s: Seq<char>, c: char) -> Seq<char>
    decreases s.len(),
{
    if s.len() > 0 && s[0] == c {
        spec_skip_char(s.drop_first(), c)
    } else {
        s
    }
}

fn skip_char_front(v: &Vec<char>, c: char) -> (r: Vec<char>)
    ensures
        r@ == spec_skip_char(v@, c),
{
    let n = v.len();
    let mut i: usize = 0;
    proof {
        assert(v@.subrange(0, n as int) =~= v@);
    }
    while i < n && v[i] == c
        invariant
            i <= n,
            n == v@.len(),
            spec_skip_char(v@, c) == spec_skip_char(v@.subrange(i as int, n as int), c),
        decreases n - i,
    {
        proof {
            let t = v@.subrange(i as int, n as int);
            assert(t[0] == v@[i as int]);
            assert(t.drop_first() =~= v@.subrange(i + 1, n as int));
        }
        i = i + 1;
    }
    let r = crate::text::slice_chars(v, i, n);
    proof {
        if i < n {
            assert(v@.subrange(i as int, n as int)[0] != c);
        }
    }
    r
}

fn clean_title(t: &Vec<char>) -> (r: Vec<char>)
    ensures
        r@ == spec_clean_title(t@),
{
    let a = skip_char_front(t, '.');
    let b = skip_char_front(&a, ':');
    trim_chars(&b)
}

/// The cleaned first usable line, or the fixed name.
pub open spec fn spec_first_title(lines: Seq<Seq<char>>) -> Seq<char>
    decreases lines.len(),
{
    if lines.len() == 0 {
        "Untitled Chapter"@
    } else {
        let t = spec_trim(lines[0]);
        if t.len() > 0 && t.len() < 200 {
            spec_clean_title(t)
        } else {
            spec_first_title(lines.drop_first())
        }
    }
}

/// What `extract_chapter_title` yields, over characters from `start`.
pub open spec fn spec_chapter_title(s: Seq<char>, start: int) -> Seq<char> {
    if start > s.len() {
        "Untitled Chapter"@
    } else {
        spec_first_title(spec_lines(s.subrange(start, s.len() as int)))
    }
}

impl SmartImporter {
    pub fn new() -> (r: SmartImporter) {
        SmartImporter { toc_detector: TocDetector::new() }
    }
}

} // verus!
