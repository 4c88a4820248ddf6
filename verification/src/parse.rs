//! Structured problems parsed out of one page's OCR text, and the
//! deterministic line-oriented parser used for the known textbook.

use vstd::prelude::*;

use crate::text::{
    chars_of, is_digit_char, is_space_char, is_sub_letter_char, spec_is_digit, spec_is_space,
    spec_is_sub_letter, spec_join_with, spec_lines, spec_trim, spec_trim_start, split_lines,
    string_of, trim_chars, copy_chars, has_prefix_at, spec_has_prefix_at, push_all,
};
use crate::reconcile::{spec_is_chapter_heading, is_chapter_heading_chars, spec_nl, spec_skip_spaces};

verus! {

// --- parsed shapes ---

/// One lettered sub-problem of a parsed problem.
pub struct ParsedSubProblem {
    pub letter: String,
    pub content: String,
}

/// One numbered problem parsed from a page.
pub struct ParsedProblem {
    pub number: String,
    pub content: String,
    pub sub_problems: Vec<ParsedSubProblem>,
    /// Does this problem continue from the previous page?
    pub continues_from_prev: bool,
    /// Does this problem continue to the next page?
    pub continues_to_next: bool,
}

/// The parsed problems of one page.
pub struct AIParseResult {
    pub problems: Vec<ParsedProblem>,
}

// --- mathematical views ---

pub struct SubProblemView {
    pub letter: Seq<char>,
    pub content: Seq<char>,
}

pub struct ProblemView {
    pub number: Seq<char>,
    pub content: Seq<char>,
    pub subs: Seq<SubProblemView>,
    pub from_prev: bool,
    pub to_next: bool,
}

impl View for ParsedSubProblem {
    type V = SubProblemView;

    open spec fn view(&self) -> SubProblemView {
        SubProblemView { letter: self.letter@, content: self.content@ }
    }
}

impl View for ParsedProblem {
    type V = ProblemView;

    open spec fn view(&self) -> ProblemView {
        ProblemView {
            number: self.number@,
            content: self.content@,
            subs: self.sub_problems@.map_values(|s: ParsedSubProblem| s@),
            from_prev: self.continues_from_prev,
            to_next: self.continues_to_next,
        }
    }
}

impl View for AIParseResult {
    type V = Seq<ProblemView>;

    open spec fn view(&self) -> Seq<ProblemView> {
        self.problems@.map_values(|p: ParsedProblem| p@)
    }
}

impl ParsedSubProblem {
    /// Copy this sub-problem.
    pub fn dup(&self) -> (r: ParsedSubProblem)
        ensures
            r@ == self@,
    {
        ParsedSubProblem { letter: self.letter.clone(), content: self.content.clone() }
    }
}

impl ParsedProblem {
    /// Copy this problem.
    pub fn dup(&self) -> (r: ParsedProblem)
        ensures
            r@ == self@,
    {
        let mut subs: Vec<ParsedSubProblem> = Vec::new();
        let mut i: usize = 0;
        while i < self.sub_problems.len()
            invariant
                i <= self.sub_problems@.len(),
                subs@.map_values(|s: ParsedSubProblem| s@) =~= self.sub_problems@.map_values(
                    |s: ParsedSubProblem| s@,
                ).subrange(0, i as int),
            decreases self.sub_problems@.len() - i,
        {
            let d = self.sub_problems[i].dup();
            let ghost old_subs = subs@;
            let ghost dv = d@;
            subs.push(d);
            proof {
                let f = |s: ParsedSubProblem| s@;
                assert(subs@.map_values(f) =~= old_subs.map_values(f).push(dv));
                assert(self.sub_problems@.map_values(f).subrange(0, i + 1)
                    =~= self.sub_problems@.map_values(f).subrange(0, i as int).push(
                    self.sub_problems@.map_values(f)[i as int],
                ));
                assert(self.sub_problems@.map_values(f)[i as int] == self.sub_problems@[i as int]@);
                assert(subs@.map_values(f) =~= self.sub_problems@.map_values(f).subrange(
                    0,
                    i + 1,
                ));
            }
            i = i + 1;
        }
        proof {
            let f = |s: ParsedSubProblem| s@;
            assert(subs@.map_values(f) =~= self.sub_problems@.map_values(f));
        }
        let r = ParsedProblem {
            number: self.number.clone(),
            content: self.content.clone(),
            sub_problems: subs,
            continues_from_prev: self.continues_from_prev,
            continues_to_next: self.continues_to_next,
        };
        r
    }
}

/// The sub-problem views of a parsed problem, one per stored entry.
pub proof fn lemma_problem_view_subs(p: ParsedProblem, j: int)
    requires
        0 <= j < p.sub_problems@.len(),
    ensures
        p@.subs.len() == p.sub_problems@.len(),
        p@.subs[j] == p.sub_problems@[j]@,
{
}

// --- line-start detectors ---

/// First index at or after `i` that is past the digits.
pub open spec fn spec_digits_end(s: Seq<char>, i: int) -> int
    decreases s.len() - i,
{
    if i < 0 || i >= s.len() {
        i
    } else if spec_is_digit(s[i]) {
        spec_digits_end(s, i + 1)
    } else {
        i
    }
}

pub proof fn lemma_digits_end_bounds(s: Seq<char>, i: int)
    requires
        0 <= i <= s.len(),
    ensures
        i <= spec_digits_end(s, i) <= s.len(),
    decreases s.len() - i,
{
    if i < s.len() && spec_is_digit(s[i]) {
        lemma_digits_end_bounds(s, i + 1);
    }
}

/// The word `Задача` opening a problem line.
pub open spec fn spec_zadacha_word() -> Seq<char> {
    seq!['\u{0417}', '\u{0430}', '\u{0434}', '\u{0430}', '\u{0447}', '\u{0430}']
}

/// `Задача <digits>[.:)] <content>`: the problem number and what remains.
pub open spec fn spec_zadacha_start(line: Seq<char>) -> Option<(Seq<char>, Seq<char>)> {
    if !spec_has_prefix_at(line, 0, spec_zadacha_word()) {
        None::<(Seq<char>, Seq<char>)>
    } else {
        let rest = spec_trim_start(line.subrange(6, line.len() as int));
        let i = spec_digits_end(rest, 0);
        if i == 0 {
            None::<(Seq<char>, Seq<char>)>
        } else {
            let num = rest.subrange(0, i);
            let j = spec_skip_spaces(rest, i);
            let j2 = if j < rest.len() && (rest[j] == '.' || rest[j] == ':' || rest[j] == ')') {
                spec_skip_spaces(rest, j + 1)
            } else {
                j
            };
            Some((num, spec_trim(rest.subrange(j2, rest.len() as int))))
        }
    }
}

/// `<digits>. <content>`: the number and what follows the dot.
pub open spec fn spec_numeric_dot_start(line: Seq<char>) -> Option<(Seq<char>, Seq<char>)> {
    let i = spec_digits_end(line, 0);
    if i == 0 || i >= line.len() || line[i] != '.' {
        None::<(Seq<char>, Seq<char>)>
    } else {
        let num = line.subrange(0, i);
        let j = spec_skip_spaces(line, i + 1);
        Some((num, spec_trim(line.subrange(j, line.len() as int))))
    }
}

/// A line that opens a main problem, either way of writing it.
pub open spec fn spec_main_start(line: Seq<char>) -> Option<(Seq<char>, Seq<char>)> {
    if spec_zadacha_start(line) is Some {
        spec_zadacha_start(line)
    } else {
        spec_numeric_dot_start(line)
    }
}

/// `а) ...`, `b. ...`, `(в) ...`: the sub-problem letter and what follows.
/// The letter must be a lowercase Cyrillic or Latin letter.
pub open spec fn spec_sub_start(line: Seq<char>) -> Option<(Seq<char>, Seq<char>)> {
    if line.len() >= 3 && line[0] == '(' && spec_is_sub_letter(line[1]) && line[2] == ')' {
        Some((seq![line[1]], spec_trim(line.subrange(3, line.len() as int))))
    } else if line.len() >= 2 && spec_is_sub_letter(line[0]) && (line[1] == ')' || line[1] == '.'
        || line[1] == ']') {
        Some((seq![line[0]], spec_trim(line.subrange(2, line.len() as int))))
    } else {
        None::<(Seq<char>, Seq<char>)>
    }
}

/// View of an optional (number, content) pair.
pub open spec fn opt_pair_view(o: Option<(Vec<char>, Vec<char>)>) -> Option<(Seq<char>, Seq<char>)> {
    match o {
        Some((a, b)) => Some((a@, b@)),
        None => None,
    }
}

/// Skip spaces in a character vector, starting at `i`.
fn skip_spaces_from(v: &Vec<char>, i: usize) -> (j: usize)
    requires
        i <= v@.len(),
    ensures
        j == spec_skip_spaces(v@, i as int),
        i <= j <= v@.len(),
{
    let n = v.len();
    let mut j: usize = i;
    while j < n && is_space_char(v[j])
        invariant
            i <= j <= n,
            n == v@.len(),
            spec_skip_spaces(v@, i as int) == spec_skip_spaces(v@, j as int),
        decreases n - j,
    {
        j = j + 1;
    }
    j
}

/// Scan past digits in a character vector, starting at `i`.
fn digits_end_from(v: &Vec<char>, i: usize) -> (j: usize)
    requires
        i <= v@.len(),
    ensures
        j == spec_digits_end(v@, i as int),
        i <= j <= v@.len(),
{
    let n = v.len();
    let mut j: usize = i;
    while j < n && is_digit_char(v[j])
        invariant
            i <= j <= n,
            n == v@.len(),
            spec_digits_end(v@, i as int) == spec_digits_end(v@, j as int),
        decreases n - j,
    {
        j = j + 1;
    }
    j
}

/// Copy the range `[from, to)` of a character vector.
fn sub_chars(v: &Vec<char>, from: usize, to: usize) -> (r: Vec<char>)
    requires
        from <= to <= v@.len(),
    ensures
        r@ == v@.subrange(from as int, to as int),
{
    let mut r: Vec<char> = Vec::new();
    let mut i: usize = from;
    while i < to
        invariant
            from <= i <= to <= v@.len(),
            r@ =~= v@.subrange(from as int, i as int),
        decreases to - i,
    {
        r.push(v[i]);
        proof {
            assert(r@ =~= v@.subrange(from as int, i + 1));
        }
        i = i + 1;
    }
    r
}

/// Recognise `Задача <number>` at the start of a line.
pub fn parse_zadacha_start(line: &Vec<char>) -> (r: Option<(Vec<char>, Vec<char>)>)
    ensures
        opt_pair_view(r) == spec_zadacha_start(line@),
{
    let word: Vec<char> = vec![
        '\u{0417}',
        '\u{0430}',
        '\u{0434}',
        '\u{0430}',
        '\u{0447}',
        '\u{0430}',
    ];
    proof {
        assert(word@ =~= spec_zadacha_word());
    }
    if !has_prefix_at(line, 0, &word) {
        return None;
    }
    let after = sub_chars(line, 6, line.len());
    let rest_v = {
        let t = skip_spaces_from(&after, 0);
        sub_chars(&after, t, after.len())
    };
    proof {
        lemma_trim_start_is_skip(after@);
    }
    let i = digits_end_from(&rest_v, 0);
    if i == 0 {
        return None;
    }
    let num = sub_chars(&rest_v, 0, i);
    let j = skip_spaces_from(&rest_v, i);
    let j2 = if j < rest_v.len() && (rest_v[j] == '.' || rest_v[j] == ':' || rest_v[j] == ')') {
        skip_spaces_from(&rest_v, j + 1)
    } else {
        j
    };
    let content_raw = sub_chars(&rest_v, j2, rest_v.len());
    let content = trim_chars(&content_raw);
    Some((num, content))
}

/// `spec_trim_start` is the suffix that begins at the first non-space.
proof fn lemma_trim_start_is_skip(s: Seq<char>)
    ensures
        spec_trim_start(s) == s.subrange(spec_skip_spaces(s, 0), s.len() as int),
{
    lemma_trim_start_is_skip_from(s, 0);
    assert(s.subrange(0, s.len() as int) =~= s);
}

proof fn lemma_trim_start_is_skip_from(s: Seq<char>, i: int)
    requires
        0 <= i <= s.len(),
    ensures
        spec_trim_start(s.subrange(i, s.len() as int)) == s.subrange(
            spec_skip_spaces(s, i),
            s.len() as int,
        ),
    decreases s.len() - i,
{
    let t = s.subrange(i, s.len() as int);
    if i < s.len() && spec_is_space(s[i]) {
        assert(t.len() > 0 && spec_is_space(t[0]));
        assert(t.drop_first() =~= s.subrange(i + 1, s.len() as int));
        lemma_trim_start_is_skip_from(s, i + 1);
    } else {
    }
}

/// Recognise `<digits>.` at the start of a line.
pub fn parse_numeric_dot_start(line: &Vec<char>) -> (r: Option<(Vec<char>, Vec<char>)>)
    ensures
        opt_pair_view(r) == spec_numeric_dot_start(line@),
{
    let i = digits_end_from(line, 0);
    if i == 0 || i >= line.len() || line[i] != '.' {
        return None;
    }
    let num = sub_chars(line, 0, i);
    let j = skip_spaces_from(line, i + 1);
    let content_raw = sub_chars(line, j, line.len());
    let content = trim_chars(&content_raw);
    Some((num, content))
}

/// Recognise either way a main problem starts.
pub fn parse_main_problem_start(line: &Vec<char>) -> (r: Option<(Vec<char>, Vec<char>)>)
    ensures
        opt_pair_view(r) == spec_main_start(line@),
{
    let z = parse_zadacha_start(line);
    if z.is_some() {
        return z;
    }
    parse_numeric_dot_start(line)
}

/// Recognise a sub-problem start such as `а)`, `b.`, or `(в)`.
pub fn parse_sub_problem_start(line: &Vec<char>) -> (r: Option<(Vec<char>, Vec<char>)>)
    ensures
        opt_pair_view(r) == spec_sub_start(line@),
{
    let n = line.len();
    if n >= 3 && line[0] == '(' && is_sub_letter_char(line[1]) && line[2] == ')' {
        let letter: Vec<char> = vec![line[1]];
        let rest = sub_chars(line, 3, n);
        let content = trim_chars(&rest);
        proof {
            assert(letter@ =~= seq![line@[1]]);
        }
        return Some((letter, content));
    }
    if n >= 2 && is_sub_letter_char(line[0]) && (line[1] == ')' || line[1] == '.' || line[1]
        == ']') {
        let letter: Vec<char> = vec![line[0]];
        let rest = sub_chars(line, 2, n);
        let content = trim_chars(&rest);
        proof {
            assert(letter@ =~= seq![line@[0]]);
        }
        return Some((letter, content));
    }
    None
}

// --- builders ---

pub struct SubBuilderView {
    pub letter: Seq<char>,
    pub lines: Seq<Seq<char>>,
}

pub struct ProblemBuilderView {
    pub number: Seq<char>,
    pub lines: Seq<Seq<char>>,
    pub subs: Seq<SubBuilderView>,
    pub cur: Option<SubBuilderView>,
}

pub open spec fn spec_sub_new(letter: Seq<char>, first: Seq<char>) -> SubBuilderView {
    SubBuilderView {
        letter,
        lines: if first.len() > 0 {
            seq![first]
        } else {
            Seq::<Seq<char>>::empty()
        },
    }
}

pub open spec fn spec_sub_push(sb: SubBuilderView, line: Seq<char>) -> SubBuilderView {
    SubBuilderView { letter: sb.letter, lines: sb.lines.push(line) }
}

pub open spec fn spec_sub_finish(sb: SubBuilderView) -> SubProblemView {
    SubProblemView { letter: sb.letter, content: spec_trim(spec_join_with(sb.lines, spec_nl())) }
}

pub open spec fn spec_pb_new(number: Seq<char>, first: Seq<char>) -> ProblemBuilderView {
    ProblemBuilderView {
        number,
        lines: if first.len() > 0 {
            seq![first]
        } else {
            Seq::<Seq<char>>::empty()
        },
        subs: Seq::<SubBuilderView>::empty(),
        cur: None::<SubBuilderView>,
    }
}

pub open spec fn spec_pb_all_subs(pb: ProblemBuilderView) -> Seq<SubBuilderView> {
    match pb.cur {
        Some(sb) => pb.subs.push(sb),
        None => pb.subs,
    }
}

pub open spec fn spec_pb_start_sub(
    pb: ProblemBuilderView,
    letter: Seq<char>,
    first: Seq<char>,
) -> ProblemBuilderView {
    ProblemBuilderView {
        number: pb.number,
        lines: pb.lines,
        subs: spec_pb_all_subs(pb),
        cur: Some(spec_sub_new(letter, first)),
    }
}

pub open spec fn spec_pb_push_line(pb: ProblemBuilderView, line: Seq<char>) -> ProblemBuilderView {
    match pb.cur {
        Some(sb) => ProblemBuilderView {
            number: pb.number,
            lines: pb.lines,
            subs: pb.subs,
            cur: Some(spec_sub_push(sb, line)),
        },
        None => ProblemBuilderView {
            number: pb.number,
            lines: pb.lines.push(line),
            subs: pb.subs,
            cur: pb.cur,
        },
    }
}

pub open spec fn spec_pb_finish(pb: ProblemBuilderView) -> ProblemView {
    ProblemView {
        number: pb.number,
        content: spec_trim(spec_join_with(pb.lines, spec_nl())),
        subs: spec_pb_all_subs(pb).map_values(|sb: SubBuilderView| spec_sub_finish(sb)),
        from_prev: false,
        to_next: false,
    }
}

/// Builder for one sub-problem while its lines are being collected.
pub struct SubBuilder {
    letter: Vec<char>,
    content: Vec<Vec<char>>,
}

impl View for SubBuilder {
    type V = SubBuilderView;

    closed spec fn view(&self) -> SubBuilderView {
        SubBuilderView {
            letter: self.letter@,
            lines: self.content@.map_values(|l: Vec<char>| l@),
        }
    }
}

impl SubBuilder {
    pub fn new(letter: Vec<char>, first_line: Vec<char>) -> (r: SubBuilder)
        ensures
            r@ == spec_sub_new(letter@, first_line@),
    {
        let mut content: Vec<Vec<char>> = Vec::new();
        let ghost fl = first_line@;
        if first_line.len() > 0 {
            content.push(first_line);
            proof {
                assert(content@.map_values(|l: Vec<char>| l@) =~= seq![fl]);
            }
        } else {
            proof {
                assert(content@.map_values(|l: Vec<char>| l@) =~= Seq::<Seq<char>>::empty());
            }
        }
        SubBuilder { letter, content }
    }

    pub fn push_line(&mut self, line: Vec<char>)
        ensures
            final(self)@ == spec_sub_push(old(self)@, line@),
    {
        let ghost lv = line@;
        let ghost old_lines = self.content@.map_values(|l: Vec<char>| l@);
        self.content.push(line);
        proof {
            assert(self.content@.map_values(|l: Vec<char>| l@) =~= old_lines.push(lv));
        }
    }

    pub fn finish(self) -> (r: ParsedSubProblem)
        ensures
            r@ == spec_sub_finish(self@),
    {
        let nl: Vec<char> = vec!['\n'];
        proof {
            assert(nl@ =~= spec_nl());
        }
        let joined = crate::text::join_with(&self.content, &nl);
        let trimmed = trim_chars(&joined);
        ParsedSubProblem { letter: string_of(&self.letter), content: string_of(&trimmed) }
    }
}

/// Builder for one problem while its lines and sub-problems are collected.
pub struct ProblemBuilder {
    number: Vec<char>,
    content: Vec<Vec<char>>,
    sub_problems: Vec<SubBuilder>,
    current_sub: Option<SubBuilder>,
}

impl View for ProblemBuilder {
    type V = ProblemBuilderView;

    closed spec fn view(&self) -> ProblemBuilderView {
        ProblemBuilderView {
            number: self.number@,
            lines: self.content@.map_values(|l: Vec<char>| l@),
            subs: self.sub_problems@.map_values(|s: SubBuilder| s@),
            cur: match self.current_sub {
                Some(sb) => Some(sb@),
                None => None,
            },
        }
    }
}

impl ProblemBuilder {
    pub fn new(number: Vec<char>, first_content_line: Vec<char>) -> (r: ProblemBuilder)
        ensures
            r@ == spec_pb_new(number@, first_content_line@),
    {
        let mut content: Vec<Vec<char>> = Vec::new();
        let ghost fl = first_content_line@;
        if first_content_line.len() > 0 {
            content.push(first_content_line);
            proof {
                assert(content@.map_values(|l: Vec<char>| l@) =~= seq![fl]);
            }
        } else {
            proof {
                assert(content@.map_values(|l: Vec<char>| l@) =~= Seq::<Seq<char>>::empty());
            }
        }
        let r = ProblemBuilder { number, content, sub_problems: Vec::new(), current_sub: None };
        proof {
            assert(r.sub_problems@.map_values(|s: SubBuilder| s@) =~= Seq::<
                SubBuilderView,
            >::empty());
        }
        r
    }

    pub fn start_sub(&mut self, letter: Vec<char>, first_line: Vec<char>)
        ensures
            final(self)@ == spec_pb_start_sub(old(self)@, letter@, first_line@),
    {
        let prev = self.current_sub.take();
        let ghost old_subs = self.sub_problems@.map_values(|s: SubBuilder| s@);
        if let Some(sb) = prev {
            let ghost sv = sb@;
            self.sub_problems.push(sb);
            proof {
                assert(self.sub_problems@.map_values(|s: SubBuilder| s@) =~= old_subs.push(sv));
            }
        }
        self.current_sub = Some(SubBuilder::new(letter, first_line));
    }

    pub fn push_line(&mut self, line: Vec<char>)
        ensures
            final(self)@ == spec_pb_push_line(old(self)@, line@),
    {
        let ghost lv = line@;
        let ghost old_lines = self.content@.map_values(|l: Vec<char>| l@);
        let mut cur = self.current_sub.take();
        match cur {
            Some(mut sb) => {
                sb.push_line(line);
                self.current_sub = Some(sb);
            },
            None => {
                self.content.push(line);
                proof {
                    assert(self.content@.map_values(|l: Vec<char>| l@) =~= old_lines.push(lv));
                }
            },
        }
    }

    pub fn finish(self) -> (r: ParsedProblem)
        ensures
            r@ == spec_pb_finish(self@),
    {
        let ghost pbv = self@;
        let ProblemBuilder { number, content, mut sub_problems, current_sub } = self;
        if let Some(sb) = current_sub {
            let ghost old_subs = sub_problems@.map_values(|s: SubBuilder| s@);
            let ghost sv = sb@;
            sub_problems.push(sb);
            proof {
                assert(sub_problems@.map_values(|s: SubBuilder| s@) =~= old_subs.push(sv));
            }
        }
        proof {
            assert(sub_problems@.map_values(|s: SubBuilder| s@) == spec_pb_all_subs(pbv));
        }
        let mut subs: Vec<ParsedSubProblem> = Vec::new();
        let ghost all = sub_problems@.map_values(|s: SubBuilder| s@);
        let n = sub_problems.len();
        proof {
            assert(subs@.map_values(|s: ParsedSubProblem| s@) =~= all.map_values(
                |sb: SubBuilderView| spec_sub_finish(sb),
            ).subrange(0, 0));
        }
        // Consume the builders front to back.
        let mut idx: usize = 0;
        while idx < n
            invariant
                idx <= n,
                n == sub_problems@.len(),
                all == sub_problems@.map_values(|s: SubBuilder| s@),
                subs@.map_values(|s: ParsedSubProblem| s@) == all.map_values(
                    |sb: SubBuilderView| spec_sub_finish(sb),
                ).subrange(0, idx as int),
            decreases n - idx,
        {
            let ghost old_out = subs@.map_values(|s: ParsedSubProblem| s@);
            let sb = sub_problems[idx].dup_builder();
            let fin = sb.finish();
            let ghost fv = fin@;
            subs.push(fin);
            proof {
                let f = |s: ParsedSubProblem| s@;
                let g = |sb: SubBuilderView| spec_sub_finish(sb);
                assert(subs@.map_values(f) =~= old_out.push(fv));
                assert(all.map_values(g)[idx as int] == spec_sub_finish(all[idx as int]));
                assert(all[idx as int] == sub_problems@[idx as int]@);
                assert(all.map_values(g).subrange(0, idx + 1) =~= all.map_values(g).subrange(
                    0,
                    idx as int,
                ).push(all.map_values(g)[idx as int]));
                assert(subs@.map_values(f) =~= all.map_values(g).subrange(0, idx + 1));
            }
            idx = idx + 1;
        }
        proof {
            let g = |sb: SubBuilderView| spec_sub_finish(sb);
            assert(all.map_values(g).subrange(0, n as int) =~= all.map_values(g));
        }
        let nl: Vec<char> = vec!['\n'];
        proof {
            assert(nl@ =~= spec_nl());
        }
        let joined = crate::text::join_with(&content, &nl);
        let trimmed = trim_chars(&joined);
        let r = ParsedProblem {
            number: string_of(&number),
            content: string_of(&trimmed),
            sub_problems: subs,
            continues_from_prev: false,
            continues_to_next: false,
        };
        r
    }
}

// --- the deterministic page parser ---

/// Append the finished current problem, if one is open.
pub open spec fn spec_flush(out: Seq<ProblemView>, cur: Option<ProblemBuilderView>) -> Seq<
    ProblemView,
> {
    match cur {
        Some(pb) => out.push(spec_pb_finish(pb)),
        None => out,
    }
}

/// One pass of the line-oriented parser over the remaining lines, carrying
/// the problems already finished and the problem being built.
pub open spec fn spec_parse_lines(
    lines: Seq<Seq<char>>,
    out: Seq<ProblemView>,
    cur: Option<ProblemBuilderView>,
) -> (Seq<ProblemView>, Option<ProblemBuilderView>)
    decreases lines.len(),
{
    if lines.len() == 0 {
        (out, cur)
    } else {
        let l = spec_trim(lines[0]);
        let rest = lines.drop_first();
        if l.len() == 0 {
            spec_parse_lines(rest, out, cur)
        } else if l[0] == '#' {
            spec_parse_lines(rest, out, cur)
        } else if spec_is_chapter_heading(l) {
            spec_parse_lines(rest, spec_flush(out, cur), None::<ProblemBuilderView>)
        } else if spec_main_start(l) is Some {
            spec_parse_lines(
                rest,
                spec_flush(out, cur),
                Some(spec_pb_new(spec_main_start(l)->Some_0.0, spec_main_start(l)->Some_0.1)),
            )
        } else if cur is None {
            spec_parse_lines(rest, out, None::<ProblemBuilderView>)
        } else if spec_sub_start(l) is Some {
            spec_parse_lines(
                rest,
                out,
                Some(
                    spec_pb_start_sub(
                        cur->Some_0,
                        spec_sub_start(l)->Some_0.0,
                        spec_sub_start(l)->Some_0.1,
                    ),
                ),
            )
        } else {
            spec_parse_lines(rest, out, Some(spec_pb_push_line(cur->Some_0, l)))
        }
    }
}

/// What the deterministic parser extracts from one page's text.
pub open spec fn spec_parse(s: Seq<char>) -> Seq<ProblemView> {
    let r = spec_parse_lines(
        spec_lines(s),
        Seq::<ProblemView>::empty(),
        None::<ProblemBuilderView>,
    );
    spec_flush(r.0, r.1)
}

/// View of the open problem builder.
pub open spec fn opt_pb_view(c: Option<ProblemBuilder>) -> Option<ProblemBuilderView> {
    match c {
        Some(pb) => Some(pb@),
        None => None,
    }
}

/// Parse one page of OCR text into numbered problems with lettered
/// sub-problems.
///
/// Lines open a problem (`71.`, `Задача 5:`) or a sub-problem (`а)`),
/// chapter headings close the open problem without joining its text, and
/// every other line is appended to whichever builder is open.
pub fn parse(text: &str) -> (r: AIParseResult)
    ensures
        r@ == spec_parse(text@),
{
    let v = chars_of(text);
    let lines = split_lines(&v);
    let ghost lseq = lines@.map_values(|l: Vec<char>| l@);
    let n = lines.len();
    let mut out: Vec<ParsedProblem> = Vec::new();
    let mut current: Option<ProblemBuilder> = None;
    let mut i: usize = 0;
    proof {
        assert(lseq.subrange(0, n as int) =~= lseq);
        assert(out@.map_values(|p: ParsedProblem| p@) =~= Seq::<ProblemView>::empty());
    }
    while i < n
        invariant
            i <= n,
            n == lseq.len(),
            lseq == lines@.map_values(|l: Vec<char>| l@),
            spec_parse_lines(lseq, Seq::<ProblemView>::empty(), None::<ProblemBuilderView>)
                == spec_parse_lines(
                lseq.subrange(i as int, n as int),
                out@.map_values(|p: ParsedProblem| p@),
                opt_pb_view(current),
            ),
        decreases n - i,
    {
        proof {
            let sub_i = lseq.subrange(i as int, n as int);
            assert(sub_i[0] == lseq[i as int]);
            assert(sub_i.drop_first() =~= lseq.subrange(i + 1, n as int));
            assert(lseq[i as int] == lines@[i as int]@);
        }
        let ghost old_out = out@.map_values(|p: ParsedProblem| p@);
        let ghost old_cur = opt_pb_view(current);
        let line = trim_chars(&lines[i]);
        if line.len() == 0 {
            i = i + 1;
            continue ;
        }
        if line[0] == '#' {
            i = i + 1;
            continue ;
        }
        if is_chapter_heading_chars(&line) {
            let prev = current.take();
            if let Some(pb) = prev {
                let fin = pb.finish();
                let ghost fv = fin@;
                out.push(fin);
                proof {
                    assert(out@.map_values(|p: ParsedProblem| p@) =~= old_out.push(fv));
                }
            }
            proof {
                assert(out@.map_values(|p: ParsedProblem| p@) == spec_flush(old_out, old_cur));
            }
            i = i + 1;
            continue ;
        }
        let main = parse_main_problem_start(&line);
        if let Some((num, c0)) = main {
            let prev = current.take();
            if let Some(pb) = prev {
                let fin = pb.finish();
                let ghost fv = fin@;
                out.push(fin);
                proof {
                    assert(out@.map_values(|p: ParsedProblem| p@) =~= old_out.push(fv));
                }
            }
            proof {
                assert(out@.map_values(|p: ParsedProblem| p@) == spec_flush(old_out, old_cur));
            }
            current = Some(ProblemBuilder::new(num, c0));
            i = i + 1;
            continue ;
        }
        let taken = current.take();
        match taken {
            None => {
                i = i + 1;
                continue ;
            },
            Some(mut pb) => {
                let sub = parse_sub_problem_start(&line);
                if let Some((letter, c0)) = sub {
                    pb.start_sub(letter, c0);
                } else {
                    pb.push_line(line);
                }
                current = Some(pb);
                i = i + 1;
            },
        }
    }
    proof {
        assert(lseq.subrange(n as int, n as int) =~= Seq::<Seq<char>>::empty());
    }
    let ghost final_out = out@.map_values(|p: ParsedProblem| p@);
    let ghost final_cur = opt_pb_view(current);
    let prev = current.take();
    let mut problems = out;
    if let Some(pb) = prev {
        let fin = pb.finish();
        let ghost fv = fin@;
        problems.push(fin);
        proof {
            assert(problems@.map_values(|p: ParsedProblem| p@) =~= final_out.push(fv));
        }
    }
    proof {
        assert(problems@.map_values(|p: ParsedProblem| p@) == spec_flush(final_out, final_cur));
        assert(spec_lines(text@) == lseq);
    }
    AIParseResult { problems }
}

/// The suffix `.pdf`, stripped repeatedly from a book id.
pub open spec fn spec_strip_pdf(s: Seq<char>) -> Seq<char>
    decreases s.len(),
{
    if s.len() >= 4 && s.subrange(s.len() - 4, s.len() as int) =~= seq!['.', 'p', 'd', 'f'] {
        spec_strip_pdf(s.subrange(0, s.len() - 4))
    } else {
        s
    }
}

/// The deterministic parser serves the book `algebra-7`, named with or
/// without a `.pdf` suffix, in any letter case.
pub open spec fn spec_matches_book(s: Seq<char>) -> bool {
    let t = spec_strip_pdf(spec_trim(s));
    t.len() == 9 && crate::reconcile::spec_ci_eq(t[0], 'a') && crate::reconcile::spec_ci_eq(
        t[1],
        'l',
    ) && crate::reconcile::spec_ci_eq(t[2], 'g') && crate::reconcile::spec_ci_eq(t[3], 'e')
        && crate::reconcile::spec_ci_eq(t[4], 'b') && crate::reconcile::spec_ci_eq(t[5], 'r')
        && crate::reconcile::spec_ci_eq(t[6], 'a') && t[7] == '-' && t[8] == '7'
}

/// Does the deterministic parser know this book?
pub fn matches(book_id: &str) -> (b: bool)
    ensures
        b == spec_matches_book(book_id@),
{
    let v = chars_of(book_id);
    let mut t = trim_chars(&v);
    let ghost t0 = t@;
    while t.len() >= 4 && t[t.len() - 4] == '.' && t[t.len() - 3] == 'p' && t[t.len() - 2] == 'd'
        && t[t.len() - 1] == 'f'
        invariant
            spec_strip_pdf(t0) == spec_strip_pdf(t@),
        decreases t@.len(),
    {
        proof {
            assert(t@.subrange(t@.len() - 4, t@.len() as int) =~= seq!['.', 'p', 'd', 'f']);
        }
        let new_len = t.len() - 4;
        t.truncate(new_len);
    }
    proof {
        assert(spec_strip_pdf(t@) == t@) by {
            if t@.len() >= 4 && t@.subrange(t@.len() - 4, t@.len() as int) =~= seq![
                '.',
                'p',
                'd',
                'f',
            ] {
                assert(t@[t@.len() - 4] == '.' && t@[t@.len() - 3] == 'p' && t@[t@.len() - 2]
                    == 'd' && t@[t@.len() - 1] == 'f');
            }
        }
    }
    if t.len() != 9 {
        return false;
    }
    crate::reconcile::ci_eq(t[0], 'a') && crate::reconcile::ci_eq(t[1], 'l')
        && crate::reconcile::ci_eq(t[2], 'g') && crate::reconcile::ci_eq(t[3], 'e')
        && crate::reconcile::ci_eq(t[4], 'b') && crate::reconcile::ci_eq(t[5], 'r')
        && crate::reconcile::ci_eq(t[6], 'a') && t[7] == '-' && t[8] == '7'
}

impl SubBuilder {
    /// Copy this builder.
    pub fn dup_builder(&self) -> (r: SubBuilder)
        ensures
            r@ == self@,
    {
        let letter = copy_chars(&self.letter);
        let content = crate::text::slice_lines(&self.content, 0, self.content.len());
        proof {
            assert(self.content@.map_values(|l: Vec<char>| l@).subrange(
                0,
                self.content@.len() as int,
            ) =~= self.content@.map_values(|l: Vec<char>| l@));
        }
        SubBuilder { letter, content }
    }
}

// --- cross-page reconciliation ---

/// Letter of the Latin or Cyrillic alphabet, either case.
pub open spec fn spec_is_letter(c: char) -> bool {
    (65 <= c as u32 && c as u32 <= 90) || (97 <= c as u32 && c as u32 <= 122) || (0x410 <= c as u32
        && c as u32 <= 0x44F) || c as u32 == 0x401 || c as u32 == 0x451
}

pub fn is_letter_char(c: char) -> (b: bool)
    ensures
        b == spec_is_letter(c),
{
    let u = c as u32;
    (65 <= u && u <= 90) || (97 <= u && u <= 122) || (0x410 <= u && u <= 0x44F) || u == 0x401 || u
        == 0x451
}

/// Cross-page analysis of one page against the next page's raw text.
pub struct CrossPageAnalysis {
    /// Number of the problem judged to continue from the previous page.
    pub continued_problem: Option<String>,
    /// Number of the problem judged to continue onto the next page.
    pub incomplete_problem: Option<String>,
    /// The last problem ends in sentence punctuation.
    pub last_problem_complete: bool,
}

/// The last problem's content ends with `.`, `;`, `)`, `!` or `?`.
pub open spec fn spec_last_complete(problems: Seq<ProblemView>) -> bool {
    if problems.len() == 0 {
        true
    } else {
        let t = crate::text::spec_trim_end(problems.last().content);
        t.len() > 0 && (t.last() == '.' || t.last() == ';' || t.last() == ')' || t.last() == '!'
            || t.last() == '?')
    }
}

/// The next page opens with a letter, so its first text is judged to
/// continue the current page's last problem.
pub open spec fn spec_next_page_continues(next_text: Seq<char>) -> bool {
    let t = crate::text::spec_trim_start(next_text);
    t.len() > 0 && spec_is_letter(t[0])
}

/// The problems parsed from one page, with its strategies tried in turn.
pub struct HybridParser {
    api_key: Option<String>,
    cache: crate::cache::AIParseCache,
}

impl HybridParser {
    /// View of the parse cache held inside.
    pub closed spec fn cache_view(&self) -> Seq<
        crate::cache::CacheItemView<AIParseResult>,
    > {
        self.cache@
    }

    /// An AI key is configured, so the AI strategy is tried.
    pub closed spec fn has_api_key(&self) -> bool {
        self.api_key is Some
    }

    pub fn new(api_key: Option<String>) -> (r: HybridParser)
        ensures
            r.cache_view() == Seq::<crate::cache::CacheItemView<AIParseResult>>::empty(),
            r.has_api_key() == api_key is Some,
    {
        HybridParser { api_key, cache: crate::cache::AIParseCache::new() }
    }

    /// Judge whether the current page's problems spill over the page
    /// boundary, from the page's own text and the next page's start.
    pub fn analyze_cross_page(
        &self,
        current_page_problems: &Vec<ParsedProblem>,
        next_page_text: Option<&str>,
    ) -> (r: CrossPageAnalysis)
        ensures
            ({
                let ps = current_page_problems@.map_values(|p: ParsedProblem| p@);
                let complete = spec_last_complete(ps);
                &&& r.last_problem_complete == complete
                &&& (match r.incomplete_problem {
                    Some(n) => !complete && ps.len() > 0 && n@ == ps.last().number,
                    None => complete || ps.len() == 0,
                })
                &&& (match r.continued_problem {
                    Some(n) => next_page_text is Some && spec_next_page_continues(
                        next_page_text->Some_0@,
                    ) && ps.len() > 0 && n@ == ps.last().number,
                    None => next_page_text is None || !spec_next_page_continues(
                        next_page_text->Some_0@,
                    ) || ps.len() == 0,
                })
            }),
    {
        let ghost ps = current_page_problems@.map_values(|p: ParsedProblem| p@);
        let n = current_page_problems.len();
        let last_problem_complete = if n == 0 {
            true
        } else {
            let last = &current_page_problems[n - 1];
            proof {
                assert(ps.last() == current_page_problems@[n - 1]@);
            }
            let cv = chars_of(last.content.as_str());
            let mut end = cv.len();
            while end > 0 && is_space_char(cv[end - 1])
                invariant
                    end <= cv@.len(),
                    forall|j: int| end <= j < cv@.len() ==> crate::text::spec_is_space(cv@[j]),
                decreases end,
            {
                end = end - 1;
            }
            proof {
                crate::text::lemma_trim_end_chars(cv@, end as int);
            }
            if end == 0 {
                proof {
                    assert(cv@.subrange(0, 0) =~= Seq::<char>::empty());
                }
                false
            } else {
                let c = cv[end - 1];
                proof {
                    assert(crate::text::spec_trim_end(cv@).last() == cv@[end - 1]);
                }
                c == '.' || c == ';' || c == ')' || c == '!' || c == '?'
            }
        };
        let incomplete_problem: Option<String> = if last_problem_complete || n == 0 {
            None
        } else {
            proof {
                assert(ps.last() == current_page_problems@[n - 1]@);
            }
            Some(current_page_problems[n - 1].number.clone())
        };
        let continued_problem: Option<String> = match next_page_text {
            Some(text) => {
                let tv = chars_of(text);
                let mut i: usize = 0;
                while i < tv.len() && is_space_char(tv[i])
                    invariant
                        i <= tv@.len(),
                        crate::reconcile::spec_skip_spaces(tv@, 0)
                            == crate::reconcile::spec_skip_spaces(tv@, i as int),
                    decreases tv@.len() - i,
                {
                    i = i + 1;
                }
                proof {
                    assert(crate::reconcile::spec_skip_spaces(tv@, i as int) == i);
                    crate::parse::lemma_trim_start_is_skip_pub(tv@);
                }
                if i < tv.len() && is_letter_char(tv[i]) && n > 0 {
                    proof {
                        assert(crate::text::spec_trim_start(tv@)[0] == tv@[i as int]);
                        assert(ps.last() == current_page_problems@[n - 1]@);
                    }
                    Some(current_page_problems[n - 1].number.clone())
                } else {
                    proof {
                        if i < tv@.len() {
                            assert(crate::text::spec_trim_start(tv@)[0] == tv@[i as int]);
                        }
                    }
                    None
                }
            },
            None => None,
        };
        CrossPageAnalysis { continued_problem, incomplete_problem, last_problem_complete }
    }

    /// The trailing lines of a problem that continues onto the next page.
    pub fn extract_continuation_tail(&self, problem: &ParsedProblem) -> (r: Option<String>)
        ensures
            crate::reconcile::opt_view(r) == crate::reconcile::spec_continuation_tail(
                problem.content@,
                problem.continues_to_next,
            ),
    {
        crate::reconcile::continuation_tail_chars(
            problem.content.as_str(),
            problem.continues_to_next,
        )
    }

    /// Prepend the previous page's unfinished tail to this content.
    pub fn merge_with_prev_content(&self, current_content: &str, prev_tail: Option<&str>) -> (r:
        String)
        ensures
            r@ == crate::reconcile::spec_merge_with_prev(
                current_content@,
                match prev_tail {
                    Some(t) => Some(t@),
                    None => None,
                },
            ),
    {
        crate::reconcile::merge_with_prev_chars(current_content, prev_tail)
    }

    /// Reconcile one page's problems with its neighbours, as the
    /// specification [`spec_process_cross_page`] says.
    pub fn process_cross_page(
        &self,
        prev_problem: Option<&ParsedProblem>,
        prev_continuation_tail: Option<&str>,
        current_problems: &mut Vec<ParsedProblem>,
        next_problems: Option<&Vec<ParsedProblem>>,
    )
        ensures
            final(current_problems)@.map_values(|p: ParsedProblem| p@) == spec_process_cross_page(
                old(current_problems)@.map_values(|p: ParsedProblem| p@),
                match prev_problem {
                    Some(p) => Some(p@),
                    None => None,
                },
                match prev_continuation_tail {
                    Some(t) => Some(t@),
                    None => None,
                },
                match next_problems {
                    Some(v) => Some(v@.map_values(|p: ParsedProblem| p@)),
                    None => None,
                },
            ),
    {
        let ghost cur0 = current_problems@.map_values(|p: ParsedProblem| p@);
        let ghost prev_v = match prev_problem {
            Some(p) => Some(p@),
            None => None,
        };
        let ghost tail_v = match prev_continuation_tail {
            Some(t) => Some(t@),
            None => None,
        };
        if current_problems.len() > 0 {
            if let Some(prev) = prev_problem {
                proof {
                    assert(cur0[0] == current_problems@[0]@);
                }
                if current_problems[0].number == prev.number {
                    let merged = match prev_continuation_tail {
                        Some(t) => crate::reconcile::merge_with_prev_chars(
                            current_problems[0].content.as_str(),
                            Some(t),
                        ),
                        None => {
                            let c = chars_of(current_problems[0].content.as_str());
                            string_of(&c)
                        },
                    };
                    let slot = &mut current_problems[0];
                    slot.continues_from_prev = true;
                    slot.content = merged;
                    proof {
                        assert(current_problems@.map_values(|p: ParsedProblem| p@)
                            =~= cur0.update(
                            0,
                            ProblemView {
                                number: cur0[0].number,
                                content: crate::reconcile::spec_merge_with_prev(
                                    cur0[0].content,
                                    tail_v,
                                ),
                                subs: cur0[0].subs,
                                from_prev: true,
                                to_next: cur0[0].to_next,
                            },
                        ));
                    }
                }
            }
        }
        let ghost s1 = current_problems@.map_values(|p: ParsedProblem| p@);
        if let Some(next) = next_problems {
            let n = current_problems.len();
            if n > 0 && next.len() > 0 {
                proof {
                    assert(s1[n - 1] == current_problems@[n - 1]@);
                    assert(next@.map_values(|p: ParsedProblem| p@)[0] == next@[0]@);
                }
                if current_problems[n - 1].number == next[0].number {
                    let slot = &mut current_problems[n - 1];
                    slot.continues_to_next = true;
                    proof {
                        assert(current_problems@.map_values(|p: ParsedProblem| p@) =~= s1.update(
                            n - 1,
                            ProblemView {
                                number: s1[n - 1].number,
                                content: s1[n - 1].content,
                                subs: s1[n - 1].subs,
                                from_prev: s1[n - 1].from_prev,
                                to_next: true,
                            },
                        ));
                    }
                }
            }
        }
    }
}

/// One page's problems after reconciliation against its neighbours: the
/// first problem inherits the previous page's tail when the numbers
/// match, and the last is marked as continuing when the next page opens
/// with the same number.
pub open spec fn spec_process_cross_page(
    cur: Seq<ProblemView>,
    prev: Option<ProblemView>,
    tail: Option<Seq<char>>,
    next: Option<Seq<ProblemView>>,
) -> Seq<ProblemView> {
    let s1 = if cur.len() > 0 && prev is Some && cur[0].number == prev->Some_0.number {
        cur.update(
            0,
            ProblemView {
                number: cur[0].number,
                content: crate::reconcile::spec_merge_with_prev(cur[0].content, tail),
                subs: cur[0].subs,
                from_prev: true,
                to_next: cur[0].to_next,
            },
        )
    } else {
        cur
    };
    if s1.len() > 0 && next is Some && next->Some_0.len() > 0 && s1.last().number
        == next->Some_0[0].number {
        s1.update(
            s1.len() - 1,
            ProblemView {
                number: s1.last().number,
                content: s1.last().content,
                subs: s1.last().subs,
                from_prev: s1.last().from_prev,
                to_next: true,
            },
        )
    } else {
        s1
    }
}

// --- the hybrid strategy ---

/// The cache key of one page's parse: the book id and the exact text.
pub open spec fn spec_cache_key(book: Seq<char>, text: Seq<char>) -> Seq<char> {
    book + seq!['\n'] + text
}

/// A fallback sub-problem carried over from the looser parser.
pub open spec fn spec_fallback_sub(s: crate::store::ProblemRowView) -> SubProblemView {
    SubProblemView { letter: s.number, content: s.content }
}

/// A fallback problem carried over from the looser parser.
pub open spec fn spec_fallback_view(tb: crate::textbook::TbProblemView) -> ProblemView {
    ProblemView {
        number: tb.row.number,
        content: tb.row.content,
        subs: match tb.subs {
            Some(ss) => ss.map_values(|s: crate::store::ProblemRowView| spec_fallback_sub(s)),
            None => Seq::<SubProblemView>::empty(),
        },
        from_prev: false,
        to_next: false,
    }
}

pub open spec fn spec_fallback_problems(v: Seq<crate::textbook::TbProblemView>) -> Seq<
    ProblemView,
> {
    v.map_values(|tb: crate::textbook::TbProblemView| spec_fallback_view(tb))
}

/// The problems the regex fallback yields for a page.
pub open spec fn spec_regex_fallback(text: Seq<char>, page_num: Option<u32>, now: u64) -> Seq<
    ProblemView,
> {
    let ch = match page_num {
        Some(p) => p,
        None => 1u32,
    };
    spec_fallback_problems(
        crate::textbook::spec_tb_parse(
            text,
            seq!['u', 'n', 'k', 'n', 'o', 'w', 'n'],
            ch,
            now,
        ).0,
    )
}

/// The problems with both continuation flags lowered: the flags belong
/// to the reconciler alone, so whatever a model set is discarded.
pub open spec fn spec_cleared_flags(ps: Seq<ProblemView>) -> Seq<ProblemView> {
    ps.map_values(
        |p: ProblemView|
            ProblemView {
                number: p.number,
                content: p.content,
                subs: p.subs,
                from_prev: false,
                to_next: false,
            },
    )
}

/// Lower both continuation flags on every problem.
fn clear_continuation_flags(result: AIParseResult) -> (r: AIParseResult)
    ensures
        r@ == spec_cleared_flags(result@),
{
    let ghost before = result@;
    let mut problems = result.problems;
    let n = problems.len();
    let mut i: usize = 0;
    proof {
        assert(before == problems@.map_values(|p: ParsedProblem| p@));
    }
    while i < n
        invariant
            i <= n,
            n == problems@.len(),
            n == before.len(),
            forall|j: int|
                i <= j < n ==> #[trigger] problems@[j]@ == before[j],
            forall|j: int|
                0 <= j < i ==> #[trigger] problems@[j]@ == (ProblemView {
                    number: before[j].number,
                    content: before[j].content,
                    subs: before[j].subs,
                    from_prev: false,
                    to_next: false,
                }),
        decreases n - i,
    {
        let ghost pv = problems@[i as int]@;
        let slot = &mut problems[i];
        slot.continues_from_prev = false;
        slot.continues_to_next = false;
        proof {
            assert(pv == before[i as int]);
            assert(problems@[i as int].number@ == pv.number);
            assert(problems@[i as int].content@ == pv.content);
            assert(problems@[i as int]@.subs == pv.subs);
            assert(problems@[i as int]@ == (ProblemView {
                number: before[i as int].number,
                content: before[i as int].content,
                subs: before[i as int].subs,
                from_prev: false,
                to_next: false,
            }));
        }
        i = i + 1;
    }
    let r = AIParseResult { problems };
    proof {
        assert forall|j: int|
            0 <= j < n implies #[trigger] r@[j] == spec_cleared_flags(before)[j] by {
            assert(r@[j] == r.problems@[j]@);
        }
        assert(r@ =~= spec_cleared_flags(before));
    }
    r
}

/// View of an optional supplied parse.
pub open spec fn spec_opt_result_view(ai: Option<AIParseResult>) -> Option<Seq<ProblemView>> {
    match ai {
        Some(r) => Some(r@),
        None => None::<Seq<ProblemView>>,
    }
}

/// What a fresh parse yields, by the strategy order: the deterministic
/// parser for the known book, the supplied AI parse (flags lowered) when
/// a key is configured, the regex fallback otherwise.
pub open spec fn spec_parse_fresh(
    has_key: bool,
    book: Seq<char>,
    text: Seq<char>,
    page_num: Option<u32>,
    ai: Option<Seq<ProblemView>>,
    now: u64,
) -> Seq<ProblemView> {
    if spec_matches_book(book) {
        spec_parse(text)
    } else if has_key && ai is Some {
        spec_cleared_flags(ai->Some_0)
    } else {
        spec_regex_fallback(text, page_num, now)
    }
}

/// What `parse_text` returns: the cached problems when the exact text is
/// cached and unexpired, a fresh parse otherwise.
pub open spec fn spec_parse_text_result(
    vc: Seq<crate::cache::VCacheItem>,
    has_key: bool,
    book: Seq<char>,
    text: Seq<char>,
    page_num: Option<u32>,
    ai: Option<Seq<ProblemView>>,
    now: u64,
) -> Seq<ProblemView> {
    let key = crate::cache::sha256_hex_of(spec_cache_key(book, text));
    match crate::cache::spec_vget(vc, key, now) {
        Some(ps) => ps,
        None => spec_parse_fresh(has_key, book, text, page_num, ai, now),
    }
}

/// The parse cache after `parse_text`: untouched on a hit, holding the
/// fresh parse under the text's digest otherwise.
pub open spec fn spec_parse_text_vcache(
    vc: Seq<crate::cache::VCacheItem>,
    has_key: bool,
    book: Seq<char>,
    text: Seq<char>,
    page_num: Option<u32>,
    ai: Option<Seq<ProblemView>>,
    now: u64,
) -> Seq<crate::cache::VCacheItem> {
    let key = crate::cache::sha256_hex_of(spec_cache_key(book, text));
    match crate::cache::spec_vget(vc, key, now) {
        Some(_) => vc,
        None => crate::cache::spec_vset(
            vc,
            key,
            spec_parse_fresh(has_key, book, text, page_num, ai, now),
            now,
            crate::cache::spec_parse_cache_ttl(),
        ),
    }
}

impl HybridParser {
    /// Parse one page's text, trying the strategies in order: the cache
    /// of the exact text, the deterministic parser for the known book,
    /// the supplied AI parse when a key is configured (its continuation
    /// flags lowered, since only the reconciler sets them), and finally
    /// the regex fallback, which never fails. Every fresh result is
    /// cached.
    pub fn parse_text(
        &mut self,
        book_id: &str,
        text: &str,
        page_num: Option<u32>,
        ai: Option<AIParseResult>,
        now: u64,
    ) -> (r: AIParseResult)
        ensures
            final(self).has_api_key() == old(self).has_api_key(),
            r@ == spec_parse_text_result(
                crate::cache::spec_vcache(old(self).cache_view()),
                old(self).has_api_key(),
                book_id@,
                text@,
                page_num,
                spec_opt_result_view(ai),
                now,
            ),
            crate::cache::spec_vcache(final(self).cache_view()) == spec_parse_text_vcache(
                crate::cache::spec_vcache(old(self).cache_view()),
                old(self).has_api_key(),
                book_id@,
                text@,
                page_num,
                spec_opt_result_view(ai),
                now,
            ),
    {
        let mut keyv = chars_of(book_id);
        keyv.push('\n');
        let tv = chars_of(text);
        crate::text::push_all(&mut keyv, &tv);
        proof {
            assert(keyv@ =~= spec_cache_key(book_id@, text@));
        }
        let key_s = string_of(&keyv);
        let ghost key = crate::cache::sha256_hex_of(spec_cache_key(book_id@, text@));
        proof {
            crate::cache::lemma_vget(old(self).cache_view(), key, now);
        }
        match self.cache.get(key_s.as_str(), now) {
            Some(cached) => {
                return cached;
            },
            None => {},
        }
        if matches(book_id) {
            let result = parse(text);
            let stored = result.dup();
            let ghost sv = stored;
            self.cache.set(key_s.as_str(), stored, now);
            proof {
                crate::cache::lemma_vset(
                    old(self).cache_view(),
                    key,
                    sv,
                    now,
                    crate::cache::spec_parse_cache_ttl(),
                );
            }
            return result;
        }
        if self.api_key.is_some() {
            if let Some(res) = ai {
                let cleared = clear_continuation_flags(res);
                let stored = cleared.dup();
                let ghost sv = stored;
                self.cache.set(key_s.as_str(), stored, now);
                proof {
                    crate::cache::lemma_vset(
                        old(self).cache_view(),
                        key,
                        sv,
                        now,
                        crate::cache::spec_parse_cache_ttl(),
                    );
                }
                return cleared;
            }
        }
        let fallback = TextbookParserRun::run(text, page_num, now);
        let stored = fallback.dup();
        let ghost sv = stored;
        self.cache.set(key_s.as_str(), stored, now);
        proof {
            crate::cache::lemma_vset(
                old(self).cache_view(),
                key,
                sv,
                now,
                crate::cache::spec_parse_cache_ttl(),
            );
        }
        fallback
    }
}

/// The regex-fallback strategy, mapped into parsed problems.
struct TextbookParserRun {}

impl TextbookParserRun {
    fn run(text: &str, page_num: Option<u32>, now: u64) -> (r: AIParseResult)
        ensures
            r@ == spec_regex_fallback(text@, page_num, now),
    {
        let ch = match page_num {
            Some(p) => p,
            None => 1,
        };
        let parser = crate::textbook::TextbookParser::new();
        let parsed = parser.parse(text, "unknown", ch, now);
        proof {
            reveal_strlit("unknown");
            assert("unknown"@ =~= seq!['u', 'n', 'k', 'n', 'o', 'w', 'n']);
        }
        let mut tb_problems = parsed.problems;
        let ghost all = crate::textbook::spec_prob_views(tb_problems@);
        let mut problems: Vec<ParsedProblem> = Vec::new();
        proof {
            assert(all.subrange(0, 0) =~= Seq::<crate::textbook::TbProblemView>::empty());
            assert(spec_fallback_problems(all.subrange(0, 0)) =~= Seq::<ProblemView>::empty());
            assert(problems@.map_values(|p: ParsedProblem| p@) =~= Seq::<ProblemView>::empty());
            assert(all.subrange(0, all.len() as int) =~= all);
        }
        while tb_problems.len() > 0
            invariant
                tb_problems@.len() <= all.len(),
                crate::textbook::spec_prob_views(tb_problems@) =~= all.subrange(
                    all.len() - tb_problems@.len(),
                    all.len() as int,
                ),
                problems@.map_values(|p: ParsedProblem| p@) =~= spec_fallback_problems(
                    all.subrange(0, all.len() - tb_problems@.len()),
                ),
            decreases tb_problems@.len(),
        {
            let ghost k = all.len() - tb_problems@.len();
            let ghost prevs = tb_problems@;
            proof {
                assert(crate::textbook::spec_prob_views(prevs)[0] == crate::textbook::spec_tb_view_of(
                    prevs[0],
                ));
                assert(crate::textbook::spec_prob_views(prevs)[0] == all[k]);
            }
            let p = tb_problems.remove(0);
            let ghost pv = crate::textbook::spec_tb_view_of(p);
            proof {
                assert(pv == all[k]);
                assert forall|m: int| #![trigger tb_problems@[m]]
                    0 <= m < tb_problems@.len() implies crate::textbook::spec_prob_views(
                    tb_problems@,
                )[m] == all.subrange(k + 1, all.len() as int)[m] by {
                    assert(tb_problems@[m] == prevs[m + 1]);
                    assert(crate::textbook::spec_prob_views(tb_problems@)[m]
                        == crate::textbook::spec_tb_view_of(tb_problems@[m]));
                    assert(crate::textbook::spec_prob_views(prevs)[m + 1]
                        == crate::textbook::spec_tb_view_of(prevs[m + 1]));
                    assert(crate::textbook::spec_prob_views(prevs)[m + 1] == all.subrange(
                        k,
                        all.len() as int,
                    )[m + 1]);
                }
                assert(crate::textbook::spec_prob_views(tb_problems@) =~= all.subrange(
                    k + 1,
                    all.len() as int,
                ));
            }
            let converted = Self::convert(p);
            let ghost cv = converted@;
            let ghost before = problems@.map_values(|p: ParsedProblem| p@);
            problems.push(converted);
            proof {
                assert(cv == spec_fallback_view(pv));
                assert(problems@.map_values(|p: ParsedProblem| p@) =~= before.push(cv));
                assert(spec_fallback_problems(all.subrange(0, k + 1)) =~= spec_fallback_problems(
                    all.subrange(0, k),
                ).push(spec_fallback_view(all[k])));
                assert(all.subrange(0, k + 1) =~= all.subrange(0, k).push(all[k]));
                assert(problems@.map_values(|p: ParsedProblem| p@) =~= spec_fallback_problems(
                    all.subrange(0, k + 1),
                ));
            }
        }
        proof {
            assert(all.subrange(0, all.len() as int) =~= all);
        }
        AIParseResult { problems }
    }

    /// Carry one fallback problem over into the parsed shape.
    fn convert(p: crate::models::Problem) -> (r: ParsedProblem)
        ensures
            r@ == spec_fallback_view(crate::textbook::spec_tb_view_of(p)),
    {
        let ghost pv = crate::textbook::spec_tb_view_of(p);
        let crate::models::Problem { number, content, sub_problems, .. } = p;
        let mut subs: Vec<ParsedSubProblem> = Vec::new();
        match sub_problems {
            Some(mut list) => {
                let ghost allsubs = crate::textbook::spec_prob_rows(list@);
                proof {
                    assert(pv.subs == Some(allsubs));
                    assert(allsubs.subrange(0, 0) =~= Seq::<crate::store::ProblemRowView>::empty());
                    assert(subs@.map_values(|s: ParsedSubProblem| s@) =~= Seq::<
                        SubProblemView,
                    >::empty());
                    assert(allsubs.subrange(0, allsubs.len() as int) =~= allsubs);
                }
                while list.len() > 0
                    invariant
                        list@.len() <= allsubs.len(),
                        crate::textbook::spec_prob_rows(list@) =~= allsubs.subrange(
                            allsubs.len() - list@.len(),
                            allsubs.len() as int,
                        ),
                        subs@.map_values(|s: ParsedSubProblem| s@) =~= allsubs.subrange(
                            0,
                            allsubs.len() - list@.len(),
                        ).map_values(|s: crate::store::ProblemRowView| spec_fallback_sub(s)),
                    decreases list@.len(),
                {
                    let ghost k = allsubs.len() - list@.len();
                    let ghost prevs = list@;
                    proof {
                        assert(crate::textbook::spec_prob_rows(prevs)[0]
                            == crate::store::spec_row_of(prevs[0]));
                        assert(crate::textbook::spec_prob_rows(prevs)[0] == allsubs[k]);
                    }
                    let s = list.remove(0);
                    let ghost sv = crate::store::spec_row_of(s);
                    proof {
                        assert(sv == allsubs[k]);
                        assert forall|m: int| #![trigger list@[m]]
                            0 <= m < list@.len() implies crate::textbook::spec_prob_rows(
                            list@,
                        )[m] == allsubs.subrange(k + 1, allsubs.len() as int)[m] by {
                            assert(list@[m] == prevs[m + 1]);
                            assert(crate::textbook::spec_prob_rows(list@)[m]
                                == crate::store::spec_row_of(list@[m]));
                            assert(crate::textbook::spec_prob_rows(prevs)[m + 1]
                                == crate::store::spec_row_of(prevs[m + 1]));
                            assert(crate::textbook::spec_prob_rows(prevs)[m + 1]
                                == allsubs.subrange(k, allsubs.len() as int)[m + 1]);
                        }
                        assert(crate::textbook::spec_prob_rows(list@) =~= allsubs.subrange(
                            k + 1,
                            allsubs.len() as int,
                        ));
                    }
                    let sp = ParsedSubProblem { letter: s.number, content: s.content };
                    let ghost spv = sp@;
                    let ghost before = subs@.map_values(|s: ParsedSubProblem| s@);
                    subs.push(sp);
                    proof {
                        assert(spv == spec_fallback_sub(sv));
                        assert(subs@.map_values(|s: ParsedSubProblem| s@) =~= before.push(spv));
                        assert(allsubs.subrange(0, k + 1) =~= allsubs.subrange(0, k).push(
                            allsubs[k],
                        ));
                        assert(allsubs.subrange(0, k + 1).map_values(
                            |s: crate::store::ProblemRowView| spec_fallback_sub(s),
                        ) =~= allsubs.subrange(0, k).map_values(
                            |s: crate::store::ProblemRowView| spec_fallback_sub(s),
                        ).push(spec_fallback_sub(allsubs[k])));
                        assert(subs@.map_values(|s: ParsedSubProblem| s@) =~= allsubs.subrange(
                            0,
                            k + 1,
                        ).map_values(|s: crate::store::ProblemRowView| spec_fallback_sub(s)));
                    }
                }
                proof {
                    assert(allsubs.subrange(0, allsubs.len() as int) =~= allsubs);
                }
            },
            None => {
                proof {
                    assert(subs@.map_values(|s: ParsedSubProblem| s@) =~= Seq::<
                        SubProblemView,
                    >::empty());
                }
            },
        }
        let r = ParsedProblem {
            number,
            content,
            sub_problems: subs,
            continues_from_prev: false,
            continues_to_next: false,
        };
        r
    }
}

// --- merging one problem across the pages it spans ---

/// Parse results of several pages, with the problems that span pages
/// merged into one record each.
pub struct MultiPageParseResult {
    pub pages: Vec<PageParseResult>,
    pub merged_problems: Vec<MergedProblem>,
}

/// One page's parse.
pub struct PageParseResult {
    pub page_number: u32,
    pub problems: Vec<ParsedProblem>,
}

/// One problem as merged over every page it appears on.
pub struct MergedProblem {
    pub number: String,
    pub content: String,
    pub pages: Vec<u32>,
    pub sub_problems: Vec<ParsedSubProblem>,
}

pub struct MergedView {
    pub number: Seq<char>,
    pub content: Seq<char>,
    pub pages: Seq<u32>,
    pub subs: Seq<SubProblemView>,
}

impl View for MergedProblem {
    type V = MergedView;

    open spec fn view(&self) -> MergedView {
        MergedView {
            number: self.number@,
            content: self.content@,
            pages: self.pages@,
            subs: spec_psubs(self.sub_problems@),
        }
    }
}

pub open spec fn spec_psubs(v: Seq<ParsedSubProblem>) -> Seq<SubProblemView> {
    v.map_values(|s: ParsedSubProblem| s@)
}

pub open spec fn spec_merged_views(v: Seq<MergedProblem>) -> Seq<MergedView> {
    v.map_values(|m: MergedProblem| m@)
}

pub open spec fn spec_page_views(v: Seq<PageParseResult>) -> Seq<(u32, Seq<ProblemView>)> {
    v.map_values(
        |p: PageParseResult| (p.page_number, p.problems@.map_values(|q: ParsedProblem| q@)),
    )
}

/// Index of the merged record with this number; `-1` when none has it.
pub open spec fn spec_merged_index(list: Seq<MergedView>, number: Seq<char>) -> int
    decreases list.len(),
{
    if list.len() == 0 {
        -1
    } else if list[0].number == number {
        0
    } else {
        let r = spec_merged_index(list.drop_first(), number);
        if r < 0 {
            -1
        } else {
            r + 1
        }
    }
}

/// A letter already stands among the merged sub-problems.
pub open spec fn spec_has_letter(subs: Seq<SubProblemView>, letter: Seq<char>) -> bool {
    exists|i: int| 0 <= i < subs.len() && #[trigger] subs[i].letter == letter
}

/// Merge a problem's sub-problems in, keeping the first of each letter.
pub open spec fn spec_add_subs(subs: Seq<SubProblemView>, more: Seq<SubProblemView>) -> Seq<
    SubProblemView,
>
    decreases more.len(),
{
    if more.len() == 0 {
        subs
    } else {
        let next = if spec_has_letter(subs, more[0].letter) {
            subs
        } else {
            subs.push(more[0])
        };
        spec_add_subs(next, more.drop_first())
    }
}

/// Fold one page's problem into a merged record: content is appended,
/// with a break when the problem continues from the previous page, the
/// page is noted, and new sub-problem letters join.
pub open spec fn spec_merge_apply(e: MergedView, page_num: u32, p: ProblemView) -> MergedView {
    MergedView {
        number: e.number,
        content: if p.from_prev && e.content.len() > 0 {
            e.content + seq!['\n'] + p.content
        } else {
            e.content + p.content
        },
        pages: e.pages.push(page_num),
        subs: spec_add_subs(e.subs, p.subs),
    }
}

pub open spec fn spec_merge_into(
    list: Seq<MergedView>,
    page_num: u32,
    p: ProblemView,
) -> Seq<MergedView> {
    let i = spec_merged_index(list, p.number);
    if i < 0 {
        list.push(
            spec_merge_apply(
                MergedView {
                    number: p.number,
                    content: Seq::<char>::empty(),
                    pages: Seq::<u32>::empty(),
                    subs: Seq::<SubProblemView>::empty(),
                },
                page_num,
                p,
            ),
        )
    } else {
        list.update(i, spec_merge_apply(list[i], page_num, p))
    }
}

pub open spec fn spec_merge_page(
    list: Seq<MergedView>,
    page_num: u32,
    ps: Seq<ProblemView>,
) -> Seq<MergedView>
    decreases ps.len(),
{
    if ps.len() == 0 {
        list
    } else {
        spec_merge_page(spec_merge_into(list, page_num, ps[0]), page_num, ps.drop_first())
    }
}

/// Group the problems of all pages, in page order.
pub open spec fn spec_merge_pages(
    list: Seq<MergedView>,
    pages: Seq<(u32, Seq<ProblemView>)>,
) -> Seq<MergedView>
    decreases pages.len(),
{
    if pages.len() == 0 {
        list
    } else {
        spec_merge_pages(spec_merge_page(list, pages[0].0, pages[0].1), pages.drop_first())
    }
}

/// The numeric sort key of a problem number: its integer part and its
/// fractional digits; a number that does not read as decimal sorts as
/// zero.
pub open spec fn spec_num_key(number: Seq<char>) -> (int, Seq<char>) {
    let i = spec_digits_end(number, 0);
    if i == 0 {
        (0int, Seq::<char>::empty())
    } else if i == number.len() {
        (crate::text::spec_sat_u64(crate::text::spec_digits_value(number)), Seq::<char>::empty())
    } else if number[i] == '.' && spec_digits_end(number, i + 1) == number.len() && i + 1
        < number.len() {
        (
            crate::text::spec_sat_u64(crate::text::spec_digits_value(number.subrange(0, i))),
            number.subrange(i + 1, number.len() as int),
        )
    } else {
        (0int, Seq::<char>::empty())
    }
}

/// Strictly-before order of two keys: by integer part, then by the
/// fractional digits read as a decimal fraction (shorter runs padded
/// with zeros).
pub open spec fn spec_key_lt(a: (int, Seq<char>), b: (int, Seq<char>)) -> bool {
    a.0 < b.0 || (a.0 == b.0 && spec_frac_lt(a.1, b.1))
}

pub open spec fn spec_frac_lt(a: Seq<char>, b: Seq<char>) -> bool
    decreases a.len() + b.len(),
{
    if a.len() == 0 && b.len() == 0 {
        false
    } else {
        let ha = if a.len() > 0 {
            a[0]
        } else {
            '0'
        };
        let hb = if b.len() > 0 {
            b[0]
        } else {
            '0'
        };
        let ta = if a.len() > 0 {
            a.drop_first()
        } else {
            a
        };
        let tb = if b.len() > 0 {
            b.drop_first()
        } else {
            b
        };
        if ha != hb {
            (ha as u32) < (hb as u32)
        } else {
            spec_frac_lt(ta, tb)
        }
    }
}

/// Stable insertion by the key: a record goes before the first strictly
/// larger one.
pub open spec fn spec_insert_sorted(list: Seq<MergedView>, x: MergedView) -> Seq<MergedView>
    decreases list.len(),
{
    if list.len() == 0 {
        seq![x]
    } else if spec_key_lt(spec_num_key(x.number), spec_num_key(list[0].number)) {
        seq![x] + list
    } else {
        seq![list[0]] + spec_insert_sorted(list.drop_first(), x)
    }
}

pub open spec fn spec_sort_merged(
    sorted: Seq<MergedView>,
    rest: Seq<MergedView>,
) -> Seq<MergedView>
    decreases rest.len(),
{
    if rest.len() == 0 {
        sorted
    } else {
        spec_sort_merged(spec_insert_sorted(sorted, rest[0]), rest.drop_first())
    }
}

/// What merging yields: the grouped records, sorted by number.
pub open spec fn spec_merged_problems(pages: Seq<(u32, Seq<ProblemView>)>) -> Seq<MergedView> {
    spec_sort_merged(
        Seq::<MergedView>::empty(),
        spec_merge_pages(Seq::<MergedView>::empty(), pages),
    )
}

/// Compare fractional digit runs as decimals, padding with zeros.
fn frac_lt(a: &Vec<char>, b: &Vec<char>) -> (r: bool)
    ensures
        r == spec_frac_lt(a@, b@),
{
    let na = a.len();
    let nb = b.len();
    let n = if na > nb {
        na
    } else {
        nb
    };
    let mut i: usize = 0;
    proof {
        assert(spec_frac_suffix(a@, 0) =~= a@);
        assert(spec_frac_suffix(b@, 0) =~= b@);
    }
    while i < n
        invariant
            i <= n,
            na == a@.len(),
            nb == b@.len(),
            n == if na > nb {
                na
            } else {
                nb
            },
            spec_frac_lt(a@, b@) == spec_frac_lt(spec_frac_suffix(a@, i as int), spec_frac_suffix(b@, i as int)),
        decreases n - i,
    {
        let ha = if i < na {
            a[i]
        } else {
            '0'
        };
        let hb = if i < nb {
            b[i]
        } else {
            '0'
        };
        proof {
            lemma_frac_suffix_step(a@, b@, i as int);
        }
        if ha != hb {
            return (ha as u32) < (hb as u32);
        }
        i = i + 1;
    }
    proof {
        assert(spec_frac_suffix(a@, i as int) =~= Seq::<char>::empty());
        assert(spec_frac_suffix(b@, i as int) =~= Seq::<char>::empty());
    }
    false
}

/// The digit run from position `i` on; empty once past the end.
pub open spec fn spec_frac_suffix(s: Seq<char>, i: int) -> Seq<char> {
    if i >= s.len() {
        Seq::<char>::empty()
    } else {
        s.subrange(i, s.len() as int)
    }
}

proof fn lemma_frac_suffix_step(a: Seq<char>, b: Seq<char>, i: int)
    requires
        0 <= i,
        i < a.len() || i < b.len(),
    ensures
        ({
            let sa = spec_frac_suffix(a, i);
            let sb = spec_frac_suffix(b, i);
            let ha = if i < a.len() {
                a[i]
            } else {
                '0'
            };
            let hb = if i < b.len() {
                b[i]
            } else {
                '0'
            };
            spec_frac_lt(sa, sb) == if ha != hb {
                (ha as u32) < (hb as u32)
            } else {
                spec_frac_lt(spec_frac_suffix(a, i + 1), spec_frac_suffix(b, i + 1))
            }
        }),
{
    let sa = spec_frac_suffix(a, i);
    let sb = spec_frac_suffix(b, i);
    if i < a.len() {
        assert(sa[0] == a[i]);
        assert(sa.drop_first() =~= spec_frac_suffix(a, i + 1));
    } else {
        assert(sa =~= Seq::<char>::empty());
        assert(spec_frac_suffix(a, i + 1) =~= Seq::<char>::empty());
    }
    if i < b.len() {
        assert(sb[0] == b[i]);
        assert(sb.drop_first() =~= spec_frac_suffix(b, i + 1));
    } else {
        assert(sb =~= Seq::<char>::empty());
        assert(spec_frac_suffix(b, i + 1) =~= Seq::<char>::empty());
    }
}

/// Compute a number's sort key: the saturated integer part and the
/// fractional digits.
fn num_key_of(number: &Vec<char>) -> (r: (u64, Vec<char>))
    ensures
        (r.0 as int, r.1@) == spec_num_key(number@),
{
    let n = number.len();
    let i = {
        let mut j: usize = 0;
        while j < n && is_digit_char(number[j])
            invariant
                j <= n,
                n == number@.len(),
                spec_digits_end(number@, 0) == spec_digits_end(number@, j as int),
            decreases n - j,
        {
            j = j + 1;
        }
        j
    };
    if i == 0 {
        return (0, Vec::new());
    }
    if i == n {
        proof {
            assert forall|k: int| 0 <= k < number@.len() implies crate::text::spec_is_digit(
                #[trigger] number@[k],
            ) by {
                crate::parse::lemma_digits_end_prefix(number@, 0, k);
            }
        }
        let v = crate::text::parse_u64_saturating(number);
        return (v, Vec::new());
    }
    if number[i] == '.' {
        let mut j: usize = i + 1;
        while j < n && is_digit_char(number[j])
            invariant
                i + 1 <= j <= n,
                n == number@.len(),
                spec_digits_end(number@, i + 1) == spec_digits_end(number@, j as int),
            decreases n - j,
        {
            j = j + 1;
        }
        if j == n && i + 1 < n {
            let int_part = crate::text::slice_chars(number, 0, i);
            proof {
                assert(int_part@ =~= number@.subrange(0, i as int));
                assert forall|k: int| 0 <= k < int_part@.len() implies crate::text::spec_is_digit(
                    #[trigger] int_part@[k],
                ) by {
                    crate::parse::lemma_digits_end_prefix(number@, 0, k);
                }
            }
            let v = crate::text::parse_u64_saturating(&int_part);
            let frac = crate::text::slice_chars(number, i + 1, n);
            return (v, frac);
        }
    }
    (0, Vec::new())
}

/// Positions before the digit run's end hold digits.
pub proof fn lemma_digits_end_prefix(s: Seq<char>, i: int, k: int)
    requires
        0 <= i <= k < spec_digits_end(s, i),
    ensures
        crate::text::spec_is_digit(s[k]),
    decreases k - i,
{
    lemma_digits_end_bounds(s, i);
    if k > i {
        lemma_digits_end_prefix(s, i + 1, k);
    }
}

/// Does `x` sort strictly before `y`?
fn merged_lt(x: &MergedProblem, y: &MergedProblem) -> (r: bool)
    ensures
        r == spec_key_lt(spec_num_key(x@.number), spec_num_key(y@.number)),
{
    let xv = chars_of(x.number.as_str());
    let yv = chars_of(y.number.as_str());
    let kx = num_key_of(&xv);
    let ky = num_key_of(&yv);
    if kx.0 < ky.0 {
        return true;
    }
    if kx.0 > ky.0 {
        return false;
    }
    frac_lt(&kx.1, &ky.1)
}

impl MultiPageParseResult {
    /// Merge problems that span several pages into one record each,
    /// sorted by problem number.
    pub fn merge_problems(&mut self)
        ensures
            final(self).pages@ == old(self).pages@,
            spec_merged_views(final(self).merged_problems@) == spec_merged_problems(
                spec_page_views(old(self).pages@),
            ),
    {
        let ghost page_views = spec_page_views(self.pages@);
        let np = self.pages.len();
        let mut grouped: Vec<MergedProblem> = Vec::new();
        let mut pi: usize = 0;
        proof {
            assert(spec_merged_views(grouped@) =~= Seq::<MergedView>::empty());
            assert(page_views.subrange(0, np as int) =~= page_views);
        }
        while pi < np
            invariant
                pi <= np,
                np == page_views.len(),
                self.pages@ == old(self).pages@,
                self.merged_problems@ == old(self).merged_problems@,
                page_views == spec_page_views(self.pages@),
                spec_merge_pages(Seq::<MergedView>::empty(), page_views) == spec_merge_pages(
                    spec_merged_views(grouped@),
                    page_views.subrange(pi as int, np as int),
                ),
            decreases np - pi,
        {
            proof {
                let sub_i = page_views.subrange(pi as int, np as int);
                assert(sub_i[0] == page_views[pi as int]);
                assert(sub_i.drop_first() =~= page_views.subrange(pi + 1, np as int));
                assert(page_views[pi as int] == (
                    self.pages@[pi as int].page_number,
                    self.pages@[pi as int].problems@.map_values(|q: ParsedProblem| q@),
                ));
            }
            let page_number = self.pages[pi].page_number;
            let ghost probs = self.pages@[pi as int].problems@.map_values(
                |q: ParsedProblem| q@,
            );
            let m = self.pages[pi].problems.len();
            let mut qi: usize = 0;
            proof {
                assert(probs.subrange(0, m as int) =~= probs);
            }
            while qi < m
                invariant
                    qi <= m,
                    pi < np,
                    np == self.pages@.len(),
                    np == page_views.len(),
                    m == probs.len(),
                    self.pages@ == old(self).pages@,
                    self.merged_problems@ == old(self).merged_problems@,
                    probs == self.pages@[pi as int].problems@.map_values(
                        |q: ParsedProblem| q@,
                    ),
                    page_number == self.pages@[pi as int].page_number,
                    m == self.pages@[pi as int].problems@.len(),
                    spec_merge_pages(Seq::<MergedView>::empty(), page_views) == spec_merge_pages(
                        spec_merge_page(
                            spec_merged_views(grouped@),
                            page_number,
                            probs.subrange(qi as int, m as int),
                        ),
                        page_views.subrange(pi + 1, np as int),
                    ),
                decreases m - qi,
            {
                proof {
                    let sub_q = probs.subrange(qi as int, m as int);
                    assert(sub_q[0] == probs[qi as int]);
                    assert(sub_q.drop_first() =~= probs.subrange(qi + 1, m as int));
                    assert(probs[qi as int] == self.pages@[pi as int].problems@[qi as int]@);
                }
                merge_one(&mut grouped, page_number, &self.pages[pi].problems[qi]);
                qi = qi + 1;
            }
            proof {
                assert(probs.subrange(m as int, m as int) =~= Seq::<ProblemView>::empty());
            }
            pi = pi + 1;
        }
        proof {
            assert(page_views.subrange(np as int, np as int) =~= Seq::<(u32, Seq<ProblemView>)>::empty());
        }
        // sort by numeric key, stably
        let mut sorted: Vec<MergedProblem> = Vec::new();
        let ghost all = spec_merged_views(grouped@);
        proof {
            assert(spec_merged_views(sorted@) =~= Seq::<MergedView>::empty());
            assert(all.subrange(0, all.len() as int) =~= all);
        }
        let mut grouped = grouped;
        while grouped.len() > 0
            invariant
                grouped@.len() <= all.len(),
                spec_merged_views(grouped@) =~= all.subrange(
                    all.len() - grouped@.len(),
                    all.len() as int,
                ),
                spec_sort_merged(Seq::<MergedView>::empty(), all) == spec_sort_merged(
                    spec_merged_views(sorted@),
                    all.subrange(all.len() - grouped@.len(), all.len() as int),
                ),
                self.pages@ == old(self).pages@,
                self.merged_problems@ == old(self).merged_problems@,
            decreases grouped@.len(),
        {
            let ghost k = all.len() - grouped@.len();
            let ghost prevs = grouped@;
            proof {
                assert(spec_merged_views(prevs)[0] == prevs[0]@);
                assert(spec_merged_views(prevs)[0] == all[k]);
            }
            let x = grouped.remove(0);
            let ghost xv = x@;
            proof {
                assert(xv == all[k]);
                assert forall|j: int| #![trigger grouped@[j]]
                    0 <= j < grouped@.len() implies spec_merged_views(grouped@)[j]
                    == all.subrange(k + 1, all.len() as int)[j] by {
                    assert(grouped@[j] == prevs[j + 1]);
                    assert(spec_merged_views(grouped@)[j] == grouped@[j]@);
                    assert(spec_merged_views(prevs)[j + 1] == prevs[j + 1]@);
                    assert(spec_merged_views(prevs)[j + 1] == all.subrange(k, all.len() as int)[j
                        + 1]);
                }
                assert(spec_merged_views(grouped@) =~= all.subrange(k + 1, all.len() as int));
            }
            insert_sorted(&mut sorted, x);
            proof {
                let sub_k = all.subrange(k, all.len() as int);
                assert(sub_k[0] == all[k]);
                assert(sub_k.drop_first() =~= all.subrange(k + 1, all.len() as int));
            }
        }
        proof {
            assert(all.subrange(all.len() as int, all.len() as int) =~= Seq::<MergedView>::empty());
        }
        self.merged_problems = sorted;
    }
}

/// Fold one problem of one page into the grouped records.
fn merge_one(grouped: &mut Vec<MergedProblem>, page_number: u32, p: &ParsedProblem)
    ensures
        spec_merged_views(final(grouped)@) == spec_merge_into(
            spec_merged_views(old(grouped)@),
            page_number,
            p@,
        ),
{
    let ghost before = spec_merged_views(grouped@);
    let n = grouped.len();
    let mut idx: Option<usize> = None;
    let mut i: usize = 0;
    while i < n
        invariant
            i <= n,
            n == grouped@.len(),
            before == spec_merged_views(grouped@),
            match idx {
                None => forall|j: int|
                    0 <= j < i ==> spec_merged_views(grouped@)[j].number != p@.number,
                Some(k) => k < i && spec_merged_views(grouped@)[k as int].number == p@.number
                    && forall|j: int|
                    0 <= j < k ==> spec_merged_views(grouped@)[j].number != p@.number,
            },
        decreases n - i,
    {
        proof {
            assert(spec_merged_views(grouped@)[i as int] == grouped@[i as int]@);
        }
        if idx.is_none() && grouped[i].number == p.number {
            idx = Some(i);
        }
        i = i + 1;
    }
    match idx {
        Some(i) => {
            proof {
                lemma_merged_index_skip(before, p@.number, i as int);
                let t = before.subrange(i as int, n as int);
                assert(t[0] == before[i as int]);
                assert(spec_merged_index(before, p@.number) == i);
            }
            apply_merge_at(grouped, i, page_number, p);
            proof {
                assert(spec_merged_views(final(grouped)@) =~= before.update(
                    i as int,
                    spec_merge_apply(before[i as int], page_number, p@),
                ));
            }
        },
        None => {
            proof {
                lemma_merged_index_skip(before, p@.number, n as int);
                assert(before.subrange(n as int, n as int) =~= Seq::<MergedView>::empty());
                assert(spec_merged_index(before, p@.number) == -1);
            }
            let entry = MergedProblem {
                number: p.number.clone(),
                content: String::new(),
                pages: Vec::new(),
                sub_problems: Vec::new(),
            };
            let ghost ev = entry@;
            grouped.push(entry);
            proof {
                assert(ev.number == p@.number);
                assert(ev.content =~= Seq::<char>::empty());
                assert(ev.pages =~= Seq::<u32>::empty());
                assert(ev.subs =~= Seq::<SubProblemView>::empty());
                assert(ev == (MergedView {
                    number: p@.number,
                    content: Seq::<char>::empty(),
                    pages: Seq::<u32>::empty(),
                    subs: Seq::<SubProblemView>::empty(),
                }));
                assert(spec_merged_views(grouped@) =~= before.push(ev));
            }
            apply_merge_at(grouped, n, page_number, p);
            proof {
                assert(spec_merged_views(final(grouped)@) =~= before.push(
                    spec_merge_apply(ev, page_number, p@),
                ));
            }
        },
    }
}

/// Fold one problem into the record at `i`.
fn apply_merge_at(grouped: &mut Vec<MergedProblem>, i: usize, page_number: u32, p: &ParsedProblem)
    requires
        i < old(grouped)@.len(),
    ensures
        final(grouped)@.len() == old(grouped)@.len(),
        spec_merged_views(final(grouped)@) == spec_merged_views(old(grouped)@).update(
            i as int,
            spec_merge_apply(spec_merged_views(old(grouped)@)[i as int], page_number, p@),
        ),
{
    let ghost before = spec_merged_views(grouped@);
    proof {
        assert(before[i as int] == grouped@[i as int]@);
    }
    let new_content: String = {
        let e = &grouped[i];
        let mut cv = chars_of(e.content.as_str());
        if p.continues_from_prev && cv.len() > 0 {
            cv.push('\n');
        }
        let pc = chars_of(p.content.as_str());
        push_all(&mut cv, &pc);
        proof {
            if p.continues_from_prev && grouped@[i as int].content@.len() > 0 {
                assert(cv@ =~= grouped@[i as int].content@ + seq!['\n'] + p.content@);
            } else {
                assert(cv@ =~= grouped@[i as int].content@ + p.content@);
            }
        }
        string_of(&cv)
    };
    let slot = &mut grouped[i];
    slot.content = new_content;
    slot.pages.push(page_number);
    proof {
        assert(grouped@[i as int]@.content == spec_merge_apply(
            before[i as int],
            page_number,
            p@,
        ).content);
        assert(grouped@[i as int]@.pages =~= before[i as int].pages.push(page_number));
    }
    let m = p.sub_problems.len();
    let mut j: usize = 0;
    proof {
        assert(p@.subs.subrange(0, 0) =~= Seq::<SubProblemView>::empty());
        assert(spec_add_subs(before[i as int].subs, p@.subs.subrange(0, 0)) == before[
            i as int].subs);
        assert(grouped@[i as int]@.subs == before[i as int].subs);
    }
    while j < m
        invariant
            j <= m,
            i < grouped@.len(),
            m == p.sub_problems@.len(),
            m == p@.subs.len(),
            grouped@.len() == old(grouped)@.len(),
            grouped@[i as int]@.number == before[i as int].number,
            grouped@[i as int]@.content == spec_merge_apply(
                before[i as int],
                page_number,
                p@,
            ).content,
            grouped@[i as int]@.pages == before[i as int].pages.push(page_number),
            grouped@[i as int]@.subs == spec_add_subs(
                before[i as int].subs,
                p@.subs.subrange(0, j as int),
            ),
            forall|q: int|
                0 <= q < grouped@.len() && q != i ==> #[trigger] grouped@[q] == old(
                    grouped,
                )@[q],
        decreases m - j,
    {
        proof {
            crate::parse::lemma_problem_view_subs(*p, j as int);
            assert(p@.subs.subrange(0, j + 1) =~= p@.subs.subrange(0, j as int).push(
                p@.subs[j as int],
            ));
            lemma_add_subs_push(
                before[i as int].subs,
                p@.subs.subrange(0, j as int),
                p@.subs[j as int],
            );
        }
        let s = &p.sub_problems[j];
        let already = has_letter(&grouped[i].sub_problems, &s.letter);
        proof {
            assert(already == spec_has_letter(grouped@[i as int]@.subs, p@.subs[j as int].letter));
        }
        if !already {
            let d = s.dup();
            let ghost dv = d@;
            let ghost subs_before = grouped@[i as int]@.subs;
            let slot = &mut grouped[i];
            slot.sub_problems.push(d);
            proof {
                assert(grouped@[i as int]@.subs =~= subs_before.push(dv));
            }
        }
        j = j + 1;
    }
    proof {
        assert(p@.subs.subrange(0, m as int) =~= p@.subs);
        assert(grouped@[i as int]@ == spec_merge_apply(before[i as int], page_number, p@));
        assert(spec_merged_views(grouped@) =~= before.update(
            i as int,
            spec_merge_apply(before[i as int], page_number, p@),
        ));
    }
}

/// One more sub-problem folded into the letter-deduplicated list.
proof fn lemma_add_subs_push(base: Seq<SubProblemView>, done: Seq<SubProblemView>, x: SubProblemView)
    ensures
        spec_add_subs(base, done.push(x)) == if spec_has_letter(
            spec_add_subs(base, done),
            x.letter,
        ) {
            spec_add_subs(base, done)
        } else {
            spec_add_subs(base, done).push(x)
        },
    decreases done.len(),
{
    if done.len() == 0 {
        let pushed = done.push(x);
        assert(pushed[0] == x);
        assert(pushed.drop_first() =~= Seq::<SubProblemView>::empty());
        let next = if spec_has_letter(base, x.letter) {
            base
        } else {
            base.push(x)
        };
        assert(spec_add_subs(base, pushed) == spec_add_subs(next, pushed.drop_first()));
        assert(spec_add_subs(next, pushed.drop_first()) == next);
        assert(spec_add_subs(base, done) == base);
    } else {
        assert(done.push(x)[0] == done[0]);
        assert(done.push(x).drop_first() =~= done.drop_first().push(x));
        let next = if spec_has_letter(base, done[0].letter) {
            base
        } else {
            base.push(done[0])
        };
        lemma_add_subs_push(next, done.drop_first(), x);
    }
}

/// Is the letter already among the merged sub-problems?
fn has_letter(subs: &Vec<ParsedSubProblem>, letter: &String) -> (r: bool)
    ensures
        r == spec_has_letter(spec_psubs(subs@), letter@),
{
    let n = subs.len();
    let mut i: usize = 0;
    while i < n
        invariant
            i <= n,
            n == subs@.len(),
            forall|j: int| 0 <= j < i ==> #[trigger] spec_psubs(subs@)[j].letter != letter@,
        decreases n - i,
    {
        proof {
            assert(spec_psubs(subs@)[i as int] == subs@[i as int]@);
        }
        if subs[i].letter == *letter {
            proof {
                assert(spec_psubs(subs@)[i as int].letter == letter@);
            }
            return true;
        }
        i = i + 1;
    }
    proof {
        if spec_has_letter(spec_psubs(subs@), letter@) {
            let j = choose|j: int|
                0 <= j < spec_psubs(subs@).len() && #[trigger] spec_psubs(subs@)[j].letter
                    == letter@;
            assert(false);
        }
    }
    false
}

proof fn lemma_merged_index_skip(list: Seq<MergedView>, number: Seq<char>, i: int)
    requires
        0 <= i <= list.len(),
        forall|j: int| 0 <= j < i ==> list[j].number != number,
    ensures
        ({
            let r = spec_merged_index(list.subrange(i, list.len() as int), number);
            spec_merged_index(list, number) == if r < 0 {
                -1
            } else {
                i + r
            }
        }),
    decreases i,
{
    if i == 0 {
        assert(list.subrange(0, list.len() as int) =~= list);
    } else {
        let t = list.drop_first();
        assert forall|j: int| 0 <= j < i - 1 implies t[j].number != number by {
            assert(t[j] == list[j + 1]);
        }
        lemma_merged_index_skip(t, number, i - 1);
        assert(t.subrange(i - 1, t.len() as int) =~= list.subrange(i, list.len() as int));
        lemma_merged_index_bounds(t.subrange(i - 1, t.len() as int), number);
    }
}

proof fn lemma_merged_index_bounds(list: Seq<MergedView>, number: Seq<char>)
    ensures
        -1 <= spec_merged_index(list, number) < list.len(),
        spec_merged_index(list, number) >= 0 ==> list[spec_merged_index(list, number)].number
            == number,
    decreases list.len(),
{
    if list.len() > 0 && list[0].number != number {
        lemma_merged_index_bounds(list.drop_first(), number);
    }
}

/// Insert a record before the first strictly larger one.
fn insert_sorted(sorted: &mut Vec<MergedProblem>, x: MergedProblem)
    ensures
        spec_merged_views(final(sorted)@) == spec_insert_sorted(
            spec_merged_views(old(sorted)@),
            x@,
        ),
{
    let ghost before = spec_merged_views(sorted@);
    let ghost xv = x@;
    let n = sorted.len();
    let mut pos: usize = n;
    let mut i: usize = 0;
    while i < n
        invariant
            i <= n,
            n == sorted@.len(),
            before == spec_merged_views(sorted@),
            xv == x@,
            pos == n || (pos < i && spec_key_lt(
                spec_num_key(xv.number),
                spec_num_key(spec_merged_views(sorted@)[pos as int].number),
            )),
            forall|j: int|
                0 <= j < i && j < pos ==> !spec_key_lt(
                    spec_num_key(xv.number),
                    spec_num_key(#[trigger] spec_merged_views(sorted@)[j].number),
                ),
        decreases n - i,
    {
        proof {
            assert(spec_merged_views(sorted@)[i as int] == sorted@[i as int]@);
        }
        if pos == n && merged_lt(&x, &sorted[i]) {
            pos = i;
        }
        i = i + 1;
    }
    proof {
        lemma_insert_sorted_at(before, xv, pos as int);
    }
    sorted.insert(pos, x);
    proof {
        assert(sorted@.map_values(|m: MergedProblem| m@) =~= before.subrange(0, pos as int)
            + seq![xv] + before.subrange(pos as int, before.len() as int));
    }
}

/// The insertion point splits the list around the new record.
proof fn lemma_insert_sorted_at(list: Seq<MergedView>, x: MergedView, pos: int)
    requires
        0 <= pos <= list.len(),
        forall|j: int|
            0 <= j < pos ==> !spec_key_lt(
                spec_num_key(x.number),
                spec_num_key(#[trigger] list[j].number),
            ),
        pos < list.len() ==> spec_key_lt(spec_num_key(x.number), spec_num_key(list[pos].number)),
    ensures
        spec_insert_sorted(list, x) == list.subrange(0, pos) + seq![x] + list.subrange(
            pos,
            list.len() as int,
        ),
    decreases list.len(),
{
    if pos == 0 {
        if list.len() == 0 {
            assert(spec_insert_sorted(list, x) =~= list.subrange(0, 0) + seq![x] + list.subrange(
                0,
                0,
            ));
        } else {
            assert(spec_insert_sorted(list, x) =~= list.subrange(0, 0) + seq![x] + list.subrange(
                0,
                list.len() as int,
            ));
        }
    } else {
        let t = list.drop_first();
        assert forall|j: int| 0 <= j < pos - 1 implies !spec_key_lt(
            spec_num_key(x.number),
            spec_num_key(#[trigger] t[j].number),
        ) by {
            assert(t[j] == list[j + 1]);
        }
        if pos - 1 < t.len() {
            assert(t[pos - 1] == list[pos]);
        }
        lemma_insert_sorted_at(t, x, pos - 1);
        assert(!spec_key_lt(spec_num_key(x.number), spec_num_key(list[0].number)));
        assert(t.subrange(0, pos - 1) =~= list.subrange(1, pos));
        assert(t.subrange(pos - 1, t.len() as int) =~= list.subrange(pos, list.len() as int));
        assert(spec_insert_sorted(list, x) =~= list.subrange(0, pos) + seq![x] + list.subrange(
            pos,
            list.len() as int,
        ));
    }
}

/// `spec_trim_start` starts at the first non-space, exposed for callers.
pub proof fn lemma_trim_start_is_skip_pub(s: Seq<char>)
    ensures
        crate::text::spec_trim_start(s) == s.subrange(
            crate::reconcile::spec_skip_spaces(s, 0),
            s.len() as int,
        ),
{
    lemma_trim_start_is_skip(s);
}

/// After reconciliation, when the previous page's last problem shares the
/// first problem's number and left an unterminated tail, the first
/// problem is marked as continuing and its content opens with that tail.
pub proof fn lemma_cross_page_prefixes_tail(
    cur: Seq<ProblemView>,
    prev: ProblemView,
    tail: Seq<char>,
    next: Option<Seq<ProblemView>>,
)
    requires
        cur.len() > 0,
        cur[0].number == prev.number,
        tail.len() > 0,
    ensures
        ({
            let after = spec_process_cross_page(cur, Some(prev), Some(tail), next);
            &&& after.len() == cur.len()
            &&& after[0].from_prev
            &&& after[0].content == tail + seq!['\n', '\n'] + cur[0].content
        }),
{
    let s1 = spec_process_cross_page(cur, Some(prev), Some(tail), next);
}

} // verus!
