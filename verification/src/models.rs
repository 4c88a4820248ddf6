//! Domain entities: books, chapters, pages, problems, theory blocks and
//! solutions, with their identifier schemes and formula extraction.
//!
//! Timestamps are plain milliseconds since the epoch, supplied by the
//! caller, so that every rule about them is checkable.

use vstd::prelude::*;

use crate::text::{chars_of, push_all, spec_is_digit, string_of};

verus! {

/// Unique problem id format: `{book_id}:{chapter_num}:{problem_num}`.
pub struct Problem {
    pub id: String,
    pub chapter_id: String,
    /// Parent page id, when created from an OCR page.
    pub page_id: Option<String>,
    /// Parent problem id, for sub-problems.
    pub parent_id: Option<String>,
    /// Problem number as printed in the book (`"1.2"`, `"71"`).
    pub number: String,
    /// Name shown in lists.
    pub display_name: String,
    /// Statement text, possibly with inline math markup.
    pub content: String,
    /// Formulas extracted from the content, for search.
    pub latex_formulas: Vec<String>,
    pub page_number: Option<u32>,
    pub difficulty: Option<u8>,
    pub has_solution: bool,
    pub created_at: u64,
    pub solution: Option<Solution>,
    pub sub_problems: Option<Vec<Problem>>,
    /// Page this problem continues from, when split over a boundary.
    pub continues_from_page: Option<u32>,
    /// Page this problem continues onto.
    pub continues_to_page: Option<u32>,
    pub is_cross_page: bool,
    pub is_bookmarked: bool,
}

/// One scanned page of a book.
pub struct Page {
    pub id: String,
    pub book_id: String,
    pub page_number: u32,
    pub ocr_text: Option<String>,
    pub has_problems: bool,
    pub problem_count: u32,
    pub created_at: u64,
    pub updated_at: u64,
}

#[derive(Clone, Copy, PartialEq, Eq, Structural)]
pub enum TheoryType {
    Definition,
    Theorem,
    Proof,
    Property,
    Formula,
    Explanation,
    Example,
    Other,
}

/// A theory block extracted from a page.
pub struct TheoryBlock {
    pub id: String,
    pub chapter_id: String,
    pub block_num: u32,
    pub title: Option<String>,
    pub block_type: TheoryType,
    pub content: String,
    pub latex_formulas: Vec<String>,
    pub page_number: Option<u32>,
    pub created_at: u64,
}

/// A generated solution for one problem.
pub struct Solution {
    pub id: String,
    pub problem_id: String,
    pub provider: String,
    pub content: String,
    pub latex_formulas: Vec<String>,
    pub is_verified: bool,
    pub rating: Option<u8>,
    pub created_at: u64,
    pub updated_at: u64,
}

/// A chapter of a book.
pub struct Chapter {
    pub id: String,
    pub book_id: String,
    pub number: u32,
    pub title: String,
    pub description: Option<String>,
    pub problem_count: u32,
    pub theory_count: u32,
    pub created_at: u64,
}

/// A book.
pub struct Book {
    pub id: String,
    pub title: String,
    pub author: Option<String>,
    pub subject: Option<String>,
    pub file_path: String,
    pub total_pages: u32,
    pub created_at: u64,
}

/// Request to generate a solution.
pub struct SolveRequest {
    pub provider: Option<String>,
    pub force_regenerate: Option<bool>,
    pub custom_prompt: Option<String>,
}

/// A problem with truncated info, for lists.
pub struct ProblemSummary {
    pub id: String,
    pub number: String,
    pub display_name: String,
    pub preview: String,
    pub has_solution: bool,
    pub difficulty: Option<u8>,
}

/// Copy an optional string.
pub fn dup_opt_string(o: &Option<String>) -> (r: Option<String>)
    ensures
        crate::reconcile::opt_view(r) == crate::reconcile::opt_view(*o),
{
    match o {
        Some(s) => Some(s.clone()),
        None => None,
    }
}

/// Copy a list of strings.
pub fn dup_strings(v: &Vec<String>) -> (r: Vec<String>)
    ensures
        r@.map_values(|s: String| s@) == v@.map_values(|s: String| s@),
{
    let mut r: Vec<String> = Vec::new();
    let mut i: usize = 0;
    proof {
        let f = |s: String| s@;
        assert(r@.map_values(f) =~= v@.map_values(f).subrange(0, 0));
    }
    while i < v.len()
        invariant
            i <= v@.len(),
            r@.map_values(|s: String| s@) == v@.map_values(|s: String| s@).subrange(0, i as int),
        decreases v@.len() - i,
    {
        let ghost before = r@.map_values(|s: String| s@);
        let s = v[i].clone();
        let ghost sv = s@;
        r.push(s);
        proof {
            let f = |s: String| s@;
            assert(r@.map_values(f) =~= before.push(sv));
            assert(v@.map_values(f)[i as int] == v@[i as int]@);
            assert(v@.map_values(f).subrange(0, i + 1) =~= v@.map_values(f).subrange(
                0,
                i as int,
            ).push(v@.map_values(f)[i as int]));
            assert(r@.map_values(f) =~= v@.map_values(f).subrange(0, i + 1));
        }
        i = i + 1;
    }
    proof {
        let f = |s: String| s@;
        assert(v@.map_values(f).subrange(0, v@.len() as int) =~= v@.map_values(f));
    }
    r
}

impl Problem {
    /// Copy this problem's stored row: every flat field; the lazily loaded
    /// solution and sub-problem lists come back empty.
    pub fn dup_row(&self) -> (r: Problem)
        ensures
            r.id@ == self.id@,
            r.chapter_id@ == self.chapter_id@,
            crate::reconcile::opt_view(r.page_id) == crate::reconcile::opt_view(self.page_id),
            crate::reconcile::opt_view(r.parent_id) == crate::reconcile::opt_view(self.parent_id),
            r.number@ == self.number@,
            r.display_name@ == self.display_name@,
            r.content@ == self.content@,
            r.latex_formulas@.map_values(|s: String| s@) == self.latex_formulas@.map_values(
                |s: String| s@,
            ),
            r.page_number == self.page_number,
            r.difficulty == self.difficulty,
            r.has_solution == self.has_solution,
            r.created_at == self.created_at,
            r.solution is None,
            r.sub_problems is None,
            r.continues_from_page == self.continues_from_page,
            r.continues_to_page == self.continues_to_page,
            r.is_cross_page == self.is_cross_page,
            r.is_bookmarked == self.is_bookmarked,
    {
        Problem {
            id: self.id.clone(),
            chapter_id: self.chapter_id.clone(),
            page_id: dup_opt_string(&self.page_id),
            parent_id: dup_opt_string(&self.parent_id),
            number: self.number.clone(),
            display_name: self.display_name.clone(),
            content: self.content.clone(),
            latex_formulas: dup_strings(&self.latex_formulas),
            page_number: self.page_number,
            difficulty: self.difficulty,
            has_solution: self.has_solution,
            created_at: self.created_at,
            solution: None,
            sub_problems: None,
            continues_from_page: self.continues_from_page,
            continues_to_page: self.continues_to_page,
            is_cross_page: self.is_cross_page,
            is_bookmarked: self.is_bookmarked,
        }
    }
}

impl Page {
    /// Copy this page.
    pub fn dup(&self) -> (r: Page)
        ensures
            r.id@ == self.id@,
            r.book_id@ == self.book_id@,
            r.page_number == self.page_number,
            crate::reconcile::opt_view(r.ocr_text) == crate::reconcile::opt_view(self.ocr_text),
            r.has_problems == self.has_problems,
            r.problem_count == self.problem_count,
            r.created_at == self.created_at,
            r.updated_at == self.updated_at,
    {
        Page {
            id: self.id.clone(),
            book_id: self.book_id.clone(),
            page_number: self.page_number,
            ocr_text: dup_opt_string(&self.ocr_text),
            has_problems: self.has_problems,
            problem_count: self.problem_count,
            created_at: self.created_at,
            updated_at: self.updated_at,
        }
    }
}

/// Relies on uuid's Uuid::new_v4 and its hyphenated rendering: a fresh
/// identifier of 36 characters.
#[verifier::external_body]
pub(crate) fn fresh_uuid() -> (r: String)
    ensures
        r@.len() == 36,
{
    uuid::Uuid::new_v4().to_string()
}

impl Solution {
    /// Generate a solution id: `{problem_id}:S:{uuid}`.
    pub fn generate_id(problem_id: &str) -> (r: String)
        ensures
            r@.len() == problem_id@.len() + 39,
            r@.subrange(0, problem_id@.len() as int) == problem_id@,
            r@.subrange(problem_id@.len() as int, problem_id@.len() as int + 3) == seq![':', 'S', ':'],
    {
        let mut out = chars_of(problem_id);
        out.push(':');
        out.push('S');
        out.push(':');
        let u = fresh_uuid();
        let uv = chars_of(u.as_str());
        push_all(&mut out, &uv);
        proof {
            assert(out@.subrange(0, problem_id@.len() as int) =~= problem_id@);
            assert(out@.subrange(problem_id@.len() as int, problem_id@.len() as int + 3) =~= seq![
                ':',
                'S',
                ':',
            ]);
        }
        string_of(&out)
    }
}

// --- decimal rendering of numbers ---

/// Decimal digits of `n`, most significant first.
pub open spec fn spec_u32_digits(n: int) -> Seq<char>
    decreases n,
{
    if n < 0 {
        Seq::<char>::empty()
    } else if n < 10 {
        seq![spec_digit_char(n)]
    } else {
        spec_u32_digits(n / 10).push(spec_digit_char(n % 10))
    }
}

pub open spec fn spec_digit_char(d: int) -> char {
    if d == 0 {
        '0'
    } else if d == 1 {
        '1'
    } else if d == 2 {
        '2'
    } else if d == 3 {
        '3'
    } else if d == 4 {
        '4'
    } else if d == 5 {
        '5'
    } else if d == 6 {
        '6'
    } else if d == 7 {
        '7'
    } else if d == 8 {
        '8'
    } else {
        '9'
    }
}

fn digit_char(d: u32) -> (c: char)
    requires
        d < 10,
    ensures
        c == spec_digit_char(d as int),
{
    if d == 0 {
        '0'
    } else if d == 1 {
        '1'
    } else if d == 2 {
        '2'
    } else if d == 3 {
        '3'
    } else if d == 4 {
        '4'
    } else if d == 5 {
        '5'
    } else if d == 6 {
        '6'
    } else if d == 7 {
        '7'
    } else if d == 8 {
        '8'
    } else {
        '9'
    }
}

/// Render a number in decimal.
pub fn u32_digits(n: u32) -> (r: Vec<char>)
    ensures
        r@ == spec_u32_digits(n as int),
    decreases n,
{
    if n < 10 {
        let c = digit_char(n);
        let r: Vec<char> = vec![c];
        proof {
            assert(r@ =~= seq![spec_digit_char(n as int)]);
        }
        r
    } else {
        let mut r = u32_digits(n / 10);
        r.push(digit_char(n % 10));
        r
    }
}

// --- identifier schemes ---

/// `{book_id}:{chapter_num}:{problem_num}`.
pub open spec fn spec_problem_id(book: Seq<char>, chapter: int, number: Seq<char>) -> Seq<char> {
    book + seq![':'] + spec_u32_digits(chapter) + seq![':'] + number
}

/// `{book_id}:{chapter_num}:T:{block_num}`.
pub open spec fn spec_theory_id(book: Seq<char>, chapter: int, block: int) -> Seq<char> {
    book + seq![':'] + spec_u32_digits(chapter) + seq![':', 'T', ':'] + spec_u32_digits(block)
}

impl Problem {
    /// Generate the unique problem id.
    pub fn generate_id(book_id: &str, chapter_num: u32, problem_num: &str) -> (r: String)
        ensures
            r@ == spec_problem_id(book_id@, chapter_num as int, problem_num@),
    {
        let mut out = chars_of(book_id);
        out.push(':');
        let ch = u32_digits(chapter_num);
        push_all(&mut out, &ch);
        out.push(':');
        let num = chars_of(problem_num);
        push_all(&mut out, &num);
        proof {
            assert(out@ =~= spec_problem_id(book_id@, chapter_num as int, problem_num@));
        }
        string_of(&out)
    }

    /// Extract the formulas of this problem's content: inline `$...$` math
    /// first, then display math.
    pub fn extract_formulas(&self) -> (r: Vec<String>)
        ensures
            r@.map_values(|s: String| s@) == spec_inline_formulas(self.content@)
                + spec_display_formulas(self.content@) + spec_bracket_formulas(self.content@),
    {
        extract_all_formulas(&self.content)
    }
}

impl TheoryBlock {
    /// Generate the unique theory-block id.
    pub fn generate_id(book_id: &str, chapter_num: u32, block_num: u32) -> (r: String)
        ensures
            r@ == spec_theory_id(book_id@, chapter_num as int, block_num as int),
    {
        let mut out = chars_of(book_id);
        out.push(':');
        let ch = u32_digits(chapter_num);
        push_all(&mut out, &ch);
        out.push(':');
        out.push('T');
        out.push(':');
        let bl = u32_digits(block_num);
        push_all(&mut out, &bl);
        proof {
            assert(out@ =~= spec_theory_id(book_id@, chapter_num as int, block_num as int));
        }
        string_of(&out)
    }
}

// --- formula extraction ---

/// Inline `$...$` formulas, scanned left to right: a dollar opens a
/// formula, the next dollar closes it when something stands between.
pub open spec fn spec_inline_from(s: Seq<char>, i: int, open: Option<Seq<char>>) -> Seq<Seq<char>>
    decreases s.len() - i,
{
    if i < 0 || i >= s.len() {
        Seq::<Seq<char>>::empty()
    } else {
        match open {
            None => if s[i] == '$' {
                spec_inline_from(s, i + 1, Some(Seq::<char>::empty()))
            } else {
                spec_inline_from(s, i + 1, None::<Seq<char>>)
            },
            Some(buf) => if s[i] == '$' {
                if buf.len() > 0 {
                    seq![buf] + spec_inline_from(s, i + 1, None::<Seq<char>>)
                } else {
                    spec_inline_from(s, i + 1, Some(Seq::<char>::empty()))
                }
            } else {
                spec_inline_from(s, i + 1, Some(buf.push(s[i])))
            },
        }
    }
}

pub open spec fn spec_inline_formulas(s: Seq<char>) -> Seq<Seq<char>> {
    spec_inline_from(s, 0, None::<Seq<char>>)
}

/// Extract inline `$...$` formulas.
pub fn extract_inline_formulas(content: &str) -> (r: Vec<String>)
    ensures
        r@.map_values(|s: String| s@) == spec_inline_formulas(content@),
{
    let v = chars_of(content);
    let n = v.len();
    let mut out: Vec<String> = Vec::new();
    let mut buf: Vec<char> = Vec::new();
    let mut inside = false;
    let mut i: usize = 0;
    proof {
        assert(out@.map_values(|s: String| s@) =~= Seq::<Seq<char>>::empty());
        assert(buf@ =~= Seq::<char>::empty());
    }
    while i < n
        invariant
            i <= n,
            n == v@.len(),
            v@ == content@,
            !inside ==> buf@.len() == 0,
            spec_inline_formulas(content@) == out@.map_values(|s: String| s@)
                + spec_inline_from(
                v@,
                i as int,
                if inside {
                    Some(buf@)
                } else {
                    None::<Seq<char>>
                },
            ),
        decreases n - i,
    {
        let ghost old_out = out@.map_values(|s: String| s@);
        let c = v[i];
        if !inside {
            if c == '$' {
                inside = true;
                proof {
                    assert(buf@ =~= Seq::<char>::empty());
                }
            }
        } else {
            if c == '$' {
                if buf.len() > 0 {
                    let f = string_of(&buf);
                    let ghost fv = f@;
                    out.push(f);
                    buf = Vec::new();
                    inside = false;
                    proof {
                        assert(out@.map_values(|s: String| s@) =~= old_out.push(fv));
                        assert(old_out + (seq![fv] + spec_inline_from(
                            v@,
                            i + 1,
                            None::<Seq<char>>,
                        )) =~= out@.map_values(|s: String| s@) + spec_inline_from(
                            v@,
                            i + 1,
                            None::<Seq<char>>,
                        ));
                    }
                } else {
                    proof {
                        assert(buf@ =~= Seq::<char>::empty());
                    }
                }
            } else {
                buf.push(c);
            }
        }
        i = i + 1;
    }
    out
}

/// Display `$$...$$` formulas: a double dollar opens one, and it closes at
/// the next dollar pair with something between.
pub open spec fn spec_display_from(s: Seq<char>, i: int) -> Seq<Seq<char>>
    decreases s.len() - i,
    via spec_display_from_dec
{
    if i < 0 || i + 1 >= s.len() {
        Seq::<Seq<char>>::empty()
    } else if s[i] == '$' && s[i + 1] == '$' {
        let j = spec_next_char(s, i + 2, '$');
        if j + 1 < s.len() && j > i + 2 && s[j + 1] == '$' {
            seq![s.subrange(i + 2, j)] + spec_display_from(s, j + 2)
        } else {
            spec_display_from(s, i + 1)
        }
    } else {
        spec_display_from(s, i + 1)
    }
}

#[via_fn]
proof fn spec_display_from_dec(s: Seq<char>, i: int) {
    if 0 <= i && i + 1 < s.len() && s[i] == '$' && s[i + 1] == '$' {
        lemma_next_char_bounds(s, i + 2, '$');
    }
}

pub open spec fn spec_display_formulas(s: Seq<char>) -> Seq<Seq<char>> {
    spec_display_from(s, 0)
}

/// `\[...\]` formulas: everything between `\[` and the next `\]`, when it
/// holds no closing bracket of its own.
pub open spec fn spec_bracket_from(s: Seq<char>, i: int) -> Seq<Seq<char>>
    decreases s.len() - i,
    via spec_bracket_from_dec
{
    if i < 0 || i + 1 >= s.len() {
        Seq::<Seq<char>>::empty()
    } else if s[i] == '\\' && s[i + 1] == '[' {
        let j = spec_next_char(s, i + 2, ']');
        if j < s.len() && j - 1 > i + 1 && s[j - 1] == '\\' {
            seq![s.subrange(i + 2, j - 1)] + spec_bracket_from(s, j + 1)
        } else {
            spec_bracket_from(s, i + 1)
        }
    } else {
        spec_bracket_from(s, i + 1)
    }
}

#[via_fn]
proof fn spec_bracket_from_dec(s: Seq<char>, i: int) {
    if 0 <= i && i + 1 < s.len() && s[i] == '\\' && s[i + 1] == '[' {
        lemma_next_char_bounds(s, i + 2, ']');
    }
}

pub open spec fn spec_bracket_formulas(s: Seq<char>) -> Seq<Seq<char>> {
    spec_bracket_from(s, 0)
}

/// First index at or after `i` holding `c`; the length when there is none.
pub open spec fn spec_next_char(s: Seq<char>, i: int, c: char) -> int
    decreases s.len() - i,
{
    if i < 0 || i >= s.len() {
        if i < 0 {
            0
        } else {
            s.len() as int
        }
    } else if s[i] == c {
        i
    } else {
        spec_next_char(s, i + 1, c)
    }
}

pub proof fn lemma_next_char_bounds(s: Seq<char>, i: int, c: char)
    requires
        0 <= i <= s.len(),
    ensures
        i <= spec_next_char(s, i, c) <= s.len(),
        spec_next_char(s, i, c) < s.len() ==> s[spec_next_char(s, i, c)] == c,
    decreases s.len() - i,
{
    if i < s.len() && s[i] != c {
        lemma_next_char_bounds(s, i + 1, c);
    }
}

/// Find the next occurrence of `c` at or after `i`.
pub(crate) fn next_char_from(v: &Vec<char>, i: usize, c: char) -> (j: usize)
    requires
        i <= v@.len(),
    ensures
        j == spec_next_char(v@, i as int, c),
        i <= j <= v@.len(),
{
    let n = v.len();
    let mut j: usize = i;
    while j < n && v[j] != c
        invariant
            i <= j <= n,
            n == v@.len(),
            spec_next_char(v@, i as int, c) == spec_next_char(v@, j as int, c),
        decreases n - j,
    {
        j = j + 1;
    }
    j
}

/// Extract display `$$...$$` formulas.
pub fn extract_display_formulas(content: &str) -> (r: Vec<String>)
    ensures
        r@.map_values(|s: String| s@) == spec_display_formulas(content@),
{
    let v = chars_of(content);
    let n = v.len();
    let mut out: Vec<String> = Vec::new();
    let mut i: usize = 0;
    proof {
        assert(out@.map_values(|s: String| s@) =~= Seq::<Seq<char>>::empty());
    }
    while i < n
        invariant
            i <= n,
            n == v@.len(),
            v@ == content@,
            spec_display_formulas(content@) == out@.map_values(|s: String| s@)
                + spec_display_from(v@, i as int),
        decreases n - i,
    {
        let ghost old_out = out@.map_values(|s: String| s@);
        if i + 1 < n && v[i] == '$' && v[i + 1] == '$' {
            let j = next_char_from(&v, i + 2, '$');
            if n - j > 1 && j > i + 2 && v[j + 1] == '$' {
                let piece = sub_string(&v, i + 2, j);
                let ghost pv = piece@;
                out.push(piece);
                proof {
                    assert(out@.map_values(|s: String| s@) =~= old_out.push(pv));
                    assert(old_out + (seq![pv] + spec_display_from(v@, j + 2)) =~= out@.map_values(
                        |s: String| s@,
                    ) + spec_display_from(v@, j + 2));
                }
                i = j + 2;
                continue ;
            }
        }
        i = i + 1;
    }
    out
}

/// Extract `\[...\]` formulas.
pub fn extract_bracket_formulas(content: &str) -> (r: Vec<String>)
    ensures
        r@.map_values(|s: String| s@) == spec_bracket_formulas(content@),
{
    let v = chars_of(content);
    let n = v.len();
    let mut out: Vec<String> = Vec::new();
    let mut i: usize = 0;
    proof {
        assert(out@.map_values(|s: String| s@) =~= Seq::<Seq<char>>::empty());
    }
    while i < n
        invariant
            i <= n,
            n == v@.len(),
            v@ == content@,
            spec_bracket_formulas(content@) == out@.map_values(|s: String| s@)
                + spec_bracket_from(v@, i as int),
        decreases n - i,
    {
        let ghost old_out = out@.map_values(|s: String| s@);
        if i + 1 < n && v[i] == '\\' && v[i + 1] == '[' {
            let j = next_char_from(&v, i + 2, ']');
            if j < n && j - 1 > i + 1 && v[j - 1] == '\\' {
                let piece = sub_string(&v, i + 2, j - 1);
                let ghost pv = piece@;
                out.push(piece);
                proof {
                    assert(out@.map_values(|s: String| s@) =~= old_out.push(pv));
                    assert(old_out + (seq![pv] + spec_bracket_from(v@, j + 1)) =~= out@.map_values(
                        |s: String| s@,
                    ) + spec_bracket_from(v@, j + 1));
                }
                i = j + 1;
                continue ;
            }
        }
        i = i + 1;
    }
    out
}

/// Copy `[from, to)` of `v` into a string.
fn sub_string(v: &Vec<char>, from: usize, to: usize) -> (r: String)
    requires
        from <= to <= v@.len(),
    ensures
        r@ == v@.subrange(from as int, to as int),
{
    let mut buf: Vec<char> = Vec::new();
    let mut k: usize = from;
    while k < to
        invariant
            from <= k <= to <= v@.len(),
            buf@ =~= v@.subrange(from as int, k as int),
        decreases to - k,
    {
        buf.push(v[k]);
        proof {
            assert(buf@ =~= v@.subrange(from as int, k + 1));
        }
        k = k + 1;
    }
    string_of(&buf)
}

/// Inline, display and bracket formulas of a text, in that order.
pub fn extract_all_formulas(content: &str) -> (r: Vec<String>)
    ensures
        r@.map_values(|s: String| s@) == spec_inline_formulas(content@) + spec_display_formulas(
            content@,
        ) + spec_bracket_formulas(content@),
{
    let mut out = extract_inline_formulas(content);
    let ghost a = out@.map_values(|s: String| s@);
    let disp = extract_display_formulas(content);
    let ghost b = disp@.map_values(|s: String| s@);
    let brack = extract_bracket_formulas(content);
    let ghost c = brack@.map_values(|s: String| s@);
    append_strings(&mut out, &disp);
    append_strings(&mut out, &brack);
    proof {
        assert(out@.map_values(|s: String| s@) =~= a + b + c);
    }
    out
}

/// Append a copy of every string of `src` to `dst`.
fn append_strings(dst: &mut Vec<String>, src: &Vec<String>)
    ensures
        final(dst)@.map_values(|s: String| s@) == old(dst)@.map_values(|s: String| s@)
            + src@.map_values(|s: String| s@),
{
    let n = src.len();
    let mut i: usize = 0;
    proof {
        assert(dst@.map_values(|s: String| s@) =~= old(dst)@.map_values(|s: String| s@)
            + src@.map_values(|s: String| s@).subrange(0, 0));
    }
    while i < n
        invariant
            i <= n,
            n == src@.len(),
            dst@.map_values(|s: String| s@) == old(dst)@.map_values(|s: String| s@)
                + src@.map_values(|s: String| s@).subrange(0, i as int),
        decreases n - i,
    {
        let ghost before = dst@.map_values(|s: String| s@);
        let s = src[i].clone();
        let ghost sv = s@;
        dst.push(s);
        proof {
            let f = |s: String| s@;
            assert(dst@.map_values(f) =~= before.push(sv));
            assert(src@.map_values(f)[i as int] == src@[i as int]@);
            assert(src@.map_values(f).subrange(0, i + 1) =~= src@.map_values(f).subrange(
                0,
                i as int,
            ).push(src@.map_values(f)[i as int]));
            assert(dst@.map_values(f) =~= old(dst)@.map_values(f) + src@.map_values(f).subrange(
                0,
                i + 1,
            ));
        }
        i = i + 1;
    }
    proof {
        assert(src@.map_values(|s: String| s@).subrange(0, n as int) =~= src@.map_values(
            |s: String| s@,
        ));
    }
}

} // verus!
