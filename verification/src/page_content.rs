//! Whole-page content model: every element a page carries, and the
//! line-level helpers of the fallback page parser.

use vstd::prelude::*;

use crate::reconcile::spec_skip_spaces;
use crate::text::{
    chars_of, is_digit_char, is_space_char, spec_is_space, spec_trim, string_of, trim_chars,
};
use crate::textbook::{spec_ci_word_at, spec_is_cyr_letter, spec_is_lat_letter};

verus! {

/// Everything extracted from one page, in order.
pub struct ParsedPageContent {
    pub metadata: PageMetadata,
    pub elements: Vec<PageElement>,
    pub stats: PageStats,
}

pub struct PageMetadata {
    pub page_number: Option<u32>,
    pub chapter_title: Option<String>,
    pub section_title: Option<String>,
    pub header: Option<String>,
    pub footer: Option<String>,
}

pub enum PageElement {
    Problem(ParsedProblem),
    Theory(ParsedTheory),
    Example(ParsedExample),
    Figure(ParsedFigure),
    Table(ParsedTable),
    Remark(ParsedRemark),
    Exercise(ParsedExercise),
    Text(ParsedText),
}

/// A problem as the whole-page parser sees it.
pub struct ParsedProblem {
    pub number: String,
    pub content: String,
    pub sub_problems: Vec<ParsedSubProblem>,
    pub difficulty: Option<u8>,
    pub category: Option<String>,
    pub formulas: Vec<String>,
}

pub struct ParsedSubProblem {
    pub letter: String,
    pub content: String,
}

pub struct ParsedTheory {
    pub theory_type: TheoryElementType,
    pub title: Option<String>,
    pub number: Option<String>,
    pub content: String,
    pub formulas: Vec<String>,
    pub importance: ImportanceLevel,
}

#[derive(Clone, Copy, PartialEq, Eq, Structural)]
pub enum TheoryElementType {
    Definition,
    Theorem,
    Lemma,
    Corollary,
    Property,
    Axiom,
    Postulate,
    Formula,
    Rule,
    Method,
}

#[derive(Clone, Copy, PartialEq, Eq, Structural)]
pub enum ImportanceLevel {
    Critical,
    Important,
    Standard,
    Optional,
}

pub struct ParsedExample {
    pub number: Option<String>,
    pub title: Option<String>,
    pub problem: String,
    pub solution: String,
    pub formulas: Vec<String>,
    pub is_solved: bool,
}

pub struct ParsedFigure {
    pub number: Option<String>,
    pub caption: Option<String>,
    pub description: String,
    pub image_reference: Option<String>,
    pub figure_type: FigureType,
}

#[derive(Clone, Copy, PartialEq, Eq, Structural)]
pub enum FigureType {
    Graph,
    Diagram,
    Geometric,
    Chart,
    Illustration,
    Table,
}

pub struct ParsedTable {
    pub number: Option<String>,
    pub caption: Option<String>,
    pub headers: Vec<String>,
    pub rows: Vec<Vec<String>>,
}

pub struct ParsedRemark {
    pub content: String,
    pub remark_type: RemarkType,
}

#[derive(Clone, Copy, PartialEq, Eq, Structural)]
pub enum RemarkType {
    Note,
    Warning,
    Tip,
    Important,
    Remember,
}

pub struct ParsedExercise {
    pub number: String,
    pub content: String,
    pub difficulty: Option<u8>,
    pub is_practice: bool,
}

pub struct ParsedText {
    pub content: String,
    pub is_intro: bool,
    pub is_conclusion: bool,
}

pub struct PageStats {
    pub problem_count: usize,
    pub theory_count: usize,
    pub example_count: usize,
    pub figure_count: usize,
    pub exercise_count: usize,
    pub total_formulas: usize,
}

/// The whole-page parser's settings.
pub struct PageContentParser {
    api_key: Option<String>,
}

// --- recognising where an element starts ---

/// The keywords that open a recognisable element, checked at the very
/// start of the line, case-insensitively.
pub open spec fn spec_element_keyword(s: Seq<char>) -> bool {
    ||| spec_ci_word_at(s, 0, crate::textbook::spec_word_opredelenie())
    ||| spec_ci_word_at(s, 0, crate::textbook::spec_word_teorema())
    ||| spec_ci_word_at(s, 0, spec_word_lemma())
    ||| spec_ci_word_at(s, 0, spec_word_sledstvie())
    ||| spec_ci_word_at(s, 0, crate::textbook::spec_word_svoistvo())
    ||| spec_ci_word_at(s, 0, spec_word_aksioma())
    ||| spec_ci_word_at(s, 0, crate::textbook::spec_word_formula_ru())
    ||| spec_ci_word_at(s, 0, spec_word_primer())
    ||| spec_ci_word_at(s, 0, crate::textbook::spec_word_zadacha())
    ||| spec_ci_word_at(s, 0, crate::textbook::spec_word_uprazhnenie())
    ||| spec_ci_word_at(s, 0, spec_word_ris())
    ||| spec_ci_word_at(s, 0, spec_word_grafik())
    ||| spec_ci_word_at(s, 0, spec_word_diagramma())
    ||| spec_ci_word_at(s, 0, spec_word_tablitsa())
    ||| spec_ci_word_at(s, 0, spec_word_zamechani())
    ||| spec_ci_word_at(s, 0, spec_word_primechani())
    ||| spec_ci_word_at(s, 0, spec_word_sovet())
    ||| spec_ci_word_at(s, 0, spec_word_vazhno())
    ||| spec_ci_word_at(s, 0, spec_word_vnimanie())
    ||| spec_ci_word_at(s, 0, spec_word_zapomnite())
}

pub open spec fn spec_word_lemma() -> Seq<char> {
    seq!['\u{043B}', '\u{0435}', '\u{043C}', '\u{043C}', '\u{0430}']
}

pub open spec fn spec_word_sledstvie() -> Seq<char> {
    seq![
        '\u{0441}',
        '\u{043B}',
        '\u{0435}',
        '\u{0434}',
        '\u{0441}',
        '\u{0442}',
        '\u{0432}',
        '\u{0438}',
        '\u{0435}',
    ]
}

pub open spec fn spec_word_aksioma() -> Seq<char> {
    seq!['\u{0430}', '\u{043A}', '\u{0441}', '\u{0438}', '\u{043E}', '\u{043C}', '\u{0430}']
}

pub open spec fn spec_word_primer() -> Seq<char> {
    seq!['\u{043F}', '\u{0440}', '\u{0438}', '\u{043C}', '\u{0435}', '\u{0440}']
}

pub open spec fn spec_word_ris() -> Seq<char> {
    seq!['\u{0440}', '\u{0438}', '\u{0441}']
}

pub open spec fn spec_word_grafik() -> Seq<char> {
    seq!['\u{0433}', '\u{0440}', '\u{0430}', '\u{0444}', '\u{0438}', '\u{043A}']
}

pub open spec fn spec_word_diagramma() -> Seq<char> {
    seq![
        '\u{0434}',
        '\u{0438}',
        '\u{0430}',
        '\u{0433}',
        '\u{0440}',
        '\u{0430}',
        '\u{043C}',
        '\u{043C}',
        '\u{0430}',
    ]
}

pub open spec fn spec_word_tablitsa() -> Seq<char> {
    seq![
        '\u{0442}',
        '\u{0430}',
        '\u{0431}',
        '\u{043B}',
        '\u{0438}',
        '\u{0446}',
        '\u{0430}',
    ]
}

pub open spec fn spec_word_zamechani() -> Seq<char> {
    seq![
        '\u{0437}',
        '\u{0430}',
        '\u{043C}',
        '\u{0435}',
        '\u{0447}',
        '\u{0430}',
        '\u{043D}',
        '\u{0438}',
    ]
}

pub open spec fn spec_word_primechani() -> Seq<char> {
    seq![
        '\u{043F}',
        '\u{0440}',
        '\u{0438}',
        '\u{043C}',
        '\u{0435}',
        '\u{0447}',
        '\u{0430}',
        '\u{043D}',
        '\u{0438}',
    ]
}

pub open spec fn spec_word_sovet() -> Seq<char> {
    seq!['\u{0441}', '\u{043E}', '\u{0432}', '\u{0435}', '\u{0442}']
}

pub open spec fn spec_word_vazhno() -> Seq<char> {
    seq!['\u{0432}', '\u{0430}', '\u{0436}', '\u{043D}', '\u{043E}']
}

pub open spec fn spec_word_vnimanie() -> Seq<char> {
    seq![
        '\u{0432}',
        '\u{043D}',
        '\u{0438}',
        '\u{043C}',
        '\u{0430}',
        '\u{043D}',
        '\u{0438}',
        '\u{0435}',
    ]
}

pub open spec fn spec_word_zapomnite() -> Seq<char> {
    seq![
        '\u{0437}',
        '\u{0430}',
        '\u{043F}',
        '\u{043E}',
        '\u{043C}',
        '\u{043D}',
        '\u{0438}',
        '\u{0442}',
        '\u{0435}',
    ]
}

/// `12. ` / `7) `: a numbered item with trailing whitespace.
pub open spec fn spec_numbered_item(s: Seq<char>) -> bool {
    let a = spec_skip_spaces(s, 0);
    let h = crate::parse::spec_digits_end(s, a);
    &&& h > a
    &&& {
        let w = spec_skip_spaces(s, h);
        &&& w < s.len()
        &&& (s[w] == '.' || s[w] == ')')
        &&& w + 1 < s.len()
        &&& spec_is_space(s[w + 1])
    }
}

/// `а) ` / `b) `: a lettered item with trailing whitespace.
pub open spec fn spec_lettered_item(s: Seq<char>) -> bool {
    let a = spec_skip_spaces(s, 0);
    &&& a < s.len()
    &&& (spec_is_cyr_letter(s[a]) || spec_is_lat_letter(s[a]))
    &&& {
        let w = spec_skip_spaces(s, a + 1);
        &&& w < s.len()
        &&& s[w] == ')'
        &&& w + 1 < s.len()
        &&& spec_is_space(s[w + 1])
    }
}

/// A line that opens some recognisable element.
pub open spec fn spec_is_element_start(s: Seq<char>) -> bool {
    spec_element_keyword(s) || spec_numbered_item(s) || spec_lettered_item(s)
}

impl PageContentParser {
    pub fn new(api_key: Option<String>) -> (r: PageContentParser)
        ensures
            r.spec_has_key() == api_key is Some,
    {
        PageContentParser { api_key }
    }

    pub closed spec fn spec_has_key(&self) -> bool {
        self.api_key is Some
    }

    /// Does this line open a recognisable element?
    pub fn is_element_start(&self, line: &str) -> (r: bool)
        ensures
            r == spec_is_element_start(line@),
    {
        let v = chars_of(line);
        if element_keyword_at(&v) {
            return true;
        }
        if numbered_item_at(&v) {
            return true;
        }
        lettered_item_at(&v)
    }

    /// Collect a plain text block: lines up to the next recognisable
    /// element or the five-line cap, joined with spaces; the block that
    /// opens the page counts as introduction.
    pub fn parse_text_block(&self, lines: &Vec<String>, start: usize) -> (r: (ParsedText, usize))
        requires
            start <= lines@.len(),
        ensures
            r.0.content@ == spec_text_block(
                lines@.map_values(|l: String| l@),
                start as int,
                0,
                Seq::<char>::empty(),
            ).0,
            r.0.is_intro == (start == 0),
            !r.0.is_conclusion,
            r.1 == spec_text_block(
                lines@.map_values(|l: String| l@),
                start as int,
                0,
                Seq::<char>::empty(),
            ).1,
    {
        let ghost lseq = lines@.map_values(|l: String| l@);
        let n = lines.len();
        let mut content: Vec<char> = Vec::new();
        let mut taken: usize = 0;
        let mut i: usize = start;
        let mut stop = false;
        proof {
            assert(content@ =~= Seq::<char>::empty());
        }
        while i < n && taken < 5 && !stop
            invariant
                start <= i <= n,
                n == lseq.len(),
                taken <= 5,
                lseq == lines@.map_values(|l: String| l@),
                spec_text_block(lseq, start as int, 0, Seq::<char>::empty()) == if stop {
                    (content@, i as int)
                } else {
                    spec_text_block(lseq, i as int, taken as int, content@)
                },
            decreases n - i, (if stop { 0int } else { 1int }),
        {
            proof {
                assert(lseq[i as int] == lines@[i as int]@);
            }
            let lv = chars_of(lines[i].as_str());
            let t = trim_chars(&lv);
            if t.len() == 0 {
                i = i + 1;
            } else if element_keyword_at(&t) || numbered_item_at(&t) || lettered_item_at(&t) {
                proof {
                    assert(spec_is_element_start(t@));
                }
                stop = true;
            } else {
                let ghost acc0 = content@;
                if content.len() > 0 {
                    content.push(' ');
                }
                crate::text::push_all(&mut content, &t);
                proof {
                    if acc0.len() > 0 {
                        assert(content@ =~= acc0 + seq![' '] + t@);
                    } else {
                        assert(content@ =~= t@);
                    }
                }
                taken = taken + 1;
                i = i + 1;
            }
        }
        (
            ParsedText {
                content: string_of(&content),
                is_intro: start == 0,
                is_conclusion: false,
            },
            i,
        )
    }

    /// Count what a page's elements carry.
    pub fn calculate_stats(&self, elements: &Vec<PageElement>) -> (r: PageStats)
        ensures
            r == spec_stats(elements@.map_values(|e: PageElement| spec_element_kind(e))),
    {
        let mut stats = PageStats {
            problem_count: 0,
            theory_count: 0,
            example_count: 0,
            figure_count: 0,
            exercise_count: 0,
            total_formulas: 0,
        };
        let ghost kinds = elements@.map_values(|e: PageElement| spec_element_kind(e));
        let n = elements.len();
        let mut i: usize = 0;
        proof {
            assert(kinds.subrange(0, 0) =~= Seq::<(int, int)>::empty());
            assert(stats == spec_stats(kinds.subrange(0, 0)));
        }
        while i < n
            invariant
                i <= n,
                n == kinds.len(),
                kinds == elements@.map_values(|e: PageElement| spec_element_kind(e)),
                stats == spec_stats(kinds.subrange(0, i as int)),
            decreases n - i,
        {
            proof {
                assert(kinds[i as int] == spec_element_kind(elements@[i as int]));
                assert(kinds.subrange(0, i + 1).drop_last() =~= kinds.subrange(0, i as int));
                assert(kinds.subrange(0, i + 1).last() == kinds[i as int]);
            }
            match &elements[i] {
                PageElement::Problem(p) => {
                    stats.problem_count = add_sat(stats.problem_count, 1);
                    stats.total_formulas = add_sat(stats.total_formulas, p.formulas.len());
                },
                PageElement::Theory(t) => {
                    stats.theory_count = add_sat(stats.theory_count, 1);
                    stats.total_formulas = add_sat(stats.total_formulas, t.formulas.len());
                },
                PageElement::Example(e) => {
                    stats.example_count = add_sat(stats.example_count, 1);
                    stats.total_formulas = add_sat(stats.total_formulas, e.formulas.len());
                },
                PageElement::Figure(_) => {
                    stats.figure_count = add_sat(stats.figure_count, 1);
                },
                PageElement::Exercise(_) => {
                    stats.exercise_count = add_sat(stats.exercise_count, 1);
                },
                _ => {},
            }
            i = i + 1;
        }
        proof {
            assert(kinds.subrange(0, n as int) =~= kinds);
        }
        stats
    }
}

/// Addition that stops at the largest machine word.
fn add_sat(a: usize, b: usize) -> (r: usize)
    ensures
        r == spec_add_sat(a as int, b as int),
{
    if a > usize::MAX - b {
        usize::MAX
    } else {
        a + b
    }
}

pub open spec fn spec_add_sat(a: int, b: int) -> int {
    if a + b > usize::MAX {
        usize::MAX as int
    } else {
        a + b
    }
}

/// The kind of an element and how many formulas it carries: the kind is
/// a small code, the count feeds the formula total.
pub open spec fn spec_element_kind(e: PageElement) -> (int, int) {
    match e {
        PageElement::Problem(p) => (0int, p.formulas@.len() as int),
        PageElement::Theory(t) => (1int, t.formulas@.len() as int),
        PageElement::Example(x) => (2int, x.formulas@.len() as int),
        PageElement::Figure(_) => (3int, 0int),
        PageElement::Exercise(_) => (4int, 0int),
        PageElement::Table(_) => (5int, 0int),
        PageElement::Remark(_) => (6int, 0int),
        PageElement::Text(_) => (7int, 0int),
    }
}

/// Fold the counters over the element kinds.
pub open spec fn spec_stats(kinds: Seq<(int, int)>) -> PageStats
    decreases kinds.len(),
{
    if kinds.len() == 0 {
        PageStats {
            problem_count: 0,
            theory_count: 0,
            example_count: 0,
            figure_count: 0,
            exercise_count: 0,
            total_formulas: 0,
        }
    } else {
        let prev = spec_stats(kinds.drop_last());
        let (kind, formulas) = kinds.last();
        PageStats {
            problem_count: if kind == 0 {
                spec_add_sat(prev.problem_count as int, 1) as usize
            } else {
                prev.problem_count
            },
            theory_count: if kind == 1 {
                spec_add_sat(prev.theory_count as int, 1) as usize
            } else {
                prev.theory_count
            },
            example_count: if kind == 2 {
                spec_add_sat(prev.example_count as int, 1) as usize
            } else {
                prev.example_count
            },
            figure_count: if kind == 3 {
                spec_add_sat(prev.figure_count as int, 1) as usize
            } else {
                prev.figure_count
            },
            exercise_count: if kind == 4 {
                spec_add_sat(prev.exercise_count as int, 1) as usize
            } else {
                prev.exercise_count
            },
            total_formulas: if kind == 0 || kind == 1 || kind == 2 {
                spec_add_sat(prev.total_formulas as int, formulas) as usize
            } else {
                prev.total_formulas
            },
        }
    }
}

/// The text block from `i` on: skipped blanks, collected trimmed lines
/// joined with spaces, stopping at an element start or the cap of five.
pub open spec fn spec_text_block(
    lines: Seq<Seq<char>>,
    i: int,
    taken: int,
    acc: Seq<char>,
) -> (Seq<char>, int)
    decreases lines.len() - i,
{
    if i < 0 || i >= lines.len() || taken >= 5 {
        (acc, i)
    } else {
        let t = spec_trim(lines[i]);
        if t.len() == 0 {
            spec_text_block(lines, i + 1, taken, acc)
        } else if spec_is_element_start(t) {
            (acc, i)
        } else {
            let acc2 = if acc.len() > 0 {
                acc + seq![' '] + t
            } else {
                t
            };
            spec_text_block(lines, i + 1, taken + 1, acc2)
        }
    }
}

fn element_keyword_at(v: &Vec<char>) -> (r: bool)
    ensures
        r == spec_element_keyword(v@),
{
    let w1: Vec<char> = vec![
        '\u{043E}',
        '\u{043F}',
        '\u{0440}',
        '\u{0435}',
        '\u{0434}',
        '\u{0435}',
        '\u{043B}',
        '\u{0435}',
        '\u{043D}',
        '\u{0438}',
        '\u{0435}',
    ];
    proof {
        assert(w1@ =~= crate::textbook::spec_word_opredelenie());
    }
    let w2: Vec<char> = vec![
        '\u{0442}',
        '\u{0435}',
        '\u{043E}',
        '\u{0440}',
        '\u{0435}',
        '\u{043C}',
        '\u{0430}',
    ];
    proof {
        assert(w2@ =~= crate::textbook::spec_word_teorema());
    }
    let w3: Vec<char> = vec!['\u{043B}', '\u{0435}', '\u{043C}', '\u{043C}', '\u{0430}'];
    proof {
        assert(w3@ =~= spec_word_lemma());
    }
    let w4: Vec<char> = vec![
        '\u{0441}',
        '\u{043B}',
        '\u{0435}',
        '\u{0434}',
        '\u{0441}',
        '\u{0442}',
        '\u{0432}',
        '\u{0438}',
        '\u{0435}',
    ];
    proof {
        assert(w4@ =~= spec_word_sledstvie());
    }
    let w5: Vec<char> = vec![
        '\u{0441}',
        '\u{0432}',
        '\u{043E}',
        '\u{0439}',
        '\u{0441}',
        '\u{0442}',
        '\u{0432}',
        '\u{043E}',
    ];
    proof {
        assert(w5@ =~= crate::textbook::spec_word_svoistvo());
    }
    let w6: Vec<char> = vec![
        '\u{0430}',
        '\u{043A}',
        '\u{0441}',
        '\u{0438}',
        '\u{043E}',
        '\u{043C}',
        '\u{0430}',
    ];
    proof {
        assert(w6@ =~= spec_word_aksioma());
    }
    let w7: Vec<char> = vec![
        '\u{0444}',
        '\u{043E}',
        '\u{0440}',
        '\u{043C}',
        '\u{0443}',
        '\u{043B}',
        '\u{0430}',
    ];
    proof {
        assert(w7@ =~= crate::textbook::spec_word_formula_ru());
    }
    let w8: Vec<char> = vec![
        '\u{043F}',
        '\u{0440}',
        '\u{0438}',
        '\u{043C}',
        '\u{0435}',
        '\u{0440}',
    ];
    proof {
        assert(w8@ =~= spec_word_primer());
    }
    let w9: Vec<char> = vec![
        '\u{0437}',
        '\u{0430}',
        '\u{0434}',
        '\u{0430}',
        '\u{0447}',
        '\u{0430}',
    ];
    proof {
        assert(w9@ =~= crate::textbook::spec_word_zadacha());
    }
    let w10: Vec<char> = vec![
        '\u{0443}',
        '\u{043F}',
        '\u{0440}',
        '\u{0430}',
        '\u{0436}',
        '\u{043D}',
        '\u{0435}',
        '\u{043D}',
        '\u{0438}',
        '\u{0435}',
    ];
    proof {
        assert(w10@ =~= crate::textbook::spec_word_uprazhnenie());
    }
    let w11: Vec<char> = vec!['\u{0440}', '\u{0438}', '\u{0441}'];
    proof {
        assert(w11@ =~= spec_word_ris());
    }
    let w12: Vec<char> = vec![
        '\u{0433}',
        '\u{0440}',
        '\u{0430}',
        '\u{0444}',
        '\u{0438}',
        '\u{043A}',
    ];
    proof {
        assert(w12@ =~= spec_word_grafik());
    }
    let w13: Vec<char> = vec![
        '\u{0434}',
        '\u{0438}',
        '\u{0430}',
        '\u{0433}',
        '\u{0440}',
        '\u{0430}',
        '\u{043C}',
        '\u{043C}',
        '\u{0430}',
    ];
    proof {
        assert(w13@ =~= spec_word_diagramma());
    }
    let w14: Vec<char> = vec![
        '\u{0442}',
        '\u{0430}',
        '\u{0431}',
        '\u{043B}',
        '\u{0438}',
        '\u{0446}',
        '\u{0430}',
    ];
    proof {
        assert(w14@ =~= spec_word_tablitsa());
    }
    let w15: Vec<char> = vec![
        '\u{0437}',
        '\u{0430}',
        '\u{043C}',
        '\u{0435}',
        '\u{0447}',
        '\u{0430}',
        '\u{043D}',
        '\u{0438}',
    ];
    proof {
        assert(w15@ =~= spec_word_zamechani());
    }
    let w16: Vec<char> = vec![
        '\u{043F}',
        '\u{0440}',
        '\u{0438}',
        '\u{043C}',
        '\u{0435}',
        '\u{0447}',
        '\u{0430}',
        '\u{043D}',
        '\u{0438}',
    ];
    proof {
        assert(w16@ =~= spec_word_primechani());
    }
    let w17: Vec<char> = vec![
        '\u{0441}',
        '\u{043E}',
        '\u{0432}',
        '\u{0435}',
        '\u{0442}',
    ];
    proof {
        assert(w17@ =~= spec_word_sovet());
    }
    let w18: Vec<char> = vec![
        '\u{0432}',
        '\u{0430}',
        '\u{0436}',
        '\u{043D}',
        '\u{043E}',
    ];
    proof {
        assert(w18@ =~= spec_word_vazhno());
    }
    let w19: Vec<char> = vec![
        '\u{0432}',
        '\u{043D}',
        '\u{0438}',
        '\u{043C}',
        '\u{0430}',
        '\u{043D}',
        '\u{0438}',
        '\u{0435}',
    ];
    proof {
        assert(w19@ =~= spec_word_vnimanie());
    }
    let w20: Vec<char> = vec![
        '\u{0437}',
        '\u{0430}',
        '\u{043F}',
        '\u{043E}',
        '\u{043C}',
        '\u{043D}',
        '\u{0438}',
        '\u{0442}',
        '\u{0435}',
    ];
    proof {
        assert(w20@ =~= spec_word_zapomnite());
    }
    crate::textbook::ci_word_at(v, 0, &w1) || crate::textbook::ci_word_at(v, 0, &w2)
        || crate::textbook::ci_word_at(v, 0, &w3) || crate::textbook::ci_word_at(
        v,
        0,
        &w4,
    ) || crate::textbook::ci_word_at(v, 0, &w5) || crate::textbook::ci_word_at(v, 0, &w6)
        || crate::textbook::ci_word_at(v, 0, &w7) || crate::textbook::ci_word_at(
        v,
        0,
        &w8,
    ) || crate::textbook::ci_word_at(v, 0, &w9) || crate::textbook::ci_word_at(
        v,
        0,
        &w10,
    ) || crate::textbook::ci_word_at(v, 0, &w11) || crate::textbook::ci_word_at(
        v,
        0,
        &w12,
    ) || crate::textbook::ci_word_at(v, 0, &w13) || crate::textbook::ci_word_at(
        v,
        0,
        &w14,
    ) || crate::textbook::ci_word_at(v, 0, &w15) || crate::textbook::ci_word_at(
        v,
        0,
        &w16,
    ) || crate::textbook::ci_word_at(v, 0, &w17) || crate::textbook::ci_word_at(
        v,
        0,
        &w18,
    ) || crate::textbook::ci_word_at(v, 0, &w19) || crate::textbook::ci_word_at(
        v,
        0,
        &w20,
    )
}

fn numbered_item_at(v: &Vec<char>) -> (r: bool)
    ensures
        r == spec_numbered_item(v@),
{
    let n = v.len();
    let mut a: usize = 0;
    while a < n && is_space_char(v[a])
        invariant
            a <= n,
            n == v@.len(),
            spec_skip_spaces(v@, 0) == spec_skip_spaces(v@, a as int),
        decreases n - a,
    {
        a = a + 1;
    }
    let mut h: usize = a;
    while h < n && is_digit_char(v[h])
        invariant
            a <= h <= n,
            n == v@.len(),
            crate::parse::spec_digits_end(v@, a as int) == crate::parse::spec_digits_end(
                v@,
                h as int,
            ),
        decreases n - h,
    {
        h = h + 1;
    }
    if h == a {
        return false;
    }
    let mut w: usize = h;
    while w < n && is_space_char(v[w])
        invariant
            h <= w <= n,
            n == v@.len(),
            spec_skip_spaces(v@, h as int) == spec_skip_spaces(v@, w as int),
        decreases n - w,
    {
        w = w + 1;
    }
    w < n && (v[w] == '.' || v[w] == ')') && w + 1 < n && is_space_char(v[w + 1])
}

fn lettered_item_at(v: &Vec<char>) -> (r: bool)
    ensures
        r == spec_lettered_item(v@),
{
    let n = v.len();
    let mut a: usize = 0;
    while a < n && is_space_char(v[a])
        invariant
            a <= n,
            n == v@.len(),
            spec_skip_spaces(v@, 0) == spec_skip_spaces(v@, a as int),
        decreases n - a,
    {
        a = a + 1;
    }
    if a >= n {
        return false;
    }
    let c = v[a];
    if !(crate::textbook::is_cyr_letter(c) || crate::textbook::is_lat_letter(c)) {
        return false;
    }
    let mut w: usize = a + 1;
    while w < n && is_space_char(v[w])
        invariant
            a + 1 <= w <= n,
            n == v@.len(),
            spec_skip_spaces(v@, a + 1) == spec_skip_spaces(v@, w as int),
        decreases n - w,
    {
        w = w + 1;
    }
    w < n && v[w] == ')' && w + 1 < n && is_space_char(v[w + 1])
}

} // verus!
