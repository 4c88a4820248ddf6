//! Request and response shapes of the service's edges, and the small
//! conversions the handlers perform on parsed problems.

use vstd::prelude::*;

use crate::parse::ProblemView;
use crate::text::{chars_of, push_all, string_of};

verus! {

// --- batch endpoints ---

pub struct BatchOcrRequest {
    pub book_id: String,
    pub start_page: u32,
    pub end_page: u32,
    pub chapter_id: String,
    /// Skip pages that already have OCR cached.
    pub incremental: Option<bool>,
    /// Re-run OCR even over cached pages.
    pub force: Option<bool>,
}

pub struct BatchOcrResponse {
    pub job_id: String,
    pub status: String,
    pub message: String,
    pub total_pages: u32,
}

pub struct BatchSolveRequest {
    pub problem_ids: Vec<String>,
    pub provider: Option<String>,
}

pub struct BatchSolveResponse {
    pub job_id: String,
    pub status: String,
    pub message: String,
    pub total_problems: usize,
}

pub struct ExportRequest {
    pub book_id: String,
    pub format: String,
}

pub struct ValidateRequest {
    pub chapter_id: String,
}

pub struct ValidationResponse {
    pub is_valid: bool,
    pub errors: Vec<ValidationErrorResponse>,
    pub warnings: Vec<ValidationWarningResponse>,
}

pub struct ValidationErrorResponse {
    pub code: String,
    pub message: String,
    pub problem_id: Option<String>,
}

pub struct ValidationWarningResponse {
    pub code: String,
    pub message: String,
    pub problem_id: Option<String>,
}

pub struct FormulaSearchRequest {
    pub query: String,
    pub limit: Option<usize>,
}

// --- page endpoints ---

pub struct ParseProblemsRequest {
    pub text: String,
    pub book_id: String,
    pub chapter_num: Option<u32>,
    pub page_number: Option<u32>,
}

pub struct CreateProblemsRequest {
    pub text: String,
    pub book_id: String,
    pub chapter_id: String,
    pub chapter_num: u32,
    pub page_number: Option<u32>,
    /// The previous page's last problem number, for cross-page detection.
    pub prev_page_last_problem: Option<String>,
}

/// A parsed problem as the page endpoints serve it.
pub struct ParsedProblem {
    pub number: String,
    pub content: String,
    pub latex_formulas: Vec<String>,
    pub is_problem: bool,
    pub sub_problems: Option<Vec<ParsedProblem>>,
    pub continues_from_prev: Option<bool>,
    pub continues_to_next: Option<bool>,
}

pub struct ParseProblemsResponse {
    pub problems: Vec<ParsedProblem>,
    pub total_count: usize,
    pub parser_used: String,
    pub cross_page_notes: Option<Vec<String>>,
}

pub struct CreateProblemsResponse {
    pub created_count: usize,
    pub problems: Vec<String>,
    pub cross_page_links: Vec<CrossPageLink>,
}

pub struct CrossPageLink {
    pub problem_number: String,
    pub from_page: Option<u32>,
    pub to_page: Option<u32>,
}

pub struct PageOcrRequest {
    pub provider: Option<String>,
}

pub struct PageOcrResponse {
    pub page: u32,
    pub text: String,
    pub provider: String,
}

pub struct ParseFullPageRequest {
    pub text: String,
    pub book_id: String,
    pub chapter_num: u32,
    pub page_number: Option<u32>,
}

// --- problem endpoints ---

pub struct GetProblemQuery {
    pub with_solution: Option<bool>,
}

pub struct SaveSolutionRequest {
    pub content: String,
    pub provider: Option<String>,
    pub is_verified: Option<bool>,
}

pub struct RateRequest {
    pub rating: u8,
}

pub struct HintRequest {
    pub hint_level: Option<u8>,
    pub provider: Option<String>,
}

pub struct UpdateProblemRequest {
    pub content: String,
}

// --- smart-feature endpoints ---

pub struct TocDetectRequest {
    pub text: String,
}

pub struct TocEntryResponse {
    pub number: u32,
    pub title: String,
    pub page_number: Option<u32>,
}

pub struct SmartImportRequest {
    pub book_id: String,
    pub title: String,
    pub total_pages: u32,
    pub toc_page_ocr: Option<String>,
}

pub struct SmartImportResponse {
    pub book_id: String,
    pub chapters_created: usize,
    pub detection_source: String,
    pub chapter_titles: Vec<String>,
}

pub struct GraphBuildRequest {
    pub chapter_id: String,
}

pub struct AutoTagRequest {
    pub problem_ids: Vec<String>,
}

pub struct SimilarRequest {
    pub problem_id: String,
    pub top_k: Option<usize>,
    pub chapter_id: Option<String>,
}

pub struct RecommendRequest {
    pub solved_problem_ids: Vec<String>,
    pub chapter_id: String,
    pub count: Option<usize>,
}

pub struct ImportRequest {
    pub book_id: String,
    pub chapter_num: u32,
    pub chapter_title: String,
    pub text: String,
}

// --- classification shapes ---

#[derive(Clone, Copy, PartialEq, Eq, Structural)]
pub enum TagCategory {
    Subject,
    Topic,
    Method,
    Difficulty,
    Concept,
}

#[derive(Clone, Copy, PartialEq, Eq, Structural)]
pub enum NodeType {
    Chapter,
    Topic,
    Concept,
    Formula,
    Problem,
}

#[derive(Clone, Copy, PartialEq, Eq, Structural)]
pub enum EdgeType {
    Contains,
    Requires,
    Related,
    Similar,
    LeadsTo,
}

#[derive(Clone, Copy, PartialEq, Eq, Structural)]
pub enum MatchType {
    ExactFormula,
    SimilarFormula,
    SharedConcepts,
    SameTopic,
    TextSimilarity,
}

/// A group of related nodes in the knowledge graph.
pub struct Cluster {
    pub id: String,
    pub label: String,
    pub node_ids: Vec<String>,
    pub color: String,
}

// --- process configuration ---

/// Command-line surface of the program.
pub struct Cli {
    pub command: Option<Commands>,
}

pub enum Commands {
    /// Start the web server.
    Serve,
    /// Output OCR markdown for a file and page range.
    OcrMarkdown { file: String, page: String },
    /// Run OCR and print the result for a file and page range.
    OcrRun { file: String, page: String },
    /// Show document metadata.
    PdfInfo { file: String },
}

/// Directories and port the process runs with.
pub struct Config {
    pub host: String,
    pub port: u16,
    pub resources_dir: String,
    pub preview_dir: String,
    pub ocr_cache_dir: String,
}

impl Default for Config {
    fn default() -> (r: Config)
        ensures
            r.host@ == "127.0.0.1"@,
            r.port == 8080,
            r.resources_dir@ == "./resources"@,
            r.preview_dir@ == "./resources/.preview"@,
            r.ocr_cache_dir@ == "./resources/.ocr_cache"@,
    {
        Config {
            host: String::from_str("127.0.0.1"),
            port: 8080,
            resources_dir: String::from_str("./resources"),
            preview_dir: String::from_str("./resources/.preview"),
            ocr_cache_dir: String::from_str("./resources/.ocr_cache"),
        }
    }
}

impl Config {
    pub fn new() -> (r: Config)
        ensures
            r.host@ == "127.0.0.1"@,
            r.port == 8080,
            r.resources_dir@ == "./resources"@,
            r.preview_dir@ == "./resources/.preview"@,
            r.ocr_cache_dir@ == "./resources/.ocr_cache"@,
    {
        Config::default()
    }
}

/// The process's error taxonomy; the message travels with each case.
pub enum AppError {
    NotFound(String),
    Internal(String),
    BadRequest(String),
    Config(String),
    Ocr(String),
    Io(String),
}

// --- handler conversions ---

/// Carry a parsed problem into the endpoint shape: formulas extracted,
/// sub-problems nested, continuation flags kept.
pub fn convert_ai_problem(p: &crate::parse::ParsedProblem) -> (r: ParsedProblem)
    ensures
        r.number@ == p@.number,
        r.content@ == p@.content,
        r.latex_formulas@.map_values(|s: String| s@) == crate::models::spec_inline_formulas(
            p@.content,
        ),
        r.is_problem,
        r.continues_from_prev == Some(p@.from_prev),
        r.continues_to_next == Some(p@.to_next),
        p@.subs.len() == 0 ==> r.sub_problems is None,
        p@.subs.len() > 0 ==> r.sub_problems is Some && ({
            let subs = r.sub_problems->Some_0;
            &&& subs@.len() == p@.subs.len()
            &&& forall|i: int|
                0 <= i < subs@.len() ==> {
                    &&& (#[trigger] subs@[i]).number@ == p@.subs[i].letter
                    &&& subs@[i].content@ == p@.subs[i].content
                    &&& subs@[i].is_problem
                    &&& subs@[i].sub_problems is None
                    &&& subs@[i].continues_from_prev is None
                    &&& subs@[i].continues_to_next is None
                }
        }),
{
    let latex = crate::models::extract_inline_formulas(p.content.as_str());
    let m = p.sub_problems.len();
    let sub_problems: Option<Vec<ParsedProblem>> = if m == 0 {
        None
    } else {
        let mut subs: Vec<ParsedProblem> = Vec::new();
        let mut j: usize = 0;
        while j < m
            invariant
                j <= m,
                m == p.sub_problems@.len(),
                subs@.len() == j,
                forall|i: int|
                    0 <= i < j ==> {
                        &&& (#[trigger] subs@[i]).number@ == p.sub_problems@[i]@.letter
                        &&& subs@[i].content@ == p.sub_problems@[i]@.content
                        &&& subs@[i].is_problem
                        &&& subs@[i].sub_problems is None
                        &&& subs@[i].continues_from_prev is None
                        &&& subs@[i].continues_to_next is None
                    },
            decreases m - j,
        {
            let s = &p.sub_problems[j];
            let slatex = crate::models::extract_inline_formulas(s.content.as_str());
            subs.push(
                ParsedProblem {
                    number: s.letter.clone(),
                    content: s.content.clone(),
                    latex_formulas: slatex,
                    is_problem: true,
                    sub_problems: None,
                    continues_from_prev: None,
                    continues_to_next: None,
                },
            );
            j = j + 1;
        }
        Some(subs)
    };
    proof {
        if m > 0 {
            assert forall|i: int| 0 <= i < m implies p@.subs[i] == p.sub_problems@[i]@ by {
                crate::parse::lemma_problem_view_subs(*p, i);
            }
        }
    }
    ParsedProblem {
        number: p.number.clone(),
        content: p.content.clone(),
        latex_formulas: latex,
        is_problem: true,
        sub_problems,
        continues_from_prev: Some(p.continues_from_prev),
        continues_to_next: Some(p.continues_to_next),
    }
}

// --- page-range parsing ---

/// A page number read out of digits; `None` when empty, non-numeric or
/// too large.
pub open spec fn spec_page_parse(s: Seq<char>) -> Option<u32> {
    if crate::text::spec_all_digits(s) && s.len() > 0 && crate::text::spec_digits_value(s)
        <= u32::MAX {
        Some(crate::text::spec_digits_value(s) as u32)
    } else {
        None::<u32>
    }
}

/// The pages of the inclusive range `[start, end]`.
pub open spec fn spec_range_set(start: u32, end: u32) -> Set<u32> {
    Set::new(|p: u32| start <= p && p <= end)
}

/// The pages one comma-separated piece names: `12`, `3-7`, or `3-e` for
/// everything to the last page; a piece that does not parse adds none,
/// and a malformed range start falls back to page one.
pub open spec fn spec_part_pages(part: Seq<char>, total: u32) -> Set<u32> {
    let t = crate::text::spec_trim(part);
    if t.len() == 0 {
        Set::<u32>::empty()
    } else {
        let d = crate::models::spec_next_char(t, 0, '-');
        if d < t.len() {
            let start = match spec_page_parse(crate::text::spec_trim(t.subrange(0, d))) {
                Some(v) => v,
                None => 1u32,
            };
            let tail = crate::text::spec_trim(t.subrange(d + 1, t.len() as int));
            let end = if tail == seq!['e'] {
                total
            } else {
                match spec_page_parse(tail) {
                    Some(v) => v,
                    None => start,
                }
            };
            spec_range_set(start, end)
        } else {
            match spec_page_parse(t) {
                Some(p) => Set::<u32>::empty().insert(p),
                None => Set::<u32>::empty(),
            }
        }
    }
}

/// The union of every piece's pages.
pub open spec fn spec_pages_fold(parts: Seq<Seq<char>>, total: u32) -> Set<u32>
    decreases parts.len(),
{
    if parts.len() == 0 {
        Set::<u32>::empty()
    } else {
        spec_part_pages(parts[0], total) + spec_pages_fold(parts.drop_first(), total)
    }
}

/// What a page-range string names.
pub open spec fn spec_page_ranges(s: Seq<char>, total: u32) -> Set<u32> {
    spec_pages_fold(crate::text::spec_split_sep(s, ','), total)
}

/// Parse a page selection such as `1`, `1-5`, `1,3,5` or `2-e`.
pub fn parse_page_ranges(range_str: &str, total_pages: u32) -> (r: std::collections::BTreeSet<
    u32,
>)
    ensures
        r@ == spec_page_ranges(range_str@, total_pages),
{
    let v = chars_of(range_str);
    let parts = crate::text::split_sep(&v, ',');
    let ghost pseq = parts@.map_values(|l: Vec<char>| l@);
    let n = parts.len();
    let mut out: std::collections::BTreeSet<u32> = std::collections::BTreeSet::new();
    let mut i: usize = 0;
    proof {
        assert(pseq.subrange(0, n as int) =~= pseq);
        assert(out@ =~= Set::<u32>::empty());
    }
    while i < n
        invariant
            i <= n,
            n == pseq.len(),
            pseq == parts@.map_values(|l: Vec<char>| l@),
            spec_pages_fold(pseq, total_pages) == out@ + spec_pages_fold(
                pseq.subrange(i as int, n as int),
                total_pages,
            ),
        decreases n - i,
    {
        proof {
            let sub_i = pseq.subrange(i as int, n as int);
            assert(sub_i[0] == pseq[i as int]);
            assert(sub_i.drop_first() =~= pseq.subrange(i + 1, n as int));
            assert(pseq[i as int] == parts@[i as int]@);
        }
        let ghost before = out@;
        let t = crate::text::trim_chars(&parts[i]);
        if t.len() > 0 {
            let d = crate::models::next_char_from(&t, 0, '-');
            if d < t.len() {
                let start_part = crate::text::trim_chars(&crate::text::slice_chars(&t, 0, d));
                let start = match crate::text::parse_u32(&start_part) {
                    Some(p) => p,
                    None => 1,
                };
                let tail = crate::text::trim_chars(
                    &crate::text::slice_chars(&t, d + 1, t.len()),
                );
                let end = if tail.len() == 1 && tail[0] == 'e' {
                    proof {
                        assert(tail@ =~= seq!['e']);
                    }
                    total_pages
                } else {
                    proof {
                        if tail@.len() == 1 && tail@ == seq!['e'] {
                            assert(tail@[0] == 'e');
                        }
                    }
                    match crate::text::parse_u32(&tail) {
                        Some(p) => p,
                        None => start,
                    }
                };
                if start <= end {
                    let mut p = start;
                    proof {
                        assert(out@ =~= before + Set::new(
                            |q: u32| start <= q && q < start,
                        ));
                    }
                    while p < end
                        invariant
                            start <= p <= end,
                            out@ == before + Set::new(|q: u32| start <= q && q < p),
                        decreases end - p,
                    {
                        out.insert(p);
                        proof {
                            assert(out@ =~= before + Set::new(
                                |q: u32| start <= q && q < p + 1,
                            ));
                        }
                        p = p + 1;
                    }
                    out.insert(p);
                    proof {
                        assert(out@ =~= before + spec_range_set(start, end));
                    }
                } else {
                    proof {
                        assert(spec_range_set(start, end) =~= Set::<u32>::empty());
                        assert(out@ =~= before + spec_range_set(start, end));
                    }
                }
            } else {
                match crate::text::parse_u32(&t) {
                    Some(p) => {
                        out.insert(p);
                        proof {
                            assert(out@ =~= before + Set::<u32>::empty().insert(p));
                        }
                    },
                    None => {
                        proof {
                            assert(out@ =~= before + Set::<u32>::empty());
                        }
                    },
                }
            }
        } else {
            proof {
                assert(out@ =~= before + Set::<u32>::empty());
            }
        }
        i = i + 1;
    }
    proof {
        assert(pseq.subrange(n as int, n as int) =~= Seq::<Seq<char>>::empty());
        assert(out@ =~= out@ + Set::<u32>::empty());
    }
    out
}

/// The note for a problem that continues from the previous page.
pub open spec fn spec_note_from_prev(number: Seq<char>) -> Seq<char> {
    "\u{0417}\u{0430}\u{0434}\u{0430}\u{0447}\u{0430} "@ + number
        + " \u{043F}\u{0440}\u{043E}\u{0434}\u{043E}\u{043B}\u{0436}\u{0430}\u{0435}\u{0442}\u{0441}\u{044F} \u{0441} \u{043F}\u{0440}\u{0435}\u{0434}\u{044B}\u{0434}\u{0443}\u{0449}\u{0435}\u{0439} \u{0441}\u{0442}\u{0440}\u{0430}\u{043D}\u{0438}\u{0446}\u{044B}"@
}

/// The note for a problem that continues onto the next page.
pub open spec fn spec_note_to_next(number: Seq<char>) -> Seq<char> {
    "\u{0417}\u{0430}\u{0434}\u{0430}\u{0447}\u{0430} "@ + number
        + " \u{043F}\u{0440}\u{043E}\u{0434}\u{043E}\u{043B}\u{0436}\u{0430}\u{0435}\u{0442}\u{0441}\u{044F} \u{043D}\u{0430} \u{0441}\u{043B}\u{0435}\u{0434}\u{0443}\u{044E}\u{0449}\u{0435}\u{0439} \u{0441}\u{0442}\u{0440}\u{0430}\u{043D}\u{0438}\u{0446}\u{0435}"@
}

/// The notes a page's problems earn, in page order.
pub open spec fn spec_cross_page_notes(ps: Seq<ProblemView>) -> Seq<Seq<char>>
    decreases ps.len(),
{
    if ps.len() == 0 {
        Seq::<Seq<char>>::empty()
    } else {
        let head = (if ps[0].from_prev {
            seq![spec_note_from_prev(ps[0].number)]
        } else {
            Seq::<Seq<char>>::empty()
        }) + (if ps[0].to_next {
            seq![spec_note_to_next(ps[0].number)]
        } else {
            Seq::<Seq<char>>::empty()
        });
        head + spec_cross_page_notes(ps.drop_first())
    }
}

/// Spell out which problems of a page continue over its boundaries.
pub fn generate_cross_page_notes(problems: &Vec<crate::parse::ParsedProblem>) -> (r: Vec<String>)
    ensures
        r@.map_values(|s: String| s@) == spec_cross_page_notes(
            problems@.map_values(|p: crate::parse::ParsedProblem| p@),
        ),
{
    let ghost views = problems@.map_values(|p: crate::parse::ParsedProblem| p@);
    let n = problems.len();
    let mut out: Vec<String> = Vec::new();
    let mut i: usize = 0;
    proof {
        assert(views.subrange(0, n as int) =~= views);
        assert(out@.map_values(|s: String| s@) =~= Seq::<Seq<char>>::empty());
    }
    while i < n
        invariant
            i <= n,
            n == views.len(),
            views == problems@.map_values(|p: crate::parse::ParsedProblem| p@),
            spec_cross_page_notes(views) == out@.map_values(|s: String| s@)
                + spec_cross_page_notes(views.subrange(i as int, n as int)),
        decreases n - i,
    {
        proof {
            let sub_i = views.subrange(i as int, n as int);
            assert(sub_i[0] == views[i as int]);
            assert(sub_i.drop_first() =~= views.subrange(i + 1, n as int));
            assert(views[i as int] == problems@[i as int]@);
        }
        let p = &problems[i];
        if p.continues_from_prev {
            let mut m = chars_of("\u{0417}\u{0430}\u{0434}\u{0430}\u{0447}\u{0430} ");
            let numv = chars_of(p.number.as_str());
            push_all(&mut m, &numv);
            let tail = chars_of(
                " \u{043F}\u{0440}\u{043E}\u{0434}\u{043E}\u{043B}\u{0436}\u{0430}\u{0435}\u{0442}\u{0441}\u{044F} \u{0441} \u{043F}\u{0440}\u{0435}\u{0434}\u{044B}\u{0434}\u{0443}\u{0449}\u{0435}\u{0439} \u{0441}\u{0442}\u{0440}\u{0430}\u{043D}\u{0438}\u{0446}\u{044B}",
            );
            push_all(&mut m, &tail);
            let ghost before = out@.map_values(|s: String| s@);
            let ghost mv = m@;
            proof {
                assert(mv =~= spec_note_from_prev(views[i as int].number));
            }
            out.push(string_of(&m));
            proof {
                assert(out@.map_values(|s: String| s@) =~= before.push(mv));
            }
        }
        if p.continues_to_next {
            let mut m = chars_of("\u{0417}\u{0430}\u{0434}\u{0430}\u{0447}\u{0430} ");
            let numv = chars_of(p.number.as_str());
            push_all(&mut m, &numv);
            let tail = chars_of(
                " \u{043F}\u{0440}\u{043E}\u{0434}\u{043E}\u{043B}\u{0436}\u{0430}\u{0435}\u{0442}\u{0441}\u{044F} \u{043D}\u{0430} \u{0441}\u{043B}\u{0435}\u{0434}\u{0443}\u{044E}\u{0449}\u{0435}\u{0439} \u{0441}\u{0442}\u{0440}\u{0430}\u{043D}\u{0438}\u{0446}\u{0435}",
            );
            push_all(&mut m, &tail);
            let ghost before = out@.map_values(|s: String| s@);
            let ghost mv = m@;
            proof {
                assert(mv =~= spec_note_to_next(views[i as int].number));
            }
            out.push(string_of(&m));
            proof {
                assert(out@.map_values(|s: String| s@) =~= before.push(mv));
            }
        }
        proof {
            let head = (if views[i as int].from_prev {
                seq![spec_note_from_prev(views[i as int].number)]
            } else {
                Seq::<Seq<char>>::empty()
            }) + (if views[i as int].to_next {
                seq![spec_note_to_next(views[i as int].number)]
            } else {
                Seq::<Seq<char>>::empty()
            });
            assert(out@.map_values(|s: String| s@) + spec_cross_page_notes(
                views.subrange(i + 1, n as int),
            ) =~= (out@.map_values(|s: String| s@) + spec_cross_page_notes(
                views.subrange(i + 1, n as int),
            )));
        }
        i = i + 1;
    }
    proof {
        assert(views.subrange(n as int, n as int) =~= Seq::<ProblemView>::empty());
        assert(out@.map_values(|s: String| s@) + Seq::<Seq<char>>::empty() =~= out@.map_values(
            |s: String| s@,
        ));
    }
    out
}

} // verus!
