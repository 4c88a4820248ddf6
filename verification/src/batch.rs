//! Batch runs over a page range or a problem list: their result records
//! and the verified passes of the pipelines.

use vstd::prelude::*;
use vstd::string::StrSliceExecFns;

use crate::jobs::{JobManager, JobResult, JobResultView, JobStatus, JobStatusView};
use crate::models::{Problem, Solution};
use crate::parse::{AIParseResult, HybridParser, ParsedProblem, ProblemView, SubProblemView};
use crate::reconcile::{spec_split_trailing_heading, split_trailing_chapter_heading};
use crate::store::{ProblemRowView, ProblemStore, SolutionRowView};
use crate::text::{chars_of, push_all, string_of, parse_u32};

verus! {

/// Counts reported by a finished batch-OCR run.
pub struct BatchOcrResult {
    pub processed_pages: u32,
    pub problems_found: u32,
    pub errors: Vec<String>,
    pub duration_secs: u64,
}

/// What the specification sees of a batch-OCR result.
pub struct OcrResultView {
    pub processed_pages: u32,
    pub problems_found: u32,
    pub errors: Seq<Seq<char>>,
    pub duration_secs: u64,
}

impl View for BatchOcrResult {
    type V = OcrResultView;

    open spec fn view(&self) -> OcrResultView {
        OcrResultView {
            processed_pages: self.processed_pages,
            problems_found: self.problems_found,
            errors: self.errors@.map_values(|e: String| e@),
            duration_secs: self.duration_secs,
        }
    }
}

/// Counts reported by a finished batch-solve run.
pub struct BatchSolveResult {
    pub processed: u32,
    pub succeeded: u32,
    pub failed: u32,
    pub duration_secs: u64,
}

// --- carryover threading (phase two) ---

/// Thread chapter-heading carryover through a page range: each page's
/// text takes the previous page's carryover in front, then sheds its own
/// trailing heading for the next page.
pub open spec fn spec_thread_carryover(texts: Seq<Seq<char>>, carry: Seq<char>) -> (
    Seq<Seq<char>>,
    Seq<char>,
)
    decreases texts.len(),
{
    if texts.len() == 0 {
        (Seq::<Seq<char>>::empty(), carry)
    } else {
        let merged = if carry.len() == 0 {
            texts[0]
        } else {
            carry + seq!['\n', '\n'] + texts[0]
        };
        let split = spec_split_trailing_heading(merged);
        let next_carry = match split.1 {
            Some(c) => c,
            None => Seq::<char>::empty(),
        };
        let rest = spec_thread_carryover(texts.drop_first(), next_carry);
        (seq![split.0] + rest.0, rest.1)
    }
}

/// Run the carryover pass over the raw page texts; the second value is
/// the carryover left unconsumed at the end of the range.
pub fn thread_carryover(texts: &Vec<String>) -> (r: (Vec<String>, String))
    ensures
        ({
            let s = spec_thread_carryover(
                texts@.map_values(|t: String| t@),
                Seq::<char>::empty(),
            );
            &&& r.0@.map_values(|t: String| t@) == s.0
            &&& r.1@ == s.1
        }),
{
    let ghost full = texts@.map_values(|t: String| t@);
    let n = texts.len();
    let mut out: Vec<String> = Vec::new();
    let mut carry = String::new();
    let mut i: usize = 0;
    proof {
        assert(full.subrange(0, n as int) =~= full);
        assert(out@.map_values(|t: String| t@) =~= Seq::<Seq<char>>::empty());
        assert(carry@ =~= Seq::<char>::empty());
    }
    while i < n
        invariant
            i <= n,
            n == full.len(),
            full == texts@.map_values(|t: String| t@),
            spec_thread_carryover(full, Seq::<char>::empty()) == (
                out@.map_values(|t: String| t@) + spec_thread_carryover(
                    full.subrange(i as int, n as int),
                    carry@,
                ).0,
                spec_thread_carryover(full.subrange(i as int, n as int), carry@).1,
            ),
        decreases n - i,
    {
        proof {
            let sub_i = full.subrange(i as int, n as int);
            assert(sub_i[0] == full[i as int]);
            assert(sub_i.drop_first() =~= full.subrange(i + 1, n as int));
            assert(full[i as int] == texts@[i as int]@);
        }
        let merged: String = if carry.as_str().unicode_len() == 0 {
            proof {
                assert(carry@ =~= Seq::<char>::empty());
            }
            let tv = chars_of(texts[i].as_str());
            string_of(&tv)
        } else {
            let mut m = chars_of(carry.as_str());
            m.push('\n');
            m.push('\n');
            let tv = chars_of(texts[i].as_str());
            push_all(&mut m, &tv);
            proof {
                assert(m@ =~= carry@ + seq!['\n', '\n'] + texts@[i as int]@);
            }
            string_of(&m)
        };
        let (page_text, next_carry) = split_trailing_chapter_heading(merged.as_str());
        let ghost before_out = out@.map_values(|t: String| t@);
        let ghost ptv = page_text@;
        out.push(page_text);
        carry = match next_carry {
            Some(c) => c,
            None => String::new(),
        };
        proof {
            assert(out@.map_values(|t: String| t@) =~= before_out.push(ptv));
            let rest = spec_thread_carryover(full.subrange(i + 1, n as int), carry@);
            assert(before_out + (seq![ptv] + rest.0) =~= out@.map_values(|t: String| t@)
                + rest.0);
        }
        i = i + 1;
    }
    proof {
        assert(full.subrange(n as int, n as int) =~= Seq::<Seq<char>>::empty());
        assert(out@.map_values(|t: String| t@) + Seq::<Seq<char>>::empty() =~= out@.map_values(
            |t: String| t@,
        ));
    }
    (out, carry)
}

/// Carryover threading yields one text per page.
pub proof fn lemma_thread_carryover_len(texts: Seq<Seq<char>>, carry: Seq<char>)
    ensures
        spec_thread_carryover(texts, carry).0.len() == texts.len(),
    decreases texts.len(),
{
    if texts.len() > 0 {
        let merged = if carry.len() == 0 {
            texts[0]
        } else {
            carry + seq!['\n', '\n'] + texts[0]
        };
        let split = spec_split_trailing_heading(merged);
        let next_carry = match split.1 {
            Some(c) => c,
            None => Seq::<char>::empty(),
        };
        lemma_thread_carryover_len(texts.drop_first(), next_carry);
    }
}

// --- problem records of one page (phase four) ---

/// The word shown before a problem number in display names.
pub open spec fn spec_display_word() -> Seq<char> {
    seq!['\u{0417}', '\u{0430}', '\u{0434}', '\u{0430}', '\u{0447}', '\u{0430}', ' ']
}

/// The stored row of one main problem of a page.
pub open spec fn spec_main_record(
    book: Seq<char>,
    chapter_id: Seq<char>,
    ch: u32,
    page_id: Seq<char>,
    page_num: u32,
    now: u64,
    p: ProblemView,
) -> ProblemRowView {
    ProblemRowView {
        id: crate::models::spec_problem_id(book, ch as int, p.number),
        chapter_id,
        page_id: Some(page_id),
        parent_id: None,
        number: p.number,
        display_name: spec_display_word() + p.number,
        content: p.content,
        latex_formulas: crate::models::spec_inline_formulas(p.content),
        page_number: Some(page_num),
        difficulty: None,
        has_solution: false,
        created_at: now,
        continues_from_page: if p.from_prev {
            Some(
                if page_num == 0 {
                    0u32
                } else {
                    (page_num - 1) as u32
                },
            )
        } else {
            None
        },
        continues_to_page: if p.to_next {
            Some((page_num + 1) as u32)
        } else {
            None
        },
        is_cross_page: p.from_prev || p.to_next,
    }
}

/// The stored row of one sub-problem of a page.
pub open spec fn spec_sub_record(
    parent_pid: Seq<char>,
    chapter_id: Seq<char>,
    page_id: Seq<char>,
    page_num: u32,
    now: u64,
    s: SubProblemView,
) -> ProblemRowView {
    ProblemRowView {
        id: parent_pid + seq![':'] + s.letter,
        chapter_id,
        page_id: Some(page_id),
        parent_id: Some(parent_pid),
        number: s.letter,
        display_name: s.letter + seq![')'],
        content: s.content,
        latex_formulas: crate::models::spec_inline_formulas(s.content),
        page_number: Some(page_num),
        difficulty: None,
        has_solution: false,
        created_at: now,
        continues_from_page: None,
        continues_to_page: None,
        is_cross_page: false,
    }
}

pub open spec fn spec_sub_records(
    parent_pid: Seq<char>,
    chapter_id: Seq<char>,
    page_id: Seq<char>,
    page_num: u32,
    now: u64,
    subs: Seq<SubProblemView>,
) -> Seq<ProblemRowView> {
    subs.map_values(
        |s: SubProblemView| spec_sub_record(parent_pid, chapter_id, page_id, page_num, now, s),
    )
}

/// The rows one page writes: each main problem followed by its
/// sub-problems.
pub open spec fn spec_page_records(
    book: Seq<char>,
    chapter_id: Seq<char>,
    ch: u32,
    page_id: Seq<char>,
    page_num: u32,
    now: u64,
    ps: Seq<ProblemView>,
) -> Seq<ProblemRowView>
    decreases ps.len(),
{
    if ps.len() == 0 {
        Seq::<ProblemRowView>::empty()
    } else {
        let main = spec_main_record(book, chapter_id, ch, page_id, page_num, now, ps[0]);
        let subs = spec_sub_records(
            main.id,
            chapter_id,
            page_id,
            page_num,
            now,
            ps[0].subs,
        );
        seq![main] + subs + spec_page_records(
            book,
            chapter_id,
            ch,
            page_id,
            page_num,
            now,
            ps.drop_first(),
        )
    }
}

/// Every row a page build writes follows the sub-problem id scheme, so
/// writing it into a store with unique ids keeps sub-problem letters
/// unique within each parent while the same letter under two parents
/// stays two rows.
pub proof fn lemma_page_records_scheme(
    book: Seq<char>,
    chapter_id: Seq<char>,
    ch: u32,
    page_id: Seq<char>,
    page_num: u32,
    now: u64,
    ps: Seq<ProblemView>,
)
    ensures
        ({
            let out = spec_page_records(book, chapter_id, ch, page_id, page_num, now, ps);
            forall|k: int|
                0 <= k < out.len() && (#[trigger] out[k]).parent_id is Some ==> out[k].id
                    == out[k].parent_id->Some_0 + seq![':'] + out[k].number
        }),
    decreases ps.len(),
{
    if ps.len() > 0 {
        lemma_page_records_scheme(book, chapter_id, ch, page_id, page_num, now, ps.drop_first());
        let out = spec_page_records(book, chapter_id, ch, page_id, page_num, now, ps);
        let main = spec_main_record(book, chapter_id, ch, page_id, page_num, now, ps[0]);
        let subs = spec_sub_records(main.id, chapter_id, page_id, page_num, now, ps[0].subs);
        let rest = spec_page_records(book, chapter_id, ch, page_id, page_num, now, ps.drop_first());
        assert forall|k: int|
            0 <= k < out.len() && (#[trigger] out[k]).parent_id is Some implies out[k].id
            == out[k].parent_id->Some_0 + seq![':'] + out[k].number by {
            if k == 0 {
                assert(out[0] == main);
            } else if k < 1 + subs.len() {
                assert(out[k] == subs[k - 1]);
                assert(subs[k - 1] == spec_sub_record(
                    main.id,
                    chapter_id,
                    page_id,
                    page_num,
                    now,
                    ps[0].subs[k - 1],
                ));
            } else {
                assert(out[k] == rest[k - 1 - subs.len()]);
            }
        }
    }
}

/// Build the problem rows of one reconciled page.
pub fn build_problem_records(
    book_id: &str,
    chapter_id: &str,
    chapter_num: u32,
    page_id: &String,
    page_num: u32,
    problems: &Vec<ParsedProblem>,
    now: u64,
) -> (r: Vec<Problem>)
    requires
        page_num < u32::MAX,
    ensures
        crate::textbook::spec_prob_rows(r@) == spec_page_records(
            book_id@,
            chapter_id@,
            chapter_num,
            page_id@,
            page_num,
            now,
            problems@.map_values(|p: ParsedProblem| p@),
        ),
{
    let ghost views = problems@.map_values(|p: ParsedProblem| p@);
    let n = problems.len();
    let mut out: Vec<Problem> = Vec::new();
    let mut i: usize = 0;
    proof {
        assert(views.subrange(0, n as int) =~= views);
        assert(crate::textbook::spec_prob_rows(out@) =~= Seq::<ProblemRowView>::empty());
    }
    while i < n
        invariant
            i <= n,
            n == views.len(),
            views == problems@.map_values(|p: ParsedProblem| p@),
            page_num < u32::MAX,
            spec_page_records(
                book_id@,
                chapter_id@,
                chapter_num,
                page_id@,
                page_num,
                now,
                views,
            ) == crate::textbook::spec_prob_rows(out@) + spec_page_records(
                book_id@,
                chapter_id@,
                chapter_num,
                page_id@,
                page_num,
                now,
                views.subrange(i as int, n as int),
            ),
        decreases n - i,
    {
        proof {
            let sub_i = views.subrange(i as int, n as int);
            assert(sub_i[0] == views[i as int]);
            assert(sub_i.drop_first() =~= views.subrange(i + 1, n as int));
            assert(views[i as int] == problems@[i as int]@);
        }
        let ghost pv = views[i as int];
        let p = &problems[i];
        let pid = crate::models::Problem::generate_id(book_id, chapter_num, p.number.as_str());
        let pidv = chars_of(pid.as_str());
        let mut disp = chars_of("\u{0417}\u{0430}\u{0434}\u{0430}\u{0447}\u{0430} ");
        let numv = chars_of(p.number.as_str());
        push_all(&mut disp, &numv);
        proof {
            reveal_strlit("\u{0417}\u{0430}\u{0434}\u{0430}\u{0447}\u{0430} ");
            assert(disp@ =~= spec_display_word() + p.number@);
        }
        let latex = crate::models::extract_inline_formulas(p.content.as_str());
        let main = Problem {
            id: pid.clone(),
            chapter_id: chapter_id.to_owned(),
            page_id: Some(page_id.clone()),
            parent_id: None,
            number: p.number.clone(),
            display_name: string_of(&disp),
            content: p.content.clone(),
            latex_formulas: latex,
            page_number: Some(page_num),
            difficulty: None,
            has_solution: false,
            created_at: now,
            solution: None,
            sub_problems: None,
            continues_from_page: if p.continues_from_prev {
                if page_num == 0 {
                    Some(0)
                } else {
                    Some(page_num - 1)
                }
            } else {
                None
            },
            continues_to_page: if p.continues_to_next {
                Some(page_num + 1)
            } else {
                None
            },
            is_cross_page: p.continues_from_prev || p.continues_to_next,
            is_bookmarked: false,
        };
        let ghost main_row = crate::store::spec_row_of(main);
        let ghost before = crate::textbook::spec_prob_rows(out@);
        proof {
            assert(main_row == spec_main_record(
                book_id@,
                chapter_id@,
                chapter_num,
                page_id@,
                page_num,
                now,
                pv,
            ));
        }
        out.push(main);
        proof {
            assert(crate::textbook::spec_prob_rows(out@) =~= before.push(main_row));
        }
        let m = p.sub_problems.len();
        let mut j: usize = 0;
        proof {
            assert(pv.subs.subrange(0, 0) =~= Seq::<SubProblemView>::empty());
            assert(spec_sub_records(
                main_row.id,
                chapter_id@,
                page_id@,
                page_num,
                now,
                pv.subs.subrange(0, 0),
            ) =~= Seq::<ProblemRowView>::empty());
            assert(crate::textbook::spec_prob_rows(out@) =~= before.push(main_row)
                + spec_sub_records(
                main_row.id,
                chapter_id@,
                page_id@,
                page_num,
                now,
                pv.subs.subrange(0, 0),
            ));
        }
        while j < m
            invariant
                j <= m,
                m == pv.subs.len(),
                m == p.sub_problems@.len(),
                *p == problems@[i as int],
                pv == problems@[i as int]@,
                i < n,
                n == views.len(),
                page_num < u32::MAX,
                main_row.id == pidv@,
                pid@ == pidv@,
                pidv@ == crate::models::spec_problem_id(book_id@, chapter_num as int, pv.number),
                crate::textbook::spec_prob_rows(out@) == before.push(main_row)
                    + spec_sub_records(
                    main_row.id,
                    chapter_id@,
                    page_id@,
                    page_num,
                    now,
                    pv.subs.subrange(0, j as int),
                ),
            decreases m - j,
        {
            proof {
                crate::parse::lemma_problem_view_subs(problems@[i as int], j as int);
                assert(pv.subs[j as int] == p.sub_problems@[j as int]@);
            }
            let ghost sv = pv.subs[j as int];
            let s = &p.sub_problems[j];
            let mut sidv = crate::text::copy_chars(&pidv);
            sidv.push(':');
            let lv = chars_of(s.letter.as_str());
            push_all(&mut sidv, &lv);
            proof {
                assert(sidv@ =~= pidv@ + seq![':'] + s.letter@);
            }
            let mut sdisp = chars_of(s.letter.as_str());
            sdisp.push(')');
            proof {
                assert(sdisp@ =~= s.letter@ + seq![')']);
            }
            let slatex = crate::models::extract_inline_formulas(s.content.as_str());
            let subp = Problem {
                id: string_of(&sidv),
                chapter_id: chapter_id.to_owned(),
                page_id: Some(page_id.clone()),
                parent_id: Some(pid.clone()),
                number: s.letter.clone(),
                display_name: string_of(&sdisp),
                content: s.content.clone(),
                latex_formulas: slatex,
                page_number: Some(page_num),
                difficulty: None,
                has_solution: false,
                created_at: now,
                solution: None,
                sub_problems: None,
                continues_from_page: None,
                continues_to_page: None,
                is_cross_page: false,
                is_bookmarked: false,
            };
            let ghost sub_row = crate::store::spec_row_of(subp);
            let ghost out_before = crate::textbook::spec_prob_rows(out@);
            proof {
                let expect = spec_sub_record(main_row.id, chapter_id@, page_id@, page_num, now, sv);
                assert(sub_row.id == expect.id);
                assert(sub_row.chapter_id == expect.chapter_id);
                assert(sub_row.page_id == expect.page_id);
                assert(sub_row.parent_id == expect.parent_id);
                assert(sub_row.number == expect.number);
                assert(sub_row.display_name == expect.display_name);
                assert(sub_row.content == expect.content);
                assert(sub_row.latex_formulas == expect.latex_formulas);
                assert(sub_row.page_number == expect.page_number);
                assert(sub_row == expect);
            }
            out.push(subp);
            proof {
                assert(crate::textbook::spec_prob_rows(out@) =~= out_before.push(sub_row));
                assert(pv.subs.subrange(0, j + 1) =~= pv.subs.subrange(0, j as int).push(sv));
                assert(spec_sub_records(
                    main_row.id,
                    chapter_id@,
                    page_id@,
                    page_num,
                    now,
                    pv.subs.subrange(0, j + 1),
                ) =~= spec_sub_records(
                    main_row.id,
                    chapter_id@,
                    page_id@,
                    page_num,
                    now,
                    pv.subs.subrange(0, j as int),
                ).push(spec_sub_record(main_row.id, chapter_id@, page_id@, page_num, now, sv)));
                assert(crate::textbook::spec_prob_rows(out@) =~= before.push(main_row)
                    + spec_sub_records(
                    main_row.id,
                    chapter_id@,
                    page_id@,
                    page_num,
                    now,
                    pv.subs.subrange(0, j + 1),
                ));
            }
            j = j + 1;
        }
        proof {
            assert(pv.subs.subrange(0, m as int) =~= pv.subs);
            let subs_full = spec_sub_records(
                main_row.id,
                chapter_id@,
                page_id@,
                page_num,
                now,
                pv.subs,
            );
            assert(before + (seq![main_row] + subs_full + spec_page_records(
                book_id@,
                chapter_id@,
                chapter_num,
                page_id@,
                page_num,
                now,
                views.subrange(i + 1, n as int),
            )) =~= (before.push(main_row) + subs_full) + spec_page_records(
                book_id@,
                chapter_id@,
                chapter_num,
                page_id@,
                page_num,
                now,
                views.subrange(i + 1, n as int),
            ));
        }
        i = i + 1;
    }
    proof {
        assert(views.subrange(n as int, n as int) =~= Seq::<ProblemView>::empty());
        assert(crate::textbook::spec_prob_rows(out@) + Seq::<ProblemRowView>::empty()
            =~= crate::textbook::spec_prob_rows(out@));
    }
    out
}

// --- the per-page OCR policy (phase one) ---

/// What phase one does with a page, given its stored OCR text and the
/// run's flags.
#[derive(PartialEq, Eq, Structural)]
pub enum OcrPageAction {
    /// Reuse the stored text without calling OCR.
    UseCached,
    /// Skip the page entirely: an incremental run leaves cached pages be.
    SkipPage,
    /// Run OCR for the page.
    RunOcr,
}

/// The reuse-or-skip rule: `force` always re-runs OCR; otherwise a page
/// with stored non-empty text is skipped on an incremental run and
/// reused on a plain one; everything else runs OCR.
pub open spec fn spec_plan_page_ocr(
    cached: Option<Seq<char>>,
    incremental: bool,
    force: bool,
) -> OcrPageAction {
    if force {
        OcrPageAction::RunOcr
    } else {
        match cached {
            Some(t) => if t.len() > 0 {
                if incremental {
                    OcrPageAction::SkipPage
                } else {
                    OcrPageAction::UseCached
                }
            } else {
                OcrPageAction::RunOcr
            },
            None => OcrPageAction::RunOcr,
        }
    }
}

/// Decide what phase one does with one page.
pub fn plan_page_ocr(cached: Option<&String>, incremental: bool, force: bool) -> (r:
    OcrPageAction)
    ensures
        r == spec_plan_page_ocr(
            match cached {
                Some(t) => Some(t@),
                None => None,
            },
            incremental,
            force,
        ),
{
    if force {
        return OcrPageAction::RunOcr;
    }
    match cached {
        Some(t) => {
            if t.as_str().unicode_len() > 0 {
                if incremental {
                    OcrPageAction::SkipPage
                } else {
                    OcrPageAction::UseCached
                }
            } else {
                OcrPageAction::RunOcr
            }
        },
        None => OcrPageAction::RunOcr,
    }
}

// --- the chapter number inside a chapter id ---

/// Index of the last occurrence of `c`; `-1` when there is none.
pub open spec fn spec_last_index_of(s: Seq<char>, c: char) -> int
    decreases s.len(),
{
    if s.len() == 0 {
        -1
    } else if s[s.len() - 1] == c {
        s.len() - 1
    } else {
        spec_last_index_of(s.drop_last(), c)
    }
}

proof fn lemma_last_index_found(s: Seq<char>, c: char, k: int)
    requires
        0 <= k < s.len(),
        s[k] == c,
        forall|j: int| k < j < s.len() ==> s[j] != c,
    ensures
        spec_last_index_of(s, c) == k,
    decreases s.len(),
{
    if k == s.len() - 1 {
    } else {
        assert(s[s.len() - 1] != c);
        assert(s.drop_last()[k] == s[k]);
        assert forall|j: int| k < j < s.drop_last().len() implies s.drop_last()[j] != c by {
            assert(s.drop_last()[j] == s[j]);
        }
        lemma_last_index_found(s.drop_last(), c, k);
    }
}

proof fn lemma_last_index_none(s: Seq<char>, c: char)
    requires
        forall|j: int| 0 <= j < s.len() ==> s[j] != c,
    ensures
        spec_last_index_of(s, c) == -1,
    decreases s.len(),
{
    if s.len() > 0 {
        assert forall|j: int| 0 <= j < s.drop_last().len() implies s.drop_last()[j] != c by {
            assert(s.drop_last()[j] == s[j]);
        }
        lemma_last_index_none(s.drop_last(), c);
    }
}

/// The chapter number written after the last colon of a chapter id; one
/// when it does not read as a number.
pub open spec fn spec_chapter_num(s: Seq<char>) -> u32 {
    let idx = spec_last_index_of(s, ':');
    let suffix = if idx < 0 {
        s
    } else {
        s.subrange(idx + 1, s.len() as int)
    };
    if crate::text::spec_all_digits(suffix) && suffix.len() > 0 && crate::text::spec_digits_value(
        suffix,
    ) <= u32::MAX {
        crate::text::spec_digits_value(suffix) as u32
    } else {
        1u32
    }
}

/// Read the chapter number out of a chapter id.
pub fn chapter_number_of(chapter_id: &str) -> (r: u32)
    ensures
        r == spec_chapter_num(chapter_id@),
{
    let v = chars_of(chapter_id);
    let n = v.len();
    let mut k: usize = n;
    while k > 0 && v[k - 1] != ':'
        invariant
            k <= n,
            n == v@.len(),
            forall|j: int| k <= j < n ==> v@[j] != ':',
        decreases k,
    {
        k = k - 1;
    }
    let suffix = if k == 0 {
        proof {
            lemma_last_index_none(v@, ':');
        }
        crate::text::slice_chars(&v, 0, n)
    } else {
        proof {
            lemma_last_index_found(v@, ':', k - 1);
        }
        crate::text::slice_chars(&v, k, n)
    };
    proof {
        if k == 0 {
            assert(suffix@ =~= v@);
        }
    }
    match parse_u32(&suffix) {
        Some(value) => value,
        None => 1,
    }
}

// --- the batch-OCR pipeline ---

/// How a batch-OCR run ends.
pub enum BatchRunOutcome {
    /// The book was unknown; the job failed before any page was touched.
    FailedEarly,
    /// Cancellation was observed; the run stopped issuing work.
    Cancelled,
    /// Every page of the range was processed.
    Completed(BatchOcrResult),
}


// --- what a whole run does, phase by phase ---

/// Views of a list of parse results.
pub open spec fn spec_results_views(v: Seq<AIParseResult>) -> Seq<Seq<ProblemView>> {
    v.map_values(|r: AIParseResult| r@)
}

/// Views of the optional supplied parses.
pub open spec fn spec_opt_results_views(v: Seq<Option<AIParseResult>>) -> Seq<
    Option<Seq<ProblemView>>,
> {
    v.map_values(|o: Option<AIParseResult>| crate::parse::spec_opt_result_view(o))
}

/// View of the problem carried between pages.
pub open spec fn spec_opt_problem_view(o: Option<ParsedProblem>) -> Option<ProblemView> {
    match o {
        Some(p) => Some(p@),
        None => None::<ProblemView>,
    }
}

/// The parse pass from page `k` on: one parse per page in order, the
/// parse cache threaded through the calls.
pub open spec fn spec_parse_phase(
    vc: Seq<crate::cache::VCacheItem>,
    has_key: bool,
    book: Seq<char>,
    texts: Seq<Seq<char>>,
    ai: Seq<Option<Seq<ProblemView>>>,
    start_page: u32,
    now: u64,
    k: int,
) -> (Seq<Seq<ProblemView>>, Seq<crate::cache::VCacheItem>)
    decreases texts.len() - k,
{
    if k < 0 || k >= texts.len() || k >= ai.len() {
        (Seq::<Seq<ProblemView>>::empty(), vc)
    } else {
        let page = ((start_page + k) as u32);
        let r0 = crate::parse::spec_parse_text_result(
            vc,
            has_key,
            book,
            texts[k],
            Some(page),
            ai[k],
            now,
        );
        let vc1 = crate::parse::spec_parse_text_vcache(
            vc,
            has_key,
            book,
            texts[k],
            Some(page),
            ai[k],
            now,
        );
        let rest = spec_parse_phase(vc1, has_key, book, texts, ai, start_page, now, k + 1);
        (seq![r0] + rest.0, rest.1)
    }
}

/// The reconcile-and-persist pass from page `k` on: each page is
/// reconciled against its neighbours and the carried tail, its stored
/// problems are deleted, its page row is created if missing and takes
/// the threaded text and count, and the rebuilt records are written.
pub open spec fn spec_merge_phase(
    prows: Seq<ProblemRowView>,
    pagerows: Seq<crate::store::PageRowView>,
    bookrows: Seq<crate::store::BookRowView>,
    book: Seq<char>,
    chapter_id: Seq<char>,
    ch: u32,
    start_page: u32,
    now: u64,
    texts: Seq<Seq<char>>,
    parsed: Seq<Seq<ProblemView>>,
    prev_last: Option<ProblemView>,
    prev_tail: Option<Seq<char>>,
    k: int,
) -> (Seq<ProblemRowView>, Seq<crate::store::PageRowView>, Seq<crate::store::BookRowView>)
    decreases parsed.len() - k,
{
    if k < 0 || k >= parsed.len() || k >= texts.len() {
        (prows, pagerows, bookrows)
    } else {
        let next = if k + 1 < parsed.len() {
            Some(parsed[k + 1])
        } else {
            None::<Seq<ProblemView>>
        };
        let cur = crate::parse::spec_process_cross_page(parsed[k], prev_last, prev_tail, next);
        let new_last = if cur.len() > 0 {
            Some(cur.last())
        } else {
            None::<ProblemView>
        };
        let new_tail = if cur.len() > 0 {
            crate::reconcile::spec_continuation_tail(cur.last().content, cur.last().to_next)
        } else {
            None::<Seq<char>>
        };
        let page_num = ((start_page + k) as u32);
        let pid = crate::store::spec_page_id_of(book, page_num as int);
        let pidx = crate::store::spec_page_index(pagerows, pid);
        let pagerows1 = if pidx >= 0 {
            pagerows
        } else {
            pagerows.push(crate::store::spec_new_page_row(book, page_num, now))
        };
        let bookrows1 = if pidx >= 0 {
            bookrows
        } else {
            crate::store::spec_book_upsert(
                bookrows,
                crate::store::spec_default_book_row(book, now),
            )
        };
        let prows1 = crate::store::spec_delete_by_page(prows, prows, pid);
        let pidx1 = crate::store::spec_page_index(pagerows1, pid);
        let count = if cur.len() > u32::MAX {
            u32::MAX
        } else {
            (cur.len() as u32)
        };
        let pagerows2 = if pidx1 >= 0 {
            pagerows1.update(
                pidx1,
                crate::store::PageRowView {
                    ocr_text: Some(texts[k]),
                    has_problems: count > 0,
                    problem_count: count,
                    updated_at: now,
                    ..pagerows1[pidx1]
                },
            )
        } else {
            pagerows1
        };
        let records = spec_page_records(book, chapter_id, ch, pid, page_num, now, cur);
        let prows2 = crate::store::spec_upsert_all(prows1, records);
        spec_merge_phase(
            prows2,
            pagerows2,
            bookrows1,
            book,
            chapter_id,
            ch,
            start_page,
            now,
            texts,
            parsed,
            new_last,
            new_tail,
            k + 1,
        )
    }
}

/// The error message of a run over an unknown book.
pub open spec fn spec_book_missing_msg(book: Seq<char>) -> Seq<char> {
    seq!['B', 'o', 'o', 'k', ' ', 'n', 'o', 't', ' ', 'f', 'o', 'u', 'n', 'd', ':', ' '] + book
}

/// Run the sequential phases of one batch-OCR job: carryover threading,
/// parsing, cross-page reconciliation and persisting, with progress and
/// cancellation flowing through the job registry. The OCR texts and any
/// AI parses were gathered beforehand; a missing text reads as empty.
///
/// The outcome is decided: an unknown book fails the job before any
/// work; a job already cancelled in the registry stops before any write;
/// every other run completes, reporting exactly one processed page per
/// page of the range and no errors — storage in this model never fails.
#[verifier::rlimit(100)]
pub fn run_batch_ocr(
    store: &mut ProblemStore,
    jobs: &mut JobManager,
    parser: &mut HybridParser,
    job_id: &str,
    book_id: &str,
    start_page: u32,
    end_page: u32,
    chapter_id: &str,
    ocr_texts: Vec<String>,
    ai_results: Vec<Option<AIParseResult>>,
    duration_secs: u64,
    now: u64,
) -> (r: BatchRunOutcome)
    requires
        start_page <= end_page,
        end_page < u32::MAX,
        ocr_texts@.len() == end_page - start_page + 1,
        ai_results@.len() == end_page - start_page + 1,
    ensures
        (r is FailedEarly) <==> crate::store::spec_book_index(
            old(store).book_rows(),
            book_id@,
        ) < 0,
        (r is Cancelled) <==> (crate::store::spec_book_index(old(store).book_rows(), book_id@)
            >= 0 && crate::jobs::spec_job_cancelled(old(jobs)@, job_id@)),
        (r is Completed) <==> (crate::store::spec_book_index(old(store).book_rows(), book_id@)
            >= 0 && !crate::jobs::spec_job_cancelled(old(jobs)@, job_id@)),
        r is FailedEarly ==> final(jobs)@ == crate::jobs::spec_apply_status(
            old(jobs)@,
            job_id@,
            JobStatusView::Failed { error: spec_book_missing_msg(book_id@) },
            now,
        ) && final(store).problem_rows() == old(store).problem_rows()
            && final(store).book_rows() == old(store).book_rows()
            && final(store).chapter_rows() == old(store).chapter_rows()
            && final(store).page_rows() == old(store).page_rows()
            && final(store).solution_rows() == old(store).solution_rows(),
        r is Cancelled ==> final(jobs)@ == old(jobs)@
            && final(store).problem_rows() == old(store).problem_rows()
            && final(store).book_rows() == old(store).book_rows()
            && final(store).chapter_rows() == old(store).chapter_rows()
            && final(store).page_rows() == old(store).page_rows()
            && final(store).solution_rows() == old(store).solution_rows(),
        r is Completed ==> ({
            let res = r->Completed_0;
            let texts_in = crate::textbook::spec_str_views(ocr_texts@);
            let threaded = spec_thread_carryover(texts_in, Seq::<char>::empty()).0;
            let aiv = spec_opt_results_views(ai_results@);
            let pp = spec_parse_phase(
                crate::cache::spec_vcache(old(parser).cache_view()),
                old(parser).has_api_key(),
                book_id@,
                threaded,
                aiv,
                start_page,
                now,
                0,
            );
            let mm = spec_merge_phase(
                old(store).problem_rows(),
                old(store).page_rows(),
                old(store).book_rows(),
                book_id@,
                chapter_id@,
                spec_chapter_num(chapter_id@),
                start_page,
                now,
                threaded,
                pp.0,
                None::<ProblemView>,
                None::<Seq<char>>,
                0,
            );
            &&& res.processed_pages == end_page - start_page + 1
            &&& res.errors@.len() == 0
            &&& res.duration_secs == duration_secs
            &&& final(store).problem_rows() == mm.0
            &&& final(store).page_rows() == mm.1
            &&& final(store).book_rows() == mm.2
            &&& final(store).chapter_rows() == old(store).chapter_rows()
            &&& final(store).solution_rows() == old(store).solution_rows()
            &&& crate::cache::spec_vcache(final(parser).cache_view()) == pp.1
            &&& exists|mid: Seq<crate::jobs::JobView>|
                final(jobs)@ == #[trigger] crate::jobs::spec_apply_status(
                    mid,
                    job_id@,
                    JobStatusView::Completed { result: JobResultView::Ocr(res@) },
                    now,
                )
        }),
{
    let total = end_page - start_page + 1;
    if store.get_book(book_id).is_none() {
        let mut msg = chars_of("Book not found: ");
        let bv = chars_of(book_id);
        push_all(&mut msg, &bv);
        proof {
            reveal_strlit("Book not found: ");
            assert(msg@ =~= spec_book_missing_msg(book_id@));
        }
        jobs.fail_job(job_id, string_of(&msg).as_str(), now);
        return BatchRunOutcome::FailedEarly;
    }
    // carryover threading: page n's trailing heading opens page n + 1
    let ghost aiv0 = spec_opt_results_views(ai_results@);
    let (page_texts, leftover) = thread_carryover(&ocr_texts);
    let _ = leftover;
    let ghost texts_v = crate::textbook::spec_str_views(page_texts@);
    let ghost vc0 = crate::cache::spec_vcache(old(parser).cache_view());
    let ghost key0 = old(parser).has_api_key();
    proof {
        lemma_thread_carryover_len(ocr_texts@.map_values(|s: String| s@), Seq::<char>::empty());
        assert(crate::textbook::spec_str_views(ocr_texts@) =~= ocr_texts@.map_values(
            |s: String| s@,
        ));
        assert(texts_v == spec_thread_carryover(
            crate::textbook::spec_str_views(ocr_texts@),
            Seq::<char>::empty(),
        ).0);
    }
    // parse every page first, so each page's neighbours are available
    let mut results: Vec<AIParseResult> = Vec::new();
    let mut ai_results = ai_results;
    let mut idx: u32 = 0;
    proof {
        assert(aiv0.subrange(0, total as int) =~= aiv0);
        assert(spec_results_views(results@) =~= Seq::<Seq<ProblemView>>::empty());
        let rest0 = spec_parse_phase(vc0, key0, book_id@, texts_v, aiv0, start_page, now, 0);
        assert(Seq::<Seq<ProblemView>>::empty() + rest0.0 =~= rest0.0);
    }
    while idx < total
        invariant
            results@.len() == idx,
            idx <= total,
            end_page < u32::MAX,
            start_page + total - 1 == end_page,
            ai_results@.len() == total - idx,
            page_texts@.len() == total,
            texts_v == crate::textbook::spec_str_views(page_texts@),
            texts_v.len() == total,
            aiv0.len() == total,
            parser.has_api_key() == key0,
            spec_opt_results_views(ai_results@) =~= aiv0.subrange(idx as int, total as int),
            spec_parse_phase(vc0, key0, book_id@, texts_v, aiv0, start_page, now, 0) == (
                spec_results_views(results@) + spec_parse_phase(
                    crate::cache::spec_vcache(parser.cache_view()),
                    key0,
                    book_id@,
                    texts_v,
                    aiv0,
                    start_page,
                    now,
                    idx as int,
                ).0,
                spec_parse_phase(
                    crate::cache::spec_vcache(parser.cache_view()),
                    key0,
                    book_id@,
                    texts_v,
                    aiv0,
                    start_page,
                    now,
                    idx as int,
                ).1,
            ),
            jobs@.len() == old(jobs)@.len(),
            forall|q: int| 0 <= q < jobs@.len() ==> #[trigger] jobs@[q].id == old(jobs)@[q].id,
            crate::jobs::spec_job_cancelled(jobs@, job_id@) == crate::jobs::spec_job_cancelled(
                old(jobs)@,
                job_id@,
            ),
            crate::jobs::spec_job_cancelled(old(jobs)@, job_id@) ==> jobs@ == old(jobs)@,
            store.problem_rows() == old(store).problem_rows(),
            store.book_rows() == old(store).book_rows(),
            store.chapter_rows() == old(store).chapter_rows(),
            store.page_rows() == old(store).page_rows(),
            store.solution_rows() == old(store).solution_rows(),
            crate::store::spec_book_index(old(store).book_rows(), book_id@) >= 0,
        decreases total - idx,
    {
        let prog_raw = ((idx as u64) * 25) / (total as u64);
        let prog: u8 = if prog_raw > 24 {
            74
        } else {
            (50 + prog_raw) as u8
        };
        let ghost prev_jobs = jobs@;
        jobs.update_progress(job_id, prog, "parsing pages", now);
        proof {
            let stv = (JobStatusView::Running { progress: prog, message: "parsing pages"@ });
            assert(jobs@ == crate::jobs::spec_apply_status(prev_jobs, job_id@, stv, now));
            crate::jobs::lemma_apply_preserves_ids(prev_jobs, job_id@, stv, now);
            crate::jobs::lemma_apply_keeps_cancelled(prev_jobs, job_id@, stv, now, job_id@);
            if crate::jobs::spec_job_cancelled(old(jobs)@, job_id@) {
                crate::jobs::lemma_job_index_bounds(prev_jobs, job_id@);
                assert(jobs@ == prev_jobs);
            }
        }
        proof {
            assert(spec_opt_results_views(ai_results@)[0] == crate::parse::spec_opt_result_view(
                ai_results@[0],
            ));
            assert(aiv0.subrange(idx as int, total as int)[0] == aiv0[idx as int]);
            assert(texts_v[idx as int] == page_texts@[idx as int]@);
        }
        let ghost prevs_ai = ai_results@;
        let ai = ai_results.remove(0);
        proof {
            assert forall|m: int|
                0 <= m < ai_results@.len() implies #[trigger] spec_opt_results_views(
                ai_results@,
            )[m] == aiv0.subrange(idx + 1, total as int)[m] by {
                assert(ai_results@[m] == prevs_ai[m + 1]);
                assert(spec_opt_results_views(ai_results@)[m]
                    == crate::parse::spec_opt_result_view(ai_results@[m]));
                assert(spec_opt_results_views(prevs_ai)[m + 1]
                    == crate::parse::spec_opt_result_view(prevs_ai[m + 1]));
                assert(spec_opt_results_views(prevs_ai)[m + 1] == aiv0.subrange(
                    idx as int,
                    total as int,
                )[m + 1]);
                assert(aiv0.subrange(idx as int, total as int)[m + 1] == aiv0[idx + 1 + m]);
                assert(aiv0.subrange(idx + 1, total as int)[m] == aiv0[idx + 1 + m]);
            }
            assert(spec_opt_results_views(ai_results@) =~= aiv0.subrange(idx + 1, total as int));
        }
        let page_num = start_page + idx;
        let ghost vc_before = crate::cache::spec_vcache(parser.cache_view());
        let ghost ai_v = crate::parse::spec_opt_result_view(ai);
        proof {
            assert(ai_v == aiv0[idx as int]);
        }
        let parsed = parser.parse_text(
            book_id,
            page_texts[idx as usize].as_str(),
            Some(page_num),
            ai,
            now,
        );
        let ghost pv = parsed@;
        let ghost before_res = spec_results_views(results@);
        results.push(parsed);
        proof {
            assert(spec_results_views(results@) =~= before_res.push(pv));
            let step = spec_parse_phase(
                vc_before,
                key0,
                book_id@,
                texts_v,
                aiv0,
                start_page,
                now,
                idx as int,
            );
            assert(pv == crate::parse::spec_parse_text_result(
                vc_before,
                key0,
                book_id@,
                texts_v[idx as int],
                Some(page_num),
                aiv0[idx as int],
                now,
            ));
            assert(crate::cache::spec_vcache(parser.cache_view())
                == crate::parse::spec_parse_text_vcache(
                vc_before,
                key0,
                book_id@,
                texts_v[idx as int],
                Some(page_num),
                aiv0[idx as int],
                now,
            ));
            let rest = spec_parse_phase(
                crate::cache::spec_vcache(parser.cache_view()),
                key0,
                book_id@,
                texts_v,
                aiv0,
                start_page,
                now,
                idx + 1,
            );
            assert(step.0 == seq![pv] + rest.0);
            assert(step.1 == rest.1);
            assert(before_res + (seq![pv] + rest.0) =~= spec_results_views(results@) + rest.0);
        }
        idx = idx + 1;
    }
    // reconcile against neighbours, then replace and persist each page
    let ghost parsedv = spec_results_views(results@);
    proof {
        assert(parsedv.len() == total);
        let rest_end = spec_parse_phase(
            crate::cache::spec_vcache(parser.cache_view()),
            key0,
            book_id@,
            texts_v,
            aiv0,
            start_page,
            now,
            total as int,
        );
        assert(rest_end.0 =~= Seq::<Seq<ProblemView>>::empty());
        assert(parsedv + Seq::<Seq<ProblemView>>::empty() =~= parsedv);
        assert(spec_parse_phase(vc0, key0, book_id@, texts_v, aiv0, start_page, now, 0).0
            == parsedv);
        assert(spec_parse_phase(vc0, key0, book_id@, texts_v, aiv0, start_page, now, 0).1
            == crate::cache::spec_vcache(parser.cache_view()));
        assert(parsedv.subrange(0, total as int) =~= parsedv);
    }
    let ghost vc_done = crate::cache::spec_vcache(parser.cache_view());
    let chapter_num = chapter_number_of(chapter_id);
    let mut processed: u32 = 0;
    let mut total_problems: u32 = 0;
    let errors: Vec<String> = Vec::new();
    let mut prev_last: Option<ParsedProblem> = None;
    let mut prev_tail: Option<String> = None;
    let mut i: u32 = 0;
    while i < total
        invariant
            processed == i,
            i <= total,
            errors@.len() == 0,
            end_page < u32::MAX,
            start_page + total - 1 == end_page,
            results@.len() == total - i,
            page_texts@.len() == total,
            texts_v == crate::textbook::spec_str_views(page_texts@),
            texts_v.len() == total,
            parsedv.len() == total,
            chapter_num == spec_chapter_num(chapter_id@),
            crate::cache::spec_vcache(parser.cache_view()) == vc_done,
            spec_results_views(results@) =~= parsedv.subrange(i as int, total as int),
            spec_merge_phase(
                old(store).problem_rows(),
                old(store).page_rows(),
                old(store).book_rows(),
                book_id@,
                chapter_id@,
                spec_chapter_num(chapter_id@),
                start_page,
                now,
                texts_v,
                parsedv,
                None::<ProblemView>,
                None::<Seq<char>>,
                0,
            ) == spec_merge_phase(
                store.problem_rows(),
                store.page_rows(),
                store.book_rows(),
                book_id@,
                chapter_id@,
                spec_chapter_num(chapter_id@),
                start_page,
                now,
                texts_v,
                parsedv,
                spec_opt_problem_view(prev_last),
                crate::reconcile::opt_view(prev_tail),
                i as int,
            ),
            jobs@.len() == old(jobs)@.len(),
            forall|q: int| 0 <= q < jobs@.len() ==> #[trigger] jobs@[q].id == old(jobs)@[q].id,
            crate::jobs::spec_job_cancelled(jobs@, job_id@) == crate::jobs::spec_job_cancelled(
                old(jobs)@,
                job_id@,
            ),
            crate::jobs::spec_job_cancelled(old(jobs)@, job_id@) ==> jobs@ == old(jobs)@,
            i > 0 ==> !crate::jobs::spec_job_cancelled(old(jobs)@, job_id@),
            i == 0 ==> store.problem_rows() == old(store).problem_rows() && store.book_rows()
                == old(store).book_rows() && store.page_rows() == old(store).page_rows(),
            store.chapter_rows() == old(store).chapter_rows(),
            store.solution_rows() == old(store).solution_rows(),
            crate::store::spec_book_index(old(store).book_rows(), book_id@) >= 0,
        decreases total - i,
    {
        let cancelled = match jobs.get_job(job_id) {
            Some(j) => match &j.status {
                JobStatus::Cancelled => true,
                _ => false,
            },
            None => false,
        };
        if cancelled {
            proof {
                assert(crate::jobs::spec_job_cancelled(jobs@, job_id@));
                assert(crate::jobs::spec_job_cancelled(old(jobs)@, job_id@));
                assert(i == 0);
                assert(jobs@ == old(jobs)@);
            }
            return BatchRunOutcome::Cancelled;
        }
        proof {
            assert(!crate::jobs::spec_job_cancelled(jobs@, job_id@));
            assert(!crate::jobs::spec_job_cancelled(old(jobs)@, job_id@));
        }
        let prog_raw = ((processed as u64) * 25) / (total as u64);
        let prog: u8 = if prog_raw > 25 {
            100
        } else {
            (75 + prog_raw) as u8
        };
        let ghost prev_jobs = jobs@;
        jobs.update_progress(job_id, prog, "processing pages", now);
        proof {
            let stv = (JobStatusView::Running { progress: prog, message: "processing pages"@ });
            assert(jobs@ == crate::jobs::spec_apply_status(prev_jobs, job_id@, stv, now));
            crate::jobs::lemma_apply_preserves_ids(prev_jobs, job_id@, stv, now);
            crate::jobs::lemma_apply_keeps_cancelled(prev_jobs, job_id@, stv, now, job_id@);
        }
        let page_num = start_page + i;
        let ghost p_in = store.problem_rows();
        let ghost pg_in = store.page_rows();
        let ghost bk_in = store.book_rows();
        let ghost prevv = spec_opt_problem_view(prev_last);
        let ghost tailv = crate::reconcile::opt_view(prev_tail);
        proof {
            assert(spec_results_views(results@)[0] == results@[0]@);
            assert(parsedv.subrange(i as int, total as int)[0] == parsedv[i as int]);
        }
        let ghost prevs_res = results@;
        let mut parse_result = results.remove(0);
        let ghost pr_v = parse_result@;
        proof {
            assert(pr_v == parsedv[i as int]);
            assert forall|m: int|
                0 <= m < results@.len() implies #[trigger] spec_results_views(results@)[m]
                == parsedv.subrange(i + 1, total as int)[m] by {
                assert(results@[m] == prevs_res[m + 1]);
                assert(spec_results_views(results@)[m] == results@[m]@);
                assert(spec_results_views(prevs_res)[m + 1] == prevs_res[m + 1]@);
                assert(spec_results_views(prevs_res)[m + 1] == parsedv.subrange(
                    i as int,
                    total as int,
                )[m + 1]);
                assert(parsedv.subrange(i as int, total as int)[m + 1] == parsedv[i + 1 + m]);
                assert(parsedv.subrange(i + 1, total as int)[m] == parsedv[i + 1 + m]);
            }
            assert(spec_results_views(results@) =~= parsedv.subrange(i + 1, total as int));
        }
        let ghost nextv: Option<Seq<ProblemView>> = if i + 1 < total {
            Some(parsedv[i + 1])
        } else {
            None
        };
        {
            let prev_ref = match &prev_last {
                Some(p) => Some(p),
                None => None,
            };
            let tail_ref = match &prev_tail {
                Some(t) => Some(t.as_str()),
                None => None,
            };
            let next_ref = if results.len() > 0 {
                Some(&results[0].problems)
            } else {
                None
            };
            proof {
                if results@.len() > 0 {
                    assert(spec_results_views(results@)[0] == results@[0]@);
                    assert(results@[0]@ == parsedv[i + 1]);
                }
            }
            parser.process_cross_page(prev_ref, tail_ref, &mut parse_result.problems, next_ref);
        }
        let ghost cur = crate::parse::spec_process_cross_page(parsedv[i as int], prevv, tailv, nextv);
        proof {
            assert(parse_result.problems@.map_values(|p: ParsedProblem| p@) == cur);
        }
        if parse_result.problems.len() > 0 {
            let last = &parse_result.problems[parse_result.problems.len() - 1];
            proof {
                assert(parse_result.problems@.map_values(|p: ParsedProblem| p@).last()
                    == parse_result.problems@.last()@);
            }
            prev_tail = parser.extract_continuation_tail(last);
            prev_last = Some(last.dup());
            proof {
                assert(spec_opt_problem_view(prev_last) == Some(cur.last()));
                assert(crate::reconcile::opt_view(prev_tail)
                    == crate::reconcile::spec_continuation_tail(
                    cur.last().content,
                    cur.last().to_next,
                ));
            }
        } else {
            prev_tail = None;
            prev_last = None;
        }
        let ghost pid = crate::store::spec_page_id_of(book_id@, page_num as int);
        let ghost pidx = crate::store::spec_page_index(pg_in, pid);
        let page = store.get_or_create_page(book_id, page_num, now);
        proof {
            if pidx >= 0 {
                crate::store::lemma_page_index_bounds(pg_in, pid);
                assert(page.id@ == pid);
            } else {
                assert(page.id@ == pid);
            }
            assert(store.problem_rows() == p_in);
        }
        let _ = store.delete_problems_by_page(page.id.as_str());
        let page_text: &str = page_texts[i as usize].as_str();
        proof {
            assert(page_text@ == texts_v[i as int]);
        }
        let count_u32: u32 = if parse_result.problems.len() > u32::MAX as usize {
            u32::MAX
        } else {
            parse_result.problems.len() as u32
        };
        proof {
            assert(parse_result.problems@.len() == cur.len());
        }
        store.update_page_ocr(page.id.as_str(), page_text, count_u32, now);
        let records = build_problem_records(
            book_id,
            chapter_id,
            chapter_num,
            &page.id,
            page_num,
            &parse_result.problems,
            now,
        );
        let _ = store.create_or_update_problems(records);
        proof {
            let full = spec_merge_phase(
                p_in,
                pg_in,
                bk_in,
                book_id@,
                chapter_id@,
                spec_chapter_num(chapter_id@),
                start_page,
                now,
                texts_v,
                parsedv,
                prevv,
                tailv,
                i as int,
            );
            let nextstep = spec_merge_phase(
                store.problem_rows(),
                store.page_rows(),
                store.book_rows(),
                book_id@,
                chapter_id@,
                spec_chapter_num(chapter_id@),
                start_page,
                now,
                texts_v,
                parsedv,
                spec_opt_problem_view(prev_last),
                crate::reconcile::opt_view(prev_tail),
                i + 1,
            );
            assert(full == nextstep);
        }
        total_problems = if count_u32 < u32::MAX - total_problems {
            total_problems + count_u32
        } else {
            u32::MAX
        };
        processed = processed + 1;
        i = i + 1;
    }
    proof {
        assert(i == total);
        assert(!crate::jobs::spec_job_cancelled(old(jobs)@, job_id@));
        let tail_fold = spec_merge_phase(
            store.problem_rows(),
            store.page_rows(),
            store.book_rows(),
            book_id@,
            chapter_id@,
            spec_chapter_num(chapter_id@),
            start_page,
            now,
            texts_v,
            parsedv,
            spec_opt_problem_view(prev_last),
            crate::reconcile::opt_view(prev_tail),
            total as int,
        );
        assert(tail_fold.0 == store.problem_rows());
        assert(tail_fold.1 == store.page_rows());
        assert(tail_fold.2 == store.book_rows());
    }
    let result = BatchOcrResult {
        processed_pages: processed,
        problems_found: total_problems,
        errors,
        duration_secs,
    };
    let reported = BatchOcrResult {
        processed_pages: result.processed_pages,
        problems_found: result.problems_found,
        errors: Vec::new(),
        duration_secs: result.duration_secs,
    };
    proof {
        assert(reported@ == result@);
    }
    jobs.complete_job(job_id, JobResult::Ocr(reported), now);
    proof {
        assert(result@.errors =~= Seq::<Seq<char>>::empty());
    }
    BatchRunOutcome::Completed(result)
}

// --- the batch-solve pipeline ---

/// How one problem id fared in a solve run.
pub enum SolveStep {
    /// No problem with the id is stored.
    Missing,
    /// The problem already had a solution and was skipped.
    AlreadySolved,
    /// The provided content was saved and the problem flagged.
    Saved,
    /// No content was provided for a problem that needed one.
    NotProvided,
}

/// Handle one problem id of a solve run: skip what is missing or already
/// solved, and persist a provided solution, flagging the problem.
pub fn solve_one(
    store: &mut ProblemStore,
    problem_id: &str,
    content: Option<String>,
    provider: &str,
    now: u64,
) -> (r: SolveStep)
    ensures
        ({
            let i = crate::store::spec_problem_index(old(store).problem_rows(), problem_id@);
            match r {
                SolveStep::Missing => i < 0 && *final(store) == *old(store),
                SolveStep::AlreadySolved => i >= 0 && old(store).problem_rows()[i].has_solution
                    && *final(store) == *old(store),
                SolveStep::NotProvided => i >= 0 && !old(store).problem_rows()[i].has_solution
                    && content is None && *final(store) == *old(store),
                SolveStep::Saved => i >= 0 && !old(store).problem_rows()[i].has_solution
                    && content is Some && final(store).problem_rows() == old(
                    store,
                ).problem_rows().update(
                    i,
                    ProblemRowView { has_solution: true, ..old(store).problem_rows()[i] },
                ) && final(store).book_rows() == old(store).book_rows()
                    && final(store).chapter_rows() == old(store).chapter_rows()
                    && final(store).page_rows() == old(store).page_rows()
                    && final(store).solution_rows().len() >= old(store).solution_rows().len()
                    && exists|srow: SolutionRowView|
                    srow.problem_id == problem_id@ && srow.provider == provider@ && srow.content
                        == content->Some_0@ && srow.created_at == now && srow.updated_at == now
                        && !srow.is_verified && srow.rating is None
                        && final(store).solution_rows()
                        == #[trigger] crate::store::spec_solution_upsert(
                        old(store).solution_rows(),
                        srow,
                    ),
            }
        }),
{
    let found = store.get_problem(problem_id);
    let problem = match found {
        Some(p) => p,
        None => {
            return SolveStep::Missing;
        },
    };
    if problem.has_solution {
        return SolveStep::AlreadySolved;
    }
    let content = match content {
        Some(c) => c,
        None => {
            return SolveStep::NotProvided;
        },
    };
    let latex = crate::models::extract_all_formulas(content.as_str());
    let solution = Solution {
        id: Solution::generate_id(problem_id),
        problem_id: problem_id.to_owned(),
        provider: provider.to_owned(),
        content,
        latex_formulas: latex,
        is_verified: false,
        rating: None,
        created_at: now,
        updated_at: now,
    };
    let ghost srow = crate::store::spec_solution_row_of(solution);
    let ghost sols_before = store.solution_rows();
    store.save_solution(solution);
    proof {
        crate::store::lemma_solution_index_bounds(sols_before, srow.problem_id, srow.provider);
    }
    store.update_problem_solution_status(problem_id, true);
    SolveStep::Saved
}

/// Views of the provided solution texts.
pub open spec fn spec_opt_str_views(v: Seq<Option<String>>) -> Seq<Option<Seq<char>>> {
    v.map_values(|o: Option<String>| crate::reconcile::opt_view(o))
}

/// What one id does to the problem table and the counts: a missing
/// problem or a missing answer fails, an already-solved problem or a
/// saved answer succeeds, and a save flags the problem.
pub open spec fn spec_solve_step(
    prows: Seq<ProblemRowView>,
    id: Seq<char>,
    content: Option<Seq<char>>,
) -> (Seq<ProblemRowView>, int, int) {
    let i = crate::store::spec_problem_index(prows, id);
    if i < 0 {
        (prows, 0int, 1int)
    } else if prows[i].has_solution {
        (prows, 1int, 0int)
    } else {
        match content {
            None => (prows, 0int, 1int),
            Some(_) => (
                prows.update(i, ProblemRowView { has_solution: true, ..prows[i] }),
                1int,
                0int,
            ),
        }
    }
}

/// The whole run folded over the ids from position `k` on: the final
/// problem table and the success and failure counts.
pub open spec fn spec_solve_fold(
    prows: Seq<ProblemRowView>,
    ids: Seq<Seq<char>>,
    provided: Seq<Option<Seq<char>>>,
    k: int,
) -> (Seq<ProblemRowView>, int, int)
    decreases ids.len() - k,
{
    if k < 0 || k >= ids.len() || k >= provided.len() {
        (prows, 0int, 0int)
    } else {
        let step = spec_solve_step(prows, ids[k], provided[k]);
        let rest = spec_solve_fold(step.0, ids, provided, k + 1);
        (rest.0, step.1 + rest.1, step.2 + rest.2)
    }
}

/// How a batch-solve run ends.
pub enum SolveRunOutcome {
    Cancelled,
    Completed(BatchSolveResult),
}

/// Run one batch-solve job over a list of problem ids, with the solver's
/// answers provided one per id. The outcome is decided: a job already
/// cancelled in the registry stops before any write; every other run
/// completes, its counts and the problem table exactly the fold of the
/// per-id outcomes — ids without a stored problem or without an answer
/// fail, already-solved ones are skipped as successes, and the loop
/// never aborts on a failing id.
pub fn run_batch_solve(
    store: &mut ProblemStore,
    jobs: &mut JobManager,
    job_id: &str,
    problem_ids: &Vec<String>,
    provided: Vec<Option<String>>,
    provider: &str,
    duration_secs: u64,
    now: u64,
) -> (r: SolveRunOutcome)
    requires
        provided@.len() == problem_ids@.len(),
        problem_ids@.len() <= u32::MAX,
    ensures
        (r is Cancelled) <==> (crate::jobs::spec_job_cancelled(old(jobs)@, job_id@)
            && problem_ids@.len() > 0),
        r is Cancelled ==> final(jobs)@ == old(jobs)@
            && final(store).problem_rows() == old(store).problem_rows()
            && final(store).book_rows() == old(store).book_rows()
            && final(store).chapter_rows() == old(store).chapter_rows()
            && final(store).page_rows() == old(store).page_rows()
            && final(store).solution_rows() == old(store).solution_rows(),
        r is Completed ==> ({
            let ids = crate::textbook::spec_str_views(problem_ids@);
            let f = spec_solve_fold(old(store).problem_rows(), ids, spec_opt_str_views(provided@), 0);
            let res = r->Completed_0;
            &&& res.processed == problem_ids@.len()
            &&& res.succeeded == f.1
            &&& res.failed == f.2
            &&& res.duration_secs == duration_secs
            &&& final(store).problem_rows() == f.0
            &&& final(store).book_rows() == old(store).book_rows()
            &&& final(store).chapter_rows() == old(store).chapter_rows()
            &&& final(store).page_rows() == old(store).page_rows()
            &&& final(store).solution_rows().len() >= old(store).solution_rows().len()
            &&& exists|mid: Seq<crate::jobs::JobView>|
                final(jobs)@ == #[trigger] crate::jobs::spec_apply_status(
                    mid,
                    job_id@,
                    JobStatusView::Completed { result: JobResultView::Solve(res) },
                    now,
                )
        }),
{
    let ghost ids = crate::textbook::spec_str_views(problem_ids@);
    let ghost prov0 = spec_opt_str_views(provided@);
    let total = problem_ids.len();
    let mut provided = provided;
    let mut processed: u32 = 0;
    let mut succeeded: u32 = 0;
    let mut failed: u32 = 0;
    let mut i: usize = 0;
    proof {
        assert(ids.len() == total);
        assert(prov0.len() == total);
    }
    while i < total
        invariant
            i <= total,
            total == problem_ids@.len(),
            total <= u32::MAX,
            processed == i,
            ids == crate::textbook::spec_str_views(problem_ids@),
            ids.len() == total,
            prov0.len() == total,
            provided@.len() == total - i,
            spec_opt_str_views(provided@) =~= prov0.subrange(i as int, total as int),
            ({
                let f = spec_solve_fold(old(store).problem_rows(), ids, prov0, 0);
                let rest = spec_solve_fold(store.problem_rows(), ids, prov0, i as int);
                f.0 == rest.0 && f.1 == succeeded + rest.1 && f.2 == failed + rest.2
            }),
            succeeded + failed == processed,
            store.book_rows() == old(store).book_rows(),
            store.chapter_rows() == old(store).chapter_rows(),
            store.page_rows() == old(store).page_rows(),
            store.solution_rows().len() >= old(store).solution_rows().len(),
            jobs@.len() == old(jobs)@.len(),
            forall|q: int| 0 <= q < jobs@.len() ==> #[trigger] jobs@[q].id == old(jobs)@[q].id,
            crate::jobs::spec_job_cancelled(jobs@, job_id@) == crate::jobs::spec_job_cancelled(
                old(jobs)@,
                job_id@,
            ),
            crate::jobs::spec_job_cancelled(old(jobs)@, job_id@) ==> jobs@ == old(jobs)@,
            i > 0 ==> !crate::jobs::spec_job_cancelled(old(jobs)@, job_id@),
            i == 0 ==> store.problem_rows() == old(store).problem_rows()
                && store.solution_rows() == old(store).solution_rows(),
        decreases total - i,
    {
        let cancelled = match jobs.get_job(job_id) {
            Some(j) => match &j.status {
                JobStatus::Cancelled => true,
                _ => false,
            },
            None => false,
        };
        if cancelled {
            proof {
                assert(crate::jobs::spec_job_cancelled(jobs@, job_id@));
                assert(crate::jobs::spec_job_cancelled(old(jobs)@, job_id@));
                assert(i == 0);
                assert(jobs@ == old(jobs)@);
            }
            return SolveRunOutcome::Cancelled;
        }
        proof {
            assert(!crate::jobs::spec_job_cancelled(jobs@, job_id@));
            assert(!crate::jobs::spec_job_cancelled(old(jobs)@, job_id@));
        }
        let prog_raw = ((processed as u64) * 100) / (total as u64);
        let prog: u8 = if prog_raw > 100 {
            100
        } else {
            prog_raw as u8
        };
        let ghost prev_jobs = jobs@;
        jobs.update_progress(job_id, prog, "solving problems", now);
        proof {
            let stv = (JobStatusView::Running { progress: prog, message: "solving problems"@ });
            assert(jobs@ == crate::jobs::spec_apply_status(prev_jobs, job_id@, stv, now));
            crate::jobs::lemma_apply_preserves_ids(prev_jobs, job_id@, stv, now);
            crate::jobs::lemma_apply_keeps_cancelled(prev_jobs, job_id@, stv, now, job_id@);
        }
        proof {
            assert(spec_opt_str_views(provided@)[0] == crate::reconcile::opt_view(provided@[0]));
            assert(prov0.subrange(i as int, total as int)[0] == prov0[i as int]);
            assert(ids[i as int] == problem_ids@[i as int]@);
        }
        let ghost prevs = provided@;
        let content = provided.remove(0);
        proof {
            assert forall|m: int|
                0 <= m < provided@.len() implies #[trigger] spec_opt_str_views(provided@)[m]
                == prov0.subrange(i + 1, total as int)[m] by {
                assert(provided@[m] == prevs[m + 1]);
                assert(spec_opt_str_views(provided@)[m] == crate::reconcile::opt_view(
                    provided@[m],
                ));
                assert(spec_opt_str_views(prevs)[m + 1] == crate::reconcile::opt_view(
                    prevs[m + 1],
                ));
                assert(spec_opt_str_views(prevs)[m + 1] == prov0.subrange(i as int, total as int)[
                    m + 1]);
                assert(prov0.subrange(i as int, total as int)[m + 1] == prov0[i + 1 + m]);
                assert(prov0.subrange(i + 1, total as int)[m] == prov0[i + 1 + m]);
            }
            assert(spec_opt_str_views(provided@) =~= prov0.subrange(i + 1, total as int));
        }
        let ghost rows_before = store.problem_rows();
        let ghost content_v = crate::reconcile::opt_view(content);
        proof {
            assert(content_v == prov0[i as int]);
        }
        let step = solve_one(store, problem_ids[i].as_str(), content, provider, now);
        proof {
            let sstep = spec_solve_step(rows_before, ids[i as int], prov0[i as int]);
            match step {
                SolveStep::Missing => {
                    assert(store.problem_rows() == sstep.0);
                    assert(sstep.1 == 0 && sstep.2 == 1);
                },
                SolveStep::AlreadySolved => {
                    assert(store.problem_rows() == sstep.0);
                    assert(sstep.1 == 1 && sstep.2 == 0);
                },
                SolveStep::NotProvided => {
                    assert(store.problem_rows() == sstep.0);
                    assert(sstep.1 == 0 && sstep.2 == 1);
                },
                SolveStep::Saved => {
                    assert(store.problem_rows() == sstep.0);
                    assert(sstep.1 == 1 && sstep.2 == 0);
                },
            }
        }
        match step {
            SolveStep::Missing => {
                failed = failed + 1;
            },
            SolveStep::AlreadySolved => {
                succeeded = succeeded + 1;
            },
            SolveStep::Saved => {
                succeeded = succeeded + 1;
            },
            SolveStep::NotProvided => {
                failed = failed + 1;
            },
        }
        processed = processed + 1;
        i = i + 1;
    }
    proof {
        assert(i == total);
        if total > 0 {
            assert(!crate::jobs::spec_job_cancelled(old(jobs)@, job_id@));
        }
    }
    let result = BatchSolveResult { processed, succeeded, failed, duration_secs };
    let reported = BatchSolveResult { processed, succeeded, failed, duration_secs };
    jobs.complete_job(job_id, JobResult::Solve(reported), now);
    SolveRunOutcome::Completed(result)
}

} // verus!
