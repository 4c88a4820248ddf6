//! The storage model: books, chapters, pages, problems and solutions,
//! with the upsert and replace-on-reprocessing rules the rest of the
//! system relies on. The relational engine behind the real deployment is
//! a collaborator; this store states and checks the semantics it must
//! provide.

use vstd::prelude::*;

use crate::models::{Book, Chapter, Page, Problem, Solution};
use crate::reconcile::opt_view;
use crate::text::{chars_of, push_all, string_of};

verus! {

// --- row views ---

/// A stored problem row, flat: the lazily loaded solution and sub-problem
/// lists are not part of the row.
pub struct ProblemRowView {
    pub id: Seq<char>,
    pub chapter_id: Seq<char>,
    pub page_id: Option<Seq<char>>,
    pub parent_id: Option<Seq<char>>,
    pub number: Seq<char>,
    pub display_name: Seq<char>,
    pub content: Seq<char>,
    pub latex_formulas: Seq<Seq<char>>,
    pub page_number: Option<u32>,
    pub difficulty: Option<u8>,
    pub has_solution: bool,
    pub created_at: u64,
    pub continues_from_page: Option<u32>,
    pub continues_to_page: Option<u32>,
    pub is_cross_page: bool,
}

/// The row a problem value writes: cross-page standing is recomputed from
/// the page links, as the storage rule says.
pub open spec fn spec_row_of(p: Problem) -> ProblemRowView {
    ProblemRowView {
        id: p.id@,
        chapter_id: p.chapter_id@,
        page_id: opt_view(p.page_id),
        parent_id: opt_view(p.parent_id),
        number: p.number@,
        display_name: p.display_name@,
        content: p.content@,
        latex_formulas: p.latex_formulas@.map_values(|s: String| s@),
        page_number: p.page_number,
        difficulty: p.difficulty,
        has_solution: p.has_solution,
        created_at: p.created_at,
        continues_from_page: p.continues_from_page,
        continues_to_page: p.continues_to_page,
        is_cross_page: p.continues_from_page is Some || p.continues_to_page is Some,
    }
}

pub struct PageRowView {
    pub id: Seq<char>,
    pub book_id: Seq<char>,
    pub page_number: u32,
    pub ocr_text: Option<Seq<char>>,
    pub has_problems: bool,
    pub problem_count: u32,
    pub created_at: u64,
    pub updated_at: u64,
}

pub open spec fn spec_page_row_of(p: Page) -> PageRowView {
    PageRowView {
        id: p.id@,
        book_id: p.book_id@,
        page_number: p.page_number,
        ocr_text: opt_view(p.ocr_text),
        has_problems: p.has_problems,
        problem_count: p.problem_count,
        created_at: p.created_at,
        updated_at: p.updated_at,
    }
}

pub struct BookRowView {
    pub id: Seq<char>,
    pub title: Seq<char>,
    pub author: Option<Seq<char>>,
    pub subject: Option<Seq<char>>,
    pub file_path: Seq<char>,
    pub total_pages: u32,
    pub created_at: u64,
}

pub open spec fn spec_book_row_of(b: Book) -> BookRowView {
    BookRowView {
        id: b.id@,
        title: b.title@,
        author: opt_view(b.author),
        subject: opt_view(b.subject),
        file_path: b.file_path@,
        total_pages: b.total_pages,
        created_at: b.created_at,
    }
}

pub struct ChapterRowView {
    pub id: Seq<char>,
    pub book_id: Seq<char>,
    pub number: u32,
    pub title: Seq<char>,
    pub description: Option<Seq<char>>,
    pub problem_count: u32,
    pub theory_count: u32,
    pub created_at: u64,
}

pub open spec fn spec_chapter_row_of(c: Chapter) -> ChapterRowView {
    ChapterRowView {
        id: c.id@,
        book_id: c.book_id@,
        number: c.number,
        title: c.title@,
        description: opt_view(c.description),
        problem_count: c.problem_count,
        theory_count: c.theory_count,
        created_at: c.created_at,
    }
}

pub struct SolutionRowView {
    pub id: Seq<char>,
    pub problem_id: Seq<char>,
    pub provider: Seq<char>,
    pub content: Seq<char>,
    pub latex_formulas: Seq<Seq<char>>,
    pub is_verified: bool,
    pub rating: Option<u8>,
    pub created_at: u64,
    pub updated_at: u64,
}

pub open spec fn spec_solution_row_of(s: Solution) -> SolutionRowView {
    SolutionRowView {
        id: s.id@,
        problem_id: s.problem_id@,
        provider: s.provider@,
        content: s.content@,
        latex_formulas: s.latex_formulas@.map_values(|f: String| f@),
        is_verified: s.is_verified,
        rating: s.rating,
        created_at: s.created_at,
        updated_at: s.updated_at,
    }
}

// --- indexes by id ---

pub open spec fn spec_problem_index(rows: Seq<ProblemRowView>, id: Seq<char>) -> int
    decreases rows.len(),
{
    if rows.len() == 0 {
        -1
    } else if rows[0].id == id {
        0
    } else {
        let r = spec_problem_index(rows.drop_first(), id);
        if r < 0 {
            -1
        } else {
            r + 1
        }
    }
}

pub proof fn lemma_problem_index_bounds(rows: Seq<ProblemRowView>, id: Seq<char>)
    ensures
        -1 <= spec_problem_index(rows, id) < rows.len(),
        spec_problem_index(rows, id) >= 0 ==> rows[spec_problem_index(rows, id)].id == id,
    decreases rows.len(),
{
    if rows.len() > 0 && rows[0].id != id {
        lemma_problem_index_bounds(rows.drop_first(), id);
    }
}

proof fn lemma_problem_index_skip(rows: Seq<ProblemRowView>, id: Seq<char>, i: int)
    requires
        0 <= i <= rows.len(),
        forall|j: int| 0 <= j < i ==> rows[j].id != id,
    ensures
        ({
            let r = spec_problem_index(rows.subrange(i, rows.len() as int), id);
            spec_problem_index(rows, id) == if r < 0 {
                -1
            } else {
                i + r
            }
        }),
    decreases i,
{
    if i == 0 {
        assert(rows.subrange(0, rows.len() as int) =~= rows);
    } else {
        let t = rows.drop_first();
        assert forall|j: int| 0 <= j < i - 1 implies t[j].id != id by {
            assert(t[j] == rows[j + 1]);
        }
        lemma_problem_index_skip(t, id, i - 1);
        assert(t.subrange(i - 1, t.len() as int) =~= rows.subrange(i, rows.len() as int));
        lemma_problem_index_bounds(t.subrange(i - 1, t.len() as int), id);
    }
}

// --- the upsert rule ---

/// A written row merged over the row it replaces: the new data wins, but
/// the stored solution flag and creation time are kept, so reprocessing
/// never wipes what a user already generated.
pub open spec fn spec_merge_row(new: ProblemRowView, existing: ProblemRowView) -> ProblemRowView {
    ProblemRowView {
        has_solution: existing.has_solution,
        created_at: existing.created_at,
        ..new
    }
}

/// One upsert: overwrite the row with this id, or append.
pub open spec fn spec_upsert(rows: Seq<ProblemRowView>, new: ProblemRowView) -> Seq<
    ProblemRowView,
> {
    let i = spec_problem_index(rows, new.id);
    if i < 0 {
        rows.push(new)
    } else {
        rows.update(i, spec_merge_row(new, rows[i]))
    }
}

/// All upserts of a batch, in order.
pub open spec fn spec_upsert_all(rows: Seq<ProblemRowView>, batch: Seq<ProblemRowView>) -> Seq<
    ProblemRowView,
>
    decreases batch.len(),
{
    if batch.len() == 0 {
        rows
    } else {
        spec_upsert_all(spec_upsert(rows, batch[0]), batch.drop_first())
    }
}

// --- laws of the upsert ---

proof fn lemma_upsert_len(rows: Seq<ProblemRowView>, new: ProblemRowView)
    ensures
        spec_upsert(rows, new).len() == if spec_problem_index(rows, new.id) < 0 {
            rows.len() as int + 1
        } else {
            rows.len() as int
        },
{
    lemma_problem_index_bounds(rows, new.id);
}

proof fn lemma_upsert_keeps_id(rows: Seq<ProblemRowView>, new: ProblemRowView, id: Seq<char>)
    requires
        spec_problem_index(rows, id) >= 0,
    ensures
        spec_problem_index(spec_upsert(rows, new), id) >= 0,
    decreases rows.len(),
{
    lemma_problem_index_bounds(rows, new.id);
    let i = spec_problem_index(rows, new.id);
    let j = spec_problem_index(rows, id);
    lemma_problem_index_bounds(rows, id);
    if i < 0 {
        lemma_index_of_prefix(rows, rows.push(new), id);
    } else {
        lemma_index_after_update(rows, i, spec_merge_row(new, rows[i]), id);
    }
}

/// An id found in a prefix is found in the longer list.
proof fn lemma_index_of_prefix(rows: Seq<ProblemRowView>, longer: Seq<ProblemRowView>, id: Seq<char>)
    requires
        rows.len() <= longer.len(),
        forall|j: int| 0 <= j < rows.len() ==> longer[j] == rows[j],
        spec_problem_index(rows, id) >= 0,
    ensures
        spec_problem_index(longer, id) >= 0,
    decreases rows.len(),
{
    if rows.len() > 0 {
        if rows[0].id == id {
        } else {
            assert forall|j: int| 0 <= j < rows.drop_first().len() implies longer.drop_first()[j]
                == rows.drop_first()[j] by {
                assert(rows.drop_first()[j] == rows[j + 1]);
                assert(longer.drop_first()[j] == longer[j + 1]);
            }
            lemma_index_of_prefix(rows.drop_first(), longer.drop_first(), id);
            lemma_problem_index_bounds(longer.drop_first(), id);
        }
    }
}

/// Updating one slot with a row of the same id moves no id in or out.
proof fn lemma_index_after_update(
    rows: Seq<ProblemRowView>,
    i: int,
    item: ProblemRowView,
    id: Seq<char>,
)
    requires
        0 <= i < rows.len(),
        item.id == rows[i].id,
    ensures
        spec_problem_index(rows.update(i, item), id) == spec_problem_index(rows, id),
    decreases rows.len(),
{
    if i == 0 {
        assert(rows.update(0, item)[0] == item);
        if rows[0].id != id {
            assert(rows.update(0, item).drop_first() =~= rows.drop_first());
        }
    } else {
        assert(rows.update(i, item)[0] == rows[0]);
        if rows[0].id != id {
            assert(rows.update(i, item).drop_first() =~= rows.drop_first().update(i - 1, item));
            lemma_index_after_update(rows.drop_first(), i - 1, item, id);
        } else {
            assert(rows.update(i, item).drop_first() =~= rows.drop_first().update(i - 1, item));
        }
    }
}

/// Every id of the batch stands in the store after the batch is written.
proof fn lemma_upsert_all_contains(
    rows: Seq<ProblemRowView>,
    batch: Seq<ProblemRowView>,
    k: int,
)
    requires
        0 <= k < batch.len(),
    ensures
        spec_problem_index(spec_upsert_all(rows, batch), batch[k].id) >= 0,
    decreases batch.len(),
{
    let after_one = spec_upsert(rows, batch[0]);
    if k == 0 {
        lemma_problem_index_bounds(rows, batch[0].id);
        let i = spec_problem_index(rows, batch[0].id);
        if i < 0 {
            assert(rows.push(batch[0])[rows.len() as int].id == batch[0].id);
            lemma_some_match_found(rows.push(batch[0]), batch[0].id, rows.len() as int);
        } else {
            assert(spec_upsert(rows, batch[0])[i].id == batch[0].id);
            lemma_some_match_found(after_one, batch[0].id, i);
        }
        lemma_upsert_all_keeps(after_one, batch.drop_first(), batch[0].id);
    } else {
        assert(batch.drop_first()[k - 1] == batch[k]);
        lemma_upsert_all_contains(after_one, batch.drop_first(), k - 1);
    }
}

/// A present id stays present through a whole batch.
proof fn lemma_upsert_all_keeps(
    rows: Seq<ProblemRowView>,
    batch: Seq<ProblemRowView>,
    id: Seq<char>,
)
    requires
        spec_problem_index(rows, id) >= 0,
    ensures
        spec_problem_index(spec_upsert_all(rows, batch), id) >= 0,
    decreases batch.len(),
{
    if batch.len() > 0 {
        lemma_upsert_keeps_id(rows, batch[0], id);
        lemma_upsert_all_keeps(spec_upsert(rows, batch[0]), batch.drop_first(), id);
    }
}

/// If some slot holds the id, the index finds one.
proof fn lemma_some_match_found(rows: Seq<ProblemRowView>, id: Seq<char>, i: int)
    requires
        0 <= i < rows.len(),
        rows[i].id == id,
    ensures
        spec_problem_index(rows, id) >= 0,
    decreases i,
{
    if rows[0].id != id {
        assert(rows.drop_first()[i - 1] == rows[i]);
        lemma_some_match_found(rows.drop_first(), id, i - 1);
    }
}

/// Writing a batch again right away is idempotent in size: every id is
/// already present, so the problem count in storage does not grow.
pub proof fn lemma_upsert_all_idempotent_len(
    rows: Seq<ProblemRowView>,
    batch: Seq<ProblemRowView>,
)
    ensures
        spec_upsert_all(spec_upsert_all(rows, batch), batch).len() == spec_upsert_all(
            rows,
            batch,
        ).len(),
{
    let once = spec_upsert_all(rows, batch);
    lemma_upsert_all_ids_present(rows, batch);
    assert(batch =~= batch.subrange(0, batch.len() as int));
    lemma_rerun_same_len(once, batch, rows, batch, 0);
}

/// Helper: rerunning a suffix of an already-written batch keeps the
/// length, since each of its ids is present.
proof fn lemma_rerun_same_len(
    cur: Seq<ProblemRowView>,
    rest: Seq<ProblemRowView>,
    rows0: Seq<ProblemRowView>,
    batch: Seq<ProblemRowView>,
    k: int,
)
    requires
        0 <= k <= batch.len(),
        rest =~= batch.subrange(k, batch.len() as int),
        forall|j: int|
            k <= j < batch.len() ==> spec_problem_index(cur, #[trigger] batch[j].id) >= 0,
    ensures
        spec_upsert_all(cur, rest).len() == cur.len(),
    decreases rest.len(),
{
    if rest.len() > 0 {
        assert(rest[0] == batch[k]);
        lemma_upsert_len(cur, rest[0]);
        let next = spec_upsert(cur, rest[0]);
        assert(next.len() == cur.len());
        assert forall|j: int|
            k + 1 <= j < batch.len() implies spec_problem_index(next, #[trigger] batch[j].id)
            >= 0 by {
            lemma_upsert_keeps_id(cur, rest[0], batch[j].id);
        }
        assert(rest.drop_first() =~= batch.subrange(k + 1, batch.len() as int));
        lemma_rerun_same_len(next, rest.drop_first(), rows0, batch, k + 1);
    }
}

/// The premise of the idempotence law: after one write of the batch every
/// id of the batch is present.
pub proof fn lemma_upsert_all_ids_present(rows: Seq<ProblemRowView>, batch: Seq<ProblemRowView>)
    ensures
        forall|k: int|
            0 <= k < batch.len() ==> spec_problem_index(
                spec_upsert_all(rows, batch),
                #[trigger] batch[k].id,
            ) >= 0,
{
    assert forall|k: int|
        0 <= k < batch.len() implies spec_problem_index(
        spec_upsert_all(rows, batch),
        #[trigger] batch[k].id,
    ) >= 0 by {
        lemma_upsert_all_contains(rows, batch, k);
    }
}

/// No two slots hold the same id.
pub open spec fn spec_unique_ids(rows: Seq<ProblemRowView>) -> bool {
    forall|i: int, j: int|
        0 <= i < j < rows.len() ==> #[trigger] rows[i].id != #[trigger] rows[j].id
}

/// Every sub-problem row follows the id scheme: its id is its parent's
/// id, a colon, and its own number.
pub open spec fn spec_sub_scheme(rows: Seq<ProblemRowView>) -> bool {
    forall|i: int|
        0 <= i < rows.len() && (#[trigger] rows[i]).parent_id is Some ==> rows[i].id
            == rows[i].parent_id->Some_0 + seq![':'] + rows[i].number
}

/// An absent index means no slot holds the id.
proof fn lemma_index_missing_no_slot(rows: Seq<ProblemRowView>, id: Seq<char>)
    requires
        spec_problem_index(rows, id) < 0,
    ensures
        forall|j: int| 0 <= j < rows.len() ==> (#[trigger] rows[j]).id != id,
{
    assert forall|j: int| 0 <= j < rows.len() implies (#[trigger] rows[j]).id != id by {
        if rows[j].id == id {
            lemma_some_match_found(rows, id, j);
        }
    }
}

/// One upsert keeps ids unique.
pub proof fn lemma_upsert_keeps_unique(rows: Seq<ProblemRowView>, new: ProblemRowView)
    requires
        spec_unique_ids(rows),
    ensures
        spec_unique_ids(spec_upsert(rows, new)),
{
    let i = spec_problem_index(rows, new.id);
    lemma_problem_index_bounds(rows, new.id);
    if i < 0 {
        lemma_index_missing_no_slot(rows, new.id);
        let after = rows.push(new);
        assert forall|a: int, b: int|
            0 <= a < b < after.len() implies #[trigger] after[a].id != #[trigger] after[b].id by {
            if b < rows.len() {
            } else {
                assert(after[b] == new);
                assert(after[a] == rows[a]);
            }
        }
    } else {
        let merged = spec_merge_row(new, rows[i]);
        assert(merged.id == new.id);
        let after = rows.update(i, merged);
        assert forall|a: int, b: int|
            0 <= a < b < after.len() implies #[trigger] after[a].id != #[trigger] after[b].id by {
            assert(rows[a].id != rows[b].id);
            if a == i {
                assert(after[a].id == rows[i].id);
            }
            if b == i {
                assert(after[b].id == rows[i].id);
            }
        }
    }
}

/// A whole batch keeps ids unique.
pub proof fn lemma_upsert_all_keeps_unique(rows: Seq<ProblemRowView>, batch: Seq<ProblemRowView>)
    requires
        spec_unique_ids(rows),
    ensures
        spec_unique_ids(spec_upsert_all(rows, batch)),
    decreases batch.len(),
{
    if batch.len() > 0 {
        lemma_upsert_keeps_unique(rows, batch[0]);
        lemma_upsert_all_keeps_unique(spec_upsert(rows, batch[0]), batch.drop_first());
    }
}

/// Every row of a page deletion comes from the table it started from.
proof fn lemma_delete_members(orig: Seq<ProblemRowView>, rows: Seq<ProblemRowView>, pid: Seq<char>)
    ensures
        forall|k: int|
            0 <= k < spec_delete_by_page(orig, rows, pid).len() ==> rows.contains(
                #[trigger] spec_delete_by_page(orig, rows, pid)[k],
            ),
    decreases rows.len(),
{
    if rows.len() > 0 {
        lemma_delete_members(orig, rows.drop_first(), pid);
        let out = spec_delete_by_page(orig, rows, pid);
        let rest = spec_delete_by_page(orig, rows.drop_first(), pid);
        assert forall|k: int| 0 <= k < out.len() implies rows.contains(#[trigger] out[k]) by {
            if spec_on_page(rows[0], pid) || spec_parent_on_page(orig, pid, rows[0].parent_id) {
                assert(out[k] == rest[k]);
                assert(rows.drop_first().contains(out[k]));
                let w = choose|w: int|
                    0 <= w < rows.drop_first().len() && rows.drop_first()[w] == out[k];
                assert(rows[w + 1] == out[k]);
            } else {
                if k == 0 {
                    assert(out[0] == rows[0]);
                } else {
                    assert(out[k] == rest[k - 1]);
                    assert(rows.drop_first().contains(out[k]));
                    let w = choose|w: int|
                        0 <= w < rows.drop_first().len() && rows.drop_first()[w] == out[k];
                    assert(rows[w + 1] == out[k]);
                }
            }
        }
    }
}

/// Deleting a page's rows keeps the sub-problem id scheme.
pub proof fn lemma_delete_keeps_scheme(
    orig: Seq<ProblemRowView>,
    rows: Seq<ProblemRowView>,
    pid: Seq<char>,
)
    requires
        spec_sub_scheme(rows),
    ensures
        spec_sub_scheme(spec_delete_by_page(orig, rows, pid)),
{
    lemma_delete_members(orig, rows, pid);
    let out = spec_delete_by_page(orig, rows, pid);
    assert forall|k: int|
        0 <= k < out.len() && (#[trigger] out[k]).parent_id is Some implies out[k].id
        == out[k].parent_id->Some_0 + seq![':'] + out[k].number by {
        assert(rows.contains(out[k]));
        let w = choose|w: int| 0 <= w < rows.len() && rows[w] == out[k];
        assert(rows[w].parent_id is Some);
    }
}

/// One scheme-following upsert keeps the scheme.
pub proof fn lemma_upsert_keeps_scheme(rows: Seq<ProblemRowView>, new: ProblemRowView)
    requires
        spec_sub_scheme(rows),
        new.parent_id is Some ==> new.id == new.parent_id->Some_0 + seq![':'] + new.number,
    ensures
        spec_sub_scheme(spec_upsert(rows, new)),
{
    let i = spec_problem_index(rows, new.id);
    lemma_problem_index_bounds(rows, new.id);
    let out = spec_upsert(rows, new);
    assert forall|k: int|
        0 <= k < out.len() && (#[trigger] out[k]).parent_id is Some implies out[k].id
        == out[k].parent_id->Some_0 + seq![':'] + out[k].number by {
        if i < 0 {
            if k == rows.len() {
                assert(out[k] == new);
            } else {
                assert(out[k] == rows[k]);
            }
        } else {
            if k == i {
                assert(out[k] == spec_merge_row(new, rows[i]));
                assert(out[k].id == new.id && out[k].parent_id == new.parent_id && out[k].number
                    == new.number);
            } else {
                assert(out[k] == rows[k]);
            }
        }
    }
}

/// A whole scheme-following batch keeps the scheme.
pub proof fn lemma_upsert_all_keeps_scheme(
    rows: Seq<ProblemRowView>,
    batch: Seq<ProblemRowView>,
)
    requires
        spec_sub_scheme(rows),
        forall|k: int|
            0 <= k < batch.len() && (#[trigger] batch[k]).parent_id is Some ==> batch[k].id
                == batch[k].parent_id->Some_0 + seq![':'] + batch[k].number,
    ensures
        spec_sub_scheme(spec_upsert_all(rows, batch)),
    decreases batch.len(),
{
    if batch.len() > 0 {
        lemma_upsert_keeps_scheme(rows, batch[0]);
        assert forall|k: int|
            0 <= k < batch.drop_first().len() && (#[trigger] batch.drop_first()[k]).parent_id
                is Some implies batch.drop_first()[k].id
                == batch.drop_first()[k].parent_id->Some_0 + seq![':']
                + batch.drop_first()[k].number by {
            assert(batch.drop_first()[k] == batch[k + 1]);
        }
        lemma_upsert_all_keeps_scheme(spec_upsert(rows, batch[0]), batch.drop_first());
    }
}

/// Under unique ids and the id scheme, no two distinct rows share a
/// parent and a number: a letter is unique within its parent, while the
/// same letter under two parents stays two rows.
pub proof fn lemma_sub_letters_unique(rows: Seq<ProblemRowView>)
    requires
        spec_unique_ids(rows),
        spec_sub_scheme(rows),
    ensures
        forall|i: int, j: int|
            0 <= i < rows.len() && 0 <= j < rows.len() && i != j && (#[trigger] rows[i]).parent_id
                is Some && (#[trigger] rows[j]).parent_id is Some
                && rows[i].parent_id == rows[j].parent_id
                && rows[i].number == rows[j].number ==> false,
{
    assert forall|i: int, j: int|
        0 <= i < rows.len() && 0 <= j < rows.len() && i != j && (#[trigger] rows[i]).parent_id
            is Some && (#[trigger] rows[j]).parent_id is Some
            && rows[i].parent_id == rows[j].parent_id
            && rows[i].number == rows[j].number implies false by {
        assert(rows[i].id == rows[j].id);
    }
}

/// Sub-problem ids, `{parent}:{letter}` with a single-letter suffix, are
/// injective: the same letter under two different parents gives two
/// different rows, while the same parent and letter give the same row.
pub proof fn lemma_sub_id_injective(p1: Seq<char>, l1: Seq<char>, p2: Seq<char>, l2: Seq<char>)
    requires
        l1.len() == 1,
        l2.len() == 1,
    ensures
        (p1 + seq![':'] + l1 == p2 + seq![':'] + l2) <==> (p1 == p2 && l1 == l2),
{
    let a = p1 + seq![':'] + l1;
    let b = p2 + seq![':'] + l2;
    if a == b {
        assert(a.len() == b.len());
        assert(a.len() == p1.len() + 2);
        assert(b.len() == p2.len() + 2);
        assert(p1.len() == p2.len());
        assert(a[a.len() - 1] == l1[0]);
        assert(b[b.len() - 1] == l2[0]);
        assert(l1 =~= l2);
        assert forall|j: int| 0 <= j < p1.len() implies p1[j] == p2[j] by {
            assert(a[j] == p1[j]);
            assert(b[j] == p2[j]);
        }
        assert(p1 =~= p2);
    }
    if p1 == p2 && l1 == l2 {
        assert(a =~= b);
    }
}

/// Two fresh sub-problem rows with distinct ids both enter the store; a
/// repeated id is overwritten instead.
pub proof fn lemma_two_subs_enter(
    rows: Seq<ProblemRowView>,
    sub1: ProblemRowView,
    sub2: ProblemRowView,
)
    requires
        spec_problem_index(rows, sub1.id) < 0,
        spec_problem_index(rows, sub2.id) < 0,
    ensures
        sub1.id != sub2.id ==> spec_upsert_all(rows, seq![sub1, sub2]).len() == rows.len() + 2,
        sub1.id == sub2.id ==> spec_upsert_all(rows, seq![sub1, sub2]).len() == rows.len() + 1,
{
    let batch = seq![sub1, sub2];
    assert(batch[0] == sub1);
    let after1 = spec_upsert(rows, sub1);
    lemma_upsert_len(rows, sub1);
    assert(after1 == rows.push(sub1));
    assert(batch.drop_first() =~= seq![sub2]);
    assert(spec_upsert_all(after1, seq![sub2]) == spec_upsert_all(
        spec_upsert(after1, sub2),
        seq![sub2].drop_first(),
    ));
    assert(seq![sub2].drop_first() =~= Seq::<ProblemRowView>::empty());
    lemma_upsert_len(after1, sub2);
    if sub1.id != sub2.id {
        lemma_index_not_found(after1, sub2.id);
        if spec_problem_index(after1, sub2.id) >= 0 {
            let i = choose|i: int| 0 <= i < after1.len() && #[trigger] after1[i].id == sub2.id;
            if i < rows.len() {
                assert(rows[i].id == sub2.id);
                lemma_some_match_found(rows, sub2.id, i);
            }
            assert(false);
        }
    } else {
        assert(after1[rows.len() as int].id == sub2.id);
        lemma_some_match_found(after1, sub2.id, rows.len() as int);
    }
}

/// When no slot holds the id, the index reports none.
proof fn lemma_index_not_found(rows: Seq<ProblemRowView>, id: Seq<char>)
    ensures
        spec_problem_index(rows, id) >= 0 ==> exists|i: int|
            0 <= i < rows.len() && #[trigger] rows[i].id == id,
    decreases rows.len(),
{
    if rows.len() > 0 && rows[0].id != id {
        lemma_index_not_found(rows.drop_first(), id);
        if spec_problem_index(rows, id) >= 0 {
            let i = choose|i: int|
                0 <= i < rows.drop_first().len() && #[trigger] rows.drop_first()[i].id == id;
            assert(rows[i + 1].id == id);
        }
    }
}


// --- indexes of the other tables ---

pub open spec fn spec_page_index(rows: Seq<PageRowView>, id: Seq<char>) -> int
    decreases rows.len(),
{
    if rows.len() == 0 {
        -1
    } else if rows[0].id == id {
        0
    } else {
        let r = spec_page_index(rows.drop_first(), id);
        if r < 0 {
            -1
        } else {
            r + 1
        }
    }
}

pub proof fn lemma_page_index_bounds(rows: Seq<PageRowView>, id: Seq<char>)
    ensures
        -1 <= spec_page_index(rows, id) < rows.len(),
        spec_page_index(rows, id) >= 0 ==> rows[spec_page_index(rows, id)].id == id,
    decreases rows.len(),
{
    if rows.len() > 0 && !(rows[0].id == id) {
        lemma_page_index_bounds(rows.drop_first(), id);
    }
}

proof fn lemma_page_index_skip(rows: Seq<PageRowView>, id: Seq<char>, i: int)
    requires
        0 <= i <= rows.len(),
        forall|j: int| 0 <= j < i ==> !(rows[j].id == id),
    ensures
        ({
            let r = spec_page_index(rows.subrange(i, rows.len() as int), id);
            spec_page_index(rows, id) == if r < 0 {
                -1
            } else {
                i + r
            }
        }),
    decreases i,
{
    if i == 0 {
        assert(rows.subrange(0, rows.len() as int) =~= rows);
    } else {
        let t = rows.drop_first();
        assert forall|j: int| 0 <= j < i - 1 implies !(t[j].id == id) by {
            assert(t[j] == rows[j + 1]);
        }
        lemma_page_index_skip(t, id, i - 1);
        assert(t.subrange(i - 1, t.len() as int) =~= rows.subrange(i, rows.len() as int));
        lemma_page_index_bounds(t.subrange(i - 1, t.len() as int), id);
    }
}


pub open spec fn spec_book_index(rows: Seq<BookRowView>, id: Seq<char>) -> int
    decreases rows.len(),
{
    if rows.len() == 0 {
        -1
    } else if rows[0].id == id {
        0
    } else {
        let r = spec_book_index(rows.drop_first(), id);
        if r < 0 {
            -1
        } else {
            r + 1
        }
    }
}

pub proof fn lemma_book_index_bounds(rows: Seq<BookRowView>, id: Seq<char>)
    ensures
        -1 <= spec_book_index(rows, id) < rows.len(),
        spec_book_index(rows, id) >= 0 ==> rows[spec_book_index(rows, id)].id == id,
    decreases rows.len(),
{
    if rows.len() > 0 && !(rows[0].id == id) {
        lemma_book_index_bounds(rows.drop_first(), id);
    }
}

proof fn lemma_book_index_skip(rows: Seq<BookRowView>, id: Seq<char>, i: int)
    requires
        0 <= i <= rows.len(),
        forall|j: int| 0 <= j < i ==> !(rows[j].id == id),
    ensures
        ({
            let r = spec_book_index(rows.subrange(i, rows.len() as int), id);
            spec_book_index(rows, id) == if r < 0 {
                -1
            } else {
                i + r
            }
        }),
    decreases i,
{
    if i == 0 {
        assert(rows.subrange(0, rows.len() as int) =~= rows);
    } else {
        let t = rows.drop_first();
        assert forall|j: int| 0 <= j < i - 1 implies !(t[j].id == id) by {
            assert(t[j] == rows[j + 1]);
        }
        lemma_book_index_skip(t, id, i - 1);
        assert(t.subrange(i - 1, t.len() as int) =~= rows.subrange(i, rows.len() as int));
        lemma_book_index_bounds(t.subrange(i - 1, t.len() as int), id);
    }
}


pub open spec fn spec_chapter_index(rows: Seq<ChapterRowView>, id: Seq<char>) -> int
    decreases rows.len(),
{
    if rows.len() == 0 {
        -1
    } else if rows[0].id == id {
        0
    } else {
        let r = spec_chapter_index(rows.drop_first(), id);
        if r < 0 {
            -1
        } else {
            r + 1
        }
    }
}

pub proof fn lemma_chapter_index_bounds(rows: Seq<ChapterRowView>, id: Seq<char>)
    ensures
        -1 <= spec_chapter_index(rows, id) < rows.len(),
        spec_chapter_index(rows, id) >= 0 ==> rows[spec_chapter_index(rows, id)].id == id,
    decreases rows.len(),
{
    if rows.len() > 0 && !(rows[0].id == id) {
        lemma_chapter_index_bounds(rows.drop_first(), id);
    }
}

proof fn lemma_chapter_index_skip(rows: Seq<ChapterRowView>, id: Seq<char>, i: int)
    requires
        0 <= i <= rows.len(),
        forall|j: int| 0 <= j < i ==> !(rows[j].id == id),
    ensures
        ({
            let r = spec_chapter_index(rows.subrange(i, rows.len() as int), id);
            spec_chapter_index(rows, id) == if r < 0 {
                -1
            } else {
                i + r
            }
        }),
    decreases i,
{
    if i == 0 {
        assert(rows.subrange(0, rows.len() as int) =~= rows);
    } else {
        let t = rows.drop_first();
        assert forall|j: int| 0 <= j < i - 1 implies !(t[j].id == id) by {
            assert(t[j] == rows[j + 1]);
        }
        lemma_chapter_index_skip(t, id, i - 1);
        assert(t.subrange(i - 1, t.len() as int) =~= rows.subrange(i, rows.len() as int));
        lemma_chapter_index_bounds(t.subrange(i - 1, t.len() as int), id);
    }
}


pub open spec fn spec_solution_index(rows: Seq<SolutionRowView>, pid: Seq<char>, provider: Seq<char>) -> int
    decreases rows.len(),
{
    if rows.len() == 0 {
        -1
    } else if (rows[0].problem_id == pid && rows[0].provider == provider) {
        0
    } else {
        let r = spec_solution_index(rows.drop_first(), pid, provider);
        if r < 0 {
            -1
        } else {
            r + 1
        }
    }
}

pub proof fn lemma_solution_index_bounds(rows: Seq<SolutionRowView>, pid: Seq<char>, provider: Seq<char>)
    ensures
        -1 <= spec_solution_index(rows, pid, provider) < rows.len(),
        spec_solution_index(rows, pid, provider) >= 0 ==> (rows[spec_solution_index(rows, pid, provider)].problem_id == pid && rows[spec_solution_index(rows, pid, provider)].provider == provider),
    decreases rows.len(),
{
    if rows.len() > 0 && !((rows[0].problem_id == pid && rows[0].provider == provider)) {
        lemma_solution_index_bounds(rows.drop_first(), pid, provider);
    }
}

proof fn lemma_solution_index_skip(rows: Seq<SolutionRowView>, pid: Seq<char>, provider: Seq<char>, i: int)
    requires
        0 <= i <= rows.len(),
        forall|j: int| 0 <= j < i ==> !((rows[j].problem_id == pid && rows[j].provider == provider)),
    ensures
        ({
            let r = spec_solution_index(rows.subrange(i, rows.len() as int), pid, provider);
            spec_solution_index(rows, pid, provider) == if r < 0 {
                -1
            } else {
                i + r
            }
        }),
    decreases i,
{
    if i == 0 {
        assert(rows.subrange(0, rows.len() as int) =~= rows);
    } else {
        let t = rows.drop_first();
        assert forall|j: int| 0 <= j < i - 1 implies !((t[j].problem_id == pid && t[j].provider == provider)) by {
            assert(t[j] == rows[j + 1]);
        }
        lemma_solution_index_skip(t, pid, provider, i - 1);
        assert(t.subrange(i - 1, t.len() as int) =~= rows.subrange(i, rows.len() as int));
        lemma_solution_index_bounds(t.subrange(i - 1, t.len() as int), pid, provider);
    }
}



/// Is this string one of the list?
pub open spec fn spec_str_in(list: Seq<String>, s: Seq<char>) -> bool {
    exists|j: int| 0 <= j < list.len() && #[trigger] list[j]@ == s
}

/// The row is attributed to the page.
pub open spec fn spec_on_page(row: ProblemRowView, pid: Seq<char>) -> bool {
    row.page_id == Some(pid)
}

/// A row before `bound` carries this id and sits on the page.
pub open spec fn spec_witness_on_page(
    orig: Seq<ProblemRowView>,
    pid: Seq<char>,
    bound: int,
    id: Seq<char>,
) -> bool {
    exists|k: int|
        0 <= k < bound && k < orig.len() && #[trigger] orig[k].id == id && orig[k].page_id == Some(
            pid,
        )
}

proof fn lemma_witness_mono(
    orig: Seq<ProblemRowView>,
    pid: Seq<char>,
    b1: int,
    b2: int,
    id: Seq<char>,
)
    requires
        b1 <= b2,
        spec_witness_on_page(orig, pid, b1, id),
    ensures
        spec_witness_on_page(orig, pid, b2, id),
{
    let k = choose|k: int|
        0 <= k < b1 && k < orig.len() && #[trigger] orig[k].id == id && orig[k].page_id == Some(
            pid,
        );
    assert(orig[k].id == id);
}

/// The row's parent is a row attributed to the page.
pub open spec fn spec_parent_on_page(
    orig: Seq<ProblemRowView>,
    pid: Seq<char>,
    parent: Option<Seq<char>>,
) -> bool {
    parent is Some && spec_witness_on_page(orig, pid, orig.len() as int, parent->Some_0)
}

/// The rows left when a page's problems, and the sub-problems under them,
/// are deleted.
pub open spec fn spec_delete_by_page(
    orig: Seq<ProblemRowView>,
    rows: Seq<ProblemRowView>,
    pid: Seq<char>,
) -> Seq<ProblemRowView>
    decreases rows.len(),
{
    if rows.len() == 0 {
        Seq::<ProblemRowView>::empty()
    } else {
        let rest = spec_delete_by_page(orig, rows.drop_first(), pid);
        if spec_on_page(rows[0], pid) || spec_parent_on_page(orig, pid, rows[0].parent_id) {
            rest
        } else {
            seq![rows[0]] + rest
        }
    }
}

/// Deleting never grows the table.
pub proof fn lemma_delete_shrinks(
    orig: Seq<ProblemRowView>,
    rows: Seq<ProblemRowView>,
    pid: Seq<char>,
)
    ensures
        spec_delete_by_page(orig, rows, pid).len() <= rows.len(),
    decreases rows.len(),
{
    if rows.len() > 0 {
        lemma_delete_shrinks(orig, rows.drop_first(), pid);
    }
}


/// Book upsert keeps the stored file path and creation time.
pub open spec fn spec_merge_book(new: BookRowView, existing: BookRowView) -> BookRowView {
    BookRowView { file_path: existing.file_path, created_at: existing.created_at, ..new }
}

pub open spec fn spec_book_upsert(rows: Seq<BookRowView>, new: BookRowView) -> Seq<BookRowView> {
    let i = spec_book_index(rows, new.id);
    if i < 0 {
        rows.push(new)
    } else {
        rows.update(i, spec_merge_book(new, rows[i]))
    }
}

/// Chapter upsert rewrites only the title and description.
pub open spec fn spec_merge_chapter(new: ChapterRowView, existing: ChapterRowView) -> ChapterRowView {
    ChapterRowView { title: new.title, description: new.description, ..existing }
}

pub open spec fn spec_chapter_upsert(rows: Seq<ChapterRowView>, new: ChapterRowView) -> Seq<
    ChapterRowView,
> {
    let i = spec_chapter_index(rows, new.id);
    if i < 0 {
        rows.push(new)
    } else {
        rows.update(i, spec_merge_chapter(new, rows[i]))
    }
}

/// Solution upsert, keyed by problem and provider, rewrites the content,
/// the formulas and the update time.
pub open spec fn spec_merge_solution(new: SolutionRowView, existing: SolutionRowView) -> SolutionRowView {
    SolutionRowView {
        content: new.content,
        latex_formulas: new.latex_formulas,
        updated_at: new.updated_at,
        ..existing
    }
}

pub open spec fn spec_solution_upsert(rows: Seq<SolutionRowView>, new: SolutionRowView) -> Seq<
    SolutionRowView,
> {
    let i = spec_solution_index(rows, new.problem_id, new.provider);
    if i < 0 {
        rows.push(new)
    } else {
        rows.update(i, spec_merge_solution(new, rows[i]))
    }
}

/// A fresh page appended to the table is found at the end.
pub proof fn lemma_page_index_push(rows: Seq<PageRowView>, item: PageRowView, pid: Seq<char>)
    requires
        spec_page_index(rows, pid) < 0,
        item.id == pid,
    ensures
        spec_page_index(rows.push(item), pid) == rows.len(),
    decreases rows.len(),
{
    if rows.len() == 0 {
        assert(rows.push(item)[0] == item);
    } else {
        assert(rows[0].id != pid);
        assert(rows.push(item)[0] == rows[0]);
        assert(rows.push(item).drop_first() =~= rows.drop_first().push(item));
        lemma_page_index_push(rows.drop_first(), item, pid);
    }
}

/// `{book_id}:page:{page_number}`.
pub open spec fn spec_page_id_of(book: Seq<char>, num: int) -> Seq<char> {
    book + seq![':', 'p', 'a', 'g', 'e', ':'] + crate::models::spec_u32_digits(num)
}

/// The row of a page freshly created at `now`.
pub open spec fn spec_new_page_row(book: Seq<char>, num: u32, now: u64) -> PageRowView {
    PageRowView {
        id: spec_page_id_of(book, num as int),
        book_id: book,
        page_number: num,
        ocr_text: None,
        has_problems: false,
        problem_count: 0,
        created_at: now,
        updated_at: now,
    }
}

/// The stand-in book written when a page arrives for an unknown book.
pub open spec fn spec_default_book_row(book: Seq<char>, now: u64) -> BookRowView {
    BookRowView {
        id: book,
        title: book,
        author: None,
        subject: None,
        file_path: seq!['r', 'e', 's', 'o', 'u', 'r', 'c', 'e', 's', '/'] + book + seq![
            '.',
            'p',
            'd',
            'f',
        ],
        total_pages: 0,
        created_at: now,
    }
}

// --- the store ---

/// The in-memory store holding every table.
pub struct ProblemStore {
    books: Vec<Book>,
    chapters: Vec<Chapter>,
    pages: Vec<Page>,
    problems: Vec<Problem>,
    solutions: Vec<Solution>,
}

impl ProblemStore {
    pub closed spec fn book_rows(&self) -> Seq<BookRowView> {
        self.books@.map_values(|b: Book| spec_book_row_of(b))
    }

    pub closed spec fn chapter_rows(&self) -> Seq<ChapterRowView> {
        self.chapters@.map_values(|c: Chapter| spec_chapter_row_of(c))
    }

    pub closed spec fn page_rows(&self) -> Seq<PageRowView> {
        self.pages@.map_values(|p: Page| spec_page_row_of(p))
    }

    pub closed spec fn problem_rows(&self) -> Seq<ProblemRowView> {
        self.problems@.map_values(|p: Problem| spec_row_of(p))
    }

    pub closed spec fn solution_rows(&self) -> Seq<SolutionRowView> {
        self.solutions@.map_values(|s: Solution| spec_solution_row_of(s))
    }

    pub fn new() -> (r: ProblemStore)
        ensures
            r.book_rows() == Seq::<BookRowView>::empty(),
            r.chapter_rows() == Seq::<ChapterRowView>::empty(),
            r.page_rows() == Seq::<PageRowView>::empty(),
            r.problem_rows() == Seq::<ProblemRowView>::empty(),
            r.solution_rows() == Seq::<SolutionRowView>::empty(),
    {
        let r = ProblemStore {
            books: Vec::new(),
            chapters: Vec::new(),
            pages: Vec::new(),
            problems: Vec::new(),
            solutions: Vec::new(),
        };
        proof {
            assert(r.book_rows() =~= Seq::<BookRowView>::empty());
            assert(r.chapter_rows() =~= Seq::<ChapterRowView>::empty());
            assert(r.page_rows() =~= Seq::<PageRowView>::empty());
            assert(r.problem_rows() =~= Seq::<ProblemRowView>::empty());
            assert(r.solution_rows() =~= Seq::<SolutionRowView>::empty());
        }
        r
    }

    /// Everything except the problem table is untouched.
    pub open spec fn others_unchanged_but_problems(&self, old_store: &ProblemStore) -> bool {
        &&& self.book_rows() == old_store.book_rows()
        &&& self.chapter_rows() == old_store.chapter_rows()
        &&& self.page_rows() == old_store.page_rows()
        &&& self.solution_rows() == old_store.solution_rows()
    }

    fn find_problem(&self, id: &str) -> (r: Option<usize>)
        ensures
            match r {
                Some(i) => i == spec_problem_index(self.problem_rows(), id@) && i
                    < self.problem_rows().len(),
                None => spec_problem_index(self.problem_rows(), id@) == -1,
            },
    {
        let owned = id.to_owned();
        let n = self.problems.len();
        let mut i: usize = 0;
        while i < n
            invariant
                i <= n,
                n == self.problem_rows().len(),
                n == self.problems@.len(),
                owned@ == id@,
                forall|j: int| 0 <= j < i ==> self.problem_rows()[j].id != id@,
            decreases n - i,
        {
            proof {
                assert(self.problem_rows()[i as int] == spec_row_of(self.problems@[i as int]));
            }
            if self.problems[i].id == owned {
                proof {
                    lemma_problem_index_skip(self.problem_rows(), id@, i as int);
                    let t = self.problem_rows().subrange(i as int, n as int);
                    assert(t[0] == self.problem_rows()[i as int]);
                }
                return Some(i);
            }
            i = i + 1;
        }
        proof {
            lemma_problem_index_skip(self.problem_rows(), id@, n as int);
            assert(self.problem_rows().subrange(n as int, n as int) =~= Seq::<
                ProblemRowView,
            >::empty());
        }
        None
    }

    /// Write one problem row: new data wins, the stored solution flag and
    /// creation time survive.
    pub fn create_problem(&mut self, problem: Problem)
        ensures
            final(self).problem_rows() == spec_upsert(
                old(self).problem_rows(),
                spec_row_of(problem),
            ),
            final(self).others_unchanged_but_problems(old(self)),
    {
        let ghost new_row = spec_row_of(problem);
        let ghost before = self.problem_rows();
        let idx = self.find_problem(problem.id.as_str());
        match idx {
            None => {
                self.problems.push(problem);
                proof {
                    assert(final(self).problem_rows() =~= before.push(new_row));
                }
            },
            Some(i) => {
                let mut problem = problem;
                proof {
                    assert(before[i as int] == spec_row_of(self.problems@[i as int]));
                }
                problem.has_solution = self.problems[i].has_solution;
                problem.created_at = self.problems[i].created_at;
                let slot = &mut self.problems[i];
                *slot = problem;
                proof {
                    assert(spec_row_of(self.problems@[i as int]) == spec_merge_row(
                        new_row,
                        before[i as int],
                    ));
                    assert(final(self).problem_rows() =~= before.update(
                        i as int,
                        spec_merge_row(new_row, before[i as int]),
                    ));
                }
            },
        }
    }

    /// Write a whole batch of problem rows, in order; one row conflicting
    /// never fails the batch, it is merged. Returns how many were written.
    pub fn create_or_update_problems(&mut self, problems: Vec<Problem>) -> (count: usize)
        ensures
            final(self).problem_rows() == spec_upsert_all(
                old(self).problem_rows(),
                problems@.map_values(|p: Problem| spec_row_of(p)),
            ),
            final(self).others_unchanged_but_problems(old(self)),
            count == problems@.len(),
    {
        let ghost batch = problems@.map_values(|p: Problem| spec_row_of(p));
        let count = problems.len();
        let mut problems = problems;
        while problems.len() > 0
            invariant
                spec_upsert_all(old(self).problem_rows(), batch) == spec_upsert_all(
                    self.problem_rows(),
                    problems@.map_values(|p: Problem| spec_row_of(p)),
                ),
                self.others_unchanged_but_problems(old(self)),
            decreases problems@.len(),
        {
            let ghost f = |p: Problem| spec_row_of(p);
            let ghost rest = problems@.map_values(f);
            proof {
                assert(rest[0] == spec_row_of(problems@[0]));
            }
            let ghost prevs = problems@;
            let p = problems.remove(0);
            proof {
                assert forall|m: int|
                    0 <= m < problems@.len() implies #[trigger] problems@.map_values(f)[m]
                    == rest.drop_first()[m] by {
                    assert(problems@[m] == prevs[m + 1]);
                    assert(rest.drop_first()[m] == rest[m + 1]);
                    assert(rest[m + 1] == spec_row_of(prevs[m + 1]));
                }
            }
            let ghost row = spec_row_of(p);
            let ghost cur = self.problem_rows();
            self.create_problem(p);
            proof {
                assert(problems@.map_values(f) =~= rest.drop_first());
                assert(spec_upsert_all(cur, rest) == spec_upsert_all(
                    spec_upsert(cur, row),
                    rest.drop_first(),
                ));
            }
        }
        proof {
            assert(problems@.map_values(|p: Problem| spec_row_of(p)).len() == 0);
        }
        count
    }

    /// Read one problem row; the lazily loaded lists come back empty.
    pub fn get_problem(&self, id: &str) -> (r: Option<Problem>)
        ensures
            match r {
                Some(p) => spec_problem_index(self.problem_rows(), id@) >= 0 && spec_row_of(p)
                    == self.problem_rows()[spec_problem_index(self.problem_rows(), id@)]
                    && p.solution is None && p.sub_problems is None,
                None => spec_problem_index(self.problem_rows(), id@) < 0,
            },
    {
        match self.find_problem(id) {
            Some(i) => {
                proof {
                    assert(self.problem_rows()[i as int] == spec_row_of(self.problems@[i as int]));
                }
                let p = self.problems[i].dup_row();
                proof {
                    assert(spec_row_of(p) == spec_row_of(self.problems@[i as int]));
                }
                Some(p)
            },
            None => None,
        }
    }

    /// Flip the solution flag of one problem.
    pub fn update_problem_solution_status(&mut self, problem_id: &str, has_solution: bool)
        ensures
            ({
                let i = spec_problem_index(old(self).problem_rows(), problem_id@);
                if i < 0 {
                    final(self).problem_rows() == old(self).problem_rows()
                } else {
                    final(self).problem_rows() == old(self).problem_rows().update(
                        i,
                        ProblemRowView {
                            has_solution,
                            ..old(self).problem_rows()[i]
                        },
                    )
                }
            }),
            final(self).others_unchanged_but_problems(old(self)),
    {
        let ghost before = self.problem_rows();
        if let Some(i) = self.find_problem(problem_id) {
            proof {
                assert(before[i as int] == spec_row_of(self.problems@[i as int]));
            }
            let slot = &mut self.problems[i];
            slot.has_solution = has_solution;
            proof {
                assert(spec_row_of(self.problems@[i as int]) == ProblemRowView {
                    has_solution,
                    ..before[i as int]
                });
                assert(final(self).problem_rows() =~= before.update(
                    i as int,
                    ProblemRowView { has_solution, ..before[i as int] },
                ));
            }
        }
    }

    /// Is this string one of the list?
    fn contains_str(list: &Vec<String>, s: &String) -> (b: bool)
        ensures
            b == spec_str_in(list@, s@),
    {
        let n = list.len();
        let mut i: usize = 0;
        while i < n
            invariant
                i <= n,
                n == list@.len(),
                forall|j: int| 0 <= j < i ==> #[trigger] list@[j]@ != s@,
            decreases n - i,
        {
            if list[i] == *s {
                return true;
            }
            i = i + 1;
        }
        false
    }

    /// Replace-on-reprocessing: delete every problem attributed to the
    /// page, and every sub-problem whose parent is. Returns how many rows
    /// left the store.
    pub fn delete_problems_by_page(&mut self, page_id: &str) -> (count: usize)
        ensures
            final(self).problem_rows() == spec_delete_by_page(
                old(self).problem_rows(),
                old(self).problem_rows(),
                page_id@,
            ),
            count == old(self).problem_rows().len() - final(self).problem_rows().len(),
            final(self).others_unchanged_but_problems(old(self)),
    {
        let ghost orig = self.problem_rows();
        let owned = page_id.to_owned();
        let n = self.problems.len();
        let mut on_page_ids: Vec<String> = Vec::new();
        let mut i: usize = 0;
        while i < n
            invariant
                i <= n,
                n == self.problems@.len(),
                owned@ == page_id@,
                orig == self.problem_rows(),
                n == orig.len(),
                forall|j: int|
                    0 <= j < on_page_ids@.len() ==> spec_witness_on_page(
                        orig,
                        page_id@,
                        i as int,
                        #[trigger] on_page_ids@[j]@,
                    ),
                forall|k: int|
                    0 <= k < i && #[trigger] orig[k].page_id == Some(page_id@) ==> spec_str_in(
                        on_page_ids@,
                        orig[k].id,
                    ),
            decreases n - i,
        {
            proof {
                assert(orig[i as int] == spec_row_of(self.problems@[i as int]));
            }
            let ghost before_ids = on_page_ids@;
            let mut pushed = false;
            if let Some(pg) = &self.problems[i].page_id {
                if *pg == owned {
                    on_page_ids.push(self.problems[i].id.clone());
                    pushed = true;
                    proof {
                        assert(on_page_ids@[before_ids.len() as int]@ == orig[i as int].id);
                        assert(orig[i as int].page_id == Some(page_id@));
                    }
                }
            }
            proof {
                if !pushed {
                    assert(on_page_ids@ == before_ids);
                    assert(orig[i as int].page_id != Some(page_id@));
                }
                assert forall|j: int|
                    0 <= j < on_page_ids@.len() implies spec_witness_on_page(
                    orig,
                    page_id@,
                    i + 1,
                    #[trigger] on_page_ids@[j]@,
                ) by {
                    if j < before_ids.len() {
                        assert(on_page_ids@[j] == before_ids[j]);
                        lemma_witness_mono(orig, page_id@, i as int, i + 1, before_ids[j]@);
                    } else {
                        assert(orig[i as int].id == on_page_ids@[j]@);
                    }
                }
                if pushed {
                    assert(spec_str_in(on_page_ids@, orig[i as int].id)) by {
                        assert(on_page_ids@[before_ids.len() as int]@ == orig[i as int].id);
                    }
                }
                assert forall|k: int|
                    0 <= k < i + 1 && #[trigger] orig[k].page_id == Some(page_id@)
                    implies spec_str_in(on_page_ids@, orig[k].id) by {
                    if k < i {
                        let j = choose|j: int|
                            0 <= j < before_ids.len() && #[trigger] before_ids[j]@ == orig[k].id;
                        assert(on_page_ids@[j]@ == orig[k].id);
                    }
                }
            }
            i = i + 1;
        }
        proof {
            assert forall|id: Seq<char>| #[trigger]
                spec_str_in(on_page_ids@, id) == spec_witness_on_page(
                orig,
                page_id@,
                orig.len() as int,
                id,
            ) by {
                if spec_str_in(on_page_ids@, id) {
                    let j = choose|j: int|
                        0 <= j < on_page_ids@.len() && #[trigger] on_page_ids@[j]@ == id;
                    assert(spec_witness_on_page(orig, page_id@, n as int, on_page_ids@[j]@));
                }
                if spec_witness_on_page(orig, page_id@, orig.len() as int, id) {
                    let k = choose|k: int|
                        0 <= k < orig.len() && #[trigger] orig[k].id == id && orig[k].page_id
                            == Some(page_id@);
                    assert(spec_str_in(on_page_ids@, orig[k].id));
                }
            }
        }
        let before_len = self.problems.len();
        let mut kept: Vec<Problem> = Vec::new();
        proof {
            assert(kept@.map_values(|p: Problem| spec_row_of(p)) =~= Seq::<
                ProblemRowView,
            >::empty());
        }
        while self.problems.len() > 0
            invariant
                owned@ == page_id@,
                forall|id: Seq<char>| #[trigger]
                    spec_str_in(on_page_ids@, id) == spec_witness_on_page(
                        orig,
                        page_id@,
                        orig.len() as int,
                        id,
                    ),
                spec_delete_by_page(orig, orig, page_id@) == kept@.map_values(
                    |p: Problem| spec_row_of(p),
                ) + spec_delete_by_page(
                    orig,
                    self.problems@.map_values(|p: Problem| spec_row_of(p)),
                    page_id@,
                ),
                self.others_unchanged_but_problems(old(self)),
            decreases self.problems@.len(),
        {
            let ghost f = |p: Problem| spec_row_of(p);
            let ghost rows_now = self.problems@.map_values(f);
            let ghost kept_before = kept@.map_values(f);
            proof {
                assert(rows_now[0] == spec_row_of(self.problems@[0]));
            }
            let ghost prevs = self.problems@;
            let p = self.problems.remove(0);
            let ghost pv = spec_row_of(p);
            proof {
                assert forall|m: int|
                    0 <= m < self.problems@.len() implies #[trigger] self.problems@.map_values(
                    f,
                )[m] == rows_now.drop_first()[m] by {
                    assert(self.problems@[m] == prevs[m + 1]);
                }
                assert(self.problems@.map_values(f) =~= rows_now.drop_first());
            }
            let on_pg = match &p.page_id {
                Some(pg) => *pg == owned,
                None => false,
            };
            let parent_in = match &p.parent_id {
                Some(par) => Self::contains_str(&on_page_ids, par),
                None => false,
            };
            proof {
                assert(on_pg == spec_on_page(pv, page_id@));
                if p.parent_id is Some {
                    assert(spec_str_in(on_page_ids@, pv.parent_id->Some_0)
                        == spec_witness_on_page(
                        orig,
                        page_id@,
                        orig.len() as int,
                        pv.parent_id->Some_0,
                    ));
                }
                assert(parent_in == spec_parent_on_page(orig, page_id@, pv.parent_id));
                assert(spec_delete_by_page(orig, rows_now, page_id@) == if on_pg || parent_in {
                    spec_delete_by_page(orig, self.problems@.map_values(f), page_id@)
                } else {
                    seq![pv] + spec_delete_by_page(orig, self.problems@.map_values(f), page_id@)
                });
            }
            if !(on_pg || parent_in) {
                kept.push(p);
                proof {
                    assert(kept@.map_values(f) =~= kept_before.push(pv));
                    assert(kept_before + (seq![pv] + spec_delete_by_page(
                        orig,
                        self.problems@.map_values(f),
                        page_id@,
                    )) =~= kept@.map_values(f) + spec_delete_by_page(
                        orig,
                        self.problems@.map_values(f),
                        page_id@,
                    ));
                }
            }
        }
        proof {
            assert(self.problems@.map_values(|p: Problem| spec_row_of(p)).len() == 0);
            assert(spec_delete_by_page(
                orig,
                self.problems@.map_values(|p: Problem| spec_row_of(p)),
                page_id@,
            ) == Seq::<ProblemRowView>::empty());
            assert(kept@.map_values(|p: Problem| spec_row_of(p)) + Seq::<
                ProblemRowView,
            >::empty() =~= kept@.map_values(|p: Problem| spec_row_of(p)));
            lemma_delete_shrinks(orig, orig, page_id@);
        }
        let after_len = kept.len();
        self.problems = kept;
        before_len - after_len
    }

    /// Number of problem rows in the store.
    pub fn problem_count(&self) -> (r: usize)
        ensures
            r == self.problem_rows().len(),
    {
        self.problems.len()
    }

    fn find_book(&self, id: &str) -> (r: Option<usize>)
        ensures
            match r {
                Some(i) => i == spec_book_index(self.book_rows(), id@) && i
                    < self.book_rows().len(),
                None => spec_book_index(self.book_rows(), id@) == -1,
            },
    {
        let owned = id.to_owned();
        let n = self.books.len();
        let mut i: usize = 0;
        while i < n
            invariant
                i <= n,
                n == self.book_rows().len(),
                n == self.books@.len(),
                owned@ == id@,
                forall|j: int| 0 <= j < i ==> self.book_rows()[j].id != id@,
            decreases n - i,
        {
            proof {
                assert(self.book_rows()[i as int] == spec_book_row_of(self.books@[i as int]));
            }
            if self.books[i].id == owned {
                proof {
                    lemma_book_index_skip(self.book_rows(), id@, i as int);
                    let t = self.book_rows().subrange(i as int, n as int);
                    assert(t[0] == self.book_rows()[i as int]);
                }
                return Some(i);
            }
            i = i + 1;
        }
        proof {
            lemma_book_index_skip(self.book_rows(), id@, n as int);
            assert(self.book_rows().subrange(n as int, n as int) =~= Seq::<BookRowView>::empty());
        }
        None
    }

    /// Write one book: new data wins, the stored file path and creation
    /// time survive.
    pub fn create_book(&mut self, book: Book)
        ensures
            final(self).book_rows() == spec_book_upsert(
                old(self).book_rows(),
                spec_book_row_of(book),
            ),
            final(self).chapter_rows() == old(self).chapter_rows(),
            final(self).page_rows() == old(self).page_rows(),
            final(self).problem_rows() == old(self).problem_rows(),
            final(self).solution_rows() == old(self).solution_rows(),
    {
        let ghost new_row = spec_book_row_of(book);
        let ghost before = self.book_rows();
        let idx = self.find_book(book.id.as_str());
        match idx {
            None => {
                self.books.push(book);
                proof {
                    assert(final(self).book_rows() =~= before.push(new_row));
                }
            },
            Some(i) => {
                let mut book = book;
                proof {
                    assert(before[i as int] == spec_book_row_of(self.books@[i as int]));
                }
                book.file_path = self.books[i].file_path.clone();
                book.created_at = self.books[i].created_at;
                let slot = &mut self.books[i];
                *slot = book;
                proof {
                    assert(spec_book_row_of(self.books@[i as int]) == spec_merge_book(
                        new_row,
                        before[i as int],
                    ));
                    assert(final(self).book_rows() =~= before.update(
                        i as int,
                        spec_merge_book(new_row, before[i as int]),
                    ));
                }
            },
        }
    }

    /// Read one book.
    pub fn get_book(&self, id: &str) -> (r: Option<Book>)
        ensures
            match r {
                Some(b) => spec_book_index(self.book_rows(), id@) >= 0 && spec_book_row_of(b)
                    == self.book_rows()[spec_book_index(self.book_rows(), id@)],
                None => spec_book_index(self.book_rows(), id@) < 0,
            },
    {
        match self.find_book(id) {
            Some(i) => {
                proof {
                    assert(self.book_rows()[i as int] == spec_book_row_of(self.books@[i as int]));
                }
                let b = &self.books[i];
                let copy = Book {
                    id: b.id.clone(),
                    title: b.title.clone(),
                    author: crate::models::dup_opt_string(&b.author),
                    subject: crate::models::dup_opt_string(&b.subject),
                    file_path: b.file_path.clone(),
                    total_pages: b.total_pages,
                    created_at: b.created_at,
                };
                proof {
                    assert(spec_book_row_of(copy) == spec_book_row_of(self.books@[i as int]));
                }
                Some(copy)
            },
            None => None,
        }
    }

    fn find_chapter(&self, id: &str) -> (r: Option<usize>)
        ensures
            match r {
                Some(i) => i == spec_chapter_index(self.chapter_rows(), id@) && i
                    < self.chapter_rows().len(),
                None => spec_chapter_index(self.chapter_rows(), id@) == -1,
            },
    {
        let owned = id.to_owned();
        let n = self.chapters.len();
        let mut i: usize = 0;
        while i < n
            invariant
                i <= n,
                n == self.chapter_rows().len(),
                n == self.chapters@.len(),
                owned@ == id@,
                forall|j: int| 0 <= j < i ==> self.chapter_rows()[j].id != id@,
            decreases n - i,
        {
            proof {
                assert(self.chapter_rows()[i as int] == spec_chapter_row_of(
                    self.chapters@[i as int],
                ));
            }
            if self.chapters[i].id == owned {
                proof {
                    lemma_chapter_index_skip(self.chapter_rows(), id@, i as int);
                    let t = self.chapter_rows().subrange(i as int, n as int);
                    assert(t[0] == self.chapter_rows()[i as int]);
                }
                return Some(i);
            }
            i = i + 1;
        }
        proof {
            lemma_chapter_index_skip(self.chapter_rows(), id@, n as int);
            assert(self.chapter_rows().subrange(n as int, n as int) =~= Seq::<
                ChapterRowView,
            >::empty());
        }
        None
    }

    /// Write one chapter: only the title and description of an existing
    /// chapter are rewritten.
    pub fn create_chapter(&mut self, chapter: Chapter)
        ensures
            final(self).chapter_rows() == spec_chapter_upsert(
                old(self).chapter_rows(),
                spec_chapter_row_of(chapter),
            ),
            final(self).book_rows() == old(self).book_rows(),
            final(self).page_rows() == old(self).page_rows(),
            final(self).problem_rows() == old(self).problem_rows(),
            final(self).solution_rows() == old(self).solution_rows(),
    {
        let ghost new_row = spec_chapter_row_of(chapter);
        let ghost before = self.chapter_rows();
        let idx = self.find_chapter(chapter.id.as_str());
        match idx {
            None => {
                self.chapters.push(chapter);
                proof {
                    assert(final(self).chapter_rows() =~= before.push(new_row));
                }
            },
            Some(i) => {
                proof {
                    assert(before[i as int] == spec_chapter_row_of(self.chapters@[i as int]));
                }
                let title = chapter.title;
                let description = chapter.description;
                let slot = &mut self.chapters[i];
                slot.title = title;
                slot.description = description;
                proof {
                    assert(spec_chapter_row_of(self.chapters@[i as int]) == spec_merge_chapter(
                        new_row,
                        before[i as int],
                    ));
                    assert(final(self).chapter_rows() =~= before.update(
                        i as int,
                        spec_merge_chapter(new_row, before[i as int]),
                    ));
                }
            },
        }
    }

    fn find_page(&self, id: &String) -> (r: Option<usize>)
        ensures
            match r {
                Some(i) => i == spec_page_index(self.page_rows(), id@) && i
                    < self.page_rows().len(),
                None => spec_page_index(self.page_rows(), id@) == -1,
            },
    {
        let n = self.pages.len();
        let mut i: usize = 0;
        while i < n
            invariant
                i <= n,
                n == self.page_rows().len(),
                n == self.pages@.len(),
                forall|j: int| 0 <= j < i ==> self.page_rows()[j].id != id@,
            decreases n - i,
        {
            proof {
                assert(self.page_rows()[i as int] == spec_page_row_of(self.pages@[i as int]));
            }
            if self.pages[i].id == *id {
                proof {
                    lemma_page_index_skip(self.page_rows(), id@, i as int);
                    let t = self.page_rows().subrange(i as int, n as int);
                    assert(t[0] == self.page_rows()[i as int]);
                }
                return Some(i);
            }
            i = i + 1;
        }
        proof {
            lemma_page_index_skip(self.page_rows(), id@, n as int);
            assert(self.page_rows().subrange(n as int, n as int) =~= Seq::<PageRowView>::empty());
        }
        None
    }

    /// Fetch a page or create it empty; an unknown book is written as a
    /// stand-in first. One row per (book, page), never duplicated.
    pub fn get_or_create_page(&mut self, book_id: &str, page_number: u32, now: u64) -> (r: Page)
        ensures
            ({
                let pid = spec_page_id_of(book_id@, page_number as int);
                let i = spec_page_index(old(self).page_rows(), pid);
                &&& (if i >= 0 {
                    &&& final(self).page_rows() == old(self).page_rows()
                    &&& final(self).book_rows() == old(self).book_rows()
                    &&& spec_page_row_of(r) == old(self).page_rows()[i]
                } else {
                    &&& final(self).page_rows() == old(self).page_rows().push(
                        spec_new_page_row(book_id@, page_number, now),
                    )
                    &&& final(self).book_rows() == spec_book_upsert(
                        old(self).book_rows(),
                        spec_default_book_row(book_id@, now),
                    )
                    &&& spec_page_row_of(r) == spec_new_page_row(book_id@, page_number, now)
                })
                &&& final(self).chapter_rows() == old(self).chapter_rows()
                &&& final(self).problem_rows() == old(self).problem_rows()
                &&& final(self).solution_rows() == old(self).solution_rows()
            }),
    {
        let mut idv = chars_of(book_id);
        idv.push(':');
        idv.push('p');
        idv.push('a');
        idv.push('g');
        idv.push('e');
        idv.push(':');
        let digits = crate::models::u32_digits(page_number);
        push_all(&mut idv, &digits);
        proof {
            assert(idv@ =~= spec_page_id_of(book_id@, page_number as int));
        }
        let page_id = string_of(&idv);
        if let Some(i) = self.find_page(&page_id) {
            proof {
                assert(self.page_rows()[i as int] == spec_page_row_of(self.pages@[i as int]));
            }
            return self.pages[i].dup();
        }
        let mut fp = chars_of("resources/");
        let bv = chars_of(book_id);
        push_all(&mut fp, &bv);
        let suffix = chars_of(".pdf");
        push_all(&mut fp, &suffix);
        proof {
            reveal_strlit("resources/");
            reveal_strlit(".pdf");
            assert(fp@ =~= spec_default_book_row(book_id@, now).file_path);
        }
        let book = Book {
            id: book_id.to_owned(),
            title: book_id.to_owned(),
            author: None,
            subject: None,
            file_path: string_of(&fp),
            total_pages: 0,
            created_at: now,
        };
        proof {
            assert(spec_book_row_of(book) == spec_default_book_row(book_id@, now));
        }
        self.create_book(book);
        let page = Page {
            id: page_id,
            book_id: book_id.to_owned(),
            page_number,
            ocr_text: None,
            has_problems: false,
            problem_count: 0,
            created_at: now,
            updated_at: now,
        };
        let ghost before_pages = self.page_rows();
        let ghost prow = spec_page_row_of(page);
        let out = page.dup();
        proof {
            assert(prow == spec_new_page_row(book_id@, page_number, now));
            assert(spec_page_row_of(out) == prow);
        }
        self.pages.push(page);
        proof {
            assert(final(self).page_rows() =~= before_pages.push(prow));
        }
        out
    }

    /// Store a page's OCR text and problem count, stamping the update.
    pub fn update_page_ocr(&mut self, page_id: &str, ocr_text: &str, problem_count: u32, now: u64)
        ensures
            ({
                let i = spec_page_index(old(self).page_rows(), page_id@);
                if i < 0 {
                    final(self).page_rows() == old(self).page_rows()
                } else {
                    final(self).page_rows() == old(self).page_rows().update(
                        i,
                        PageRowView {
                            ocr_text: Some(ocr_text@),
                            has_problems: problem_count > 0,
                            problem_count,
                            updated_at: now,
                            ..old(self).page_rows()[i]
                        },
                    )
                }
            }),
            final(self).book_rows() == old(self).book_rows(),
            final(self).chapter_rows() == old(self).chapter_rows(),
            final(self).problem_rows() == old(self).problem_rows(),
            final(self).solution_rows() == old(self).solution_rows(),
    {
        let ghost before = self.page_rows();
        let owned = page_id.to_owned();
        if let Some(i) = self.find_page(&owned) {
            proof {
                assert(before[i as int] == spec_page_row_of(self.pages@[i as int]));
            }
            let text = ocr_text.to_owned();
            let slot = &mut self.pages[i];
            slot.ocr_text = Some(text);
            slot.has_problems = problem_count > 0;
            slot.problem_count = problem_count;
            slot.updated_at = now;
            proof {
                assert(spec_page_row_of(self.pages@[i as int]) == PageRowView {
                    ocr_text: Some(ocr_text@),
                    has_problems: problem_count > 0,
                    problem_count,
                    updated_at: now,
                    ..before[i as int]
                });
                assert(final(self).page_rows() =~= before.update(
                    i as int,
                    PageRowView {
                        ocr_text: Some(ocr_text@),
                        has_problems: problem_count > 0,
                        problem_count,
                        updated_at: now,
                        ..before[i as int]
                    },
                ));
            }
        }
    }

    fn find_solution(&self, problem_id: &String, provider: &String) -> (r: Option<usize>)
        ensures
            match r {
                Some(i) => i == spec_solution_index(self.solution_rows(), problem_id@, provider@)
                    && i < self.solution_rows().len(),
                None => spec_solution_index(self.solution_rows(), problem_id@, provider@) == -1,
            },
    {
        let n = self.solutions.len();
        let mut i: usize = 0;
        while i < n
            invariant
                i <= n,
                n == self.solution_rows().len(),
                n == self.solutions@.len(),
                forall|j: int|
                    0 <= j < i ==> !(self.solution_rows()[j].problem_id == problem_id@
                        && self.solution_rows()[j].provider == provider@),
            decreases n - i,
        {
            proof {
                assert(self.solution_rows()[i as int] == spec_solution_row_of(
                    self.solutions@[i as int],
                ));
            }
            if self.solutions[i].problem_id == *problem_id && self.solutions[i].provider
                == *provider {
                proof {
                    lemma_solution_index_skip(
                        self.solution_rows(),
                        problem_id@,
                        provider@,
                        i as int,
                    );
                    let t = self.solution_rows().subrange(i as int, n as int);
                    assert(t[0] == self.solution_rows()[i as int]);
                }
                return Some(i);
            }
            i = i + 1;
        }
        proof {
            lemma_solution_index_skip(self.solution_rows(), problem_id@, provider@, n as int);
            assert(self.solution_rows().subrange(n as int, n as int) =~= Seq::<
                SolutionRowView,
            >::empty());
        }
        None
    }

    /// Write one solution: keyed by problem and provider, an existing
    /// solution keeps its identity, verification and rating, and takes
    /// the new content and update time.
    pub fn save_solution(&mut self, solution: Solution)
        ensures
            final(self).solution_rows() == spec_solution_upsert(
                old(self).solution_rows(),
                spec_solution_row_of(solution),
            ),
            final(self).book_rows() == old(self).book_rows(),
            final(self).chapter_rows() == old(self).chapter_rows(),
            final(self).page_rows() == old(self).page_rows(),
            final(self).problem_rows() == old(self).problem_rows(),
    {
        let ghost new_row = spec_solution_row_of(solution);
        let ghost before = self.solution_rows();
        let idx = self.find_solution(&solution.problem_id, &solution.provider);
        match idx {
            None => {
                self.solutions.push(solution);
                proof {
                    assert(final(self).solution_rows() =~= before.push(new_row));
                }
            },
            Some(i) => {
                proof {
                    assert(before[i as int] == spec_solution_row_of(self.solutions@[i as int]));
                }
                let content = solution.content;
                let latex = solution.latex_formulas;
                let updated_at = solution.updated_at;
                let slot = &mut self.solutions[i];
                slot.content = content;
                slot.latex_formulas = latex;
                slot.updated_at = updated_at;
                proof {
                    assert(spec_solution_row_of(self.solutions@[i as int]) == spec_merge_solution(
                        new_row,
                        before[i as int],
                    ));
                    assert(final(self).solution_rows() =~= before.update(
                        i as int,
                        spec_merge_solution(new_row, before[i as int]),
                    ));
                }
            },
        }
    }
}

} // verus!
