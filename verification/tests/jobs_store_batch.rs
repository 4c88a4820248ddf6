//! Job lifecycle, storage semantics and the batch pipelines, driven on
//! concrete runs.

use booker::batch::{plan_page_ocr, run_batch_ocr, run_batch_solve, BatchRunOutcome, OcrPageAction, SolveRunOutcome};
use booker::jobs::{JobManager, JobStatus, JobType};
use booker::models::{Book, Problem};
use booker::parse::HybridParser;
use booker::store::ProblemStore;

fn plain_problem(id: &str, chapter: &str, number: &str, parent: Option<&str>) -> Problem {
    Problem {
        id: id.to_string(),
        chapter_id: chapter.to_string(),
        page_id: None,
        parent_id: parent.map(|p| p.to_string()),
        number: number.to_string(),
        display_name: format!("Задача {}", number),
        content: format!("{}. Условие", number),
        latex_formulas: vec![],
        page_number: None,
        difficulty: None,
        has_solution: false,
        created_at: 0,
        solution: None,
        sub_problems: None,
        continues_from_page: None,
        continues_to_page: None,
        is_cross_page: false,
        is_bookmarked: false,
    }
}

fn test_book(id: &str) -> Book {
    Book {
        id: id.to_string(),
        title: id.to_string(),
        author: None,
        subject: None,
        file_path: format!("resources/{}.pdf", id),
        total_pages: 10,
        created_at: 0,
    }
}

#[test]
fn cancelled_job_sees_no_further_updates() {
    let mut jobs = JobManager::new();
    let id = jobs.create_job(
        JobType::BatchOcr {
            book_id: "algebra-7".to_string(),
            page_range: (1, 3),
            chapter_id: "algebra-7:1".to_string(),
        },
        100,
    );
    jobs.update_progress(&id, 10, "working", 200);
    jobs.cancel_job(&id, 300);
    {
        let job = jobs.get_job(&id).expect("job exists");
        assert!(matches!(job.status, JobStatus::Cancelled));
        assert_eq!(job.updated_at, 300);
    }
    // a later progress update leaves the cancelled job untouched
    jobs.update_progress(&id, 50, "late", 400);
    let job = jobs.get_job(&id).expect("job exists");
    assert!(matches!(job.status, JobStatus::Cancelled));
    assert_eq!(job.updated_at, 300);
}

#[test]
fn cleanup_drops_only_old_terminal_jobs() {
    let mut jobs = JobManager::new();
    let id1 = jobs.create_job(
        JobType::Export {
            book_id: "b".to_string(),
            format: booker::jobs::ExportFormat::Markdown,
        },
        0,
    );
    let id2 = jobs.create_job(
        JobType::Export {
            book_id: "b".to_string(),
            format: booker::jobs::ExportFormat::Json,
        },
        0,
    );
    jobs.cancel_job(&id1, 0);
    // a day has passed: the cancelled job is swept, the pending one stays
    jobs.cleanup_old_jobs(86400000);
    assert!(jobs.get_job(&id1).is_none());
    assert!(jobs.get_job(&id2).is_some());
}

#[test]
fn sub_problems_can_repeat_letters_across_different_parents() {
    let mut store = ProblemStore::new();
    store.create_book(test_book("algebra-7"));
    let p1 = plain_problem("algebra-7:1:71", "algebra-7:1", "71", None);
    let s1 = plain_problem("algebra-7:1:71:a", "algebra-7:1", "a", Some("algebra-7:1:71"));
    let p2 = plain_problem("algebra-7:1:72", "algebra-7:1", "72", None);
    let s2 = plain_problem("algebra-7:1:72:a", "algebra-7:1", "a", Some("algebra-7:1:72"));
    let count = store.create_or_update_problems(vec![p1, s1, p2, s2]);
    assert_eq!(count, 4);
    assert_eq!(store.problem_count(), 4);
    let subs1 = store.get_problem("algebra-7:1:71:a").expect("subs1");
    let subs2 = store.get_problem("algebra-7:1:72:a").expect("subs2");
    assert_eq!(subs1.number, "a");
    assert_eq!(subs2.number, "a");
}

#[test]
fn same_parent_same_letter_overwrites() {
    let mut store = ProblemStore::new();
    let s1 = plain_problem("b:1:5:a", "b:1", "a", Some("b:1:5"));
    let mut s2 = plain_problem("b:1:5:a", "b:1", "a", Some("b:1:5"));
    s2.content = "другой текст".to_string();
    store.create_or_update_problems(vec![s1, s2]);
    assert_eq!(store.problem_count(), 1);
    assert_eq!(store.get_problem("b:1:5:a").unwrap().content, "другой текст");
}

#[test]
fn rewriting_problems_is_idempotent_in_count() {
    let mut store = ProblemStore::new();
    let batch = vec![
        plain_problem("b:1:1", "b:1", "1", None),
        plain_problem("b:1:2", "b:1", "2", None),
    ];
    let batch_again = vec![
        plain_problem("b:1:1", "b:1", "1", None),
        plain_problem("b:1:2", "b:1", "2", None),
    ];
    store.create_or_update_problems(batch);
    let before = store.problem_count();
    store.create_or_update_problems(batch_again);
    assert_eq!(store.problem_count(), before);
}

#[test]
fn upsert_keeps_solution_flag_and_creation_time() {
    let mut store = ProblemStore::new();
    let mut first = plain_problem("b:1:9", "b:1", "9", None);
    first.created_at = 1111;
    store.create_or_update_problems(vec![first]);
    store.update_problem_solution_status("b:1:9", true);
    let mut rewrite = plain_problem("b:1:9", "b:1", "9", None);
    rewrite.created_at = 2222;
    rewrite.content = "новое условие".to_string();
    store.create_or_update_problems(vec![rewrite]);
    let row = store.get_problem("b:1:9").unwrap();
    assert!(row.has_solution);
    assert_eq!(row.created_at, 1111);
    assert_eq!(row.content, "новое условие");
}

#[test]
fn delete_by_page_removes_page_problems_and_their_subs() {
    let mut store = ProblemStore::new();
    let page = store.get_or_create_page("b", 4, 0);
    let mut main = plain_problem("b:1:7", "b:1", "7", None);
    main.page_id = Some(page.id.clone());
    let mut sub = plain_problem("b:1:7:a", "b:1", "a", Some("b:1:7"));
    sub.page_id = Some(page.id.clone());
    let elsewhere = plain_problem("b:2:7", "b:2", "7", None);
    store.create_or_update_problems(vec![main, sub, elsewhere]);
    let removed = store.delete_problems_by_page(&page.id);
    assert_eq!(removed, 2);
    assert_eq!(store.problem_count(), 1);
    assert!(store.get_problem("b:2:7").is_some());
}

#[test]
fn completed_batch_ocr_reports_every_page_of_the_range() {
    let mut store = ProblemStore::new();
    let mut jobs = JobManager::new();
    let mut parser = HybridParser::new(None);
    store.create_book(test_book("algebra-7"));
    let job_id = jobs.create_job(
        JobType::BatchOcr {
            book_id: "algebra-7".to_string(),
            page_range: (5, 7),
            chapter_id: "algebra-7:1".to_string(),
        },
        0,
    );
    let texts = vec![
        "71. Первая задача.".to_string(),
        "72. Вторая задача.".to_string(),
        "73. Третья задача.".to_string(),
    ];
    let outcome = run_batch_ocr(
        &mut store,
        &mut jobs,
        &mut parser,
        &job_id,
        "algebra-7",
        5,
        7,
        "algebra-7:1",
        texts,
        vec![None, None, None],
        2,
        1000,
    );
    match outcome {
        BatchRunOutcome::Completed(result) => {
            assert_eq!(result.processed_pages, 3);
            assert!(result.errors.is_empty());
            assert_eq!(result.duration_secs, 2);
        }
        _ => panic!("expected a completed run"),
    }
    // the parsed problems were persisted under the page
    assert!(store.get_problem("algebra-7:1:71").is_some());
    assert!(store.get_problem("algebra-7:1:73").is_some());
    let job = jobs.get_job(&job_id).expect("job exists");
    assert!(matches!(job.status, JobStatus::Completed { .. }));
}

#[test]
fn batch_ocr_fails_early_on_unknown_book() {
    let mut store = ProblemStore::new();
    let mut jobs = JobManager::new();
    let mut parser = HybridParser::new(None);
    let job_id = jobs.create_job(
        JobType::BatchOcr {
            book_id: "missing".to_string(),
            page_range: (1, 1),
            chapter_id: "missing:1".to_string(),
        },
        0,
    );
    let outcome = run_batch_ocr(
        &mut store,
        &mut jobs,
        &mut parser,
        &job_id,
        "missing",
        1,
        1,
        "missing:1",
        vec![String::new()],
        vec![None],
        0,
        5,
    );
    assert!(matches!(outcome, BatchRunOutcome::FailedEarly));
    let job = jobs.get_job(&job_id).expect("job exists");
    match &job.status {
        JobStatus::Failed { error } => assert_eq!(error, "Book not found: missing"),
        _ => panic!("expected a failed job"),
    }
}

#[test]
fn batch_solve_counts_saved_skipped_and_missing() {
    let mut store = ProblemStore::new();
    let mut jobs = JobManager::new();
    let mut solved = plain_problem("b:1:1", "b:1", "1", None);
    solved.has_solution = true;
    let open_problem = plain_problem("b:1:2", "b:1", "2", None);
    store.create_or_update_problems(vec![solved, open_problem]);
    let job_id = jobs.create_job(
        JobType::BatchSolve {
            problem_ids: vec!["b:1:1".to_string(), "b:1:2".to_string(), "b:1:404".to_string()],
            provider: "openai".to_string(),
        },
        0,
    );
    let ids = vec!["b:1:1".to_string(), "b:1:2".to_string(), "b:1:404".to_string()];
    let provided = vec![None, Some("Решение задачи 2".to_string()), None];
    let outcome = run_batch_solve(&mut store, &mut jobs, &job_id, &ids, provided, "openai", 1, 9);
    match outcome {
        SolveRunOutcome::Completed(result) => {
            assert_eq!(result.processed, 3);
            assert_eq!(result.succeeded, 2);
            assert_eq!(result.failed, 1);
        }
        _ => panic!("expected a completed run"),
    }
    assert!(store.get_problem("b:1:2").unwrap().has_solution);
}

#[test]
fn get_or_create_page_is_stable() {
    let mut store = ProblemStore::new();
    let a = store.get_or_create_page("bk", 3, 10);
    let b = store.get_or_create_page("bk", 3, 20);
    assert_eq!(a.id, "bk:page:3");
    assert_eq!(a.id, b.id);
    assert_eq!(b.created_at, 10);
    // the stand-in book was written too
    assert!(store.get_book("bk").is_some());
}

#[test]
fn pre_cancelled_batch_ocr_touches_nothing() {
    let mut store = ProblemStore::new();
    let mut jobs = JobManager::new();
    let mut parser = HybridParser::new(None);
    store.create_book(test_book("algebra-7"));
    let job_id = jobs.create_job(
        JobType::BatchOcr {
            book_id: "algebra-7".to_string(),
            page_range: (5, 5),
            chapter_id: "algebra-7:1".to_string(),
        },
        0,
    );
    jobs.cancel_job(&job_id, 10);
    let outcome = run_batch_ocr(
        &mut store,
        &mut jobs,
        &mut parser,
        &job_id,
        "algebra-7",
        5,
        5,
        "algebra-7:1",
        vec!["71. Первая задача.".to_string()],
        vec![None],
        1,
        20,
    );
    assert!(matches!(outcome, BatchRunOutcome::Cancelled));
    // nothing was parsed into the store, and the job stays cancelled
    assert!(store.get_problem("algebra-7:1:71").is_none());
    let job = jobs.get_job(&job_id).expect("job exists");
    assert!(matches!(job.status, JobStatus::Cancelled));
}

#[test]
fn pre_cancelled_batch_solve_touches_nothing() {
    let mut store = ProblemStore::new();
    let mut jobs = JobManager::new();
    store.create_book(test_book("algebra-7"));
    store.create_or_update_problems(vec![plain_problem(
        "algebra-7:1:71",
        "algebra-7:1",
        "71",
        None,
    )]);
    let job_id = jobs.create_job(
        JobType::BatchSolve {
            problem_ids: vec!["algebra-7:1:71".to_string()],
            provider: "openai".to_string(),
        },
        0,
    );
    jobs.cancel_job(&job_id, 10);
    let ids = vec!["algebra-7:1:71".to_string()];
    let provided = vec![Some("решение".to_string())];
    let outcome = run_batch_solve(&mut store, &mut jobs, &job_id, &ids, provided, "openai", 1, 20);
    assert!(matches!(outcome, SolveRunOutcome::Cancelled));
    let p = store.get_problem("algebra-7:1:71").expect("problem exists");
    assert!(!p.has_solution);
}

#[test]
fn ocr_page_plan_follows_force_and_incremental() {
    let cached = "страница".to_string();
    let empty = String::new();
    // force always re-runs, even over a cached text
    assert!(matches!(
        plan_page_ocr(Some(&cached), true, true),
        OcrPageAction::RunOcr
    ));
    // an incremental pass skips a page that already has text
    assert!(matches!(
        plan_page_ocr(Some(&cached), true, false),
        OcrPageAction::SkipPage
    ));
    // a plain pass reuses the cached text without another OCR call
    assert!(matches!(
        plan_page_ocr(Some(&cached), false, false),
        OcrPageAction::UseCached
    ));
    // an empty cached text counts as absent
    assert!(matches!(
        plan_page_ocr(Some(&empty), true, false),
        OcrPageAction::RunOcr
    ));
    assert!(matches!(
        plan_page_ocr(None, false, false),
        OcrPageAction::RunOcr
    ));
}
