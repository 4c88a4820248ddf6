//! Cache expiry, hashing, backoff and the hybrid parser's strategy
//! order, on concrete values and an injected clock.

use booker::cache::{sha256_hex, AIParseCache, TimedCache};
use booker::parse::{AIParseResult, HybridParser, ParsedProblem};
use booker::retry::{
    calculate_delay_from, run_retry, run_retry_with_policy, AttemptOutcome, CircuitBreaker,
    RetryConfig, RetryDecision, RetryState, RetryVerdict,
};

fn one_problem(number: &str) -> AIParseResult {
    AIParseResult {
        problems: vec![ParsedProblem {
            number: number.to_string(),
            content: "текст".to_string(),
            sub_problems: vec![],
            continues_from_prev: false,
            continues_to_next: false,
        }],
    }
}

#[test]
fn test_timed_cache() {
    let mut cache: TimedCache<String> = TimedCache::new(1);

    cache.set("key1", "value1".to_string(), 0);

    assert_eq!(cache.get("key1", 0), Some(&"value1".to_string()));

    // the time-to-live has elapsed
    assert_eq!(cache.get("key1", 2), None);
}

#[test]
fn test_hash_generation() {
    let text1 = "Задача 15. Решите уравнение $x^2 = 4$";
    let text2 = "Задача 15. Решите уравнение $x^2 = 4$";
    let text3 = "Другой текст";

    assert_eq!(sha256_hex(text1), sha256_hex(text2));

    assert_ne!(sha256_hex(text1), sha256_hex(text3));
}

#[test]
fn sha256_of_empty_text_is_the_known_digest() {
    assert_eq!(
        sha256_hex(""),
        "e3b0c44298fc1c149afbf4c8996fb92427ae41e4649b934ca495991b7852b855"
    );
}

#[test]
fn parse_cache_hits_only_identical_text_and_expires() {
    let mut cache = AIParseCache::new();
    cache.set("страница 5", one_problem("5"), 1000);
    let hit = cache.get("страница 5", 1000).expect("cache hit");
    assert_eq!(hit.problems[0].number, "5");
    assert!(cache.get("страница 6", 1000).is_none());
    // seven days later the entry has expired
    assert!(cache.get("страница 5", 1000 + 604800001).is_none());
}

#[test]
fn cache_cleanup_evicts_expired_entries() {
    let mut cache: TimedCache<u32> = TimedCache::new(10);
    cache.set_with_ttl("old", 1, 1, 0);
    cache.set_with_ttl("fresh", 2, 1000, 0);
    assert_eq!(cache.len(), 2);
    cache.cleanup(100);
    assert_eq!(cache.len(), 1);
    assert_eq!(cache.get("fresh", 100), Some(&2));
}

#[test]
fn retry_with_backoff_exhausts_exactly_max_attempts() {
    let config = RetryConfig { max_attempts: 3, ..Default::default() };
    // the operation always fails
    let outcomes = vec![false, false, false];
    let (attempts, success) = run_retry(&config, &outcomes);
    assert_eq!(attempts, 3);
    assert!(!success);
}

#[test]
fn retry_stops_at_first_success() {
    let config = RetryConfig { max_attempts: 5, ..Default::default() };
    let outcomes = vec![false, true, false, false, false];
    let (attempts, success) = run_retry(&config, &outcomes);
    assert_eq!(attempts, 2);
    assert!(success);
}

#[test]
fn policy_abort_fails_fast() {
    let config = RetryConfig { max_attempts: 4, ..Default::default() };
    let outcomes = vec![
        AttemptOutcome::Failure(RetryDecision::Retry),
        AttemptOutcome::Failure(RetryDecision::Abort),
        AttemptOutcome::Success,
        AttemptOutcome::Success,
    ];
    let (attempts, verdict) = run_retry_with_policy(&config, &outcomes);
    assert_eq!(attempts, 2);
    assert!(verdict == RetryVerdict::Aborted);
}

#[test]
fn backoff_delay_is_exponential_with_jitter_band() {
    let config = RetryConfig::default();
    // a zero draw lands on the low edge of the band: raw minus a quarter
    assert_eq!(calculate_delay_from(&config, 1, 0), 375);
    assert_eq!(calculate_delay_from(&config, 2, 0), 750);
    // the top draw inside the band lands on raw plus a quarter
    assert_eq!(calculate_delay_from(&config, 1, 250), 625);
    // far attempts are capped at the maximum delay
    assert_eq!(calculate_delay_from(&config, 30, 0), 30000);
}

#[test]
fn retry_state_walks_the_schedule() {
    let config = RetryConfig::default();
    let mut state = RetryState::new(config);
    let d1 = state.on_failure(0);
    assert_eq!(d1, Some(375));
    let d2 = state.on_failure(0);
    assert_eq!(d2, Some(750));
    let d3 = state.on_failure(0);
    assert!(d3.is_none());
}

#[test]
fn circuit_breaker_opens_half_opens_and_closes() {
    let mut breaker = CircuitBreaker::new(2, 1000);
    assert!(breaker.can_execute(0));
    breaker.record_failure(10);
    assert!(!breaker.is_open());
    breaker.record_failure(20);
    assert!(breaker.is_open());
    // before the reset timeout nothing goes out
    assert!(!breaker.can_execute(500));
    // after the timeout one call may probe
    assert!(breaker.can_execute(1020));
    breaker.record_success();
    assert!(!breaker.is_open());
    assert!(breaker.can_execute(1021));
}

#[test]
fn hybrid_parser_prefers_deterministic_then_cache() {
    let mut parser = HybridParser::new(None);
    let text = "71. Результат деления.";
    let first = parser.parse_text("algebra-7", text, Some(1), None, 0);
    assert_eq!(first.problems.len(), 1);
    assert_eq!(first.problems[0].number, "71");
    // the second call hits the cache and reads the same
    let second = parser.parse_text("algebra-7", text, Some(1), None, 1);
    assert_eq!(second.problems.len(), 1);
    assert_eq!(second.problems[0].number, "71");
}

#[test]
fn hybrid_parser_takes_supplied_ai_parse_when_keyed() {
    let mut parser = HybridParser::new(Some("test-key".to_string()));
    let ai = one_problem("9");
    let r = parser.parse_text("some-other-book", "произвольный текст", Some(2), Some(ai), 0);
    assert_eq!(r.problems.len(), 1);
    assert_eq!(r.problems[0].number, "9");
}

#[test]
fn hybrid_parser_falls_back_to_regex() {
    // no key configured: the AI strategy is skipped even when supplied
    let mut parser = HybridParser::new(None);
    let r = parser.parse_text(
        "some-other-book",
        "Задача 3: Вычислить произведение.",
        Some(2),
        Some(one_problem("9")),
        0,
    );
    assert_eq!(r.problems.len(), 1);
    assert_eq!(r.problems[0].number, "3");
}

#[test]
fn analyze_cross_page_judges_incomplete_endings() {
    let parser = HybridParser::new(None);
    let current = vec![ParsedProblem {
        number: "8".to_string(),
        content: "Задача обрывается на полуслове".to_string(),
        sub_problems: vec![],
        continues_from_prev: false,
        continues_to_next: false,
    }];
    let analysis = parser.analyze_cross_page(&current, Some("продолжение текста"));
    assert!(!analysis.last_problem_complete);
    assert_eq!(analysis.incomplete_problem.as_deref(), Some("8"));
    assert_eq!(analysis.continued_problem.as_deref(), Some("8"));

    let done = vec![ParsedProblem {
        number: "8".to_string(),
        content: "Задача закончена.".to_string(),
        sub_problems: vec![],
        continues_from_prev: false,
        continues_to_next: false,
    }];
    let analysis2 = parser.analyze_cross_page(&done, Some("1. Новая задача"));
    assert!(analysis2.last_problem_complete);
    assert!(analysis2.incomplete_problem.is_none());
    assert!(analysis2.continued_problem.is_none());
}

#[test]
fn generated_solution_ids_carry_the_problem_id() {
    let id = booker::models::Solution::generate_id("algebra-7:1:5");
    assert!(id.starts_with("algebra-7:1:5:S:"));
    assert_eq!(id.len(), "algebra-7:1:5".len() + 39);
}

#[test]
fn ai_supplied_continuation_flags_are_cleared() {
    // only the cross-page reconciler may mark a continuation; flags that
    // arrive with an AI parse are dropped
    let mut parser = HybridParser::new(Some("test-key".to_string()));
    let ai = AIParseResult {
        problems: vec![ParsedProblem {
            number: "4".to_string(),
            content: "текст задачи".to_string(),
            sub_problems: vec![],
            continues_from_prev: true,
            continues_to_next: true,
        }],
    };
    let r = parser.parse_text("flags-book", "какой-то текст", Some(3), Some(ai), 0);
    assert_eq!(r.problems.len(), 1);
    assert!(!r.problems[0].continues_from_prev);
    assert!(!r.problems[0].continues_to_next);
}
