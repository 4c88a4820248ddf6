//! Parsing, reconciliation and validation behaviour, checked on concrete
//! pages.

use booker::models::Problem;
use booker::parse;
use booker::reconcile::split_trailing_chapter_heading;
use booker::textbook::{detect_problem_start, detect_theory_start, TextbookParser};
use booker::toc::TocDetector;
use booker::validation::validate_latex;

fn chars(s: &str) -> Vec<char> {
    s.chars().collect()
}

#[test]
fn test_ocr_provider() {
    // Тесты для OCR провайдера
}

#[test]
fn test_problem_id_generation() {
    let id = Problem::generate_id("algebra-7", 3, "15");
    assert_eq!(id, "algebra-7:3:15");
}

#[test]
fn test_formula_extraction() {
    let problem = Problem {
        id: "test".to_string(),
        chapter_id: "test".to_string(),
        page_id: None,
        parent_id: None,
        number: "1".to_string(),
        display_name: "Test".to_string(),
        content: "Solve $x^2 + y^2 = z^2$ and $$\\int_0^1 x dx$$".to_string(),
        latex_formulas: vec![],
        page_number: None,
        difficulty: None,
        has_solution: false,
        created_at: 0,
        solution: None,
        sub_problems: None,
        continues_from_page: None,
        continues_to_page: None,
        is_cross_page: false,
        is_bookmarked: false,
    };

    let formulas = problem.extract_formulas();
    assert!(formulas.contains(&"x^2 + y^2 = z^2".to_string()));
}

#[test]
fn parses_numbered_exercises_and_subproblems() {
    let text = r#"
71. Результаты проверки скорости чтения...

# Упражнения для повторения

72. Найдите значение выражения:
a) 2+2
б) 3+3
"#;

    let res = parse::parse(text);
    assert_eq!(res.problems.len(), 2);
    assert_eq!(res.problems[0].number, "71");
    assert_eq!(res.problems[1].number, "72");
    assert_eq!(res.problems[1].sub_problems.len(), 2);
    assert_eq!(res.problems[1].sub_problems[0].letter, "a");
    assert_eq!(res.problems[1].sub_problems[0].content, "2+2");
}

#[test]
fn does_not_treat_step_lists_as_problems() {
    let text = r#"
Пример 2. Найдём значение выражения
1) $6^{2}=36$
2) $(-2)^{5}=-32$

73. Настоящая задача.
"#;

    let res = parse::parse(text);
    assert_eq!(res.problems.len(), 1);
    assert_eq!(res.problems[0].number, "73");
}

#[test]
fn parses_zadacha_prefix() {
    let text = r#"
## 5. Выражения с переменными
Задача 1. Завод ежедневно перерабатывает 5 т молока.
Задача 2: Ширина прямоугольника равна 5 см.
"#;

    let res = parse::parse(text);
    assert_eq!(res.problems.len(), 2);
    assert_eq!(res.problems[0].number, "1");
    assert!(res.problems[0].content.starts_with("Завод"));
    assert_eq!(res.problems[1].number, "2");
    assert!(res.problems[1].content.starts_with("Ширина"));
}

#[test]
fn strips_chapter_header_from_previous_problem_tail() {
    let text = r#"
702. Трёхзначное число оканчивается цифрой 6.
Если её зачеркнуть, то полученное число будет меньше данного на 366.
Найдите данное трёхзначное число.
Глава 5. Разложение многочленов на множители
"#;

    let res = parse::parse(text);
    assert_eq!(res.problems.len(), 1);
    let content = &res.problems[0].content;
    assert!(!content.contains("Глава 5"));
    assert!(content.contains("Найдите данное трёхзначное число."));
}

#[test]
fn splits_trailing_chapter_header_into_carryover() {
    let text = "702. Последняя задача.\nГлава 5. Разложение многочленов на множители";
    let (page_text, carryover) = split_trailing_chapter_heading(text);

    assert_eq!(page_text, "702. Последняя задача.");
    assert_eq!(
        carryover.as_deref(),
        Some("Глава 5. Разложение многочленов на множители")
    );
}

#[test]
fn leaves_text_intact_without_trailing_chapter_header() {
    let text = "701. Обычная задача без заголовка главы.";
    let (page_text, carryover) = split_trailing_chapter_heading(text);

    assert_eq!(page_text, text);
    assert!(carryover.is_none());
}

#[test]
fn test_detect_problem() {
    assert!(detect_problem_start(&chars("Задача 1: Решить уравнение")).is_some());
    assert!(detect_problem_start(&chars("Задача №5. Найти")).is_some());
    assert!(detect_problem_start(&chars("1. Вычислить интеграл")).is_some());
    assert!(detect_problem_start(&chars("1) $x^2 + 3$")).is_some());
    assert!(detect_problem_start(&chars("№125. Решить")).is_some());
}

#[test]
fn test_detect_theory() {
    assert!(detect_theory_start(&chars("Теорема 1: О сумме углов")).is_some());
    assert!(detect_theory_start(&chars("Определение: Производная")).is_some());
}

#[test]
fn test_parse_simple() {
    let parser = TextbookParser::new();
    let text = r#"
Теорема Пифагора: $c^2 = a^2 + b^2$

Задача 1: Найти гипотенузу если $a=3$, $b=4$
Решение: $c = \sqrt{9+16} = 5$

Задача 2: Найти катет если $c=5$, $a=3$
Ответ: $b=4$
"#;

    let result = parser.parse(text, "algebra-7", 1, 0);

    assert_eq!(result.problems.len(), 2);
    assert_eq!(result.theory_blocks.len(), 1);
    assert_eq!(result.problems[0].number, "1");
    assert_eq!(result.problems[1].number, "2");
}

#[test]
fn test_roman_to_arabic() {
    assert_eq!(TocDetector::roman_to_arabic("I"), Some(1));
    assert_eq!(TocDetector::roman_to_arabic("V"), Some(5));
    assert_eq!(TocDetector::roman_to_arabic("X"), Some(10));
    assert_eq!(TocDetector::roman_to_arabic("XIV"), Some(14));
    assert_eq!(TocDetector::roman_to_arabic("XLII"), Some(42));
}

#[test]
fn test_validate_latex() {
    let valid = "Solve $x^2 + y^2 = 1$";
    assert!(validate_latex(valid).is_empty());

    let unclosed = "Solve $x^2 + y^2 = 1";
    assert!(!validate_latex(unclosed).is_empty());
}

#[test]
fn unclosed_dollar_reports_exact_message() {
    let errors = validate_latex("only one $ here");
    assert_eq!(errors, vec!["Unclosed inline math delimiter ($)".to_string()]);
}

#[test]
fn formula_extraction_covers_all_three_shapes() {
    let formulas = booker::models::extract_all_formulas("$a$ $$b$$ \\[c\\]");
    assert_eq!(
        formulas,
        vec!["a".to_string(), "b".to_string(), "b".to_string(), "c".to_string()]
    );
}

#[test]
fn cross_page_merge_prefixes_previous_tail() {
    // page N's last problem 702 left an unterminated tail; page N+1 opens
    // with the same number
    let prev = parse::ParsedProblem {
        number: "702".to_string(),
        content: "Трёхзначное число оканчивается цифрой 6.\nЕсли её зачеркнуть".to_string(),
        sub_problems: vec![],
        continues_from_prev: false,
        continues_to_next: true,
    };
    let parser = parse::HybridParser::new(None);
    let tail = parser.extract_continuation_tail(&prev);
    assert_eq!(tail.as_deref(), Some("Если её зачеркнуть"));

    let mut current = vec![parse::ParsedProblem {
        number: "702".to_string(),
        content: "то полученное число будет меньше данного на 366.".to_string(),
        sub_problems: vec![],
        continues_from_prev: false,
        continues_to_next: false,
    }];
    parser.process_cross_page(Some(&prev), tail.as_deref(), &mut current, None);
    assert!(current[0].continues_from_prev);
    assert!(current[0]
        .content
        .starts_with("Если её зачеркнуть\n\nто полученное число"));
}

#[test]
fn cross_page_marks_continuation_to_next() {
    let parser = parse::HybridParser::new(None);
    let mut current = vec![parse::ParsedProblem {
        number: "9".to_string(),
        content: "Решите".to_string(),
        sub_problems: vec![],
        continues_from_prev: false,
        continues_to_next: false,
    }];
    let next = vec![parse::ParsedProblem {
        number: "9".to_string(),
        content: "продолжение".to_string(),
        sub_problems: vec![],
        continues_from_prev: false,
        continues_to_next: false,
    }];
    parser.process_cross_page(None, None, &mut current, Some(&next));
    assert!(current[0].continues_to_next);
}

#[test]
fn carryover_threads_through_the_page_range() {
    let texts = vec![
        "702. Последняя задача.\nГлава 5. Разложение".to_string(),
        "703. Первая задача новой главы.".to_string(),
    ];
    let (pages, leftover) = booker::batch::thread_carryover(&texts);
    assert_eq!(pages[0], "702. Последняя задача.");
    assert_eq!(pages[1], "Глава 5. Разложение\n\n703. Первая задача новой главы.");
    assert_eq!(leftover, "");
}

#[test]
fn chapter_title_is_cleaned() {
    let d = TocDetector::new();
    assert_eq!(d.extract_chapter_title(".: Название главы\nвторая", 0), "Название главы");
    assert_eq!(d.extract_chapter_title("", 0), "Untitled Chapter");
}

#[test]
fn heading_detection_takes_digits_and_romans() {
    assert!(booker::reconcile::is_chapter_heading_line("Глава 5. Многочлены"));
    assert!(booker::reconcile::is_chapter_heading_line("глава XIV"));
    assert!(!booker::reconcile::is_chapter_heading_line("Главарь банды"));
    assert!(!booker::reconcile::is_chapter_heading_line("705. Задача про главу"));
}

#[test]
fn merge_gathers_cross_page_problems_and_sorts() {
    let mut multi = parse::MultiPageParseResult {
        pages: vec![
            parse::PageParseResult {
                page_number: 10,
                problems: vec![
                    parse::ParsedProblem {
                        number: "702".to_string(),
                        content: "Начало условия".to_string(),
                        sub_problems: vec![parse::ParsedSubProblem {
                            letter: "а".to_string(),
                            content: "первая часть".to_string(),
                        }],
                        continues_from_prev: false,
                        continues_to_next: true,
                    },
                ],
            },
            parse::PageParseResult {
                page_number: 11,
                problems: vec![
                    parse::ParsedProblem {
                        number: "702".to_string(),
                        content: "и его конец.".to_string(),
                        sub_problems: vec![parse::ParsedSubProblem {
                            letter: "а".to_string(),
                            content: "повтор буквы".to_string(),
                        }],
                        continues_from_prev: true,
                        continues_to_next: false,
                    },
                    parse::ParsedProblem {
                        number: "7".to_string(),
                        content: "Меньший номер".to_string(),
                        sub_problems: vec![],
                        continues_from_prev: false,
                        continues_to_next: false,
                    },
                ],
            },
        ],
        merged_problems: vec![],
    };
    multi.merge_problems();
    assert_eq!(multi.merged_problems.len(), 2);
    // sorted numerically: 7 before 702
    assert_eq!(multi.merged_problems[0].number, "7");
    let joined = &multi.merged_problems[1];
    assert_eq!(joined.number, "702");
    assert_eq!(joined.content, "Начало условия\nи его конец.");
    assert_eq!(joined.pages, vec![10, 11]);
    // the letter seen first wins
    assert_eq!(joined.sub_problems.len(), 1);
    assert_eq!(joined.sub_problems[0].content, "первая часть");
}

#[test]
fn fractional_numbers_sort_as_decimals() {
    let mut multi = parse::MultiPageParseResult {
        pages: vec![parse::PageParseResult {
            page_number: 1,
            problems: vec![
                parse::ParsedProblem {
                    number: "1.15".to_string(),
                    content: "б".to_string(),
                    sub_problems: vec![],
                    continues_from_prev: false,
                    continues_to_next: false,
                },
                parse::ParsedProblem {
                    number: "1.2".to_string(),
                    content: "а".to_string(),
                    sub_problems: vec![],
                    continues_from_prev: false,
                    continues_to_next: false,
                },
            ],
        }],
        merged_problems: vec![],
    };
    multi.merge_problems();
    assert_eq!(multi.merged_problems[0].number, "1.15");
    assert_eq!(multi.merged_problems[1].number, "1.2");
}
