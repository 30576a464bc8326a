use lcount::cli::SortKey;
use lcount::stats::{build_report, group_by_language, sort_rows, totals, FileStats, LangStats};

fn file(path: &str, language: &'static str, blank: u64, comment: u64, code: u64) -> FileStats {
    FileStats { path: path.to_string(), language, blank, comment, code, bytes: 0 }
}

#[test]
fn file_total_lines() {
    assert_eq!(file("a", "Rust", 1, 2, 3).total_lines(), 6);
    assert_eq!(FileStats::default().total_lines(), 0);
}

#[test]
fn merge_adds_one_file() {
    let mut ls = LangStats { language: "Rust", files: 2, blank: 1, comment: 1, code: 10 };
    ls.merge(&file("a.rs", "Rust", 3, 4, 5));
    assert_eq!((ls.files, ls.blank, ls.comment, ls.code), (3, 4, 5, 15));
    assert_eq!(ls.total_lines(), 24);
    let d = LangStats::default();
    assert_eq!((d.language, d.files, d.total_lines()), ("", 0, 0));
}

#[test]
fn grouping_keeps_first_occurrence_order() {
    let files = vec![
        file("a.py", "Python", 1, 0, 2),
        file("b.rs", "Rust", 0, 1, 5),
        file("c.py", "Python", 2, 2, 2),
    ];
    let rows = group_by_language(&files);
    assert_eq!(rows.len(), 2);
    assert_eq!((rows[0].language, rows[0].files, rows[0].blank, rows[0].comment, rows[0].code), ("Python", 2, 3, 2, 4));
    assert_eq!((rows[1].language, rows[1].files, rows[1].blank, rows[1].comment, rows[1].code), ("Rust", 1, 0, 1, 5));
    let t = totals(&files);
    assert_eq!((t.language, t.files, t.blank, t.comment, t.code), ("SUM", 3, 3, 3, 9));
}

#[test]
fn sorting_orders_rows() {
    let rows = vec![
        LangStats { language: "Go", files: 1, blank: 5, comment: 0, code: 10 },
        LangStats { language: "C", files: 1, blank: 1, comment: 9, code: 30 },
        LangStats { language: "Ada", files: 1, blank: 0, comment: 0, code: 10 },
    ];
    let names = |v: &Vec<LangStats>| v.iter().map(|r| r.language).collect::<Vec<_>>();
    assert_eq!(names(&sort_rows(rows.clone(), SortKey::Code)), vec!["C", "Ada", "Go"]);
    assert_eq!(names(&sort_rows(rows.clone(), SortKey::Name)), vec!["Ada", "C", "Go"]);
    assert_eq!(names(&sort_rows(rows.clone(), SortKey::Blank)), vec!["Go", "C", "Ada"]);
    assert_eq!(names(&sort_rows(rows.clone(), SortKey::Comment)), vec!["C", "Ada", "Go"]);
    assert_eq!(names(&sort_rows(rows.clone(), SortKey::Lines)), vec!["C", "Go", "Ada"]);
    assert!(sort_rows(Vec::new(), SortKey::Code).is_empty());
}

#[test]
fn report_totals_are_sum_of_rows() {
    let files = vec![
        file("a.py", "Python", 1, 0, 2),
        file("b.rs", "Rust", 0, 1, 5),
        file("c.py", "Python", 2, 2, 2),
        file("d.sh", "Shell", 0, 0, 1),
    ];
    let report = build_report(files, SortKey::Code, true);
    let names: Vec<_> = report.by_lang.iter().map(|r| r.language).collect();
    assert_eq!(names, vec!["Rust", "Python", "Shell"]);
    let sum = |f: fn(&LangStats) -> u64| report.by_lang.iter().map(f).sum::<u64>();
    assert_eq!(sum(|r| r.files), report.totals.files);
    assert_eq!(sum(|r| r.blank), report.totals.blank);
    assert_eq!(sum(|r| r.comment), report.totals.comment);
    assert_eq!(sum(|r| r.code), report.totals.code);
    assert_eq!(report.totals.code, 10);
    assert_eq!(report.by_file.as_ref().map(|v| v.len()), Some(4));
    let report = build_report(Vec::new(), SortKey::Name, false);
    assert!(report.by_lang.is_empty() && report.by_file.is_none());
    assert_eq!((report.totals.language, report.totals.files), ("SUM", 0));
}
