use lcount::cli::SortKey;
use lcount::output::csv::render;
use lcount::output::table::{file_table, lang_table};
use lcount::stats::{build_report, FileStats};

fn file(path: &str, language: &'static str, blank: u64, comment: u64, code: u64) -> FileStats {
    FileStats { path: path.to_string(), language, blank, comment, code, bytes: 0 }
}

#[test]
fn csv_output_exact() {
    let files = vec![file("a.rs", "Rust", 1, 2, 30), file("b.py", "Python", 0, 1, 4)];
    let report = build_report(files, SortKey::Code, false);
    assert_eq!(
        render(&report),
        "language,files,blank,comment,code\nRust,1,1,2,30\nPython,1,0,1,4\nSUM,2,1,3,34\n"
    );
}

#[test]
fn csv_output_by_file() {
    let files = vec![file("x.rs", "Rust", 0, 0, 1)];
    let report = build_report(files, SortKey::Name, true);
    assert_eq!(
        render(&report),
        "language,files,blank,comment,code\nRust,1,0,0,1\nSUM,1,0,0,1\n\nfile,language,blank,comment,code\nx.rs,Rust,0,0,1\n"
    );
}

#[test]
fn csv_numbers_are_decimal() {
    let files = vec![file("big.c", "C", 0, 0, u64::MAX)];
    let report = build_report(files, SortKey::Code, false);
    assert!(render(&report).contains("C,1,0,0,18446744073709551615\n"));
}

#[test]
fn tables_hold_rows_and_sum() {
    let files = vec![file("src/a.rs", "Rust", 1, 2, 30), file("b.py", "Python", 0, 1, 4)];
    let report = build_report(files, SortKey::Code, true);
    let text = lang_table(&report.by_lang, &report.totals).to_string();
    assert!(text.contains("Language") && text.contains("Rust") && text.contains("SUM"));
    assert!(text.contains("34"));
    assert!(text.contains('│') && text.contains('═'));
    let text = file_table(report.by_file.as_ref().unwrap()).to_string();
    assert!(text.contains("File") && text.contains("src/a.rs") && text.contains("Python"));
}

#[test]
fn csv_numbers_zero_and_inner_zeros() {
    let files = vec![file("a.go", "Go", 0, 100, 10)];
    let report = build_report(files, SortKey::Code, false);
    assert!(render(&report).contains("Go,1,0,100,10\n"));
}
