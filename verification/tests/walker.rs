use lcount::cli::{Args, SortKey};
use lcount::language::lang_by_extension;
use lcount::walker::{
    collect_files, entry_allowed, exceeds_size, is_excluded_by_ext, is_excluded_by_lang,
    FileCandidate,
};

fn args() -> Args {
    Args {
        paths: vec![".".to_string()],
        json: false,
        csv: false,
        by_file: false,
        sort: SortKey::Code,
        exclude_dirs: vec![],
        exclude_exts: vec![],
        include_langs: vec![],
        max_file_size: None,
        git: false,
    }
}

fn cand(path: &str, ext: Option<&str>, size: u64) -> FileCandidate {
    FileCandidate {
        path: path.to_string(),
        ext: ext.map(|e| e.to_string()),
        lang: ext.and_then(lang_by_extension),
        size: Some(size),
    }
}

#[test]
fn skips_not_and_nod_entries() {
    let none: Vec<String> = vec![];
    assert!(!entry_allowed(".not", true, &none));
    assert!(!entry_allowed(".nod", true, &none));
    assert!(!entry_allowed(".not", false, &none));
    assert!(entry_allowed("src", true, &none));
    assert!(entry_allowed(".nothing", true, &none));
}

#[test]
fn exclude_dir_applies_to_directories_only() {
    let ex = vec!["vendor".to_string()];
    assert!(!entry_allowed("vendor", true, &ex));
    assert!(entry_allowed("vendor", false, &ex));
    assert!(entry_allowed("Vendor", true, &ex));
}

#[test]
fn extension_filter() {
    let ex = vec!["json".to_string()];
    assert!(is_excluded_by_ext(Some("json"), &ex));
    assert!(!is_excluded_by_ext(Some("rs"), &ex));
    assert!(!is_excluded_by_ext(None, &ex));
    assert!(!is_excluded_by_ext(Some("json"), &vec![]));
}

#[test]
fn language_filter_ignores_ascii_case() {
    let inc = vec!["rust".to_string(), "PYTHON".to_string()];
    assert!(!is_excluded_by_lang(&lang_by_extension("rs"), &inc));
    assert!(!is_excluded_by_lang(&lang_by_extension("py"), &inc));
    assert!(is_excluded_by_lang(&lang_by_extension("go"), &inc));
    assert!(is_excluded_by_lang(&None, &inc));
    assert!(!is_excluded_by_lang(&None, &vec![]));
}

#[test]
fn size_filter() {
    assert!(exceeds_size(Some(1000), Some(100)));
    assert!(!exceeds_size(Some(100), Some(100)));
    assert!(!exceeds_size(None, Some(100)));
    assert!(!exceeds_size(Some(1000), None));
}

#[test]
fn collect_files_applies_all_filters_in_order() {
    let cands = vec![
        cand("a.rs", Some("rs"), 10),
        cand("b.json", Some("json"), 2),
        cand("big.rs", Some("rs"), 1000),
        cand("c.py", Some("py"), 5),
        cand("README", None, 1),
    ];
    let mut a = args();
    assert_eq!(collect_files(&a, cands.iter().map(|c| cand(&c.path, c.ext.as_deref(), c.size.unwrap())).collect()).len(), 5);
    a.exclude_exts = vec!["json".to_string()];
    a.max_file_size = Some(100);
    a.include_langs = vec!["rust".to_string()];
    assert_eq!(collect_files(&a, cands), vec!["a.rs".to_string()]);
}
