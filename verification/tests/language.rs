use lcount::language::{detect, lang_by_extension, lang_by_shebang, languages};

#[test]
fn extension_resolves_to_language() {
    assert_eq!(lang_by_extension("rs").map(|l| l.name), Some("Rust"));
    assert_eq!(lang_by_extension("py").map(|l| l.name), Some("Python"));
    assert_eq!(lang_by_extension("go").map(|l| l.name), Some("Go"));
    assert_eq!(lang_by_extension("ts").map(|l| l.name), Some("TypeScript"));
    assert_eq!(lang_by_extension("java").map(|l| l.name), Some("Java"));
    assert_eq!(lang_by_extension("swift").map(|l| l.name), Some("Swift"));
    assert_eq!(lang_by_extension("kt").map(|l| l.name), Some("Kotlin"));
    assert_eq!(lang_by_extension("html").map(|l| l.name), Some("HTML"));
    assert_eq!(lang_by_extension("css").map(|l| l.name), Some("CSS"));
    assert_eq!(lang_by_extension("sh").map(|l| l.name), Some("Shell"));
    assert_eq!(lang_by_extension("rb").map(|l| l.name), Some("Ruby"));
    assert_eq!(lang_by_extension("php").map(|l| l.name), Some("PHP"));
    assert_eq!(lang_by_extension("md").map(|l| l.name), Some("Markdown"));
    assert_eq!(lang_by_extension("yml").map(|l| l.name), Some("YAML"));
    assert_eq!(lang_by_extension("toml").map(|l| l.name), Some("TOML"));
    assert_eq!(lang_by_extension("sql").map(|l| l.name), Some("SQL"));
    assert!(lang_by_extension("xyz").is_none());
}

#[test]
fn all_languages_have_at_least_one_extension() {
    for lang in languages() {
        assert!(
            !lang.extensions.is_empty(),
            "{} has no extensions",
            lang.name
        );
    }
}

#[test]
fn shebang_python() {
    assert_eq!(
        lang_by_shebang("#!/usr/bin/env python3").map(|l| l.name),
        Some("Python")
    );
}

#[test]
fn shebang_bash() {
    assert_eq!(
        lang_by_shebang("#!/bin/bash").map(|l| l.name),
        Some("Shell")
    );
}

#[test]
fn shebang_node() {
    assert_eq!(
        lang_by_shebang("#!/usr/bin/env node").map(|l| l.name),
        Some("JavaScript")
    );
}

#[test]
fn shebang_ruby() {
    assert_eq!(
        lang_by_shebang("#!/usr/bin/env ruby").map(|l| l.name),
        Some("Ruby")
    );
}

#[test]
fn non_shebang_returns_none() {
    assert!(lang_by_shebang("fn main() {}").is_none());
}

#[test]
fn every_extension_selects_its_own_language() {
    for lang in languages() {
        for ext in &lang.extensions {
            assert_eq!(lang_by_extension(ext).map(|l| l.name), Some(lang.name));
        }
    }
}

#[test]
fn extension_lookup_is_case_sensitive() {
    assert!(lang_by_extension("RS").is_none());
    assert!(lang_by_extension("").is_none());
    assert!(lang_by_extension(".rs").is_none());
}

#[test]
fn shebang_is_matched_without_regard_to_case() {
    assert_eq!(lang_by_shebang("#!/usr/bin/env PYTHON").map(|l| l.name), Some("Python"));
    assert_eq!(lang_by_shebang("#!/USR/BIN/ZSH").map(|l| l.name), Some("Shell"));
}

#[test]
fn shebang_plain_sh_forms() {
    assert_eq!(lang_by_shebang("#!/bin/sh").map(|l| l.name), Some("Shell"));
    assert_eq!(lang_by_shebang("#! /usr/bin/env sh").map(|l| l.name), Some("Shell"));
    assert!(lang_by_shebang("#!/usr/bin/perl").is_none());
    assert!(lang_by_shebang("#!").is_none());
    assert!(lang_by_shebang("# python").is_none());
}

#[test]
fn shebang_first_rule_wins() {
    // "python" is tested before "bash".
    assert_eq!(lang_by_shebang("#!/bin/bash python").map(|l| l.name), Some("Python"));
}

#[test]
fn detect_prefers_extension_then_shebang() {
    assert_eq!(detect(Some("rs"), None).map(|l| l.name), Some("Rust"));
    assert_eq!(
        detect(Some("rs"), Some("#!/usr/bin/env python\n")).map(|l| l.name),
        Some("Rust")
    );
    assert_eq!(
        detect(Some("cgi"), Some("#!/usr/bin/env ruby\nputs 1\n")).map(|l| l.name),
        Some("Ruby")
    );
    assert_eq!(
        detect(Some("cgi"), Some("#!/bin/bash\r\necho\r\n")).map(|l| l.name),
        Some("Shell")
    );
    assert!(detect(Some("cgi"), Some("puts 1\n#!/usr/bin/env ruby\n")).is_none());
    assert!(detect(Some("cgi"), Some("")).is_none());
    assert!(detect(Some("cgi"), None).is_none());
    assert!(detect(None, Some("#!/usr/bin/env python\n")).is_none());
}

#[test]
fn extension_index_lists_every_extension_with_its_language() {
    let index = lcount::language::ext_index();
    let total: usize = languages().iter().map(|l| l.extensions.len()).sum();
    assert_eq!(index.len(), total);
    assert!(index.contains(&("rs", 3)));
    assert!(index.contains(&("markdown", 15)));
    assert!(index.windows(2).all(|w| w[0].1 <= w[1].1));
}
