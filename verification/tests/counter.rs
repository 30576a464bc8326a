use lcount::counter::{count_content, count_file, exceeds_limit};
use lcount::language::{lang_by_extension, LanguageDef};

fn lang(ext: &str) -> LanguageDef {
    lang_by_extension(ext).unwrap()
}

#[test]
fn python_blank_comment_code() {
    assert_eq!(count_content("x = 1\n# comment\n\n", &lang("py")), (1, 1, 1));
}

#[test]
fn empty_content_has_no_lines() {
    assert_eq!(count_content("", &lang("rs")), (0, 0, 0));
}

#[test]
fn rust_file_counts() {
    let src = "fn main() {\n    let x = 1;\n}\n";
    assert_eq!(count_content(src, &lang("rs")), (0, 0, 3));
    let src = "// header\n\nfn main() {\n    // inner\n    let x = 1; // trailing\n}\n";
    assert_eq!(count_content(src, &lang("rs")), (1, 2, 3));
}

#[test]
fn block_comment_spans_lines() {
    let src = "/* start\n   middle\n\n   end */\nlet x = 1;\n/* a */ let y = 2;\nlet z = 3; /* b */\n";
    // start, middle, end: comment; the empty line inside is blank; three code lines.
    assert_eq!(count_content(src, &lang("js")), (1, 3, 3));
}

#[test]
fn block_closer_then_code_is_code() {
    assert_eq!(count_content("/* a\n*/ x = 1\n", &lang("c")), (0, 1, 1));
}

#[test]
fn multiline_string_lines_are_code() {
    let src = "s = \"\"\"\n# not a comment\n\n\"\"\"\n# comment\n";
    assert_eq!(count_content(src, &lang("py")), (0, 1, 4));
}

#[test]
fn backtick_string_hides_comment_markers() {
    let src = "let s = `\n// still string\n`;\n// real comment\n";
    assert_eq!(count_content(src, &lang("js")), (0, 1, 3));
}

#[test]
fn crlf_and_whitespace_lines() {
    let src = "a = 1\r\n\t \r\n# c\r\nb = 2";
    assert_eq!(count_content(src, &lang("py")), (1, 1, 2));
}

#[test]
fn no_comment_syntax_counts_no_comments() {
    assert_eq!(count_content("{\n  \"a\": \"// b\"\n}\n\n", &lang("json")), (1, 0, 3));
}

#[test]
fn html_and_ruby_block_comments() {
    assert_eq!(count_content("<!--\nhidden\n-->\n<p>x</p>\n", &lang("html")), (0, 3, 1));
    assert_eq!(count_content("=begin\ndoc\n=end\nputs 1\n", &lang("rb")), (0, 3, 1));
}

#[test]
fn php_has_two_line_comment_markers() {
    assert_eq!(count_content("# a\n// b\necho 1;\n", &lang("php")), (0, 2, 1));
}

#[test]
fn counts_add_up_to_lines() {
    let src = "a\n\n# c\n\"\"\"\nd\n\"\"\"\n";
    let (b, c, d) = count_content(src, &lang("py"));
    assert_eq!(b + c + d, src.lines().count() as u64);
}

#[test]
fn count_file_respects_limit_and_content() {
    let rs = lang("rs");
    let stats = count_file("src/main.rs".to_string(), &rs, 12, None, Some("fn main() {}")).unwrap();
    assert_eq!(stats.path, "src/main.rs");
    assert_eq!(stats.language, "Rust");
    assert_eq!((stats.blank, stats.comment, stats.code, stats.bytes), (0, 0, 1, 12));
    assert_eq!(stats.total_lines(), 1);
    assert!(count_file("a.rs".to_string(), &rs, 101, Some(100), Some("x")).is_none());
    assert!(count_file("a.rs".to_string(), &rs, 100, Some(100), Some("x")).is_some());
    assert!(count_file("a.rs".to_string(), &rs, 1, None, None).is_none());
}

#[test]
fn limit_is_exclusive() {
    assert!(!exceeds_limit(100, Some(100)));
    assert!(exceeds_limit(101, Some(100)));
    assert!(!exceeds_limit(u64::MAX, None));
}

#[test]
fn counts_add_over_concatenated_text() {
    // YAML and Shell have line comments only, so each line is counted on its own.
    for ext in ["yml", "sh"] {
        let l = lang(ext);
        let a = "key: 1\n# note\n\n";
        let b = "  \nother: 2 # trailing\n#\nlast";
        let whole = format!("{}{}", a, b);
        let (ab, ac, ak) = count_content(a, &l);
        let (bb, bc, bk) = count_content(b, &l);
        assert_eq!(count_content(&whole, &l), (ab + bb, ac + bc, ak + bk));
        assert_eq!(count_content(&whole, &l), (2, 2, 3));
    }
}
