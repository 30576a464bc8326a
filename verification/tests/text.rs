use lcount::text::{split_lines, str_eq, str_eq_ignore_ascii_case};

#[test]
fn split_lines_matches_str_lines() {
    for s in ["", "a", "a\n", "a\n\n", "\n", "a\r\nb", "a\rb\r", "x\r\n\r\ny\n", "é\nü"] {
        let ours = split_lines(s);
        let std: Vec<String> = s.lines().map(str::to_string).collect();
        assert_eq!(ours, std, "input {:?}", s);
    }
}

#[test]
fn string_comparisons() {
    assert!(str_eq("abc", "abc"));
    assert!(!str_eq("abc", "abd"));
    assert!(!str_eq("ab", "abc"));
    assert!(str_eq_ignore_ascii_case("Rust", "rUST"));
    assert!(!str_eq_ignore_ascii_case("Rust", "Rusty"));
    assert!(!str_eq_ignore_ascii_case("É", "é"));
}
