use vstd::prelude::*;

use crate::text::{
    chars_of, find_in, has_infix, has_prefix, has_suffix, lines_of, match_at, spec_lines, str_eq,
    string_from_chars,
};

verus! {

/// How a language is recognised and how its comments and multi-line strings are written.
#[derive(Debug, Clone)]
pub struct LanguageDef {
    pub name: &'static str,
    pub extensions: Vec<&'static str>,
    pub line_comment: Vec<&'static str>,
    pub block_comment: Option<(&'static str, &'static str)>,
    pub multiline_string: Vec<&'static str>,
}

/// The mathematical content of a `LanguageDef`: every string as its characters.
#[verifier::ext_equal]
pub struct LanguageModel {
    pub name: Seq<char>,
    pub extensions: Seq<Seq<char>>,
    pub line_comment: Seq<Seq<char>>,
    pub block_comment: Option<(Seq<char>, Seq<char>)>,
    pub multiline_string: Seq<Seq<char>>,
}

/// The characters of each string in `v`.
pub open spec fn strs_view(v: Seq<&'static str>) -> Seq<Seq<char>> {
    v.map_values(|s: &'static str| s@)
}

impl View for LanguageDef {
    type V = LanguageModel;

    open spec fn view(&self) -> LanguageModel {
        LanguageModel {
            name: self.name@,
            extensions: strs_view(self.extensions@),
            line_comment: strs_view(self.line_comment@),
            block_comment: match self.block_comment {
                Some((open, close)) => Some((open@, close@)),
                None => None,
            },
            multiline_string: strs_view(self.multiline_string@),
        }
    }
}

/// The models of a sequence of language definitions.
pub open spec fn defs_view(v: Seq<LanguageDef>) -> Seq<LanguageModel> {
    v.map_values(|l: LanguageDef| l@)
}

/// The model of an optional language definition.
pub open spec fn opt_def_view(l: Option<LanguageDef>) -> Option<LanguageModel> {
    match l {
        Some(d) => Some(d@),
        None => None,
    }
}

/// Every language the library knows, in the order in which they are searched.
pub open spec fn language_table() -> Seq<LanguageModel> {
    seq![
        LanguageModel {
            name: "JavaScript"@,
            extensions: strs_view(seq!["js", "mjs", "cjs"]),
            line_comment: strs_view(seq!["//"]),
            block_comment: Some(("/*"@, "*/"@)),
            multiline_string: strs_view(seq!["`"]),
        },
        LanguageModel {
            name: "TypeScript"@,
            extensions: strs_view(seq!["ts", "tsx"]),
            line_comment: strs_view(seq!["//"]),
            block_comment: Some(("/*"@, "*/"@)),
            multiline_string: strs_view(seq!["`"]),
        },
        LanguageModel {
            name: "Python"@,
            extensions: strs_view(seq!["py", "pyw"]),
            line_comment: strs_view(seq!["#"]),
            block_comment: None,
            multiline_string: strs_view(seq!["\"\"\"", "'''"]),
        },
        LanguageModel {
            name: "Rust"@,
            extensions: strs_view(seq!["rs"]),
            line_comment: strs_view(seq!["//"]),
            block_comment: Some(("/*"@, "*/"@)),
            multiline_string: strs_view(seq![]),
        },
        LanguageModel {
            name: "Go"@,
            extensions: strs_view(seq!["go"]),
            line_comment: strs_view(seq!["//"]),
            block_comment: Some(("/*"@, "*/"@)),
            multiline_string: strs_view(seq!["`"]),
        },
        LanguageModel {
            name: "Java"@,
            extensions: strs_view(seq!["java"]),
            line_comment: strs_view(seq!["//"]),
            block_comment: Some(("/*"@, "*/"@)),
            multiline_string: strs_view(seq![]),
        },
        LanguageModel {
            name: "C"@,
            extensions: strs_view(seq!["c", "h"]),
            line_comment: strs_view(seq!["//"]),
            block_comment: Some(("/*"@, "*/"@)),
            multiline_string: strs_view(seq![]),
        },
        LanguageModel {
            name: "C++"@,
            extensions: strs_view(seq!["cpp", "cc", "cxx", "hpp", "hxx"]),
            line_comment: strs_view(seq!["//"]),
            block_comment: Some(("/*"@, "*/"@)),
            multiline_string: strs_view(seq![]),
        },
        LanguageModel {
            name: "Swift"@,
            extensions: strs_view(seq!["swift"]),
            line_comment: strs_view(seq!["//"]),
            block_comment: Some(("/*"@, "*/"@)),
            multiline_string: strs_view(seq![]),
        },
        LanguageModel {
            name: "Kotlin"@,
            extensions: strs_view(seq!["kt", "kts"]),
            line_comment: strs_view(seq!["//"]),
            block_comment: Some(("/*"@, "*/"@)),
            multiline_string: strs_view(seq![]),
        },
        LanguageModel {
            name: "HTML"@,
            extensions: strs_view(seq!["html", "htm"]),
            line_comment: strs_view(seq![]),
            block_comment: Some(("<!--"@, "-->"@)),
            multiline_string: strs_view(seq![]),
        },
        LanguageModel {
            name: "CSS"@,
            extensions: strs_view(seq!["css", "scss", "sass"]),
            line_comment: strs_view(seq!["//"]),
            block_comment: Some(("/*"@, "*/"@)),
            multiline_string: strs_view(seq![]),
        },
        LanguageModel {
            name: "Shell"@,
            extensions: strs_view(seq!["sh", "bash", "zsh"]),
            line_comment: strs_view(seq!["#"]),
            block_comment: None,
            multiline_string: strs_view(seq![]),
        },
        LanguageModel {
            name: "Ruby"@,
            extensions: strs_view(seq!["rb", "rake"]),
            line_comment: strs_view(seq!["#"]),
            block_comment: Some(("=begin"@, "=end"@)),
            multiline_string: strs_view(seq![]),
        },
        LanguageModel {
            name: "PHP"@,
            extensions: strs_view(seq!["php"]),
            line_comment: strs_view(seq!["//", "#"]),
            block_comment: Some(("/*"@, "*/"@)),
            multiline_string: strs_view(seq![]),
        },
        LanguageModel {
            name: "Markdown"@,
            extensions: strs_view(seq!["md", "markdown"]),
            line_comment: strs_view(seq![]),
            block_comment: None,
            multiline_string: strs_view(seq![]),
        },
        LanguageModel {
            name: "JSON"@,
            extensions: strs_view(seq!["json"]),
            line_comment: strs_view(seq![]),
            block_comment: None,
            multiline_string: strs_view(seq![]),
        },
        LanguageModel {
            name: "YAML"@,
            extensions: strs_view(seq!["yml", "yaml"]),
            line_comment: strs_view(seq!["#"]),
            block_comment: None,
            multiline_string: strs_view(seq![]),
        },
        LanguageModel {
            name: "TOML"@,
            extensions: strs_view(seq!["toml"]),
            line_comment: strs_view(seq!["#"]),
            block_comment: None,
            multiline_string: strs_view(seq![]),
        },
        LanguageModel {
            name: "SQL"@,
            extensions: strs_view(seq!["sql"]),
            line_comment: strs_view(seq!["--"]),
            block_comment: Some(("/*"@, "*/"@)),
            multiline_string: strs_view(seq![]),
        },
    ]
}

/// The known languages, in table order.
pub fn languages() -> (res: Vec<LanguageDef>)
    ensures
        defs_view(res@) == language_table(),
{
    let res = vec![
        LanguageDef {
            name: "JavaScript",
            extensions: vec!["js", "mjs", "cjs"],
            line_comment: vec!["//"],
            block_comment: Some(("/*", "*/")),
            multiline_string: vec!["`"],
        },
        LanguageDef {
            name: "TypeScript",
            extensions: vec!["ts", "tsx"],
            line_comment: vec!["//"],
            block_comment: Some(("/*", "*/")),
            multiline_string: vec!["`"],
        },
        LanguageDef {
            name: "Python",
            extensions: vec!["py", "pyw"],
            line_comment: vec!["#"],
            block_comment: None,
            multiline_string: vec!["\"\"\"", "'''"],
        },
        LanguageDef {
            name: "Rust",
            extensions: vec!["rs"],
            line_comment: vec!["//"],
            block_comment: Some(("/*", "*/")),
            multiline_string: vec![],
        },
        LanguageDef {
            name: "Go",
            extensions: vec!["go"],
            line_comment: vec!["//"],
            block_comment: Some(("/*", "*/")),
            multiline_string: vec!["`"],
        },
        LanguageDef {
            name: "Java",
            extensions: vec!["java"],
            line_comment: vec!["//"],
            block_comment: Some(("/*", "*/")),
            multiline_string: vec![],
        },
        LanguageDef {
            name: "C",
            extensions: vec!["c", "h"],
            line_comment: vec!["//"],
            block_comment: Some(("/*", "*/")),
            multiline_string: vec![],
        },
        LanguageDef {
            name: "C++",
            extensions: vec!["cpp", "cc", "cxx", "hpp", "hxx"],
            line_comment: vec!["//"],
            block_comment: Some(("/*", "*/")),
            multiline_string: vec![],
        },
        LanguageDef {
            name: "Swift",
            extensions: vec!["swift"],
            line_comment: vec!["//"],
            block_comment: Some(("/*", "*/")),
            multiline_string: vec![],
        },
        LanguageDef {
            name: "Kotlin",
            extensions: vec!["kt", "kts"],
            line_comment: vec!["//"],
            block_comment: Some(("/*", "*/")),
            multiline_string: vec![],
        },
        LanguageDef {
            name: "HTML",
            extensions: vec!["html", "htm"],
            line_comment: vec![],
            block_comment: Some(("<!--", "-->")),
            multiline_string: vec![],
        },
        LanguageDef {
            name: "CSS",
            extensions: vec!["css", "scss", "sass"],
            line_comment: vec!["//"],
            block_comment: Some(("/*", "*/")),
            multiline_string: vec![],
        },
        LanguageDef {
            name: "Shell",
            extensions: vec!["sh", "bash", "zsh"],
            line_comment: vec!["#"],
            block_comment: None,
            multiline_string: vec![],
        },
        LanguageDef {
            name: "Ruby",
            extensions: vec!["rb", "rake"],
            line_comment: vec!["#"],
            block_comment: Some(("=begin", "=end")),
            multiline_string: vec![],
        },
        LanguageDef {
            name: "PHP",
            extensions: vec!["php"],
            line_comment: vec!["//", "#"],
            block_comment: Some(("/*", "*/")),
            multiline_string: vec![],
        },
        LanguageDef {
            name: "Markdown",
            extensions: vec!["md", "markdown"],
            line_comment: vec![],
            block_comment: None,
            multiline_string: vec![],
        },
        LanguageDef {
            name: "JSON",
            extensions: vec!["json"],
            line_comment: vec![],
            block_comment: None,
            multiline_string: vec![],
        },
        LanguageDef {
            name: "YAML",
            extensions: vec!["yml", "yaml"],
            line_comment: vec!["#"],
            block_comment: None,
            multiline_string: vec![],
        },
        LanguageDef {
            name: "TOML",
            extensions: vec!["toml"],
            line_comment: vec!["#"],
            block_comment: None,
            multiline_string: vec![],
        },
        LanguageDef {
            name: "SQL",
            extensions: vec!["sql"],
            line_comment: vec!["--"],
            block_comment: Some(("/*", "*/")),
            multiline_string: vec![],
        },
    ];
    assert(defs_view(res@) =~~= language_table());
    res
}


/// Every language of the table lists at least one extension.
pub proof fn lemma_every_language_has_extension()
    ensures
        forall|i: int| 0 <= i < language_table().len() ==> #[trigger] language_table()[i].extensions.len() > 0,
{
}

/// Language `i` of the table lists `ext` among its extensions.
pub open spec fn owns_ext(i: int, ext: Seq<char>) -> bool {
    &&& 0 <= i < language_table().len()
    &&& language_table()[i].extensions.contains(ext)
}

/// Language `i` lists `ext`, and no language before it does.
pub open spec fn is_first_owner(i: int, ext: Seq<char>) -> bool {
    &&& owns_ext(i, ext)
    &&& forall|j: int| 0 <= j < i ==> !owns_ext(j, ext)
}

/// The index of the first language in the table that lists `ext`, if any does.
pub open spec fn first_owner(ext: Seq<char>) -> Option<int> {
    if exists|i: int| is_first_owner(i, ext) {
        Some(choose|i: int| is_first_owner(i, ext))
    } else {
        None
    }
}

/// The language that the file extension `ext` selects: the first one in the table
/// that lists it.
pub open spec fn spec_lang_by_ext(ext: Seq<char>) -> Option<LanguageModel> {
    match first_owner(ext) {
        Some(i) => Some(language_table()[i]),
        None => None,
    }
}

pub(crate) proof fn lemma_first_owner_is(i: int, ext: Seq<char>)
    requires
        is_first_owner(i, ext),
    ensures
        first_owner(ext) == Some(i),
{
    let c = choose|k: int| is_first_owner(k, ext);
    assert(is_first_owner(c, ext));
    if c < i {
        assert(!owns_ext(c, ext));
    } else if i < c {
        assert(!owns_ext(i, ext));
    }
}

proof fn lemma_no_owner(ext: Seq<char>)
    requires
        forall|i: int| !owns_ext(i, ext),
    ensures
        first_owner(ext) is None,
{
}

/// `idx` is an extension index of the language table: each entry pairs an extension
/// with a language that lists it, entries are ordered by language, and every
/// extension of every language has an entry with that language.
pub open spec fn is_ext_index(idx: Seq<(&'static str, usize)>) -> bool {
    &&& forall|k: int|
        #![trigger idx[k]]
        0 <= k < idx.len() ==> (idx[k].1 as int) < language_table().len()
            && language_table()[idx[k].1 as int].extensions.contains(idx[k].0@)
    &&& forall|k1: int, k2: int|
        0 <= k1 <= k2 < idx.len() ==> #[trigger] idx[k1].1 <= #[trigger] idx[k2].1
    &&& forall|i: int, e: Seq<char>|
        #[trigger] owns_ext(i, e) ==> exists|k: int|
            0 <= k < idx.len() && #[trigger] idx[k].0@ == e && idx[k].1 == i
}

/// The extension index: each extension of each language, paired with the index of
/// the language that lists it, in table order.
pub fn ext_index() -> (res: Vec<(&'static str, usize)>)
    ensures
        is_ext_index(res@),
{
    let langs = languages();
    index_of_table(&langs)
}

/// The extension index of `langs`, which holds the language table.
#[verifier::loop_isolation(false)]
fn index_of_table(langs: &Vec<LanguageDef>) -> (res: Vec<(&'static str, usize)>)
    requires
        defs_view(langs@) == language_table(),
    ensures
        is_ext_index(res@),
{
    let ghost table = language_table();
    let mut res: Vec<(&'static str, usize)> = Vec::new();
    let n = langs.len();
    let mut i: usize = 0;
    while i < n
        invariant
            i <= n,
            n == table.len(),
            defs_view(langs@) == table,
            table == language_table(),
            forall|k: int|
                0 <= k < res@.len() ==> {
                    &&& (res@[k].1 as int) < i
                    &&& table[res@[k].1 as int].extensions.contains(#[trigger] res@[k].0@)
                },
            forall|k1: int, k2: int|
                0 <= k1 <= k2 < res@.len() ==> #[trigger] res@[k1].1 <= #[trigger] res@[k2].1,
            forall|i2: int, e: Seq<char>|
                0 <= i2 < i && #[trigger] owns_ext(i2, e) ==> exists|k: int|
                    0 <= k < res@.len() && #[trigger] res@[k].0@ == e && res@[k].1 == i2,
        decreases n - i,
    {
        let exts = &langs[i].extensions;
        let m = exts.len();
        assert(table[i as int] == langs@[i as int]@);
        let ghost prefix = res@;
        let ghost before = res@.len();
        assert forall|k: int| 0 <= k < prefix.len() implies prefix[k].1 < i by {
            assert(table[res@[k].1 as int].extensions.contains(res@[k].0@));
        }
        for j in 0..m
            invariant
                m == exts@.len(),
                table[i as int].extensions == strs_view(exts@),
                prefix.len() == before,
                res@.len() == before + j,
                forall|k: int| 0 <= k < before ==> #[trigger] res@[k] == prefix[k],
                forall|k: int|
                    before <= k < res@.len() ==> #[trigger] res@[k].1 == i && res@[k].0@
                        == table[i as int].extensions[k - before],
        {
            let e = exts[j];
            let ghost old_res = res@;
            res.push((e, i));
            assert forall|k: int| 0 <= k < before implies #[trigger] res@[k] == prefix[k] by {
                assert(res@[k] == old_res[k]);
            }
            assert forall|k: int| before <= k < res@.len() implies #[trigger] res@[k].1 == i
                && res@[k].0@ == table[i as int].extensions[k - before] by {
                if k < res@.len() - 1 {
                    assert(res@[k] == old_res[k]);
                }
            }
        }
        assert forall|k: int| 0 <= k < res@.len() implies (res@[k].1 as int) < i + 1
            && table[res@[k].1 as int].extensions.contains(#[trigger] res@[k].0@) by {
            if k < before {
                assert(res@[k] == prefix[k]);
                assert(prefix[k].1 < i && table[prefix[k].1 as int].extensions.contains(prefix[k].0@));
            } else {
                let j = k - before;
                assert(res@.len() == before + m);
                assert(0 <= j < table[i as int].extensions.len());
                assert(res@[k].1 == i);
                assert(table[i as int].extensions[j] == res@[k].0@);
            }
        }
        assert forall|k1: int, k2: int| 0 <= k1 <= k2 < res@.len() implies #[trigger] res@[k1].1
            <= #[trigger] res@[k2].1 by {
            if k2 < before {
                assert(res@[k1] == prefix[k1]);
                assert(res@[k2] == prefix[k2]);
                assert(prefix[k1].1 <= prefix[k2].1);
            } else if k1 < before {
                assert(res@[k1] == prefix[k1]);
                assert(table[prefix[k1].1 as int].extensions.contains(prefix[k1].0@));
                assert(prefix[k1].1 < i);
                assert(res@[k2].1 == i);
            } else {
                assert(res@[k1].1 == i);
                assert(res@[k2].1 == i);
            }
        }
        assert forall|i2: int, e: Seq<char>|
            0 <= i2 < i + 1 && #[trigger] owns_ext(i2, e) implies exists|k: int|
                0 <= k < res@.len() && #[trigger] res@[k].0@ == e && res@[k].1 == i2 by {
            if i2 == i {
                let j = choose|j: int|
                    0 <= j < table[i2].extensions.len() && table[i2].extensions[j] == e;
                let k = before + j;
                assert(res@[k].0@ == e);
            } else {
                let k = choose|k: int|
                    0 <= k < prefix.len() && #[trigger] prefix[k].0@ == e && prefix[k].1 == i2;
                assert(res@[k] == prefix[k]);
            }
        }
        i = i + 1;
    }
    assert forall|k: int| #![trigger res@[k]] 0 <= k < res@.len() implies (res@[k].1 as int) < language_table().len()
        && language_table()[res@[k].1 as int].extensions.contains(res@[k].0@) by {
        assert(table[res@[k].1 as int].extensions.contains(res@[k].0@));
    }
    res
}

/// The language that the file extension `ext` (without the dot) selects, if any.
#[verifier::loop_isolation(false)]
pub fn lang_by_extension(ext: &str) -> (res: Option<LanguageDef>)
    ensures
        opt_def_view(res) == spec_lang_by_ext(ext@),
{
    let mut langs = languages();
    let index = index_of_table(&langs);
    let m = index.len();
    for k in 0..m
        invariant
            m == index@.len(),
            defs_view(langs@) == language_table(),
            forall|k2: int| 0 <= k2 < k ==> #[trigger] index@[k2].0@ != ext@,
    {
        if str_eq(index[k].0, ext) {
            let i = index[k].1;
            proof {
                assert(index@[k as int].0@ == ext@);
                assert(owns_ext(i as int, ext@));
                assert forall|j: int| 0 <= j < i implies !owns_ext(j, ext@) by {
                    if owns_ext(j, ext@) {
                        let k2 = choose|k2: int|
                            0 <= k2 < index@.len() && #[trigger] index@[k2].0@ == ext@ && index@[k2].1 == j;
                        if k2 >= k {
                            assert(index@[k as int].1 <= index@[k2].1);
                        }
                    }
                }
                lemma_first_owner_is(i as int, ext@);
            }
            let lang = langs.remove(i);
            return Some(lang);
        }
    }
    proof {
        assert forall|i: int| !owns_ext(i, ext@) by {
            if owns_ext(i, ext@) {
                let k2 = choose|k2: int|
                    0 <= k2 < index@.len() && #[trigger] index@[k2].0@ == ext@ && index@[k2].1 == i;
            }
        }
        lemma_no_owner(ext@);
    }
    None
}


/// Names what `str::to_lowercase` returns for a string with the characters `s`:
/// its full Unicode lower-case mapping.
pub uninterp spec fn lowercase(s: Seq<char>) -> Seq<char>;

/// Calls `str::to_lowercase`; the result is `lowercase` of the argument's characters.
#[verifier::external_body]
fn to_lowercase(s: &str) -> (res: String)
    ensures
        res@ == lowercase(s@),
{
    s.to_lowercase()
}

/// The extension whose language an interpreter line names, given the line in lower
/// case; the first rule that applies decides.
pub open spec fn shebang_ext(lowered: Seq<char>) -> Option<Seq<char>> {
    if has_infix(lowered, "python"@) {
        Some("py"@)
    } else if has_infix(lowered, "ruby"@) {
        Some("rb"@)
    } else if has_infix(lowered, "node"@) {
        Some("js"@)
    } else if has_infix(lowered, "bash"@) {
        Some("bash"@)
    } else if has_infix(lowered, "zsh"@) {
        Some("zsh"@)
    } else if has_infix(lowered, "/sh"@) || has_suffix(lowered, " sh"@) {
        Some("sh"@)
    } else {
        None
    }
}

/// The language that an interpreter line names, given the line in lower case.
pub open spec fn spec_lang_by_lowered_shebang(lowered: Seq<char>) -> Option<LanguageModel> {
    match shebang_ext(lowered) {
        Some(ext) => spec_lang_by_ext(ext),
        None => None,
    }
}

/// The language that the first line `line` of a file names, if it is an
/// interpreter line (one that starts with `#!`).
pub open spec fn spec_lang_by_shebang(line: Seq<char>) -> Option<LanguageModel> {
    if has_prefix(line, "#!"@) {
        spec_lang_by_lowered_shebang(lowercase(line))
    } else {
        None
    }
}

/// The language that an interpreter line names, given that line already in lower case.
pub fn lang_by_lowered_shebang(lowered: &str) -> (res: Option<LanguageDef>)
    ensures
        opt_def_view(res) == spec_lang_by_lowered_shebang(lowered@),
{
    let line = chars_of(lowered);
    if find_in(&line, &chars_of("python")) {
        return lang_by_extension("py");
    }
    if find_in(&line, &chars_of("ruby")) {
        return lang_by_extension("rb");
    }
    if find_in(&line, &chars_of("node")) {
        return lang_by_extension("js");
    }
    if find_in(&line, &chars_of("bash")) {
        return lang_by_extension("bash");
    }
    if find_in(&line, &chars_of("zsh")) {
        return lang_by_extension("zsh");
    }
    let space_sh = chars_of(" sh");
    let ends_space_sh = line.len() >= space_sh.len() && match_at(
        &line,
        line.len() - space_sh.len(),
        &space_sh,
    );
    if find_in(&line, &chars_of("/sh")) || ends_space_sh {
        return lang_by_extension("sh");
    }
    None
}

/// The language that the interpreter line `first_line` names; `None` unless the
/// line starts with `#!`.
pub fn lang_by_shebang(first_line: &str) -> (res: Option<LanguageDef>)
    ensures
        opt_def_view(res) == spec_lang_by_shebang(first_line@),
{
    let line = chars_of(first_line);
    if !match_at(&line, 0, &chars_of("#!")) {
        return None;
    }
    let lowered = to_lowercase(first_line);
    lang_by_lowered_shebang(lowered.as_str())
}

/// The language of a file with extension `ext` (none when the file name has none)
/// and content `content`: the extension decides; when it names no language, the
/// first line decides if it is an interpreter line. `content` is read only in that case.
pub open spec fn spec_detect(ext: Option<Seq<char>>, content: Option<Seq<char>>) -> Option<
    LanguageModel,
> {
    match ext {
        None => None,
        Some(e) => match spec_lang_by_ext(e) {
            Some(l) => Some(l),
            None => match content {
                Some(c) => if spec_lines(c).len() > 0 {
                    spec_lang_by_shebang(spec_lines(c)[0])
                } else {
                    None
                },
                None => None,
            },
        },
    }
}

/// The language of a file, from its extension `ext` and, where the extension names
/// no language, from the first line of its content (`None` when it could not be read).
pub fn detect(ext: Option<&str>, content: Option<&str>) -> (res: Option<LanguageDef>)
    ensures
        opt_def_view(res) == spec_detect(
            match ext {
                Some(e) => Some(e@),
                None => None,
            },
            match content {
                Some(c) => Some(c@),
                None => None,
            },
        ),
{
    let e = match ext {
        Some(e) => e,
        None => return None,
    };
    let by_ext = lang_by_extension(e);
    if by_ext.is_some() {
        return by_ext;
    }
    let text = match content {
        Some(c) => c,
        None => return None,
    };
    let lines = lines_of(text);
    if lines.len() == 0 {
        return None;
    }
    let first = string_from_chars(&lines[0]);
    lang_by_shebang(first.as_str())
}

/// Detection prefers the extension: a file whose extension selects a language is of
/// that language, whatever its content; a file whose extension selects none is of the
/// language its first line names as an interpreter line, if any; a file without an
/// extension, or whose content could not be read or is empty, gets no language
/// from its content.
pub proof fn lemma_detect_prefers_extension(e: Seq<char>, content: Option<Seq<char>>)
    ensures
        spec_detect(None, content) is None,
        spec_lang_by_ext(e) is Some ==> spec_detect(Some(e), content) == spec_lang_by_ext(e),
        spec_lang_by_ext(e) is None ==> spec_detect(Some(e), content) == (match content {
            Some(c) => if spec_lines(c).len() > 0 {
                spec_lang_by_shebang(spec_lines(c)[0])
            } else {
                None
            },
            None => None,
        }),
{
}

} // verus!
