use vstd::prelude::*;

use crate::language::{
    first_owner, is_first_owner, language_table, lemma_first_owner_is, owns_ext, spec_lang_by_ext,
    spec_lang_by_lowered_shebang, LanguageModel,
};
use crate::text::{has_infix, has_suffix};

verus! {

/// What tells two extensions of the table apart: their length and first two characters.
spec fn ext_key(e: Seq<char>) -> (nat, char, char) {
    (e.len(), e[0], e[1])
}

/// Extensions listed by two different languages of the table differ in length or in
/// one of their first two characters.
proof fn lemma_extension_keys_disjoint()
    ensures
        forall|i1: int, j1: int, i2: int, j2: int|
            0 <= i1 < language_table().len() && 0 <= j1 < language_table()[i1].extensions.len()
                && 0 <= i2 < language_table().len() && 0 <= j2 < language_table()[i2].extensions.len()
                && i1 != i2 ==> ext_key(#[trigger] language_table()[i1].extensions[j1]) != ext_key(
                #[trigger] language_table()[i2].extensions[j2],
            ),
{
    reveal_strlit("js");
    reveal_strlit("mjs");
    reveal_strlit("cjs");
    reveal_strlit("ts");
    reveal_strlit("tsx");
    reveal_strlit("py");
    reveal_strlit("pyw");
    reveal_strlit("rs");
    reveal_strlit("go");
    reveal_strlit("java");
    reveal_strlit("c");
    reveal_strlit("h");
    reveal_strlit("cpp");
    reveal_strlit("cc");
    reveal_strlit("cxx");
    reveal_strlit("hpp");
    reveal_strlit("hxx");
    reveal_strlit("swift");
    reveal_strlit("kt");
    reveal_strlit("kts");
    reveal_strlit("html");
    reveal_strlit("htm");
    reveal_strlit("css");
    reveal_strlit("scss");
    reveal_strlit("sass");
    reveal_strlit("sh");
    reveal_strlit("bash");
    reveal_strlit("zsh");
    reveal_strlit("rb");
    reveal_strlit("rake");
    reveal_strlit("php");
    reveal_strlit("md");
    reveal_strlit("markdown");
    reveal_strlit("json");
    reveal_strlit("yml");
    reveal_strlit("yaml");
    reveal_strlit("toml");
    reveal_strlit("sql");
}

/// No extension is listed by two different languages of the table.
pub proof fn lemma_extensions_disjoint()
    ensures
        forall|i1: int, j1: int, i2: int, j2: int|
            0 <= i1 < language_table().len() && 0 <= j1 < language_table()[i1].extensions.len()
                && 0 <= i2 < language_table().len() && 0 <= j2 < language_table()[i2].extensions.len()
                && i1 != i2 ==> #[trigger] language_table()[i1].extensions[j1]
                != #[trigger] language_table()[i2].extensions[j2],
{
    lemma_extension_keys_disjoint();
}

/// Each extension of each language selects that language.
pub proof fn lemma_extensions_select_their_language()
    ensures
        forall|i: int, j: int|
            0 <= i < language_table().len() && 0 <= j < language_table()[i].extensions.len()
                ==> #[trigger] spec_lang_by_ext(language_table()[i].extensions[j]) == Some(
                language_table()[i],
            ),
{
    let t = language_table();
    lemma_extensions_disjoint();
    assert forall|i: int, j: int| 0 <= i < t.len() && 0 <= j < t[i].extensions.len() implies
        #[trigger] spec_lang_by_ext(t[i].extensions[j]) == Some(t[i]) by {
        let e = t[i].extensions[j];
        assert(owns_ext(i, e));
        assert forall|i2: int| 0 <= i2 < i implies !owns_ext(i2, e) by {
            if owns_ext(i2, e) {
                let j2 = choose|j2: int| 0 <= j2 < t[i2].extensions.len() && t[i2].extensions[j2] == e;
                assert(t[i2].extensions[j2] != t[i].extensions[j]);
            }
        }
        lemma_first_owner_is(i, e);
    }
}

/// The file extension `e` selects the language named `name`.
pub open spec fn selects(e: Seq<char>, name: Seq<char>) -> bool {
    spec_lang_by_ext(e) matches Some(l) && l.name == name
}

/// Which language each file extension selects: JavaScript for `js`, `mjs` and `cjs`,
/// TypeScript for `ts` and `tsx`, and so on for every language the tool knows.
pub proof fn lemma_extension_lookup()
    ensures
        selects("js"@, "JavaScript"@),
        selects("mjs"@, "JavaScript"@),
        selects("cjs"@, "JavaScript"@),
        selects("ts"@, "TypeScript"@),
        selects("tsx"@, "TypeScript"@),
        selects("py"@, "Python"@),
        selects("pyw"@, "Python"@),
        selects("rs"@, "Rust"@),
        selects("go"@, "Go"@),
        selects("java"@, "Java"@),
        selects("c"@, "C"@),
        selects("h"@, "C"@),
        selects("cpp"@, "C++"@),
        selects("cc"@, "C++"@),
        selects("cxx"@, "C++"@),
        selects("hpp"@, "C++"@),
        selects("hxx"@, "C++"@),
        selects("swift"@, "Swift"@),
        selects("kt"@, "Kotlin"@),
        selects("kts"@, "Kotlin"@),
        selects("html"@, "HTML"@),
        selects("htm"@, "HTML"@),
        selects("css"@, "CSS"@),
        selects("scss"@, "CSS"@),
        selects("sass"@, "CSS"@),
        selects("sh"@, "Shell"@),
        selects("bash"@, "Shell"@),
        selects("zsh"@, "Shell"@),
        selects("rb"@, "Ruby"@),
        selects("rake"@, "Ruby"@),
        selects("php"@, "PHP"@),
        selects("md"@, "Markdown"@),
        selects("markdown"@, "Markdown"@),
        selects("json"@, "JSON"@),
        selects("yml"@, "YAML"@),
        selects("yaml"@, "YAML"@),
        selects("toml"@, "TOML"@),
        selects("sql"@, "SQL"@),
{
    lemma_extensions_select_their_language();
    assert(language_table()[0].extensions[0] == "js"@);
    assert(language_table()[0].extensions[1] == "mjs"@);
    assert(language_table()[0].extensions[2] == "cjs"@);
    assert(language_table()[1].extensions[0] == "ts"@);
    assert(language_table()[1].extensions[1] == "tsx"@);
    assert(language_table()[2].extensions[0] == "py"@);
    assert(language_table()[2].extensions[1] == "pyw"@);
    assert(language_table()[3].extensions[0] == "rs"@);
    assert(language_table()[4].extensions[0] == "go"@);
    assert(language_table()[5].extensions[0] == "java"@);
    assert(language_table()[6].extensions[0] == "c"@);
    assert(language_table()[6].extensions[1] == "h"@);
    assert(language_table()[7].extensions[0] == "cpp"@);
    assert(language_table()[7].extensions[1] == "cc"@);
    assert(language_table()[7].extensions[2] == "cxx"@);
    assert(language_table()[7].extensions[3] == "hpp"@);
    assert(language_table()[7].extensions[4] == "hxx"@);
    assert(language_table()[8].extensions[0] == "swift"@);
    assert(language_table()[9].extensions[0] == "kt"@);
    assert(language_table()[9].extensions[1] == "kts"@);
    assert(language_table()[10].extensions[0] == "html"@);
    assert(language_table()[10].extensions[1] == "htm"@);
    assert(language_table()[11].extensions[0] == "css"@);
    assert(language_table()[11].extensions[1] == "scss"@);
    assert(language_table()[11].extensions[2] == "sass"@);
    assert(language_table()[12].extensions[0] == "sh"@);
    assert(language_table()[12].extensions[1] == "bash"@);
    assert(language_table()[12].extensions[2] == "zsh"@);
    assert(language_table()[13].extensions[0] == "rb"@);
    assert(language_table()[13].extensions[1] == "rake"@);
    assert(language_table()[14].extensions[0] == "php"@);
    assert(language_table()[15].extensions[0] == "md"@);
    assert(language_table()[15].extensions[1] == "markdown"@);
    assert(language_table()[16].extensions[0] == "json"@);
    assert(language_table()[17].extensions[0] == "yml"@);
    assert(language_table()[17].extensions[1] == "yaml"@);
    assert(language_table()[18].extensions[0] == "toml"@);
    assert(language_table()[19].extensions[0] == "sql"@);
}

/// Only the extensions listed for the languages select one: any other extension
/// selects none.
pub proof fn lemma_only_listed_extensions_select()
    ensures
        forall|e: Seq<char>|
            #[trigger] spec_lang_by_ext(e) is Some ==> e == "js"@ || e == "mjs"@ || e == "cjs"@ || e == "ts"@ || e == "tsx"@ || e == "py"@ || e == "pyw"@ || e == "rs"@ || e == "go"@ || e == "java"@ || e == "c"@ || e == "h"@ || e == "cpp"@ || e == "cc"@ || e == "cxx"@ || e == "hpp"@ || e == "hxx"@ || e == "swift"@ || e == "kt"@ || e == "kts"@ || e == "html"@ || e == "htm"@ || e == "css"@ || e == "scss"@ || e == "sass"@ || e == "sh"@ || e == "bash"@ || e == "zsh"@ || e == "rb"@ || e == "rake"@ || e == "php"@ || e == "md"@ || e == "markdown"@ || e == "json"@ || e == "yml"@ || e == "yaml"@ || e == "toml"@ || e == "sql"@,
{
    assert forall|e: Seq<char>| #[trigger] spec_lang_by_ext(e) is Some implies e == "js"@ || e == "mjs"@ || e == "cjs"@ || e == "ts"@ || e == "tsx"@ || e == "py"@ || e == "pyw"@ || e == "rs"@ || e == "go"@ || e == "java"@ || e == "c"@ || e == "h"@ || e == "cpp"@ || e == "cc"@ || e == "cxx"@ || e == "hpp"@ || e == "hxx"@ || e == "swift"@ || e == "kt"@ || e == "kts"@ || e == "html"@ || e == "htm"@ || e == "css"@ || e == "scss"@ || e == "sass"@ || e == "sh"@ || e == "bash"@ || e == "zsh"@ || e == "rb"@ || e == "rake"@ || e == "php"@ || e == "md"@ || e == "markdown"@ || e == "json"@ || e == "yml"@ || e == "yaml"@ || e == "toml"@ || e == "sql"@ by {
        let i = first_owner(e)->0;
        assert(is_first_owner(i, e));
        let j = choose|j: int| 0 <= j < language_table()[i].extensions.len() && language_table()[i].extensions[j] == e;
    }
}

/// The language that `found` is, by name (none when `found` is none).
pub open spec fn named(found: Option<LanguageModel>, name: Seq<char>) -> bool {
    found matches Some(l) && l.name == name
}

/// Which language an interpreter line names, given the line in lower case: Python
/// where it mentions `python`; else Ruby where it mentions `ruby`; else JavaScript
/// where it mentions `node`; else Shell where it mentions `bash` or `zsh`, holds
/// `/sh` or ends in ` sh`; and none otherwise.
pub proof fn lemma_shebang_languages(lowered: Seq<char>)
    ensures
        has_infix(lowered, "python"@) ==> named(spec_lang_by_lowered_shebang(lowered), "Python"@),
        !has_infix(lowered, "python"@) && has_infix(lowered, "ruby"@) ==> named(
            spec_lang_by_lowered_shebang(lowered),
            "Ruby"@,
        ),
        !has_infix(lowered, "python"@) && !has_infix(lowered, "ruby"@) && has_infix(
            lowered,
            "node"@,
        ) ==> named(spec_lang_by_lowered_shebang(lowered), "JavaScript"@),
        !has_infix(lowered, "python"@) && !has_infix(lowered, "ruby"@) && !has_infix(
            lowered,
            "node"@,
        ) && (has_infix(lowered, "bash"@) || has_infix(lowered, "zsh"@) || has_infix(
            lowered,
            "/sh"@,
        ) || has_suffix(lowered, " sh"@)) ==> named(spec_lang_by_lowered_shebang(lowered), "Shell"@),
        !has_infix(lowered, "python"@) && !has_infix(lowered, "ruby"@) && !has_infix(
            lowered,
            "node"@,
        ) && !has_infix(lowered, "bash"@) && !has_infix(lowered, "zsh"@) && !has_infix(
            lowered,
            "/sh"@,
        ) && !has_suffix(lowered, " sh"@) ==> spec_lang_by_lowered_shebang(lowered) is None,
{
    lemma_extension_lookup();
}

} // verus!
