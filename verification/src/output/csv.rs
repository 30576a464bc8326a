use vstd::prelude::*;

use crate::stats::{FileStats, LangStats, Report};
use crate::text::{decimal, has_prefix, u64_text};

verus! {

/// The CSV line of a language row: name, files, blank, comment and code.
pub open spec fn csv_lang_line(r: LangStats) -> Seq<char> {
    r.language@ + ","@ + decimal(r.files as nat) + ","@ + decimal(r.blank as nat) + ","@
        + decimal(r.comment as nat) + ","@ + decimal(r.code as nat) + "\n"@
}

/// The CSV line of a file: path, language, blank, comment and code.
pub open spec fn csv_file_line(f: FileStats) -> Seq<char> {
    f.path@ + ","@ + f.language@ + ","@ + decimal(f.blank as nat) + ","@ + decimal(
        f.comment as nat,
    ) + ","@ + decimal(f.code as nat) + "\n"@
}

/// The CSV lines of `rows`, in order.
pub open spec fn csv_lang_lines(rows: Seq<LangStats>) -> Seq<char>
    decreases rows.len(),
{
    if rows.len() == 0 {
        seq![]
    } else {
        csv_lang_lines(rows.drop_last()) + csv_lang_line(rows.last())
    }
}

/// The CSV lines of `files`, in order.
pub open spec fn csv_file_lines(files: Seq<FileStats>) -> Seq<char>
    decreases files.len(),
{
    if files.len() == 0 {
        seq![]
    } else {
        csv_file_lines(files.drop_last()) + csv_file_line(files.last())
    }
}

/// The CSV form of a report: a header, a line per language, the totals line, and,
/// when the report holds its files, an empty line, a second header and a line per file.
pub open spec fn csv_text(r: Report) -> Seq<char> {
    "language,files,blank,comment,code\n"@ + csv_lang_lines(r.by_lang@) + csv_lang_line(r.totals)
        + match r.by_file {
        Some(files) => "\n"@ + "file,language,blank,comment,code\n"@ + csv_file_lines(files@),
        None => seq![],
    }
}

fn lang_line(r: &LangStats) -> (res: String)
    ensures
        res@ == csv_lang_line(*r),
{
    let mut line = String::new();
    line.append(r.language);
    line.append(",");
    line.append(u64_text(r.files).as_str());
    line.append(",");
    line.append(u64_text(r.blank).as_str());
    line.append(",");
    line.append(u64_text(r.comment).as_str());
    line.append(",");
    line.append(u64_text(r.code).as_str());
    line.append("\n");
    line
}

fn file_line(f: &FileStats) -> (res: String)
    ensures
        res@ == csv_file_line(*f),
{
    let mut line = String::new();
    line.append(f.path.as_str());
    line.append(",");
    line.append(f.language);
    line.append(",");
    line.append(u64_text(f.blank).as_str());
    line.append(",");
    line.append(u64_text(f.comment).as_str());
    line.append(",");
    line.append(u64_text(f.code).as_str());
    line.append("\n");
    line
}

/// The report as CSV text (see `csv_text`).
pub fn render(report: &Report) -> (res: String)
    ensures
        res@ == csv_text(*report),
{
    let mut out = String::new();
    out.append("language,files,blank,comment,code\n");
    let rows = &report.by_lang;
    let n = rows.len();
    let ghost start = out@;
    for i in 0..n
        invariant
            n == rows@.len(),
            out@ == start + csv_lang_lines(rows@.take(i as int)),
    {
        assert(rows@.take(i + 1).drop_last() =~= rows@.take(i as int));
        let line = lang_line(&rows[i]);
        out.append(line.as_str());
    }
    assert(rows@.take(n as int) =~= rows@);
    let total = lang_line(&report.totals);
    out.append(total.as_str());
    match &report.by_file {
        Some(files) => {
            out.append("\n");
            out.append("file,language,blank,comment,code\n");
            let m = files.len();
            let ghost mid = out@;
            for i in 0..m
                invariant
                    m == files@.len(),
                    out@ == mid + csv_file_lines(files@.take(i as int)),
            {
                assert(files@.take(i + 1).drop_last() =~= files@.take(i as int));
                let line = file_line(&files[i]);
                out.append(line.as_str());
            }
            assert(files@.take(m as int) =~= files@);
        },
        None => {},
    }
    out
}


/// The CSV form of every report begins with its header line.
pub proof fn lemma_csv_starts_with_header(r: Report)
    ensures
        has_prefix(csv_text(r), "language,files,blank,comment,code\n"@),
{
    let head = "language,files,blank,comment,code\n"@;
    let rest = csv_text(r).subrange(head.len() as int, csv_text(r).len() as int);
    assert(csv_text(r) =~= head + rest);
    assert(csv_text(r).subrange(0, head.len() as int) =~= head);
}

/// The fields joined by commas.
pub open spec fn join_fields(fields: Seq<Seq<char>>) -> Seq<char>
    decreases fields.len(),
{
    if fields.len() == 0 {
        seq![]
    } else if fields.len() == 1 {
        fields[0]
    } else {
        join_fields(fields.drop_last()) + ","@ + fields.last()
    }
}

/// The CSV field of the language row `r` in the column headed `name`.
pub open spec fn csv_lang_field(name: Seq<char>, r: LangStats) -> Seq<char> {
    if name == "language"@ {
        r.language@
    } else if name == "files"@ {
        decimal(r.files as nat)
    } else if name == "blank"@ {
        decimal(r.blank as nat)
    } else if name == "comment"@ {
        decimal(r.comment as nat)
    } else if name == "code"@ {
        decimal(r.code as nat)
    } else {
        seq![]
    }
}

/// The CSV field of the file `f` in the column headed `name`.
pub open spec fn csv_file_field(name: Seq<char>, f: FileStats) -> Seq<char> {
    if name == "file"@ {
        f.path@
    } else if name == "language"@ {
        f.language@
    } else if name == "blank"@ {
        decimal(f.blank as nat)
    } else if name == "comment"@ {
        decimal(f.comment as nat)
    } else if name == "code"@ {
        decimal(f.code as nat)
    } else {
        seq![]
    }
}

/// A CSV line of a language row holds, column by column, the field that the
/// language header names: the language, then its files, blank, comment and code
/// counts, in the header's order.
pub proof fn lemma_csv_lang_line_follows_header(r: LangStats)
    ensures
        exists|names: Seq<Seq<char>>|
            #![trigger join_fields(names)]
            "language,files,blank,comment,code\n"@ == join_fields(names) + "\n"@
                && csv_lang_line(r) == join_fields(names.map_values(|n: Seq<char>| csv_lang_field(n, r)))
                + "\n"@,
{
    reveal_strlit("language,files,blank,comment,code\n");
    reveal_strlit("language");
    assert("language"@.len() == 8);
    reveal_strlit("files");
    assert("files"@.len() == 5);
    reveal_strlit("blank");
    assert("blank"@.len() == 5);
    reveal_strlit("comment");
    assert("comment"@.len() == 7);
    reveal_strlit("code");
    assert("code"@.len() == 4);
    reveal_strlit(",");
    reveal_strlit("\n");
    assert("files"@[0] != "blank"@[0]);
    let n1 = seq!["language"@];
    let n2 = n1.push("files"@);
    let n3 = n2.push("blank"@);
    let n4 = n3.push("comment"@);
    let n5 = n4.push("code"@);
    let v1 = seq![r.language@];
    let v2 = v1.push(decimal(r.files as nat));
    let v3 = v2.push(decimal(r.blank as nat));
    let v4 = v3.push(decimal(r.comment as nat));
    let v5 = v4.push(decimal(r.code as nat));
    assert(csv_lang_field("language"@, r) == r.language@);
    assert(csv_lang_field("files"@, r) == decimal(r.files as nat));
    assert(csv_lang_field("blank"@, r) == decimal(r.blank as nat));
    assert(csv_lang_field("comment"@, r) == decimal(r.comment as nat));
    assert(csv_lang_field("code"@, r) == decimal(r.code as nat));
    assert(n5.map_values(|n: Seq<char>| csv_lang_field(n, r)) =~= v5);
    assert(n2.drop_last() =~= n1);
    assert(v2.drop_last() =~= v1);
    assert(n3.drop_last() =~= n2);
    assert(v3.drop_last() =~= v2);
    assert(n4.drop_last() =~= n3);
    assert(v4.drop_last() =~= v3);
    assert(n5.drop_last() =~= n4);
    assert(v5.drop_last() =~= v4);
    assert(join_fields(n1) == "language"@);
    assert(join_fields(v1) == r.language@);
    assert(join_fields(n2) == join_fields(n1) + ","@ + "files"@);
    assert(join_fields(v2) == join_fields(v1) + ","@ + decimal(r.files as nat));
    assert(join_fields(n3) == join_fields(n2) + ","@ + "blank"@);
    assert(join_fields(v3) == join_fields(v2) + ","@ + decimal(r.blank as nat));
    assert(join_fields(n4) == join_fields(n3) + ","@ + "comment"@);
    assert(join_fields(v4) == join_fields(v3) + ","@ + decimal(r.comment as nat));
    assert(join_fields(n5) == join_fields(n4) + ","@ + "code"@);
    assert(join_fields(v5) == join_fields(v4) + ","@ + decimal(r.code as nat));
    assert("language,files,blank,comment,code\n"@ =~= join_fields(n5) + "\n"@);
    assert(csv_lang_line(r) =~= join_fields(v5) + "\n"@);
}

/// A CSV line of a file holds, column by column, the field that the file header
/// names: the path, the language, then the blank, comment and code counts.
pub proof fn lemma_csv_file_line_follows_header(f: FileStats)
    ensures
        exists|names: Seq<Seq<char>>|
            #![trigger join_fields(names)]
            "file,language,blank,comment,code\n"@ == join_fields(names) + "\n"@
                && csv_file_line(f) == join_fields(names.map_values(|n: Seq<char>| csv_file_field(n, f)))
                + "\n"@,
{
    reveal_strlit("file,language,blank,comment,code\n");
    reveal_strlit("file");
    assert("file"@.len() == 4);
    reveal_strlit("language");
    assert("language"@.len() == 8);
    reveal_strlit("blank");
    assert("blank"@.len() == 5);
    reveal_strlit("comment");
    assert("comment"@.len() == 7);
    reveal_strlit("code");
    assert("code"@.len() == 4);
    reveal_strlit(",");
    reveal_strlit("\n");
    assert("file"@[0] != "code"@[0]);
    let n1 = seq!["file"@];
    let n2 = n1.push("language"@);
    let n3 = n2.push("blank"@);
    let n4 = n3.push("comment"@);
    let n5 = n4.push("code"@);
    let v1 = seq![f.path@];
    let v2 = v1.push(f.language@);
    let v3 = v2.push(decimal(f.blank as nat));
    let v4 = v3.push(decimal(f.comment as nat));
    let v5 = v4.push(decimal(f.code as nat));
    assert(csv_file_field("file"@, f) == f.path@);
    assert(csv_file_field("language"@, f) == f.language@);
    assert(csv_file_field("blank"@, f) == decimal(f.blank as nat));
    assert(csv_file_field("comment"@, f) == decimal(f.comment as nat));
    assert(csv_file_field("code"@, f) == decimal(f.code as nat));
    assert(n5.map_values(|n: Seq<char>| csv_file_field(n, f)) =~= v5);
    assert(n2.drop_last() =~= n1);
    assert(v2.drop_last() =~= v1);
    assert(n3.drop_last() =~= n2);
    assert(v3.drop_last() =~= v2);
    assert(n4.drop_last() =~= n3);
    assert(v4.drop_last() =~= v3);
    assert(n5.drop_last() =~= n4);
    assert(v5.drop_last() =~= v4);
    assert(join_fields(n1) == "file"@);
    assert(join_fields(v1) == f.path@);
    assert(join_fields(n2) == join_fields(n1) + ","@ + "language"@);
    assert(join_fields(v2) == join_fields(v1) + ","@ + f.language@);
    assert(join_fields(n3) == join_fields(n2) + ","@ + "blank"@);
    assert(join_fields(v3) == join_fields(v2) + ","@ + decimal(f.blank as nat));
    assert(join_fields(n4) == join_fields(n3) + ","@ + "comment"@);
    assert(join_fields(v4) == join_fields(v3) + ","@ + decimal(f.comment as nat));
    assert(join_fields(n5) == join_fields(n4) + ","@ + "code"@);
    assert(join_fields(v5) == join_fields(v4) + ","@ + decimal(f.code as nat));
    assert("file,language,blank,comment,code\n"@ =~= join_fields(n5) + "\n"@);
    assert(csv_file_line(f) =~= join_fields(v5) + "\n"@);
}

} // verus!
