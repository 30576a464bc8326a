use vstd::prelude::*;

use comfy_table::{Cell, Table};

use crate::stats::{FileStats, LangStats};
use crate::text::{decimal, u64_text};

verus! {

#[verifier::external_type_specification]
#[verifier::external_body]
pub struct ExTable(comfy_table::Table);

#[verifier::external_type_specification]
#[verifier::external_body]
pub struct ExCell(comfy_table::Cell);

/// Names the content of a `comfy_table::Cell`: its lines, as `Cell::new` splits
/// the text at each newline.
pub uninterp spec fn cell_lines(c: Cell) -> Seq<Seq<char>>;

/// Names the style of a `comfy_table::Cell` that the library sets: whether its
/// attributes hold `Attribute::Bold`, and whether it is aligned right.
pub uninterp spec fn cell_style(c: Cell) -> (bool, bool);

/// Names the rows of a `comfy_table::Table`: for each row added, each of its cells
/// as its lines, whether it is bold and whether it is aligned right.
pub uninterp spec fn table_rows(t: Table) -> Seq<Seq<(Seq<Seq<char>>, bool, bool)>>;

/// Names the header of a `comfy_table::Table`: each of its cells as its lines,
/// whether it is bold and whether it is aligned right (none before a header is set).
pub uninterp spec fn table_header(t: Table) -> Seq<(Seq<Seq<char>>, bool, bool)>;

/// Names the drawing style of a `comfy_table::Table`: the character of each of its
/// style components, in the order of `TableComponent::iter`, a space where a
/// component has none (what `Table::current_style_as_preset` returns).
pub uninterp spec fn table_style(t: Table) -> Seq<char>;

/// Names whether a `comfy_table::Table` arranges its content with
/// `ContentArrangement::Dynamic`.
pub uninterp spec fn table_is_dynamic(t: Table) -> bool;

/// The style that `Table::load_preset` leaves when it loads `preset` over the style
/// `old`: the preset's characters replace the leading components, one each, and
/// the remaining components keep theirs.
pub open spec fn loaded_style(old: Seq<char>, preset: Seq<char>) -> Seq<char> {
    if preset.len() >= old.len() {
        preset.take(old.len() as int)
    } else {
        preset + old.skip(preset.len() as int)
    }
}

/// The pieces of `s` between newlines, as `str::split('\n')` yields them: always at
/// least one, and an empty one after a final newline.
pub open spec fn newline_pieces(s: Seq<char>) -> Seq<Seq<char>>
    decreases s.len(),
{
    if s.len() == 0 {
        seq![seq![]]
    } else {
        let rest = newline_pieces(s.drop_last());
        if s.last() == '\n' {
            rest.push(seq![])
        } else {
            rest.update(rest.len() - 1, rest.last().push(s.last()))
        }
    }
}

/// A cell as its lines, whether it is bold and whether it is aligned right.
pub open spec fn cell_model(c: Cell) -> (Seq<Seq<char>>, bool, bool) {
    (cell_lines(c), cell_style(c).0, cell_style(c).1)
}

/// The model of each cell of `cells`.
pub open spec fn cells_model(cells: Seq<Cell>) -> Seq<(Seq<Seq<char>>, bool, bool)> {
    cells.map_values(|c: Cell| cell_model(c))
}

/// Calls `Cell::new`: the cell holds `text` split at each newline, with no attribute
/// and no alignment.
#[verifier::external_body]
fn cell_new(text: &str) -> (res: Cell)
    ensures
        cell_lines(res) == newline_pieces(text@),
        cell_style(res) == (false, false),
{
    Cell::new(text)
}

/// Calls `Cell::add_attribute` with `Attribute::Bold`: the cell becomes bold; its
/// content and alignment are kept.
#[verifier::external_body]
fn cell_bold(cell: Cell) -> (res: Cell)
    ensures
        cell_lines(res) == cell_lines(cell),
        cell_style(res) == (true, cell_style(cell).1),
{
    cell.add_attribute(comfy_table::Attribute::Bold)
}

/// Calls `Cell::set_alignment` with `CellAlignment::Right`: the cell is aligned
/// right; its content and attributes are kept.
#[verifier::external_body]
fn cell_align_right(cell: Cell) -> (res: Cell)
    ensures
        cell_lines(res) == cell_lines(cell),
        cell_style(res) == (cell_style(cell).0, true),
{
    cell.set_alignment(comfy_table::CellAlignment::Right)
}

/// Calls `Table::new`: a table with no header and no rows, in the style of the
/// `ASCII_FULL` preset, with content arrangement disabled.
#[verifier::external_body]
fn table_new() -> (res: Table)
    ensures
        table_rows(res) == Seq::<Seq<(Seq<Seq<char>>, bool, bool)>>::empty(),
        table_header(res) == Seq::<(Seq<Seq<char>>, bool, bool)>::empty(),
        table_style(res) == "||--+==+|-+||++++++"@,
        !table_is_dynamic(res),
{
    Table::new()
}

/// Reads `comfy_table::presets::UTF8_FULL`, the preset string of the full UTF-8 style.
#[verifier::external_body]
fn utf8_full() -> (res: &'static str)
    ensures
        res@ == utf8_full_style(),
{
    comfy_table::presets::UTF8_FULL
}

/// Calls `Table::load_preset`: the style becomes `loaded_style` of the old style and
/// the preset; header, rows and arrangement are kept.
#[verifier::external_body]
fn table_load_preset(table: &mut Table, preset: &str)
    ensures
        table_style(*final(table)) == loaded_style(table_style(*old(table)), preset@),
        table_is_dynamic(*final(table)) == table_is_dynamic(*old(table)),
        table_rows(*final(table)) == table_rows(*old(table)),
        table_header(*final(table)) == table_header(*old(table)),
{
    table.load_preset(preset);
}

/// Calls `Table::set_content_arrangement` with `ContentArrangement::Dynamic`: the
/// arrangement becomes dynamic; header, rows and style are kept.
#[verifier::external_body]
fn table_arrange_dynamically(table: &mut Table)
    ensures
        table_is_dynamic(*final(table)),
        table_style(*final(table)) == table_style(*old(table)),
        table_rows(*final(table)) == table_rows(*old(table)),
        table_header(*final(table)) == table_header(*old(table)),
{
    table.set_content_arrangement(comfy_table::ContentArrangement::Dynamic);
}

/// Calls `Table::set_header`: the header becomes `cells`; rows, style and
/// arrangement are kept.
#[verifier::external_body]
fn table_set_header(table: &mut Table, cells: Vec<Cell>)
    ensures
        table_style(*final(table)) == table_style(*old(table)),
        table_is_dynamic(*final(table)) == table_is_dynamic(*old(table)),
        table_header(*final(table)) == cells_model(cells@),
        table_rows(*final(table)) == table_rows(*old(table)),
{
    table.set_header(cells);
}

/// Calls `Table::add_row`: `cells` is appended as the last row; header, style and
/// arrangement are kept.
#[verifier::external_body]
fn table_add_row(table: &mut Table, cells: Vec<Cell>)
    ensures
        table_style(*final(table)) == table_style(*old(table)),
        table_is_dynamic(*final(table)) == table_is_dynamic(*old(table)),
        table_rows(*final(table)) == table_rows(*old(table)).push(cells_model(cells@)),
        table_header(*final(table)) == table_header(*old(table)),
{
    table.add_row(cells);
}


/// A cell holding `s`, plain.
pub open spec fn text_cell(s: Seq<char>) -> (Seq<Seq<char>>, bool, bool) {
    (newline_pieces(s), false, false)
}

/// A header cell holding `s`: bold.
pub open spec fn heading_cell(s: Seq<char>) -> (Seq<Seq<char>>, bool, bool) {
    (newline_pieces(s), true, false)
}

/// A cell holding `n` in decimal, aligned right, and bold when `bold`.
pub open spec fn number_cell(n: nat, bold: bool) -> (Seq<Seq<char>>, bool, bool) {
    (newline_pieces(decimal(n)), bold, true)
}

/// The header of the language table.
pub open spec fn lang_header() -> Seq<(Seq<Seq<char>>, bool, bool)> {
    seq![
        heading_cell("Language"@),
        heading_cell("Files"@),
        heading_cell("Blank"@),
        heading_cell("Comment"@),
        heading_cell("Code"@),
    ]
}

/// The row of the language table for `r`.
pub open spec fn lang_row(r: LangStats) -> Seq<(Seq<Seq<char>>, bool, bool)> {
    seq![
        text_cell(r.language@),
        number_cell(r.files as nat, false),
        number_cell(r.blank as nat, false),
        number_cell(r.comment as nat, false),
        number_cell(r.code as nat, false),
    ]
}

/// The last row of the language table: `SUM` and the totals, all bold.
pub open spec fn sum_row(totals: LangStats) -> Seq<(Seq<Seq<char>>, bool, bool)> {
    seq![
        heading_cell("SUM"@),
        number_cell(totals.files as nat, true),
        number_cell(totals.blank as nat, true),
        number_cell(totals.comment as nat, true),
        number_cell(totals.code as nat, true),
    ]
}

/// The rows of the language table: one per language, then the `SUM` row of the totals.
pub open spec fn lang_rows(by_lang: Seq<LangStats>, totals: LangStats) -> Seq<
    Seq<(Seq<Seq<char>>, bool, bool)>,
> {
    by_lang.map_values(|r: LangStats| lang_row(r)).push(sum_row(totals))
}

/// The header of the file table.
pub open spec fn file_header() -> Seq<(Seq<Seq<char>>, bool, bool)> {
    seq![
        heading_cell("File"@),
        heading_cell("Language"@),
        heading_cell("Blank"@),
        heading_cell("Comment"@),
        heading_cell("Code"@),
    ]
}

/// The row of the file table for `f`.
pub open spec fn file_row(f: FileStats) -> Seq<(Seq<Seq<char>>, bool, bool)> {
    seq![
        text_cell(f.path@),
        text_cell(f.language@),
        number_cell(f.blank as nat, false),
        number_cell(f.comment as nat, false),
        number_cell(f.code as nat, false),
    ]
}

/// A header cell: the text `s`, in bold.
fn header_cell(s: &str) -> (res: Cell)
    ensures
        cell_model(res) == heading_cell(s@),
{
    cell_bold(cell_new(s))
}

/// A number cell: `n` in decimal, aligned right.
fn num_cell(n: u64) -> (res: Cell)
    ensures
        cell_model(res) == number_cell(n as nat, false),
{
    let text = u64_text(n);
    cell_align_right(cell_new(text.as_str()))
}

/// The style of the full UTF-8 preset.
pub open spec fn utf8_full_style() -> Seq<char> {
    "││──╞═╪╡┆╌┼├┤┬┴┌┐└┘"@
}

/// A table in the full UTF-8 style whose columns adapt to the available width.
fn styled_table() -> (res: Table)
    ensures
        table_rows(res) == Seq::<Seq<(Seq<Seq<char>>, bool, bool)>>::empty(),
        table_header(res) == Seq::<(Seq<Seq<char>>, bool, bool)>::empty(),
        table_style(res) == utf8_full_style(),
        table_is_dynamic(res),
{
    proof {
        reveal_strlit("||--+==+|-+||++++++");
        reveal_strlit("││──╞═╪╡┆╌┼├┤┬┴┌┐└┘");
    }
    let mut table = table_new();
    table_load_preset(&mut table, utf8_full());
    assert(utf8_full_style().take(19) =~= utf8_full_style());
    table_arrange_dynamically(&mut table);
    table
}

/// The table of languages: a bold header, a row per language with the name and
/// its counts right-aligned, and a bold `SUM` row of the totals.
pub fn lang_table(by_lang: &Vec<LangStats>, totals: &LangStats) -> (res: Table)
    ensures
        table_header(res) == lang_header(),
        table_rows(res) == lang_rows(by_lang@, *totals),
        table_style(res) == utf8_full_style(),
        table_is_dynamic(res),
{
    let mut table = styled_table();
    let header = vec![
        header_cell("Language"),
        header_cell("Files"),
        header_cell("Blank"),
        header_cell("Comment"),
        header_cell("Code"),
    ];
    assert(cells_model(header@) =~= lang_header());
    table_set_header(&mut table, header);
    let ghost rows = by_lang@.map_values(|r: LangStats| lang_row(r));
    let n = by_lang.len();
    for i in 0..n
        invariant
            n == by_lang@.len(),
            rows == by_lang@.map_values(|r: LangStats| lang_row(r)),
            table_header(table) == lang_header(),
            table_rows(table) == rows.take(i as int),
            table_style(table) == utf8_full_style(),
            table_is_dynamic(table),
    {
        let r = &by_lang[i];
        let cells = vec![
            cell_new(r.language),
            num_cell(r.files),
            num_cell(r.blank),
            num_cell(r.comment),
            num_cell(r.code),
        ];
        assert(cells_model(cells@) =~= lang_row(*r));
        table_add_row(&mut table, cells);
        assert(rows.take(i + 1) =~= rows.take(i as int).push(rows[i as int]));
    }
    assert(rows.take(n as int) =~= rows);
    let sum = vec![
        header_cell("SUM"),
        cell_bold(num_cell(totals.files)),
        cell_bold(num_cell(totals.blank)),
        cell_bold(num_cell(totals.comment)),
        cell_bold(num_cell(totals.code)),
    ];
    assert(cells_model(sum@) =~= sum_row(*totals));
    table_add_row(&mut table, sum);
    table
}

/// The table of files: a bold header and a row per file with its path, language
/// and counts right-aligned.
pub fn file_table(files: &Vec<FileStats>) -> (res: Table)
    ensures
        table_header(res) == file_header(),
        table_rows(res) == files@.map_values(|f: FileStats| file_row(f)),
        table_style(res) == utf8_full_style(),
        table_is_dynamic(res),
{
    let mut table = styled_table();
    let header = vec![
        header_cell("File"),
        header_cell("Language"),
        header_cell("Blank"),
        header_cell("Comment"),
        header_cell("Code"),
    ];
    assert(cells_model(header@) =~= file_header());
    table_set_header(&mut table, header);
    let ghost rows = files@.map_values(|f: FileStats| file_row(f));
    let n = files.len();
    for i in 0..n
        invariant
            n == files@.len(),
            rows == files@.map_values(|f: FileStats| file_row(f)),
            table_header(table) == file_header(),
            table_rows(table) == rows.take(i as int),
            table_style(table) == utf8_full_style(),
            table_is_dynamic(table),
    {
        let f = &files[i];
        let cells = vec![
            cell_new(f.path.as_str()),
            cell_new(f.language),
            num_cell(f.blank),
            num_cell(f.comment),
            num_cell(f.code),
        ];
        assert(cells_model(cells@) =~= file_row(*f));
        table_add_row(&mut table, cells);
        assert(rows.take(i + 1) =~= rows.take(i as int).push(rows[i as int]));
    }
    assert(rows.take(n as int) =~= rows);
    table
}

/// The text that the language table shows for the row `r` in the column headed `name`.
pub open spec fn lang_column(name: Seq<char>, r: LangStats) -> Seq<char> {
    if name == "Language"@ {
        r.language@
    } else if name == "Files"@ {
        decimal(r.files as nat)
    } else if name == "Blank"@ {
        decimal(r.blank as nat)
    } else if name == "Comment"@ {
        decimal(r.comment as nat)
    } else if name == "Code"@ {
        decimal(r.code as nat)
    } else {
        seq![]
    }
}

/// The text that the file table shows for the file `f` in the column headed `name`.
pub open spec fn file_column(name: Seq<char>, f: FileStats) -> Seq<char> {
    if name == "File"@ {
        f.path@
    } else if name == "Language"@ {
        f.language@
    } else if name == "Blank"@ {
        decimal(f.blank as nat)
    } else if name == "Comment"@ {
        decimal(f.comment as nat)
    } else if name == "Code"@ {
        decimal(f.code as nat)
    } else {
        seq![]
    }
}

/// Column `c` of the language table: its header cell is bold and names a field,
/// the cell of the row `r` in it shows that field of `r`, and the cell of the `SUM`
/// row shows that field of `totals` (`SUM` in the language column).
pub open spec fn lang_column_shows_header_field(c: int, r: LangStats, totals: LangStats) -> bool {
    &&& lang_header()[c].1
    &&& exists|name: Seq<char>|
        #![trigger heading_cell(name)]
        lang_header()[c] == heading_cell(name) && lang_row(r)[c].0 == newline_pieces(
            lang_column(name, r),
        ) && sum_row(totals)[c].0 == newline_pieces(
            if name == "Language"@ {
                "SUM"@
            } else {
                lang_column(name, totals)
            },
        )
}

/// Column `c` of the file table: its header cell is bold and names a field, and the
/// cell of the row of `f` in it shows that field of `f`.
pub open spec fn file_column_shows_header_field(c: int, f: FileStats) -> bool {
    &&& file_header()[c].1
    &&& exists|name: Seq<char>|
        #![trigger heading_cell(name)]
        file_header()[c] == heading_cell(name) && file_row(f)[c].0 == newline_pieces(
            file_column(name, f),
        )
}

proof fn lemma_lang_column(c: int, r: LangStats, totals: LangStats)
    requires
        0 <= c < 5,
    ensures
        lang_column_shows_header_field(c, r, totals),
{
    reveal_strlit("Language");
    reveal_strlit("Files");
    reveal_strlit("Blank");
    reveal_strlit("Comment");
    reveal_strlit("Code");
    assert("Files"@[0] != "Blank"@[0]);
    let name = if c == 0 {
        "Language"@
    } else if c == 1 {
        "Files"@
    } else if c == 2 {
        "Blank"@
    } else if c == 3 {
        "Comment"@
    } else {
        "Code"@
    };
    assert(lang_header()[c] == heading_cell(name));
}

proof fn lemma_file_column(c: int, f: FileStats)
    requires
        0 <= c < 5,
    ensures
        file_column_shows_header_field(c, f),
{
    reveal_strlit("File");
    reveal_strlit("Language");
    reveal_strlit("Blank");
    reveal_strlit("Comment");
    reveal_strlit("Code");
    assert("File"@[0] != "Code"@[0]);
    let name = if c == 0 {
        "File"@
    } else if c == 1 {
        "Language"@
    } else if c == 2 {
        "Blank"@
    } else if c == 3 {
        "Comment"@
    } else {
        "Code"@
    };
    assert(file_header()[c] == heading_cell(name));
}

/// In the language table, each header cell is bold and names a field; each cell of a
/// language row shows the field named by the header cell above it (the language, or
/// its files, blank, comment or code count), and each cell of the `SUM` row shows
/// the same field of the totals, except that the language column reads `SUM`.
pub proof fn lemma_lang_table_columns(r: LangStats, totals: LangStats)
    ensures
        lang_header().len() == 5,
        lang_row(r).len() == 5,
        sum_row(totals).len() == 5,
        forall|c: int| 0 <= c < 5 ==> #[trigger] lang_column_shows_header_field(c, r, totals),
{
    assert forall|c: int| 0 <= c < 5 implies #[trigger] lang_column_shows_header_field(c, r, totals) by {
        lemma_lang_column(c, r, totals);
    }
}

/// In the file table, each header cell is bold and names a field, and each cell of a
/// file row shows the field named by the header cell above it (the path, the
/// language, or the blank, comment or code count).
pub proof fn lemma_file_table_columns(f: FileStats)
    ensures
        file_header().len() == 5,
        file_row(f).len() == 5,
        forall|c: int| 0 <= c < 5 ==> #[trigger] file_column_shows_header_field(c, f),
{
    assert forall|c: int| 0 <= c < 5 implies #[trigger] file_column_shows_header_field(c, f) by {
        lemma_file_column(c, f);
    }
}

/// The language table has one row per language row of the report, in the report's
/// order, and then the `SUM` row of the totals.
pub proof fn lemma_lang_table_rows(by_lang: Seq<LangStats>, totals: LangStats)
    ensures
        lang_rows(by_lang, totals).len() == by_lang.len() + 1,
        forall|i: int|
            0 <= i < by_lang.len() ==> lang_rows(by_lang, totals)[i] == lang_row(#[trigger] by_lang[i]),
        lang_rows(by_lang, totals).last() == sum_row(totals),
{
}

} // verus!
