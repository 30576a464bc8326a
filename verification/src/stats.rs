use vstd::prelude::*;

use crate::cli::SortKey;
use crate::text::{chars_of, str_eq};

verus! {

/// The counts of one file.
#[derive(Debug, Clone)]
pub struct FileStats {
    pub path: String,
    pub language: &'static str,
    pub blank: u64,
    pub comment: u64,
    pub code: u64,
    pub bytes: u64,
}

impl FileStats {
    /// All lines of the file: blank, comment and code together.
    pub fn total_lines(&self) -> (res: u64)
        requires
            self.blank + self.comment + self.code <= u64::MAX,
        ensures
            res == self.blank + self.comment + self.code,
    {
        self.blank + self.comment + self.code
    }
}

impl Default for FileStats {
    fn default() -> (res: Self)
        ensures
            res.path@ == Seq::<char>::empty(),
            res.language@ == Seq::<char>::empty(),
            res.blank == 0 && res.comment == 0 && res.code == 0 && res.bytes == 0,
    {
        proof {
            reveal_strlit("");
        }
        FileStats { path: String::new(), language: "", blank: 0, comment: 0, code: 0, bytes: 0 }
    }
}

/// The counts of all files of one language.
#[derive(Debug, Clone, Copy)]
pub struct LangStats {
    pub language: &'static str,
    pub files: u64,
    pub blank: u64,
    pub comment: u64,
    pub code: u64,
}

impl LangStats {
    /// These counts with the file `f` added.
    pub open spec fn merged(self, f: FileStats) -> LangStats {
        LangStats {
            language: self.language,
            files: (self.files + 1) as u64,
            blank: (self.blank + f.blank) as u64,
            comment: (self.comment + f.comment) as u64,
            code: (self.code + f.code) as u64,
        }
    }

    /// Adding `f` overflows none of the counts.
    pub open spec fn can_merge(self, f: FileStats) -> bool {
        &&& self.files + 1 <= u64::MAX
        &&& self.blank + f.blank <= u64::MAX
        &&& self.comment + f.comment <= u64::MAX
        &&& self.code + f.code <= u64::MAX
    }

    /// Adds the file `f` to these counts: one more file, and its blank, comment
    /// and code lines.
    pub fn merge(&mut self, f: &FileStats)
        requires
            old(self).can_merge(*f),
        ensures
            *final(self) == old(self).merged(*f),
    {
        self.files = self.files + 1;
        self.blank = self.blank + f.blank;
        self.comment = self.comment + f.comment;
        self.code = self.code + f.code;
    }

    /// All lines counted: blank, comment and code together.
    pub fn total_lines(&self) -> (res: u64)
        requires
            self.blank + self.comment + self.code <= u64::MAX,
        ensures
            res == self.blank + self.comment + self.code,
    {
        self.blank + self.comment + self.code
    }
}

impl Default for LangStats {
    fn default() -> (res: Self)
        ensures
            res.language@ == Seq::<char>::empty(),
            res.files == 0 && res.blank == 0 && res.comment == 0 && res.code == 0,
    {
        proof {
            reveal_strlit("");
        }
        LangStats { language: "", files: 0, blank: 0, comment: 0, code: 0 }
    }
}

/// Adding a file to a language's counts adds one file, adds its blank, comment and
/// code lines each to the same count of the language, and keeps the language.
pub proof fn lemma_merge_adds_lines(r: LangStats, f: FileStats)
    requires
        r.can_merge(f),
    ensures
        r.merged(f).blank + r.merged(f).comment + r.merged(f).code == r.blank + r.comment + r.code
            + f.blank + f.comment + f.code,
        r.merged(f).files == r.files + 1,
        r.merged(f).blank == r.blank + f.blank,
        r.merged(f).comment == r.comment + f.comment,
        r.merged(f).code == r.code + f.code,
        r.merged(f).language == r.language,
{
}

/// A finished count: one row per language, the files themselves if asked for,
/// and the totals over all files.
#[derive(Debug)]
pub struct Report {
    pub by_lang: Vec<LangStats>,
    pub by_file: Option<Vec<FileStats>>,
    pub totals: LangStats,
}


/// The sums of the blank, comment and code lines of `files`.
pub open spec fn file_sums(files: Seq<FileStats>) -> (nat, nat, nat)
    decreases files.len(),
{
    if files.len() == 0 {
        (0, 0, 0)
    } else {
        let (blank, comment, code) = file_sums(files.drop_last());
        let f = files.last();
        (blank + f.blank as nat, comment + f.comment as nat, code + f.code as nat)
    }
}

/// The line sums of `files` fit the counters.
pub open spec fn sums_fit(files: Seq<FileStats>) -> bool {
    &&& file_sums(files).0 <= u64::MAX
    &&& file_sums(files).1 <= u64::MAX
    &&& file_sums(files).2 <= u64::MAX
}

/// The index of the first row, from index `k` on, for the language named `name`.
pub open spec fn find_row(rows: Seq<LangStats>, name: Seq<char>, k: nat) -> Option<nat>
    decreases rows.len() - k,
{
    if k >= rows.len() {
        None
    } else if rows[k as int].language@ == name {
        Some(k)
    } else {
        find_row(rows, name, k + 1)
    }
}

/// The row of a language's first file.
pub open spec fn first_row(f: FileStats) -> LangStats {
    LangStats { language: f.language, files: 1, blank: f.blank, comment: f.comment, code: f.code }
}

/// The counts of `files` per language, one row per language in the order in which
/// the languages first occur: each file is added to the row of its language.
pub open spec fn group(files: Seq<FileStats>) -> Seq<LangStats>
    decreases files.len(),
{
    if files.len() == 0 {
        seq![]
    } else {
        let rows = group(files.drop_last());
        let f = files.last();
        match find_row(rows, f.language@, 0) {
            Some(i) => rows.update(i as int, rows[i as int].merged(f)),
            None => rows.push(first_row(f)),
        }
    }
}

/// The totals over `files`: the row named `SUM` that holds every file.
pub open spec fn totals_of(files: Seq<FileStats>) -> LangStats {
    LangStats {
        language: "SUM",
        files: files.len() as u64,
        blank: file_sums(files).0 as u64,
        comment: file_sums(files).1 as u64,
        code: file_sums(files).2 as u64,
    }
}

proof fn lemma_find_row(rows: Seq<LangStats>, name: Seq<char>, k: nat)
    ensures
        find_row(rows, name, k) matches Some(i) ==> k <= i < rows.len() && rows[i as int].language@
            == name,
    decreases rows.len() - k,
{
    if k < rows.len() && rows[k as int].language@ != name {
        lemma_find_row(rows, name, k + 1);
    }
}

proof fn lemma_sums_grow(files: Seq<FileStats>, i: int)
    requires
        0 <= i <= files.len(),
    ensures
        file_sums(files.take(i)).0 <= file_sums(files).0,
        file_sums(files.take(i)).1 <= file_sums(files).1,
        file_sums(files.take(i)).2 <= file_sums(files).2,
    decreases files.len(),
{
    if i < files.len() {
        assert(files.drop_last().take(i) =~= files.take(i));
        lemma_sums_grow(files.drop_last(), i);
    } else {
        assert(files.take(i) =~= files);
    }
}

/// The index of the row for the language named `name`, if `rows` has one.
fn find_row_index(rows: &Vec<LangStats>, name: &str) -> (res: Option<usize>)
    ensures
        match res {
            Some(i) => find_row(rows@, name@, 0) == Some(i as nat),
            None => find_row(rows@, name@, 0) is None,
        },
{
    let n = rows.len();
    for k in 0..n
        invariant
            n == rows@.len(),
            find_row(rows@, name@, 0) == find_row(rows@, name@, k as nat),
    {
        if str_eq(rows[k].language, name) {
            return Some(k);
        }
    }
    None
}

/// The counts of `files` per language (see `group`).
pub fn group_by_language(files: &Vec<FileStats>) -> (res: Vec<LangStats>)
    requires
        sums_fit(files@),
    ensures
        res@ == group(files@),
{
    let ghost all = files@;
    let mut rows: Vec<LangStats> = Vec::new();
    let n = files.len();
    for i in 0..n
        invariant
            n == all.len(),
            all == files@,
            sums_fit(all),
            rows@ == group(all.take(i as int)),
            forall|k: int|
                #![trigger rows@[k]]
                0 <= k < rows@.len() ==> rows@[k].files <= i && rows@[k].blank <= file_sums(
                    all.take(i as int),
                ).0 && rows@[k].comment <= file_sums(all.take(i as int)).1 && rows@[k].code
                    <= file_sums(all.take(i as int)).2,
    {
        let f = &files[i];
        let ghost before = all.take(i as int);
        let ghost after = all.take(i + 1);
        assert(after.drop_last() =~= before);
        assert(after.last() == *f);
        proof {
            lemma_sums_grow(all, i + 1);
        }
        let ghost prev = rows@;
        match find_row_index(&rows, f.language) {
            Some(idx) => {
                proof {
                    lemma_find_row(prev, f.language@, 0);
                }
                let mut row = rows[idx];
                assert(row.files <= i);
                row.merge(f);
                rows.set(idx, row);
                assert forall|k: int|
                    #![trigger rows@[k]]
                    0 <= k < rows@.len() implies rows@[k].files <= i + 1 && rows@[k].blank
                        <= file_sums(after).0 && rows@[k].comment <= file_sums(after).1
                        && rows@[k].code <= file_sums(after).2 by {
                    if k != idx {
                        assert(rows@[k] == prev[k]);
                        assert(prev[k].files <= i);
                    }
                }
            },
            None => {
                let row = LangStats {
                    language: f.language,
                    files: 1,
                    blank: f.blank,
                    comment: f.comment,
                    code: f.code,
                };
                rows.push(row);
                assert forall|k: int|
                    #![trigger rows@[k]]
                    0 <= k < rows@.len() implies rows@[k].files <= i + 1 && rows@[k].blank
                        <= file_sums(after).0 && rows@[k].comment <= file_sums(after).1
                        && rows@[k].code <= file_sums(after).2 by {
                    if k < prev.len() {
                        assert(rows@[k] == prev[k]);
                        assert(prev[k].files <= i);
                    }
                }
            },
        }
    }
    assert(all.take(n as int) =~= all);
    rows
}

/// The totals over `files` (see `totals_of`).
pub fn totals(files: &Vec<FileStats>) -> (res: LangStats)
    requires
        sums_fit(files@),
    ensures
        res == totals_of(files@),
{
    let ghost all = files@;
    let mut total = LangStats { language: "SUM", files: 0, blank: 0, comment: 0, code: 0 };
    let n = files.len();
    for i in 0..n
        invariant
            n == all.len(),
            all == files@,
            sums_fit(all),
            total == totals_of(all.take(i as int)),
    {
        let ghost after = all.take(i + 1);
        assert(after.drop_last() =~= all.take(i as int));
        proof {
            lemma_sums_grow(all, i + 1);
        }
        total.merge(&files[i]);
    }
    assert(all.take(n as int) =~= all);
    total
}


/// `a` comes no later than `b` in lexicographic order of character codes.
pub open spec fn name_le(a: Seq<char>, b: Seq<char>) -> bool
    decreases a.len(),
{
    if a.len() == 0 {
        true
    } else if b.len() == 0 {
        false
    } else if a[0] != b[0] {
        a[0] < b[0]
    } else {
        name_le(a.drop_first(), b.drop_first())
    }
}

proof fn lemma_name_le_reflexive(a: Seq<char>)
    ensures
        name_le(a, a),
    decreases a.len(),
{
    if a.len() > 0 {
        lemma_name_le_reflexive(a.drop_first());
    }
}

proof fn lemma_name_le_total(a: Seq<char>, b: Seq<char>)
    ensures
        name_le(a, b) || name_le(b, a),
    decreases a.len(),
{
    if a.len() > 0 && b.len() > 0 && a[0] == b[0] {
        lemma_name_le_total(a.drop_first(), b.drop_first());
    }
}

proof fn lemma_name_le_transitive(a: Seq<char>, b: Seq<char>, c: Seq<char>)
    requires
        name_le(a, b),
        name_le(b, c),
    ensures
        name_le(a, c),
    decreases a.len(),
{
    if a.len() > 0 && b.len() > 0 && c.len() > 0 && a[0] == b[0] && b[0] == c[0] {
        lemma_name_le_transitive(a.drop_first(), b.drop_first(), c.drop_first());
    }
}

proof fn lemma_name_le_antisymmetric(a: Seq<char>, b: Seq<char>)
    requires
        name_le(a, b),
        name_le(b, a),
    ensures
        a == b,
    decreases a.len(),
{
    if a.len() > 0 && b.len() > 0 {
        lemma_name_le_antisymmetric(a.drop_first(), b.drop_first());
        assert(a =~= seq![a[0]] + a.drop_first());
        assert(b =~= seq![b[0]] + b.drop_first());
    }
}

/// The value of the column `key` in the row `r` (for `Name`, nothing).
pub open spec fn key_value(key: SortKey, r: LangStats) -> nat {
    match key {
        SortKey::Lines => r.blank as nat + r.comment as nat + r.code as nat,
        SortKey::Code => r.code as nat,
        SortKey::Blank => r.blank as nat,
        SortKey::Comment => r.comment as nat,
        SortKey::Name => 0,
    }
}

/// Row `a` may stand before row `b` when ordered by `key`: by name ascending for
/// `Name`; otherwise by the column descending, and by name ascending where the
/// column is equal.
pub open spec fn row_before(key: SortKey, a: LangStats, b: LangStats) -> bool {
    ||| key_value(key, a) > key_value(key, b)
    ||| key_value(key, a) == key_value(key, b) && name_le(a.language@, b.language@)
}

/// `rows` is ordered by `key`.
pub open spec fn sorted_rows(key: SortKey, rows: Seq<LangStats>) -> bool {
    forall|i: int, j: int| 0 <= i < j < rows.len() ==> row_before(key, #[trigger] rows[i], #[trigger] rows[j])
}

/// No two rows of `rows` are for the same language.
pub open spec fn distinct_languages(rows: Seq<LangStats>) -> bool {
    forall|i: int, j: int|
        0 <= i < j < rows.len() ==> #[trigger] rows[i].language@ != #[trigger] rows[j].language@
}

proof fn lemma_row_before_total(key: SortKey, a: LangStats, b: LangStats)
    ensures
        row_before(key, a, b) || row_before(key, b, a),
{
    lemma_name_le_total(a.language@, b.language@);
}

proof fn lemma_row_before_transitive(key: SortKey, a: LangStats, b: LangStats, c: LangStats)
    requires
        row_before(key, a, b),
        row_before(key, b, c),
    ensures
        row_before(key, a, c),
{
    if key_value(key, a) == key_value(key, b) && key_value(key, b) == key_value(key, c) {
        lemma_name_le_transitive(a.language@, b.language@, c.language@);
    }
}

/// Whether name `a` comes no later than name `b` (see `name_le`).
fn name_le_exec(a: &str, b: &str) -> (res: bool)
    ensures
        res == name_le(a@, b@),
{
    let x = chars_of(a);
    let y = chars_of(b);
    let mut i: usize = 0;
    assert(x@.skip(0) =~= x@);
    assert(y@.skip(0) =~= y@);
    loop
        invariant
            x@ == a@,
            y@ == b@,
            i <= x@.len(),
            i <= y@.len(),
            name_le(a@, b@) == name_le(x@.skip(i as int), y@.skip(i as int)),
        decreases x@.len() - i,
    {
        if i == x.len() {
            return true;
        }
        if i == y.len() {
            return false;
        }
        let c = x[i];
        let d = y[i];
        assert(x@.skip(i as int)[0] == c);
        assert(y@.skip(i as int)[0] == d);
        if c != d {
            return c < d;
        }
        assert(x@.skip(i as int).drop_first() =~= x@.skip(i + 1));
        assert(y@.skip(i as int).drop_first() =~= y@.skip(i + 1));
        i = i + 1;
    }
}

fn key_value_exec(key: SortKey, r: &LangStats) -> (res: u128)
    ensures
        res == key_value(key, *r),
{
    match key {
        SortKey::Lines => r.blank as u128 + r.comment as u128 + r.code as u128,
        SortKey::Code => r.code as u128,
        SortKey::Blank => r.blank as u128,
        SortKey::Comment => r.comment as u128,
        SortKey::Name => 0,
    }
}

fn row_before_exec(key: SortKey, a: &LangStats, b: &LangStats) -> (res: bool)
    ensures
        res == row_before(key, *a, *b),
{
    let ka = key_value_exec(key, a);
    let kb = key_value_exec(key, b);
    ka > kb || (ka == kb && name_le_exec(a.language, b.language))
}

/// Inserting the row `rows[i]` into `prev`, a permutation of the rows before it,
/// keeps the languages of `prev` distinct.
proof fn lemma_insert_new_language(prev: Seq<LangStats>, rows: Seq<LangStats>, i: int, p: int)
    requires
        0 <= i < rows.len(),
        0 <= p <= prev.len(),
        distinct_languages(rows),
        distinct_languages(prev),
        prev.to_multiset() == rows.take(i).to_multiset(),
    ensures
        distinct_languages(prev.insert(p, rows[i])),
{
    broadcast use vstd::seq_lib::group_to_multiset_ensures;

    let r = rows[i];
    let out = prev.insert(p, r);
    assert forall|k: int| 0 <= k < prev.len() implies prev[k].language@ != r.language@ by {
        assert(prev.to_multiset().contains(prev[k]));
        assert(rows.take(i).contains(prev[k]));
        let q = choose|q: int| 0 <= q < rows.take(i).len() && rows.take(i)[q] == prev[k];
        assert(rows[q] == prev[k]);
    }
    assert forall|a: int, b: int| 0 <= a < b < out.len() implies #[trigger] out[a].language@
        != #[trigger] out[b].language@ by {
        if b < p {
        } else if b == p {
            assert(out[a] == prev[a]);
        } else if a < p {
            assert(out[a] == prev[a]);
            assert(out[b] == prev[b - 1]);
        } else if a == p {
            assert(out[b] == prev[b - 1]);
        } else {
            assert(out[a] == prev[a - 1]);
            assert(out[b] == prev[b - 1]);
        }
    }
}

/// `rows` ordered by `key` (see `row_before`): the same rows, sorted.
pub fn sort_rows(rows: Vec<LangStats>, key: SortKey) -> (res: Vec<LangStats>)
    ensures
        res@.to_multiset() == rows@.to_multiset(),
        sorted_rows(key, res@),
        distinct_languages(rows@) ==> distinct_languages(res@),
{
    let mut out: Vec<LangStats> = Vec::new();
    let n = rows.len();
    assert(out@ =~= rows@.take(0));
    for i in 0..n
        invariant
            n == rows@.len(),
            out@.to_multiset() == rows@.take(i as int).to_multiset(),
            sorted_rows(key, out@),
            distinct_languages(rows@) ==> distinct_languages(out@),
    {
        let r = rows[i];
        let m = out.len();
        let mut p: usize = 0;
        while p < m && row_before_exec(key, &out[p], &r)
            invariant
                m == out@.len(),
                p <= m,
                forall|j: int| 0 <= j < p ==> row_before(key, #[trigger] out@[j], r),
            decreases m - p,
        {
            p = p + 1;
        }
        let ghost prev = out@;
        proof {
            if p < m {
                lemma_row_before_total(key, prev[p as int], r);
            }
        }
        out.insert(p, r);
        proof {
            assert(out@ == prev.insert(p as int, r));
            assert forall|a: int, b: int| 0 <= a < b < out@.len() implies row_before(
                key,
                #[trigger] out@[a],
                #[trigger] out@[b],
            ) by {
                if b < p {
                } else if b == p {
                    assert(out@[a] == prev[a]);
                } else if a < p {
                    assert(out@[a] == prev[a]);
                    assert(out@[b] == prev[b - 1]);
                    if a < b - 1 {
                    }
                } else if a == p {
                    assert(out@[b] == prev[b - 1]);
                    if b - 1 > p {
                        assert(row_before(key, prev[p as int], prev[b - 1]));
                        lemma_row_before_transitive(key, r, prev[p as int], prev[b - 1]);
                    }
                } else {
                    assert(out@[a] == prev[a - 1]);
                    assert(out@[b] == prev[b - 1]);
                }
            }
            vstd::seq_lib::to_multiset_insert(prev, p as int, r);
            if distinct_languages(rows@) {
                lemma_insert_new_language(prev, rows@, i as int, p as int);
            }
            assert(rows@.take(i + 1) =~= rows@.take(i as int).push(r));
            vstd::seq_lib::to_multiset_build(rows@.take(i as int), r);
        }
    }
    assert(rows@.take(n as int) =~= rows@);
    out
}


/// The report of `files`: their rows per language ordered by `sort`, the files
/// themselves when `by_file` asks for them, and their totals.
pub fn build_report(files: Vec<FileStats>, sort: SortKey, by_file: bool) -> (res: Report)
    requires
        sums_fit(files@),
    ensures
        res.by_lang@.to_multiset() == group(files@).to_multiset(),
        sorted_rows(sort, res.by_lang@),
        distinct_languages(res.by_lang@),
        res.totals == totals_of(files@),
        res.by_file == (if by_file {
            Some(files)
        } else {
            None
        }),
{
    let rows = group_by_language(&files);
    proof {
        lemma_one_row_per_language(files@);
    }
    let by_lang = sort_rows(rows, sort);
    let totals = totals(&files);
    let by_file = if by_file {
        Some(files)
    } else {
        None
    };
    Report { by_lang, by_file, totals }
}

/// A row's counts added to the running sums of files, blank, comment and code lines.
pub open spec fn add_row(acc: (int, int, int, int), r: LangStats) -> (int, int, int, int) {
    (acc.0 + r.files, acc.1 + r.blank, acc.2 + r.comment, acc.3 + r.code)
}

/// The sums of the files, blank, comment and code counts of `rows`.
pub open spec fn row_sums(rows: Seq<LangStats>) -> (int, int, int, int) {
    rows.fold_left((0int, 0int, 0int, 0int), |acc: (int, int, int, int), r: LangStats| add_row(acc, r))
}

proof fn lemma_row_sums_update(rows: Seq<LangStats>, i: int, x: LangStats)
    requires
        0 <= i < rows.len(),
    ensures
        add_row(row_sums(rows.update(i, x)), rows[i]) == add_row(row_sums(rows), x),
    decreases rows.len(),
{
    let u = rows.update(i, x);
    if i == rows.len() - 1 {
        assert(u.drop_last() =~= rows.drop_last());
    } else {
        assert(u.drop_last() =~= rows.drop_last().update(i, x));
        lemma_row_sums_update(rows.drop_last(), i, x);
    }
}

proof fn lemma_row_sums_push(rows: Seq<LangStats>, x: LangStats)
    ensures
        row_sums(rows.push(x)) == add_row(row_sums(rows), x),
{
    assert(rows.push(x).drop_last() =~= rows);
}

proof fn lemma_group_sums(files: Seq<FileStats>)
    requires
        sums_fit(files),
        files.len() <= u64::MAX,
    ensures
        row_sums(group(files)) == (
            files.len() as int,
            file_sums(files).0 as int,
            file_sums(files).1 as int,
            file_sums(files).2 as int,
        ),
        forall|k: int|
            #![trigger group(files)[k]]
            0 <= k < group(files).len() ==> group(files)[k].files <= files.len()
                && group(files)[k].blank <= file_sums(files).0 && group(files)[k].comment
                <= file_sums(files).1 && group(files)[k].code <= file_sums(files).2,
    decreases files.len(),
{
    if files.len() > 0 {
        let rest = files.drop_last();
        lemma_sums_grow(files, files.len() - 1);
        assert(files.take(files.len() - 1) =~= rest);
        lemma_group_sums(rest);
        let rows = group(rest);
        let f = files.last();
        lemma_find_row(rows, f.language@, 0);
        match find_row(rows, f.language@, 0) {
            Some(i) => {
                lemma_row_sums_update(rows, i as int, rows[i as int].merged(f));
                assert forall|k: int|
                    #![trigger group(files)[k]]
                    0 <= k < group(files).len() implies group(files)[k].files <= files.len()
                        && group(files)[k].blank <= file_sums(files).0 && group(files)[k].comment
                        <= file_sums(files).1 && group(files)[k].code <= file_sums(files).2 by {
                    assert(rows[k].files <= rest.len());
                }
            },
            None => {
                lemma_row_sums_push(rows, first_row(f));
                assert forall|k: int|
                    #![trigger group(files)[k]]
                    0 <= k < group(files).len() implies group(files)[k].files <= files.len()
                        && group(files)[k].blank <= file_sums(files).0 && group(files)[k].comment
                        <= file_sums(files).1 && group(files)[k].code <= file_sums(files).2 by {
                    if k < rows.len() {
                        assert(rows[k].files <= rest.len());
                    }
                }
            },
        }
    }
}

/// The totals row holds the sums of the language rows: as many files, and as many
/// blank, comment and code lines, as all rows together.
pub proof fn lemma_totals_are_sum_of_rows(files: Seq<FileStats>, rows: Seq<LangStats>)
    requires
        sums_fit(files),
        files.len() <= u64::MAX,
        rows.to_multiset() == group(files).to_multiset(),
    ensures
        row_sums(rows) == (
            totals_of(files).files as int,
            totals_of(files).blank as int,
            totals_of(files).comment as int,
            totals_of(files).code as int,
        ),
{
    let f = |acc: (int, int, int, int), r: LangStats| add_row(acc, r);
    assert(vstd::seq_lib::commutative_foldl(f));
    vstd::seq_lib::lemma_fold_left_permutation(rows, group(files), f, (0int, 0int, 0int, 0int));
    lemma_group_sums(files);
}

/// Each language has at most one row.
pub proof fn lemma_one_row_per_language(files: Seq<FileStats>)
    ensures
        distinct_languages(group(files)),
    decreases files.len(),
{
    if files.len() > 0 {
        let rest = files.drop_last();
        lemma_one_row_per_language(rest);
        let rows = group(rest);
        let f = files.last();
        lemma_find_row(rows, f.language@, 0);
        match find_row(rows, f.language@, 0) {
            Some(i) => {
                assert forall|a: int, b: int|
                    0 <= a < b < group(files).len() implies #[trigger] group(files)[a].language@
                    != #[trigger] group(files)[b].language@ by {
                    assert(group(files)[a].language == rows[a].language);
                    assert(group(files)[b].language == rows[b].language);
                }
            },
            None => {
                assert forall|k: int| 0 <= k < rows.len() implies rows[k].language@ != f.language@ by {
                    lemma_find_row_none(rows, f.language@, 0, k);
                }
                assert forall|a: int, b: int|
                    0 <= a < b < group(files).len() implies #[trigger] group(files)[a].language@
                    != #[trigger] group(files)[b].language@ by {
                    assert(group(files)[a] == rows[a]);
                }
            },
        }
    }
}

proof fn lemma_find_row_none(rows: Seq<LangStats>, name: Seq<char>, k: nat, j: int)
    requires
        find_row(rows, name, k) is None,
        k <= j < rows.len(),
    ensures
        rows[j].language@ != name,
    decreases rows.len() - k,
{
    if k < j {
        lemma_find_row_none(rows, name, k + 1, j);
    }
}


/// Rows for distinct languages have only one order by a key: two orderings of the
/// same rows by the same key are the same sequence.
pub proof fn lemma_sorted_rows_unique(key: SortKey, x: Seq<LangStats>, y: Seq<LangStats>)
    requires
        sorted_rows(key, x),
        sorted_rows(key, y),
        x.to_multiset() == y.to_multiset(),
        distinct_languages(x),
    ensures
        x == y,
    decreases x.len(),
{
    broadcast use vstd::seq_lib::group_to_multiset_ensures;

    if x.len() == 0 {
        assert(y.to_multiset().len() == 0);
        assert(y =~= x);
    } else {
        assert(y.len() > 0) by {
            assert(x.to_multiset().contains(x[0]));
        }
        assert(x.to_multiset().contains(y[0]));
        assert(y.to_multiset().contains(x[0]));
        let i = choose|i: int| 0 <= i < x.len() && x[i] == y[0];
        let j = choose|j: int| 0 <= j < y.len() && y[j] == x[0];
        lemma_name_le_reflexive(x[0].language@);
        if i > 0 {
            assert(row_before(key, x[0], x[i]));
        }
        if j > 0 {
            assert(row_before(key, y[0], y[j]));
        }
        assert(row_before(key, x[0], y[0]));
        assert(row_before(key, y[0], x[0]));
        lemma_name_le_antisymmetric(x[0].language@, y[0].language@);
        if i != 0 {
            assert(x[0].language@ == x[i].language@);
        }
        assert(x[0] == y[0]);
        vstd::seq_lib::to_multiset_remove(x, 0);
        vstd::seq_lib::to_multiset_remove(y, 0);
        assert(x.remove(0) =~= x.drop_first());
        assert(y.remove(0) =~= y.drop_first());
        assert(sorted_rows(key, x.drop_first())) by {
            assert forall|a: int, b: int| 0 <= a < b < x.drop_first().len() implies row_before(
                key,
                #[trigger] x.drop_first()[a],
                #[trigger] x.drop_first()[b],
            ) by {
                assert(x.drop_first()[a] == x[a + 1]);
                assert(x.drop_first()[b] == x[b + 1]);
            }
        }
        assert(sorted_rows(key, y.drop_first())) by {
            assert forall|a: int, b: int| 0 <= a < b < y.drop_first().len() implies row_before(
                key,
                #[trigger] y.drop_first()[a],
                #[trigger] y.drop_first()[b],
            ) by {
                assert(y.drop_first()[a] == y[a + 1]);
                assert(y.drop_first()[b] == y[b + 1]);
            }
        }
        assert(distinct_languages(x.drop_first())) by {
            assert forall|a: int, b: int| 0 <= a < b < x.drop_first().len() implies #[trigger] x.drop_first()[a].language@
                != #[trigger] x.drop_first()[b].language@ by {
                assert(x.drop_first()[a] == x[a + 1]);
                assert(x.drop_first()[b] == x[b + 1]);
            }
        }
        lemma_sorted_rows_unique(key, x.drop_first(), y.drop_first());
        assert(x =~= seq![x[0]] + x.drop_first());
        assert(y =~= seq![y[0]] + y.drop_first());
    }
}

/// Rows ordered by a column come in decreasing order of that column, and rows with
/// equal values in it come in name order: for `Lines` the column is all the lines
/// of a row (blank, comment and code together), for `Code`, `Blank` and `Comment`
/// the lines of that kind; rows ordered by `Name` come in name order.
pub proof fn lemma_sorted_rows_by_column(key: SortKey, rows: Seq<LangStats>)
    requires
        sorted_rows(key, rows),
    ensures
        forall|i: int, j: int|
            0 <= i < j < rows.len() ==> {
                let a = #[trigger] rows[i];
                let b = #[trigger] rows[j];
                match key {
                    SortKey::Lines => a.blank + a.comment + a.code > b.blank + b.comment + b.code
                        || (a.blank + a.comment + a.code == b.blank + b.comment + b.code
                        && name_le(a.language@, b.language@)),
                    SortKey::Code => a.code > b.code || (a.code == b.code && name_le(
                        a.language@,
                        b.language@,
                    )),
                    SortKey::Blank => a.blank > b.blank || (a.blank == b.blank && name_le(
                        a.language@,
                        b.language@,
                    )),
                    SortKey::Comment => a.comment > b.comment || (a.comment == b.comment
                        && name_le(a.language@, b.language@)),
                    SortKey::Name => name_le(a.language@, b.language@),
                }
            },
{
    assert forall|i: int, j: int| 0 <= i < j < rows.len() implies {
        let a = #[trigger] rows[i];
        let b = #[trigger] rows[j];
        match key {
            SortKey::Lines => a.blank + a.comment + a.code > b.blank + b.comment + b.code || (
            a.blank + a.comment + a.code == b.blank + b.comment + b.code && name_le(
                a.language@,
                b.language@,
            )),
            SortKey::Code => a.code > b.code || (a.code == b.code && name_le(
                a.language@,
                b.language@,
            )),
            SortKey::Blank => a.blank > b.blank || (a.blank == b.blank && name_le(
                a.language@,
                b.language@,
            )),
            SortKey::Comment => a.comment > b.comment || (a.comment == b.comment && name_le(
                a.language@,
                b.language@,
            )),
            SortKey::Name => name_le(a.language@, b.language@),
        }
    } by {
        assert(row_before(key, rows[i], rows[j]));
    }
}

/// How many of `files` are of the language `name`, and the sums of their blank,
/// comment and code lines.
pub open spec fn lang_counts(files: Seq<FileStats>, name: Seq<char>) -> (nat, nat, nat, nat)
    decreases files.len(),
{
    if files.len() == 0 {
        (0, 0, 0, 0)
    } else {
        let (n, blank, comment, code) = lang_counts(files.drop_last(), name);
        let f = files.last();
        if f.language@ == name {
            (n + 1, blank + f.blank as nat, comment + f.comment as nat, code + f.code as nat)
        } else {
            (n, blank, comment, code)
        }
    }
}

proof fn lemma_lang_counts_bounds(files: Seq<FileStats>, name: Seq<char>)
    ensures
        lang_counts(files, name).0 <= files.len(),
        lang_counts(files, name).1 <= file_sums(files).0,
        lang_counts(files, name).2 <= file_sums(files).1,
        lang_counts(files, name).3 <= file_sums(files).2,
        lang_counts(files, name).0 == 0 ==> lang_counts(files, name) == (0nat, 0nat, 0nat, 0nat),
    decreases files.len(),
{
    if files.len() > 0 {
        lemma_lang_counts_bounds(files.drop_last(), name);
    }
}

/// Each language row holds exactly the counts of the files of its language: their
/// number and the sums of their blank, comment and code lines; and every language
/// that some file has gets a row.
pub proof fn lemma_rows_hold_language_counts(files: Seq<FileStats>)
    requires
        sums_fit(files),
        files.len() <= u64::MAX,
    ensures
        forall|k: int|
            0 <= k < group(files).len() ==> lang_counts(files, #[trigger] group(files)[k].language@)
                == (
                group(files)[k].files as nat,
                group(files)[k].blank as nat,
                group(files)[k].comment as nat,
                group(files)[k].code as nat,
            ),
        forall|name: Seq<char>|
            #[trigger] lang_counts(files, name).0 > 0 ==> exists|k: int|
                0 <= k < group(files).len() && #[trigger] group(files)[k].language@ == name,
    decreases files.len(),
{
    if files.len() > 0 {
        let rest = files.drop_last();
        lemma_sums_grow(files, files.len() - 1);
        assert(files.take(files.len() - 1) =~= rest);
        lemma_rows_hold_language_counts(rest);
        lemma_one_row_per_language(rest);
        let rows = group(rest);
        let f = files.last();
        let name = f.language@;
        lemma_find_row(rows, name, 0);
        lemma_lang_counts_bounds(files, name);
        lemma_lang_counts_bounds(rest, name);
        match find_row(rows, name, 0) {
            Some(i) => {
                assert(group(files) == rows.update(i as int, rows[i as int].merged(f)));
                assert forall|k: int|
                    0 <= k < group(files).len() implies lang_counts(
                    files,
                    #[trigger] group(files)[k].language@,
                ) == (
                    group(files)[k].files as nat,
                    group(files)[k].blank as nat,
                    group(files)[k].comment as nat,
                    group(files)[k].code as nat,
                ) by {
                    if k != i {
                        assert(rows[k].language@ != rows[i as int].language@);
                        assert(group(files)[k] == rows[k]);
                    }
                }
                assert forall|n: Seq<char>| #[trigger] lang_counts(files, n).0 > 0 implies exists|k: int|
                    0 <= k < group(files).len() && #[trigger] group(files)[k].language@ == n by {
                    if n == name {
                        assert(group(files)[i as int].language@ == n);
                    } else {
                        assert(lang_counts(rest, n).0 > 0);
                        let k = choose|k: int| 0 <= k < rows.len() && #[trigger] rows[k].language@ == n;
                        assert(group(files)[k].language@ == n);
                    }
                }
            },
            None => {
                assert(group(files) == rows.push(first_row(f)));
                assert forall|k: int| 0 <= k < rows.len() implies rows[k].language@ != name by {
                    lemma_find_row_none(rows, name, 0, k);
                }
                if lang_counts(rest, name).0 > 0 {
                    let k = choose|k: int| 0 <= k < rows.len() && #[trigger] rows[k].language@ == name;
                    assert(rows[k].language@ != name);
                }
                assert forall|k: int|
                    0 <= k < group(files).len() implies lang_counts(
                    files,
                    #[trigger] group(files)[k].language@,
                ) == (
                    group(files)[k].files as nat,
                    group(files)[k].blank as nat,
                    group(files)[k].comment as nat,
                    group(files)[k].code as nat,
                ) by {
                    if k < rows.len() {
                        assert(group(files)[k] == rows[k]);
                    }
                }
                assert forall|n: Seq<char>| #[trigger] lang_counts(files, n).0 > 0 implies exists|k: int|
                    0 <= k < group(files).len() && #[trigger] group(files)[k].language@ == n by {
                    if n == name {
                        assert(group(files)[rows.len() as int].language@ == n);
                    } else {
                        assert(lang_counts(rest, n).0 > 0);
                        let k = choose|k: int| 0 <= k < rows.len() && #[trigger] rows[k].language@ == n;
                        assert(group(files)[k].language@ == n);
                    }
                }
            },
        }
    }
}

/// The same holds of the rows of a report, which are those of `group` in some
/// order: each row holds exactly the number of files of its language and the sums
/// of their blank, comment and code lines, and every language of a file has a row.
pub proof fn lemma_report_rows_hold_language_counts(files: Seq<FileStats>, rows: Seq<LangStats>)
    requires
        sums_fit(files),
        files.len() <= u64::MAX,
        rows.to_multiset() == group(files).to_multiset(),
    ensures
        forall|k: int|
            0 <= k < rows.len() ==> lang_counts(files, #[trigger] rows[k].language@) == (
                rows[k].files as nat,
                rows[k].blank as nat,
                rows[k].comment as nat,
                rows[k].code as nat,
            ),
        forall|name: Seq<char>|
            #[trigger] lang_counts(files, name).0 > 0 ==> exists|k: int|
                0 <= k < rows.len() && #[trigger] rows[k].language@ == name,
{
    broadcast use vstd::seq_lib::group_to_multiset_ensures;

    lemma_rows_hold_language_counts(files);
    let g = group(files);
    assert forall|k: int| 0 <= k < rows.len() implies lang_counts(files, #[trigger] rows[k].language@)
        == (rows[k].files as nat, rows[k].blank as nat, rows[k].comment as nat, rows[k].code as nat) by {
        assert(rows.contains(rows[k]));
        assert(g.to_multiset().count(rows[k]) > 0);
        let j = choose|j: int| 0 <= j < g.len() && g[j] == rows[k];
        assert(lang_counts(files, g[j].language@) == (
            g[j].files as nat,
            g[j].blank as nat,
            g[j].comment as nat,
            g[j].code as nat,
        ));
    }
    assert forall|name: Seq<char>| #[trigger] lang_counts(files, name).0 > 0 implies exists|k: int|
        0 <= k < rows.len() && #[trigger] rows[k].language@ == name by {
        let j = choose|j: int| 0 <= j < g.len() && #[trigger] g[j].language@ == name;
        assert(g.contains(g[j]));
        assert(rows.to_multiset().count(g[j]) > 0);
        let k = choose|k: int| 0 <= k < rows.len() && rows[k] == g[j];
        assert(rows[k].language@ == name);
    }
}

} // verus!
