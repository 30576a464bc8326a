use vstd::prelude::*;

use crate::language::{strs_view, LanguageDef, LanguageModel};
use crate::stats::FileStats;
use crate::text::{lemma_lines_concat, lemma_two_lines, lines_of, match_at, matches_at, spec_lines, views_of, chars_of};

verus! {

/// Where a scan stands at a point of a file: in code, inside a block comment, or
/// inside a multi-line string opened by the delimiter with the given index.
#[derive(Clone, Copy, PartialEq, Eq, Structural)]
pub enum ScanMode {
    Normal,
    InBlock,
    InString(usize),
}

/// What one line counts as.
#[derive(Clone, Copy, PartialEq, Eq, Structural)]
pub enum LineKind {
    Blank,
    Comment,
    Code,
}

/// `c` is ASCII white space (as `char::is_ascii_whitespace` has it).
pub open spec fn is_blank_char(c: char) -> bool {
    c == ' ' || c == '\t' || c == '\n' || c == '\x0C' || c == '\r'
}

/// The non-empty delimiter `pat` starts at position `pos` of `line`.
pub open spec fn opens(line: Seq<char>, pos: int, pat: Seq<char>) -> bool {
    pat.len() > 0 && matches_at(line, pos, pat)
}

/// The index of the first delimiter of `pats`, from index `k` on, that starts at
/// position `pos` of `line`.
pub open spec fn first_opening(pats: Seq<Seq<char>>, line: Seq<char>, pos: int, k: nat) -> Option<nat>
    decreases pats.len() - k,
{
    if k >= pats.len() {
        None
    } else if opens(line, pos, pats[k as int]) {
        Some(k)
    } else {
        first_opening(pats, line, pos, k + 1)
    }
}

/// The delimiter that `first_opening` finds does start at `pos`.
pub proof fn lemma_first_opening(pats: Seq<Seq<char>>, line: Seq<char>, pos: int, k: nat)
    ensures
        first_opening(pats, line, pos, k) matches Some(j) ==> k <= j < pats.len() && opens(
            line,
            pos,
            pats[j as int],
        ),
    decreases pats.len() - k,
{
    if k < pats.len() && !opens(line, pos, pats[k as int]) {
        lemma_first_opening(pats, line, pos, k + 1);
    }
}

/// The opener of the language's block comments (empty when it has none).
pub open spec fn block_open(lang: LanguageModel) -> Seq<char> {
    match lang.block_comment {
        Some((open, _)) => open,
        None => seq![],
    }
}

/// The closer of the language's block comments (empty when it has none).
pub open spec fn block_close(lang: LanguageModel) -> Seq<char> {
    match lang.block_comment {
        Some((_, close)) => close,
        None => seq![],
    }
}

/// Scans `line` from position `pos` on, in mode `mode`, having seen code (`code`)
/// or comment text (`comment`) so far in the line; gives the mode at the end of the
/// line and whether code and comment text were seen in it.
///
/// Outside comments and strings, white space is skipped; a line-comment marker ends
/// the line as comment; a block-comment opener enters the block (comment); a
/// multi-line string delimiter enters the string (code); anything else is code.
/// Inside a block, the closer leaves it, and any other non-blank character is comment.
/// Inside a string, its own delimiter leaves it, and every character is code.
pub open spec fn scan(
    lang: LanguageModel,
    line: Seq<char>,
    pos: int,
    mode: ScanMode,
    code: bool,
    comment: bool,
) -> (ScanMode, bool, bool)
    decreases line.len() - pos,
{
    if pos < 0 || pos >= line.len() {
        (mode, code, comment)
    } else {
        match mode {
            ScanMode::Normal => {
                if is_blank_char(line[pos]) {
                    scan(lang, line, pos + 1, ScanMode::Normal, code, comment)
                } else if first_opening(lang.line_comment, line, pos, 0) is Some {
                    (ScanMode::Normal, code, true)
                } else if opens(line, pos, block_open(lang)) {
                    scan(
                        lang,
                        line,
                        pos + block_open(lang).len(),
                        ScanMode::InBlock,
                        code,
                        true,
                    )
                } else {
                    match first_opening(lang.multiline_string, line, pos, 0) {
                        Some(k) => {
                            proof {
                                lemma_first_opening(lang.multiline_string, line, pos, 0);
                            }
                            scan(
                            lang,
                            line,
                            pos + lang.multiline_string[k as int].len(),
                            ScanMode::InString(k as usize),
                                true,
                                comment,
                            )
                        },
                        None => scan(lang, line, pos + 1, ScanMode::Normal, true, comment),
                    }
                }
            },
            ScanMode::InBlock => {
                if opens(line, pos, block_close(lang)) {
                    scan(
                        lang,
                        line,
                        pos + block_close(lang).len(),
                        ScanMode::Normal,
                        code,
                        true,
                    )
                } else {
                    scan(
                        lang,
                        line,
                        pos + 1,
                        ScanMode::InBlock,
                        code,
                        comment || !is_blank_char(line[pos]),
                    )
                }
            },
            ScanMode::InString(k) => {
                if k < lang.multiline_string.len() && opens(
                    line,
                    pos,
                    lang.multiline_string[k as int],
                ) {
                    scan(
                        lang,
                        line,
                        pos + lang.multiline_string[k as int].len(),
                        ScanMode::Normal,
                        true,
                        comment,
                    )
                } else {
                    scan(lang, line, pos + 1, ScanMode::InString(k), true, comment)
                }
            },
        }
    }
}

/// What `line` counts as when it begins in mode `mode`, and the mode at its end.
/// A line that begins inside a string is code; otherwise a line with code is code,
/// one with comment text and no code is comment, and the rest are blank.
pub open spec fn classify(lang: LanguageModel, line: Seq<char>, mode: ScanMode) -> (LineKind, ScanMode) {
    let (end, code, comment) = scan(lang, line, 0, mode, mode is InString, false);
    if code {
        (LineKind::Code, end)
    } else if comment {
        (LineKind::Comment, end)
    } else {
        (LineKind::Blank, end)
    }
}

/// The mode after `lines`, and how many of them are blank, comment and code.
pub open spec fn tally(lang: LanguageModel, lines: Seq<Seq<char>>) -> (ScanMode, nat, nat, nat)
    decreases lines.len(),
{
    if lines.len() == 0 {
        (ScanMode::Normal, 0, 0, 0)
    } else {
        let (mode, blank, comment, code) = tally(lang, lines.drop_last());
        let (kind, next) = classify(lang, lines.last(), mode);
        match kind {
            LineKind::Blank => (next, blank + 1, comment, code),
            LineKind::Comment => (next, blank, comment + 1, code),
            LineKind::Code => (next, blank, comment, code + 1),
        }
    }
}

/// The blank, comment and code line counts of `content` in language `lang`.
pub open spec fn spec_count(lang: LanguageModel, content: Seq<char>) -> (nat, nat, nat) {
    let (_, blank, comment, code) = tally(lang, spec_lines(content));
    (blank, comment, code)
}


/// A language's delimiters, each as its characters.
struct Syntax {
    line_comment: Vec<Vec<char>>,
    block_open: Vec<char>,
    block_close: Vec<char>,
    strings: Vec<Vec<char>>,
}

impl Syntax {
    /// The delimiters hold exactly those of `lang`.
    spec fn describes(&self, lang: LanguageModel) -> bool {
        &&& views_of(self.line_comment@) == lang.line_comment
        &&& self.block_open@ == block_open(lang)
        &&& self.block_close@ == block_close(lang)
        &&& views_of(self.strings@) == lang.multiline_string
    }
}

fn strs_chars(v: &Vec<&'static str>) -> (res: Vec<Vec<char>>)
    ensures
        views_of(res@) == strs_view(v@),
{
    let mut res: Vec<Vec<char>> = Vec::new();
    let n = v.len();
    for i in 0..n
        invariant
            n == v@.len(),
            views_of(res@) == strs_view(v@).take(i as int),
    {
        let ghost prev = res@;
        let c = chars_of(v[i]);
        res.push(c);
        assert(views_of(res@) =~= views_of(prev).push(v@[i as int]@));
        assert(strs_view(v@).take(i + 1) =~= strs_view(v@).take(i as int).push(v@[i as int]@));
    }
    assert(strs_view(v@).take(n as int) =~= strs_view(v@));
    res
}

fn syntax_of(lang: &LanguageDef) -> (res: Syntax)
    ensures
        res.describes(lang@),
{
    let (block_open, block_close) = match lang.block_comment {
        Some((open, close)) => (chars_of(open), chars_of(close)),
        None => (Vec::new(), Vec::new()),
    };
    Syntax {
        line_comment: strs_chars(&lang.line_comment),
        block_open,
        block_close,
        strings: strs_chars(&lang.multiline_string),
    }
}

fn blank_char(c: char) -> (res: bool)
    ensures
        res == is_blank_char(c),
{
    c == ' ' || c == '\t' || c == '\n' || c == '\x0C' || c == '\r'
}

fn opens_at(line: &Vec<char>, pos: usize, pat: &Vec<char>) -> (res: bool)
    ensures
        res == opens(line@, pos as int, pat@),
{
    pat.len() > 0 && match_at(line, pos, pat)
}

fn find_opening(pats: &Vec<Vec<char>>, line: &Vec<char>, pos: usize) -> (res: Option<usize>)
    ensures
        match res {
            Some(k) => first_opening(views_of(pats@), line@, pos as int, 0) == Some(k as nat),
            None => first_opening(views_of(pats@), line@, pos as int, 0) is None,
        },
{
    let n = pats.len();
    let ghost ps = views_of(pats@);
    for k in 0..n
        invariant
            n == pats@.len(),
            ps == views_of(pats@),
            first_opening(ps, line@, pos as int, 0) == first_opening(ps, line@, pos as int, k as nat),
    {
        assert(ps[k as int] == pats@[k as int]@);
        if opens_at(line, pos, &pats[k]) {
            return Some(k);
        }
    }
    None
}

/// Scans one line from its start in mode `mode`, as `scan` does.
fn scan_line(lang: &LanguageDef, syn: &Syntax, line: &Vec<char>, mode: ScanMode) -> (res: (
    ScanMode,
    bool,
    bool,
))
    requires
        syn.describes(lang@),
    ensures
        res == scan(lang@, line@, 0, mode, mode is InString, false),
{
    let ghost target = scan(lang@, line@, 0, mode, mode is InString, false);
    let mut m = mode;
    let mut code = match mode {
        ScanMode::InString(_) => true,
        _ => false,
    };
    let mut comment = false;
    let mut pos: usize = 0;
    while pos < line.len()
        invariant
            syn.describes(lang@),
            pos <= line@.len(),
            scan(lang@, line@, pos as int, m, code, comment) == target,
            target == scan(lang@, line@, 0, mode, mode is InString, false),
        decreases line@.len() - pos,
    {
        let c = line[pos];
        match m {
            ScanMode::Normal => {
                if blank_char(c) {
                    pos = pos + 1;
                } else if find_opening(&syn.line_comment, line, pos).is_some() {
                    assert(first_opening(lang@.line_comment, line@, pos as int, 0) is Some);
                    assert(scan(lang@, line@, pos as int, m, code, comment) == (
                        ScanMode::Normal,
                        code,
                        true,
                    ));
                    return (ScanMode::Normal, code, true);
                } else if opens_at(line, pos, &syn.block_open) {
                    pos = pos + syn.block_open.len();
                    m = ScanMode::InBlock;
                    comment = true;
                } else {
                    match find_opening(&syn.strings, line, pos) {
                        Some(k) => {
                            proof {
                                lemma_first_opening(lang@.multiline_string, line@, pos as int, 0);
                            }
                            pos = pos + syn.strings[k].len();
                            m = ScanMode::InString(k);
                            code = true;
                        },
                        None => {
                            pos = pos + 1;
                            code = true;
                        },
                    }
                }
            },
            ScanMode::InBlock => {
                if opens_at(line, pos, &syn.block_close) {
                    pos = pos + syn.block_close.len();
                    m = ScanMode::Normal;
                    comment = true;
                } else {
                    comment = comment || !blank_char(c);
                    pos = pos + 1;
                }
            },
            ScanMode::InString(k) => {
                if k < syn.strings.len() && opens_at(line, pos, &syn.strings[k]) {
                    pos = pos + syn.strings[k].len();
                    m = ScanMode::Normal;
                } else {
                    pos = pos + 1;
                }
                code = true;
            },
        }
    }
    (m, code, comment)
}

/// Counts the blank, comment and code lines of `content` in language `lang`, in that order.
///
/// Lines are those of `str::lines`. A line with code on it is code, a line with only
/// comment text (and white space) is comment, and a line with only white space is
/// blank; block comments and multi-line strings carry over from line to line, and
/// every line inside a multi-line string is code (see `scan`).
pub fn count_content(content: &str, lang: &LanguageDef) -> (res: (u64, u64, u64))
    ensures
        (res.0 as nat, res.1 as nat, res.2 as nat) == spec_count(lang@, content@),
{
    let lines = lines_of(content);
    let syn = syntax_of(lang);
    let ghost all = views_of(lines@);
    let mut mode = ScanMode::Normal;
    let mut blank: u64 = 0;
    let mut comment: u64 = 0;
    let mut code: u64 = 0;
    let n = lines.len();
    for i in 0..n
        invariant
            n == lines@.len(),
            all == views_of(lines@),
            syn.describes(lang@),
            (mode, blank as nat, comment as nat, code as nat) == tally(lang@, all.take(i as int)),
            blank + comment + code == i,
    {
        assert(all.take(i + 1).drop_last() =~= all.take(i as int));
        assert(all.take(i + 1).last() == lines@[i as int]@);
        let start = mode;
        let (end, has_code, has_comment) = scan_line(lang, &syn, &lines[i], start);
        mode = end;
        if has_code {
            code = code + 1;
        } else if has_comment {
            comment = comment + 1;
        } else {
            blank = blank + 1;
        }
    }
    assert(all.take(n as int) =~= all);
    (blank, comment, code)
}


/// A file of `bytes` bytes is larger than the limit `max_bytes`, if one is set.
pub open spec fn over_limit(bytes: u64, max_bytes: Option<u64>) -> bool {
    match max_bytes {
        Some(max) => bytes > max,
        None => false,
    }
}

/// Whether a file of `bytes` bytes is larger than the limit `max_bytes`, if one is set.
pub fn exceeds_limit(bytes: u64, max_bytes: Option<u64>) -> (res: bool)
    ensures
        res == over_limit(bytes, max_bytes),
{
    match max_bytes {
        Some(max) => bytes > max,
        None => false,
    }
}

/// The counts of the file at `path`, of `bytes` bytes, in language `lang`, whose
/// content is `content` (`None` when it could not be read as text). There are none
/// when the file is larger than `max_bytes` or its content is missing.
pub fn count_file(
    path: String,
    lang: &LanguageDef,
    bytes: u64,
    max_bytes: Option<u64>,
    content: Option<&str>,
) -> (res: Option<FileStats>)
    ensures
        match res {
            None => over_limit(bytes, max_bytes) || content is None,
            Some(stats) => {
                &&& !over_limit(bytes, max_bytes)
                &&& match content {
                    Some(text) => (stats.blank as nat, stats.comment as nat, stats.code as nat)
                        == spec_count(lang@, text@),
                    None => false,
                }
                &&& stats.path == path
                &&& stats.language == lang.name
                &&& stats.bytes == bytes
            },
        },
{
    if exceeds_limit(bytes, max_bytes) {
        return None;
    }
    let text = match content {
        Some(text) => text,
        None => return None,
    };
    let (blank, comment, code) = count_content(text, lang);
    Some(FileStats { path, language: lang.name, blank, comment, code, bytes })
}


proof fn lemma_tally_total(lang: LanguageModel, lines: Seq<Seq<char>>)
    ensures
        tally(lang, lines).1 + tally(lang, lines).2 + tally(lang, lines).3 == lines.len(),
    decreases lines.len(),
{
    if lines.len() > 0 {
        lemma_tally_total(lang, lines.drop_last());
    }
}

/// Every line of a file counts once: as blank, as comment or as code.
pub proof fn lemma_every_line_counted_once(lang: LanguageModel, content: Seq<char>)
    ensures
        spec_count(lang, content).0 + spec_count(lang, content).1 + spec_count(lang, content).2
            == spec_lines(content).len(),
{
    lemma_tally_total(lang, spec_lines(content));
}

/// The language has no comment syntax at all.
pub open spec fn has_no_comments(lang: LanguageModel) -> bool {
    lang.line_comment.len() == 0 && lang.block_comment is None
}

proof fn lemma_scan_no_comment(
    lang: LanguageModel,
    line: Seq<char>,
    pos: int,
    mode: ScanMode,
    code: bool,
)
    requires
        has_no_comments(lang),
        !(mode is InBlock),
    ensures
        !scan(lang, line, pos, mode, code, false).2,
        !(scan(lang, line, pos, mode, code, false).0 is InBlock),
    decreases line.len() - pos,
{
    if 0 <= pos < line.len() {
        match mode {
            ScanMode::Normal => {
                if is_blank_char(line[pos]) {
                    lemma_scan_no_comment(lang, line, pos + 1, ScanMode::Normal, code);
                } else {
                    assert(first_opening(lang.line_comment, line, pos, 0) is None);
                    assert(!opens(line, pos, block_open(lang)));
                    match first_opening(lang.multiline_string, line, pos, 0) {
                        Some(k) => {
                            lemma_first_opening(lang.multiline_string, line, pos, 0);
                            lemma_scan_no_comment(
                                lang,
                                line,
                                pos + lang.multiline_string[k as int].len(),
                                ScanMode::InString(k as usize),
                                true,
                            );
                        },
                        None => {
                            lemma_scan_no_comment(lang, line, pos + 1, ScanMode::Normal, true);
                        },
                    }
                }
            },
            ScanMode::InBlock => {},
            ScanMode::InString(k) => {
                if k < lang.multiline_string.len() && opens(
                    line,
                    pos,
                    lang.multiline_string[k as int],
                ) {
                    lemma_scan_no_comment(
                        lang,
                        line,
                        pos + lang.multiline_string[k as int].len(),
                        ScanMode::Normal,
                        true,
                    );
                } else {
                    lemma_scan_no_comment(lang, line, pos + 1, ScanMode::InString(k), true);
                }
            },
        }
    }
}

proof fn lemma_tally_no_comment(lang: LanguageModel, lines: Seq<Seq<char>>)
    requires
        has_no_comments(lang),
    ensures
        tally(lang, lines).2 == 0,
        !(tally(lang, lines).0 is InBlock),
    decreases lines.len(),
{
    if lines.len() > 0 {
        lemma_tally_no_comment(lang, lines.drop_last());
        let mode = tally(lang, lines.drop_last()).0;
        lemma_scan_no_comment(lang, lines.last(), 0, mode, mode is InString);
    }
}

/// In a language without comment syntax, no line counts as comment.
pub proof fn lemma_no_comment_syntax_no_comment_lines(lang: LanguageModel, content: Seq<char>)
    requires
        has_no_comments(lang),
    ensures
        spec_count(lang, content).1 == 0,
{
    lemma_tally_no_comment(lang, spec_lines(content));
}

/// The language has no construct that spans lines: no block comments and no
/// multi-line strings.
pub open spec fn single_line_syntax(lang: LanguageModel) -> bool {
    lang.block_comment is None && lang.multiline_string.len() == 0
}

proof fn lemma_scan_stays_normal(
    lang: LanguageModel,
    line: Seq<char>,
    pos: int,
    code: bool,
    comment: bool,
)
    requires
        single_line_syntax(lang),
    ensures
        scan(lang, line, pos, ScanMode::Normal, code, comment).0 == ScanMode::Normal,
    decreases line.len() - pos,
{
    if 0 <= pos < line.len() {
        assert(first_opening(lang.multiline_string, line, pos, 0) is None);
        assert(!opens(line, pos, block_open(lang)));
        lemma_scan_stays_normal(lang, line, pos + 1, code, true);
        lemma_scan_stays_normal(lang, line, pos + 1, true, comment);
        lemma_scan_stays_normal(lang, line, pos + 1, code, comment);
    }
}

proof fn lemma_tally_stays_normal(lang: LanguageModel, lines: Seq<Seq<char>>)
    requires
        single_line_syntax(lang),
    ensures
        tally(lang, lines).0 == ScanMode::Normal,
    decreases lines.len(),
{
    if lines.len() > 0 {
        lemma_tally_stays_normal(lang, lines.drop_last());
        lemma_scan_stays_normal(lang, lines.last(), 0, false, false);
    }
}

proof fn lemma_tally_concat(lang: LanguageModel, l1: Seq<Seq<char>>, l2: Seq<Seq<char>>)
    requires
        single_line_syntax(lang),
    ensures
        tally(lang, l1 + l2).1 == tally(lang, l1).1 + tally(lang, l2).1,
        tally(lang, l1 + l2).2 == tally(lang, l1).2 + tally(lang, l2).2,
        tally(lang, l1 + l2).3 == tally(lang, l1).3 + tally(lang, l2).3,
    decreases l2.len(),
{
    if l2.len() == 0 {
        assert(l1 + l2 =~= l1);
    } else {
        lemma_tally_concat(lang, l1, l2.drop_last());
        assert((l1 + l2).drop_last() =~= l1 + l2.drop_last());
        assert((l1 + l2).last() == l2.last());
        lemma_tally_stays_normal(lang, l1 + l2.drop_last());
        lemma_tally_stays_normal(lang, l2.drop_last());
    }
}

/// In a language whose comments and strings never span lines, the counts of a text
/// made of `a`, ending in a line break (or empty), followed by `b` are the sums of
/// the counts of `a` and of `b`: each line is classified on its own.
pub proof fn lemma_count_concat(lang: LanguageModel, a: Seq<char>, b: Seq<char>)
    requires
        single_line_syntax(lang),
        a.len() == 0 || a.last() == '\n',
    ensures
        spec_count(lang, a + b) == (
            spec_count(lang, a).0 + spec_count(lang, b).0,
            spec_count(lang, a).1 + spec_count(lang, b).1,
            spec_count(lang, a).2 + spec_count(lang, b).2,
        ),
{
    lemma_lines_concat(a, b);
    lemma_tally_concat(lang, spec_lines(a), spec_lines(b));
}

proof fn lemma_first_opening_is(pats: Seq<Seq<char>>, line: Seq<char>, pos: int, k: nat, from: nat)
    requires
        from <= k < pats.len(),
        opens(line, pos, pats[k as int]),
        forall|k2: int| from <= k2 < k ==> !opens(line, pos, #[trigger] pats[k2]),
    ensures
        first_opening(pats, line, pos, from) == Some(k),
    decreases k - from,
{
    if from < k {
        lemma_first_opening_is(pats, line, pos, k, from + 1);
    }
}

proof fn lemma_first_opening_found(pats: Seq<Seq<char>>, line: Seq<char>, pos: int, m: int, from: nat)
    requires
        from <= m < pats.len(),
        opens(line, pos, pats[m]),
    ensures
        first_opening(pats, line, pos, from) is Some,
    decreases m - from,
{
    if from < m && !opens(line, pos, pats[from as int]) {
        lemma_first_opening_found(pats, line, pos, m, from + 1);
    }
}

proof fn lemma_first_opening_none(pats: Seq<Seq<char>>, line: Seq<char>, pos: int, from: nat)
    requires
        forall|m: int| 0 <= m < pats.len() ==> !opens(line, pos, #[trigger] pats[m]),
    ensures
        first_opening(pats, line, pos, from) is None,
    decreases pats.len() - from,
{
    if from < pats.len() {
        lemma_first_opening_none(pats, line, pos, from + 1);
    }
}

/// Inside the string opened by `d` at the start of `d + body + d`, the scan runs to
/// the closing `d` and leaves the line outside any string.
proof fn lemma_scan_closes_string(
    lang: LanguageModel,
    k: usize,
    body: Seq<char>,
    pos: int,
    comment: bool,
)
    requires
        k < lang.multiline_string.len(),
        lang.multiline_string[k as int].len() > 0,
        forall|p: int|
            0 <= p < body.len() ==> !matches_at(
                body + lang.multiline_string[k as int],
                p,
                lang.multiline_string[k as int],
            ),
        lang.multiline_string[k as int].len() <= pos <= lang.multiline_string[k as int].len() + body.len(),
    ensures
        scan(
            lang,
            lang.multiline_string[k as int] + body + lang.multiline_string[k as int],
            pos,
            ScanMode::InString(k),
            true,
            comment,
        ) == (ScanMode::Normal, true, comment),
    decreases lang.multiline_string[k as int].len() + body.len() - pos,
{
    let d = lang.multiline_string[k as int];
    let line = d + body + d;
    let dl = d.len() as int;
    let end = dl + body.len();
    assert(line =~= d + (body + d));
    if pos < end {
        assert(line.subrange(pos, pos + dl) =~= (body + d).subrange(pos - dl, pos));
        assert(!matches_at(body + d, pos - dl, d));
        assert(!opens(line, pos, d));
        lemma_scan_closes_string(lang, k, body, pos + 1, comment);
    } else {
        assert(line.subrange(pos, pos + dl) =~= d);
        assert(opens(line, pos, d));
        assert(line.len() == end + dl);
        assert(scan(lang, line, end + dl, ScanMode::Normal, true, comment) == (
            ScanMode::Normal,
            true,
            comment,
        ));
    }
}

/// A multi-line string that opens at the start of a line and closes on that same
/// line (its delimiter `d` does not occur in between) leaves the line outside any
/// string: the line is code, and the next line begins in normal mode. This holds when
/// no comment marker, and no earlier string delimiter, starts the line.
pub proof fn lemma_one_line_string_closes(lang: LanguageModel, k: usize, body: Seq<char>)
    requires
        k < lang.multiline_string.len(),
        lang.multiline_string[k as int].len() > 0,
        !is_blank_char(lang.multiline_string[k as int][0]),
        forall|m: int|
            0 <= m < lang.line_comment.len() ==> !opens(
                lang.multiline_string[k as int] + body + lang.multiline_string[k as int],
                0,
                #[trigger] lang.line_comment[m],
            ),
        !opens(lang.multiline_string[k as int] + body + lang.multiline_string[k as int], 0, block_open(lang)),
        forall|k2: int|
            0 <= k2 < k as int ==> !opens(
                lang.multiline_string[k as int] + body + lang.multiline_string[k as int],
                0,
                #[trigger] lang.multiline_string[k2],
            ),
        forall|p: int|
            0 <= p < body.len() ==> !matches_at(
                body + lang.multiline_string[k as int],
                p,
                lang.multiline_string[k as int],
            ),
    ensures
        classify(lang, lang.multiline_string[k as int] + body + lang.multiline_string[k as int], ScanMode::Normal)
            == (LineKind::Code, ScanMode::Normal),
{
    let d = lang.multiline_string[k as int];
    let line = d + body + d;
    assert(line[0] == d[0]);
    assert(line.subrange(0, d.len() as int) =~= d);
    lemma_first_opening_none(lang.line_comment, line, 0, 0);
    lemma_first_opening_is(lang.multiline_string, line, 0, k as nat, 0);
    lemma_scan_closes_string(lang, k, body, d.len() as int, false);
}

/// A text of two lines, a one-line multi-line string (as in
/// `lemma_one_line_string_closes`) and then a line that starts with a line-comment
/// marker, counts one code line and one comment line: the string does not swallow
/// the comment.
pub proof fn lemma_one_line_string_then_comment(
    lang: LanguageModel,
    k: usize,
    body: Seq<char>,
    m: int,
    comment_line: Seq<char>,
)
    requires
        k < lang.multiline_string.len(),
        lang.multiline_string[k as int].len() > 0,
        !is_blank_char(lang.multiline_string[k as int][0]),
        lang.multiline_string[k as int].last() != '\r',
        forall|m2: int|
            0 <= m2 < lang.line_comment.len() ==> !opens(
                lang.multiline_string[k as int] + body + lang.multiline_string[k as int],
                0,
                #[trigger] lang.line_comment[m2],
            ),
        !opens(lang.multiline_string[k as int] + body + lang.multiline_string[k as int], 0, block_open(lang)),
        forall|k2: int|
            0 <= k2 < k as int ==> !opens(
                lang.multiline_string[k as int] + body + lang.multiline_string[k as int],
                0,
                #[trigger] lang.multiline_string[k2],
            ),
        forall|p: int|
            0 <= p < body.len() ==> !matches_at(
                body + lang.multiline_string[k as int],
                p,
                lang.multiline_string[k as int],
            ),
        !(lang.multiline_string[k as int] + body + lang.multiline_string[k as int]).contains('\n'),
        0 <= m < lang.line_comment.len(),
        opens(comment_line, 0, lang.line_comment[m]),
        !is_blank_char(comment_line[0]),
        !comment_line.contains('\n'),
    ensures
        spec_count(
            lang,
            (lang.multiline_string[k as int] + body + lang.multiline_string[k as int]).push('\n') + comment_line,
        ) == (0nat, 1nat, 1nat),
{
    let d = lang.multiline_string[k as int];
    let line = d + body + d;
    assert(line.last() == d.last());
    assert(comment_line.len() > 0);
    lemma_two_lines(line, comment_line);
    lemma_one_line_string_closes(lang, k, body);
    lemma_comment_line_after_blanks(lang, comment_line, 0, m);
    let lines = seq![line, comment_line];
    assert(lines.drop_last() =~= seq![line]);
    assert(seq![line].drop_last() =~= Seq::<Seq<char>>::empty());
    assert(tally(lang, Seq::<Seq<char>>::empty()) == (ScanMode::Normal, 0nat, 0nat, 0nat));
    assert(seq![line].last() == line);
    assert(tally(lang, seq![line]) == (ScanMode::Normal, 0nat, 0nat, 1nat));
    assert(lines.last() == comment_line);
    assert(tally(lang, lines) == (ScanMode::Normal, 0nat, 1nat, 1nat));
}

proof fn lemma_scan_skips_blanks(
    lang: LanguageModel,
    line: Seq<char>,
    pos: int,
    q: int,
    code: bool,
    comment: bool,
)
    requires
        0 <= pos <= q <= line.len(),
        forall|p: int| pos <= p < q ==> is_blank_char(#[trigger] line[p]),
    ensures
        scan(lang, line, pos, ScanMode::Normal, code, comment) == scan(
            lang,
            line,
            q,
            ScanMode::Normal,
            code,
            comment,
        ),
    decreases q - pos,
{
    if pos < q {
        lemma_scan_skips_blanks(lang, line, pos + 1, q, code, comment);
    }
}

proof fn lemma_scan_keeps_code(
    lang: LanguageModel,
    line: Seq<char>,
    pos: int,
    mode: ScanMode,
    comment: bool,
)
    ensures
        scan(lang, line, pos, mode, true, comment).1,
    decreases line.len() - pos,
{
    if 0 <= pos < line.len() {
        match mode {
            ScanMode::Normal => {
                if is_blank_char(line[pos]) {
                    lemma_scan_keeps_code(lang, line, pos + 1, ScanMode::Normal, comment);
                } else if first_opening(lang.line_comment, line, pos, 0) is Some {
                } else if opens(line, pos, block_open(lang)) {
                    lemma_scan_keeps_code(lang, line, pos + block_open(lang).len(), ScanMode::InBlock, true);
                } else {
                    match first_opening(lang.multiline_string, line, pos, 0) {
                        Some(k) => {
                            lemma_first_opening(lang.multiline_string, line, pos, 0);
                            lemma_scan_keeps_code(
                                lang,
                                line,
                                pos + lang.multiline_string[k as int].len(),
                                ScanMode::InString(k as usize),
                                comment,
                            );
                        },
                        None => {
                            lemma_scan_keeps_code(lang, line, pos + 1, ScanMode::Normal, comment);
                        },
                    }
                }
            },
            ScanMode::InBlock => {
                if opens(line, pos, block_close(lang)) {
                    lemma_scan_keeps_code(lang, line, pos + block_close(lang).len(), ScanMode::Normal, true);
                } else {
                    lemma_scan_keeps_code(
                        lang,
                        line,
                        pos + 1,
                        ScanMode::InBlock,
                        comment || !is_blank_char(line[pos]),
                    );
                }
            },
            ScanMode::InString(k) => {
                if k < lang.multiline_string.len() && opens(line, pos, lang.multiline_string[k as int]) {
                    lemma_scan_keeps_code(
                        lang,
                        line,
                        pos + lang.multiline_string[k as int].len(),
                        ScanMode::Normal,
                        comment,
                    );
                } else {
                    lemma_scan_keeps_code(lang, line, pos + 1, ScanMode::InString(k), comment);
                }
            },
        }
    }
}

/// A line of white space only, outside comments and strings, is blank and leaves the
/// scan outside them.
pub proof fn lemma_blank_line(lang: LanguageModel, line: Seq<char>)
    requires
        forall|p: int| 0 <= p < line.len() ==> is_blank_char(#[trigger] line[p]),
    ensures
        classify(lang, line, ScanMode::Normal) == (LineKind::Blank, ScanMode::Normal),
{
    lemma_scan_skips_blanks(lang, line, 0, line.len() as int, false, false);
}

/// A line, outside comments and strings, whose first character other than white
/// space begins a line-comment marker is a comment line, and the next line begins
/// outside comments and strings.
pub proof fn lemma_comment_line_after_blanks(lang: LanguageModel, line: Seq<char>, q: int, m: int)
    requires
        0 <= q < line.len(),
        forall|p: int| 0 <= p < q ==> is_blank_char(#[trigger] line[p]),
        !is_blank_char(line[q]),
        0 <= m < lang.line_comment.len(),
        opens(line, q, lang.line_comment[m]),
    ensures
        classify(lang, line, ScanMode::Normal) == (LineKind::Comment, ScanMode::Normal),
{
    lemma_scan_skips_blanks(lang, line, 0, q, false, false);
    lemma_first_opening_found(lang.line_comment, line, q, m, 0);
}

/// A line, outside comments and strings, whose first character other than white
/// space begins no comment marker, block comment or multi-line string is a code
/// line, whatever follows it (a trailing comment included).
pub proof fn lemma_code_line(lang: LanguageModel, line: Seq<char>, q: int)
    requires
        0 <= q < line.len(),
        forall|p: int| 0 <= p < q ==> is_blank_char(#[trigger] line[p]),
        !is_blank_char(line[q]),
        forall|m: int| 0 <= m < lang.line_comment.len() ==> !opens(line, q, #[trigger] lang.line_comment[m]),
        !opens(line, q, block_open(lang)),
        forall|k: int|
            0 <= k < lang.multiline_string.len() ==> !opens(line, q, #[trigger] lang.multiline_string[k]),
    ensures
        classify(lang, line, ScanMode::Normal).0 == LineKind::Code,
{
    lemma_scan_skips_blanks(lang, line, 0, q, false, false);
    lemma_first_opening_none(lang.line_comment, line, q, 0);
    lemma_first_opening_none(lang.multiline_string, line, q, 0);
    lemma_scan_keeps_code(lang, line, q + 1, ScanMode::Normal, false);
}

} // verus!
