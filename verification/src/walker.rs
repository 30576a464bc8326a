use vstd::prelude::*;

use crate::cli::Args;
use crate::language::LanguageDef;
use crate::text::{eq_ignore_ascii_case, str_eq, str_eq_ignore_ascii_case};

verus! {

/// A file found while collecting, with what the filters read of it: its extension
/// (none when the name has none), its detected language (looked up only when the
/// run names languages to include) and its size in bytes (none when unknown).
pub struct FileCandidate {
    pub path: String,
    pub ext: Option<String>,
    pub lang: Option<LanguageDef>,
    pub size: Option<u64>,
}

/// Some string of `names` holds exactly the characters `s`.
pub open spec fn lists(names: Seq<String>, s: Seq<char>) -> bool {
    exists|i: int| 0 <= i < names.len() && #[trigger] names[i]@ == s
}

/// Some string of `names` equals `s` up to ASCII case.
pub open spec fn lists_ignoring_case(names: Seq<String>, s: Seq<char>) -> bool {
    exists|i: int| 0 <= i < names.len() && eq_ignore_ascii_case(#[trigger] names[i]@, s)
}

/// A file with extension `ext` is left out because its extension is excluded.
pub open spec fn spec_excluded_by_ext(ext: Option<Seq<char>>, exclude_exts: Seq<String>) -> bool {
    match ext {
        Some(e) => exclude_exts.len() > 0 && lists(exclude_exts, e),
        None => false,
    }
}

/// A file of language `lang` (none when none was detected) is left out because only
/// other languages are included.
pub open spec fn spec_excluded_by_lang(lang: Option<Seq<char>>, include_langs: Seq<String>) -> bool {
    if include_langs.len() == 0 {
        false
    } else {
        match lang {
            Some(name) => !lists_ignoring_case(include_langs, name),
            None => true,
        }
    }
}

/// A file of `size` bytes (none when unknown) is larger than the limit `max`, if one is set.
pub open spec fn spec_exceeds_size(size: Option<u64>, max: Option<u64>) -> bool {
    match (max, size) {
        (Some(limit), Some(len)) => len > limit,
        _ => false,
    }
}

/// Whether some string of `names` equals `s`.
fn any_equal(names: &Vec<String>, s: &str) -> (res: bool)
    ensures
        res == lists(names@, s@),
{
    let n = names.len();
    for i in 0..n
        invariant
            n == names@.len(),
            forall|j: int| 0 <= j < i ==> #[trigger] names@[j]@ != s@,
    {
        if str_eq(names[i].as_str(), s) {
            return true;
        }
    }
    false
}

/// Whether some string of `names` equals `s` up to ASCII case.
fn any_equal_ignoring_case(names: &Vec<String>, s: &str) -> (res: bool)
    ensures
        res == lists_ignoring_case(names@, s@),
{
    let n = names.len();
    for i in 0..n
        invariant
            n == names@.len(),
            forall|j: int| 0 <= j < i ==> !eq_ignore_ascii_case(#[trigger] names@[j]@, s@),
    {
        if str_eq_ignore_ascii_case(names[i].as_str(), s) {
            return true;
        }
    }
    false
}

/// Whether a file with extension `ext` is left out by the excluded extensions.
pub fn is_excluded_by_ext(ext: Option<&str>, exclude_exts: &Vec<String>) -> (res: bool)
    ensures
        res == spec_excluded_by_ext(
            match ext {
                Some(e) => Some(e@),
                None => None,
            },
            exclude_exts@,
        ),
{
    if exclude_exts.len() == 0 {
        return false;
    }
    match ext {
        Some(e) => any_equal(exclude_exts, e),
        None => false,
    }
}

/// Whether a file of language `lang` (none when none was detected) is left out by
/// the included languages, which are compared to its name without regard to ASCII case.
pub fn is_excluded_by_lang(lang: &Option<LanguageDef>, include_langs: &Vec<String>) -> (res: bool)
    ensures
        res == spec_excluded_by_lang(
            match lang {
                Some(l) => Some(l.name@),
                None => None,
            },
            include_langs@,
        ),
{
    if include_langs.len() == 0 {
        return false;
    }
    match lang {
        Some(l) => !any_equal_ignoring_case(include_langs, l.name),
        None => true,
    }
}

/// Whether a file of `size` bytes (none when unknown) is larger than the limit `max`.
pub fn exceeds_size(size: Option<u64>, max: Option<u64>) -> (res: bool)
    ensures
        res == spec_exceeds_size(size, max),
{
    match (max, size) {
        (Some(limit), Some(len)) => len > limit,
        _ => false,
    }
}

/// The walk enters or yields the entry named `name` (a directory when `is_dir`):
/// entries named `.not` or `.nod` are skipped, and so are directories named in `exclude_dirs`.
pub open spec fn spec_entry_allowed(name: Seq<char>, is_dir: bool, exclude_dirs: Seq<String>) -> bool {
    &&& name != ".not"@
    &&& name != ".nod"@
    &&& !(is_dir && lists(exclude_dirs, name))
}

/// Whether the walk enters or yields the entry named `name` (see `spec_entry_allowed`).
pub fn entry_allowed(name: &str, is_dir: bool, exclude_dirs: &Vec<String>) -> (res: bool)
    ensures
        res == spec_entry_allowed(name@, is_dir, exclude_dirs@),
{
    if str_eq(name, ".not") || str_eq(name, ".nod") {
        return false;
    }
    if is_dir && any_equal(exclude_dirs, name) {
        return false;
    }
    true
}

/// The run keeps the candidate `c`: neither its extension, nor its language, nor
/// its size leaves it out.
pub open spec fn keeps(args: Args, c: FileCandidate) -> bool {
    &&& !spec_excluded_by_ext(
        match c.ext {
            Some(e) => Some(e@),
            None => None,
        },
        args.exclude_exts@,
    )
    &&& !spec_excluded_by_lang(
        match c.lang {
            Some(l) => Some(l.name@),
            None => None,
        },
        args.include_langs@,
    )
    &&& !spec_exceeds_size(c.size, args.max_file_size)
}

/// The paths of the candidates that the run keeps, in their order.
pub open spec fn kept_paths(args: Args, cands: Seq<FileCandidate>) -> Seq<Seq<char>>
    decreases cands.len(),
{
    if cands.len() == 0 {
        seq![]
    } else {
        let rest = kept_paths(args, cands.drop_last());
        if keeps(args, cands.last()) {
            rest.push(cands.last().path@)
        } else {
            rest
        }
    }
}

/// The paths of the collected candidates that pass the filters of `args`, in order.
pub fn collect_files(args: &Args, candidates: Vec<FileCandidate>) -> (res: Vec<String>)
    ensures
        res@.map_values(|p: String| p@) == kept_paths(*args, candidates@),
{
    let mut res: Vec<String> = Vec::new();
    let ghost all = candidates@;
    let n = candidates.len();
    for i in 0..n
        invariant
            n == all.len(),
            all == candidates@,
            res@.map_values(|p: String| p@) == kept_paths(*args, all.take(i as int)),
    {
        let c = &candidates[i];
        let ext = match &c.ext {
            Some(e) => Some(e.as_str()),
            None => None,
        };
        let ghost prev = res@;
        assert(all.take(i + 1).drop_last() =~= all.take(i as int));
        assert(all.take(i + 1).last() == *c);
        if !is_excluded_by_ext(ext, &args.exclude_exts) && !is_excluded_by_lang(
            &c.lang,
            &args.include_langs,
        ) && !exceeds_size(c.size, args.max_file_size) {
            res.push(c.path.clone());
            assert(res@.map_values(|p: String| p@) =~= prev.map_values(|p: String| p@).push(
                c.path@,
            ));
        }
    }
    assert(all.take(n as int) =~= all);
    res
}


/// With no extension excluded, no language named and no size limit, every candidate
/// is kept, in order.
pub proof fn lemma_no_filters_keep_all(args: Args, cands: Seq<FileCandidate>)
    requires
        args.exclude_exts@.len() == 0,
        args.include_langs@.len() == 0,
        args.max_file_size is None,
    ensures
        kept_paths(args, cands) == cands.map_values(|c: FileCandidate| c.path@),
    decreases cands.len(),
{
    if cands.len() > 0 {
        lemma_no_filters_keep_all(args, cands.drop_last());
        assert(cands.map_values(|c: FileCandidate| c.path@) =~= cands.drop_last().map_values(
            |c: FileCandidate| c.path@,
        ).push(cands.last().path@));
    } else {
        assert(cands.map_values(|c: FileCandidate| c.path@) =~= Seq::<Seq<char>>::empty());
    }
}

/// The candidate `c` passes every filter of `args`: its extension is not excluded,
/// its language is among the included ones (when some are named), and its size is
/// within the limit (when one is set).
pub open spec fn passes_filters(args: Args, c: FileCandidate) -> bool {
    &&& !spec_excluded_by_ext(
        match c.ext {
            Some(e) => Some(e@),
            None => None,
        },
        args.exclude_exts@,
    )
    &&& !spec_excluded_by_lang(
        match c.lang {
            Some(l) => Some(l.name@),
            None => None,
        },
        args.include_langs@,
    )
    &&& !spec_exceeds_size(c.size, args.max_file_size)
}

/// The candidates of `cands` that pass every filter of `args`, in order.
pub open spec fn passing(args: Args, cands: Seq<FileCandidate>) -> Seq<FileCandidate> {
    cands.filter(|c: FileCandidate| passes_filters(args, c))
}

/// The collected paths are exactly those of the candidates that pass the extension,
/// language and size filters, in the candidates' order.
pub proof fn lemma_collected_are_those_passing_filters(args: Args, cands: Seq<FileCandidate>)
    ensures
        kept_paths(args, cands) == passing(args, cands).map_values(|c: FileCandidate| c.path@),
    decreases cands.len(),
{
    reveal(Seq::filter);
    if cands.len() == 0 {
        assert(passing(args, cands).map_values(|c: FileCandidate| c.path@) =~= Seq::<
            Seq<char>,
        >::empty());
    } else {
        lemma_collected_are_those_passing_filters(args, cands.drop_last());
        let prev = passing(args, cands.drop_last());
        if passes_filters(args, cands.last()) {
            assert(passing(args, cands) == prev.push(cands.last()));
            assert(passing(args, cands).map_values(|c: FileCandidate| c.path@) =~= prev.map_values(
                |c: FileCandidate| c.path@,
            ).push(cands.last().path@));
        } else {
            assert(passing(args, cands) == prev);
        }
    }
}

proof fn lemma_collected_entry(args: Args, cands: Seq<FileCandidate>, q: Seq<char>)
    requires
        kept_paths(args, cands).contains(q),
    ensures
        exists|k: int|
            0 <= k < cands.len() && #[trigger] cands[k].path@ == q && passes_filters(args, cands[k]),
{
    lemma_collected_are_those_passing_filters(args, cands);
    let p = choose|p: int| 0 <= p < kept_paths(args, cands).len() && kept_paths(args, cands)[p] == q;
    let pred = |c: FileCandidate| passes_filters(args, c);
    let pass = cands.filter(pred);
    cands.lemma_filter_pred(pred, p);
    assert(pass.contains(pass[p]));
    cands.lemma_filter_contains_rev(pred, pass[p]);
    let k = choose|k: int| 0 <= k < cands.len() && cands[k] == pass[p];
    assert(cands[k].path@ == q);
}

/// No collected path comes from a file that a filter leaves out: each collected
/// path is that of a candidate whose extension is not excluded, whose language is
/// included and whose size is within the limit; and each such candidate's path is
/// collected.
pub proof fn lemma_collected_pass_filters(args: Args, cands: Seq<FileCandidate>)
    ensures
        forall|q: Seq<char>|
            #[trigger] kept_paths(args, cands).contains(q) ==> exists|k: int|
                0 <= k < cands.len() && #[trigger] cands[k].path@ == q && passes_filters(
                    args,
                    cands[k],
                ),
        forall|k: int|
            0 <= k < cands.len() && passes_filters(args, #[trigger] cands[k]) ==> kept_paths(
                args,
                cands,
            ).contains(cands[k].path@),
{
    assert forall|q: Seq<char>| #[trigger] kept_paths(args, cands).contains(q) implies exists|k: int|
        0 <= k < cands.len() && #[trigger] cands[k].path@ == q && passes_filters(args, cands[k]) by {
        lemma_collected_entry(args, cands, q);
    }
    lemma_collected_are_those_passing_filters(args, cands);
    let pred = |c: FileCandidate| passes_filters(args, c);
    let pass = cands.filter(pred);
    assert forall|k: int| 0 <= k < cands.len() && passes_filters(args, #[trigger] cands[k]) implies kept_paths(
        args,
        cands,
    ).contains(cands[k].path@) by {
        cands.lemma_filter_contains(pred, k);
        let p = choose|p: int| 0 <= p < pass.len() && pass[p] == cands[k];
        assert(kept_paths(args, cands)[p] == cands[k].path@);
    }
}

/// The walk never enters or yields an entry named `.not` or `.nod`, nor a directory
/// named in `exclude_dirs`; it enters or yields every other entry.
pub proof fn lemma_entry_rules(name: Seq<char>, is_dir: bool, exclude_dirs: Seq<String>)
    ensures
        name == ".not"@ ==> !spec_entry_allowed(name, is_dir, exclude_dirs),
        name == ".nod"@ ==> !spec_entry_allowed(name, is_dir, exclude_dirs),
        is_dir && (exists|i: int| 0 <= i < exclude_dirs.len() && #[trigger] exclude_dirs[i]@ == name)
            ==> !spec_entry_allowed(name, is_dir, exclude_dirs),
        name != ".not"@ && name != ".nod"@ && !(is_dir && exists|i: int|
            0 <= i < exclude_dirs.len() && #[trigger] exclude_dirs[i]@ == name) ==> spec_entry_allowed(
            name,
            is_dir,
            exclude_dirs,
        ),
{
}

} // verus!
