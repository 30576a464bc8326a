use vstd::prelude::*;

verus! {

/// The characters of `s`, in order.
pub fn chars_of(s: &str) -> (res: Vec<char>)
    ensures
        res@ == s@,
{
    let mut res: Vec<char> = Vec::new();
    for c in it: s.chars()
        invariant
            res@ == it.seq().take(it.index() as int),
            it.seq() == s@,
    {
        res.push(c);
    }
    res
}

/// Builds a `String` holding exactly the given characters.
#[verifier::external_body]
pub(crate) fn string_from_chars(chars: &Vec<char>) -> (res: String)
    ensures
        res@ == chars@,
{
    String::from_iter(chars)
}

/// Splits `s` at each `'\n'`: the pieces before the last newline, and what follows it.
/// A piece that ends in `'\r'` (a `"\r\n"` line ending) loses that `'\r'`.
pub open spec fn split_newlines(s: Seq<char>) -> (Seq<Seq<char>>, Seq<char>)
    decreases s.len(),
{
    if s.len() == 0 {
        (seq![], seq![])
    } else {
        let (done, cur) = split_newlines(s.drop_last());
        if s.last() == '\n' {
            (done.push(strip_cr(cur)), seq![])
        } else {
            (done, cur.push(s.last()))
        }
    }
}

/// `line` without one trailing carriage return.
pub open spec fn strip_cr(line: Seq<char>) -> Seq<char> {
    if line.len() > 0 && line.last() == '\r' {
        line.drop_last()
    } else {
        line
    }
}

/// The lines of `s`, as `str::lines` yields them: split at `"\n"` or `"\r\n"`,
/// without the terminators; a final line ending is optional, and no empty line
/// follows it.
pub open spec fn spec_lines(s: Seq<char>) -> Seq<Seq<char>> {
    let (done, cur) = split_newlines(s);
    if cur.len() == 0 {
        done
    } else {
        done.push(cur)
    }
}

/// Splitting `a + b`, where `a` leaves no unfinished piece, splits `a` and `b` apart.
proof fn lemma_split_newlines_concat(a: Seq<char>, b: Seq<char>)
    requires
        split_newlines(a).1.len() == 0,
    ensures
        split_newlines(a + b) == (split_newlines(a).0 + split_newlines(b).0, split_newlines(b).1),
    decreases b.len(),
{
    if b.len() == 0 {
        assert(a + b =~= a);
        assert(split_newlines(a).0 + split_newlines(b).0 =~= split_newlines(a).0);
    } else {
        lemma_split_newlines_concat(a, b.drop_last());
        assert((a + b).drop_last() =~= a + b.drop_last());
        assert((a + b).last() == b.last());
        let da = split_newlines(a).0;
        let (db, cb) = split_newlines(b.drop_last());
        if b.last() == '\n' {
            assert((da + db).push(strip_cr(cb)) =~= da + db.push(strip_cr(cb)));
        }
    }
}

/// A text without line breaks is one unfinished piece.
pub(crate) proof fn lemma_split_without_newline(s: Seq<char>)
    requires
        !s.contains('\n'),
    ensures
        split_newlines(s) == (Seq::<Seq<char>>::empty(), s),
    decreases s.len(),
{
    if s.len() > 0 {
        assert(!s.drop_last().contains('\n')) by {
            if s.drop_last().contains('\n') {
                let i = choose|i: int| 0 <= i < s.drop_last().len() && s.drop_last()[i] == '\n';
                assert(s[i] == '\n');
            }
        }
        lemma_split_without_newline(s.drop_last());
        assert(s.last() != '\n') by {
            assert(s[s.len() - 1] == s.last());
        }
        assert(s.drop_last().push(s.last()) =~= s);
    }
}

/// The text `l1`, a line break and `l2`, where neither holds a line break, `l1` does
/// not end in a carriage return and `l2` is not empty, has the two lines `l1` and `l2`.
pub proof fn lemma_two_lines(l1: Seq<char>, l2: Seq<char>)
    requires
        !l1.contains('\n'),
        !l2.contains('\n'),
        l1.len() == 0 || l1.last() != '\r',
        l2.len() > 0,
    ensures
        spec_lines(l1.push('\n') + l2) == seq![l1, l2],
{
    lemma_split_without_newline(l1);
    lemma_split_without_newline(l2);
    assert(l1.push('\n').drop_last() =~= l1);
    lemma_lines_concat(l1.push('\n'), l2);
    assert(spec_lines(l1.push('\n')) =~= seq![l1]);
    assert(spec_lines(l2) =~= seq![l2]);
    assert(seq![l1] + seq![l2] =~= seq![l1, l2]);
}

/// The lines of `a + b`, where `a` is empty or ends in a line break, are the lines of
/// `a` followed by those of `b`.
pub proof fn lemma_lines_concat(a: Seq<char>, b: Seq<char>)
    requires
        a.len() == 0 || a.last() == '\n',
    ensures
        spec_lines(a + b) == spec_lines(a) + spec_lines(b),
{
    lemma_split_newlines_concat(a, b);
    let da = split_newlines(a).0;
    let (db, cb) = split_newlines(b);
    if cb.len() > 0 {
        assert((da + db).push(cb) =~= da + db.push(cb));
    }
}

/// The views of a sequence of character vectors.
pub open spec fn views_of(v: Seq<Vec<char>>) -> Seq<Seq<char>> {
    v.map_values(|l: Vec<char>| l@)
}

/// The lines of `s` (see `spec_lines`), each as a vector of characters.
pub fn lines_of(s: &str) -> (res: Vec<Vec<char>>)
    ensures
        views_of(res@) == spec_lines(s@),
{
    let chars = chars_of(s);
    let n = chars.len();
    let mut done: Vec<Vec<char>> = Vec::new();
    let mut cur: Vec<char> = Vec::new();
    for i in 0..n
        invariant
            n == chars@.len(),
            chars@ == s@,
            (views_of(done@), cur@) == split_newlines(chars@.take(i as int)),
    {
        let c = chars[i];
        assert(chars@.take(i + 1).drop_last() == chars@.take(i as int));
        if c == '\n' {
            let len = cur.len();
            if len > 0 && cur[len - 1] == '\r' {
                cur.pop();
            }
            let line = cur;
            let ghost prev = done@;
            done.push(line);
            cur = Vec::new();
            assert(views_of(done@) =~= views_of(prev).push(line@));
        } else {
            cur.push(c);
        }
    }
    assert(chars@.take(n as int) == chars@);
    if cur.len() > 0 {
        let ghost prev = done@;
        let ghost last = cur@;
        done.push(cur);
        assert(views_of(done@) =~= views_of(prev).push(last));
    }
    done
}


/// `p` occurs in `s` starting at position `i`.
pub open spec fn matches_at(s: Seq<char>, i: int, p: Seq<char>) -> bool {
    &&& 0 <= i
    &&& i + p.len() <= s.len()
    &&& s.subrange(i, i + p.len()) == p
}

/// `s` begins with `p`.
pub open spec fn has_prefix(s: Seq<char>, p: Seq<char>) -> bool {
    matches_at(s, 0, p)
}

/// `s` ends with `p`.
pub open spec fn has_suffix(s: Seq<char>, p: Seq<char>) -> bool {
    matches_at(s, s.len() - p.len(), p)
}

/// `p` occurs somewhere in `s`.
pub open spec fn has_infix(s: Seq<char>, p: Seq<char>) -> bool {
    exists|i: int| #[trigger] matches_at(s, i, p)
}

/// Whether `p` occurs in `s` at position `i`.
pub fn match_at(s: &Vec<char>, i: usize, p: &Vec<char>) -> (res: bool)
    ensures
        res == matches_at(s@, i as int, p@),
{
    if i > s.len() || p.len() > s.len() - i {
        return false;
    }
    let n = p.len();
    for k in 0..n
        invariant
            n == p@.len(),
            i + n <= s.len(),
            forall|j: int| 0 <= j < k ==> s@[i + j] == p@[j],
    {
        assert(i + k < s@.len());
        if s[i + k] != p[k] {
            assert(s@.subrange(i as int, i + n)[k as int] != p@[k as int]);
            return false;
        }
    }
    assert(s@.subrange(i as int, i + n) =~= p@);
    true
}

/// Whether `p` occurs anywhere in `s`.
pub fn find_in(s: &Vec<char>, p: &Vec<char>) -> (res: bool)
    ensures
        res == has_infix(s@, p@),
{
    if p.len() > s.len() {
        assert forall|i: int| !matches_at(s@, i, p@) by {}
        return false;
    }
    let last = s.len() - p.len();
    let mut i: usize = 0;
    loop
        invariant
            last + p@.len() == s@.len(),
            i <= last,
            forall|j: int| 0 <= j < i ==> !matches_at(s@, j, p@),
        decreases last - i,
    {
        if match_at(s, i, p) {
            return true;
        }
        if i == last {
            assert forall|j: int| !matches_at(s@, j, p@) by {
                if 0 <= j <= i {
                }
            }
            return false;
        }
        i = i + 1;
    }
}

/// Whether two character sequences are equal.
pub fn chars_eq(a: &Vec<char>, b: &Vec<char>) -> (res: bool)
    ensures
        res == (a@ == b@),
{
    if a.len() != b.len() {
        return false;
    }
    let r = match_at(a, 0, b);
    assert(r ==> a@.subrange(0, a@.len() as int) =~= a@);
    assert(a@ == b@ ==> a@.subrange(0, a@.len() as int) =~= a@);
    r
}

/// Whether two strings hold the same characters.
pub fn str_eq(a: &str, b: &str) -> (res: bool)
    ensures
        res == (a@ == b@),
{
    let x = chars_of(a);
    let y = chars_of(b);
    chars_eq(&x, &y)
}

/// The code of `c` in ASCII lower case: letters `A`..`Z` map to `a`..`z`, all else is kept.
pub open spec fn ascii_lower(c: char) -> u32 {
    if 'A' <= c && c <= 'Z' {
        (c as u32 + 32) as u32
    } else {
        c as u32
    }
}

/// `a` and `b` are equal when ASCII letters are compared without regard to case.
pub open spec fn eq_ignore_ascii_case(a: Seq<char>, b: Seq<char>) -> bool {
    &&& a.len() == b.len()
    &&& forall|i: int| 0 <= i < a.len() ==> ascii_lower(#[trigger] a[i]) == ascii_lower(b[i])
}

fn lower_code(c: char) -> (res: u32)
    ensures
        res == ascii_lower(c),
{
    if 'A' <= c && c <= 'Z' {
        c as u32 + 32
    } else {
        c as u32
    }
}

/// Whether `a` and `b` are equal up to ASCII case.
pub fn str_eq_ignore_ascii_case(a: &str, b: &str) -> (res: bool)
    ensures
        res == eq_ignore_ascii_case(a@, b@),
{
    let x = chars_of(a);
    let y = chars_of(b);
    if x.len() != y.len() {
        return false;
    }
    let n = x.len();
    for k in 0..n
        invariant
            n == x@.len(),
            n == y@.len(),
            x@ == a@,
            y@ == b@,
            forall|j: int| 0 <= j < k ==> ascii_lower(x@[j]) == ascii_lower(y@[j]),
    {
        if lower_code(x[k]) != lower_code(y[k]) {
            assert(ascii_lower(a@[k as int]) != ascii_lower(b@[k as int]));
            return false;
        }
    }
    true
}


/// The lines of `s` (see `spec_lines`), as strings.
pub fn split_lines(s: &str) -> (res: Vec<String>)
    ensures
        res@.map_values(|l: String| l@) == spec_lines(s@),
{
    let lines = lines_of(s);
    let ghost all = views_of(lines@);
    let mut res: Vec<String> = Vec::new();
    let n = lines.len();
    for i in 0..n
        invariant
            n == lines@.len(),
            all == views_of(lines@),
            res@.map_values(|l: String| l@) == all.take(i as int),
    {
        let ghost prev = res@;
        let line = string_from_chars(&lines[i]);
        res.push(line);
        assert(res@.map_values(|l: String| l@) =~= prev.map_values(|l: String| l@).push(
            all[i as int],
        ));
        assert(all.take(i + 1) =~= all.take(i as int).push(all[i as int]));
    }
    assert(all.take(n as int) =~= all);
    res
}


/// The decimal digit for `d` (below ten).
pub open spec fn digit_char(d: nat) -> char {
    (48 + d) as char
}

/// The decimal digits of `n`, most significant first, without leading zeros.
pub open spec fn decimal(n: nat) -> Seq<char>
    decreases n,
{
    if n < 10 {
        seq![digit_char(n)]
    } else {
        decimal(n / 10).push(digit_char(n % 10))
    }
}

/// The decimal digit character for `d`.
fn digit_of(d: u64) -> (res: char)
    requires
        d < 10,
    ensures
        res == digit_char(d as nat),
{
    let b: u8 = 48u8 + d as u8;
    b as char
}

/// Appends the decimal digits of `n` to `out`.
fn push_decimal(n: u64, out: &mut Vec<char>)
    ensures
        final(out)@ == old(out)@ + decimal(n as nat),
    decreases n,
{
    if n < 10 {
        out.push(digit_of(n));
        assert(decimal(n as nat) == seq![digit_char(n as nat)]);
        assert(out@ =~= old(out)@ + decimal(n as nat));
    } else {
        push_decimal(n / 10, out);
        out.push(digit_of(n % 10));
        assert(decimal(n as nat) == decimal((n / 10) as nat).push(digit_char((n % 10) as nat)));
        assert(out@ =~= old(out)@ + decimal(n as nat));
    }
}

/// `n` written in decimal, without sign or padding (as `ToString` writes a `u64`).
pub(crate) fn u64_text(n: u64) -> (res: String)
    ensures
        res@ == decimal(n as nat),
{
    let mut digits: Vec<char> = Vec::new();
    push_decimal(n, &mut digits);
    assert(digits@ =~= decimal(n as nat));
    string_from_chars(&digits)
}

} // verus!
