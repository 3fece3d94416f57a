//! Character-level text handling shared by the rest of the crate.

use vstd::prelude::*;

verus! {

/// The Unicode `White_Space` property, as `char::is_whitespace` documents it.
pub open spec fn is_ws(c: char) -> bool {
    let u = c as u32;
    ||| (0x09 <= u && u <= 0x0D)
    ||| u == 0x20
    ||| u == 0x85
    ||| u == 0xA0
    ||| u == 0x1680
    ||| (0x2000 <= u && u <= 0x200A)
    ||| u == 0x2028
    ||| u == 0x2029
    ||| u == 0x202F
    ||| u == 0x205F
    ||| u == 0x3000
}

/// Executable form of [`is_ws`].
pub fn is_whitespace(c: char) -> (b: bool)
    ensures
        b == is_ws(c),
{
    let u = c as u32;
    (0x09 <= u && u <= 0x0D) || u == 0x20 || u == 0x85 || u == 0xA0 || u == 0x1680 || (0x2000 <= u
        && u <= 0x200A) || u == 0x2028 || u == 0x2029 || u == 0x202F || u == 0x205F || u == 0x3000
}

/// The characters of `s`.
pub fn to_chars(s: &str) -> (v: Vec<char>)
    ensures
        v@ == s@,
{
    let mut v: Vec<char> = Vec::new();
    for c in it: s.chars()
        invariant
            v@ == it.seq().take(it.index() as int),
            it.seq() == s@,
    {
        v.push(c);
    }
    v
}

} // verus!

verus! {

/// `String::from_iter` over characters: the string whose characters are `v`,
/// in order.
#[verifier::external_body]
pub(crate) fn from_chars(v: &[char]) -> (s: String)
    ensures
        s@ == v@,
{
    String::from_iter(v.iter())
}

/// `s` without its leading whitespace (`str::trim_start`).
pub open spec fn trim_start(s: Seq<char>) -> Seq<char>
    decreases s.len(),
{
    if s.len() > 0 && is_ws(s[0]) {
        trim_start(s.drop_first())
    } else {
        s
    }
}

/// `s` without its trailing whitespace (`str::trim_end`).
pub open spec fn trim_end(s: Seq<char>) -> Seq<char>
    decreases s.len(),
{
    if s.len() > 0 && is_ws(s.last()) {
        trim_end(s.drop_last())
    } else {
        s
    }
}

/// `s` without leading and trailing whitespace (`str::trim`).
pub open spec fn trim(s: Seq<char>) -> Seq<char> {
    trim_end(trim_start(s))
}

proof fn lemma_trim_start_skip(s: Seq<char>, i: int)
    requires
        0 <= i <= s.len(),
        forall|j: int| 0 <= j < i ==> is_ws(#[trigger] s[j]),
    ensures
        trim_start(s) == trim_start(s.skip(i)),
    decreases i,
{
    if i > 0 {
        assert(s.skip(1) == s.drop_first());
        lemma_trim_start_skip(s.drop_first(), i - 1);
        assert(s.drop_first().skip(i - 1) == s.skip(i));
    } else {
        assert(s.skip(0) == s);
    }
}

proof fn lemma_trim_end_take(s: Seq<char>, i: int)
    requires
        0 <= i <= s.len(),
        forall|j: int| i <= j < s.len() ==> is_ws(#[trigger] s[j]),
    ensures
        trim_end(s) == trim_end(s.take(i)),
    decreases s.len() - i,
{
    if i < s.len() {
        lemma_trim_end_take(s.drop_last(), i);
        assert(s.drop_last().take(i) == s.take(i));
    } else {
        assert(s.take(i) == s);
    }
}

/// Index of the first non-whitespace character of `s`, or `s.len()`.
fn first_non_ws(s: &Vec<char>) -> (i: usize)
    ensures
        i <= s.len(),
        trim_start(s@) == s@.skip(i as int),
{
    let mut i: usize = 0;
    while i < s.len() && is_whitespace(s[i])
        invariant
            i <= s.len(),
            forall|j: int| 0 <= j < i ==> is_ws(#[trigger] s@[j]),
        decreases s.len() - i,
    {
        i = i + 1;
    }
    proof {
        lemma_trim_start_skip(s@, i as int);
        assert(trim_start(s@.skip(i as int)) == s@.skip(i as int));
    }
    i
}

/// The characters of `s` from `lo` up to `hi`.
pub fn slice_chars(s: &Vec<char>, lo: usize, hi: usize) -> (r: Vec<char>)
    requires
        lo <= hi <= s.len(),
    ensures
        r@ == s@.subrange(lo as int, hi as int),
{
    let mut r: Vec<char> = Vec::new();
    let mut k: usize = lo;
    while k < hi
        invariant
            lo <= k <= hi <= s.len(),
            r@ == s@.subrange(lo as int, k as int),
        decreases hi - k,
    {
        r.push(s[k]);
        k = k + 1;
    }
    r
}

/// `str::trim` on characters.
pub fn trim_chars(s: &Vec<char>) -> (r: Vec<char>)
    ensures
        r@ == trim(s@),
{
    let i = first_non_ws(s);
    let mut j: usize = s.len();
    while j > i && is_whitespace(s[j - 1])
        invariant
            i <= j <= s.len(),
            forall|k: int| j <= k < s.len() ==> is_ws(#[trigger] s@[k]),
        decreases j,
    {
        j = j - 1;
    }
    let r = slice_chars(s, i, j);
    proof {
        let t = s@.skip(i as int);
        assert forall|k: int| (j - i) <= k < t.len() implies is_ws(#[trigger] t[k]) by {
            assert(t[k] == s@[k + i]);
        }
        lemma_trim_end_take(t, j - i);
        assert(t.take(j - i) == r@);
        if j > i {
            assert(r@.last() == s@[j - 1]);
        }
    }
    r
}

/// `str::trim`.
pub fn trim_str(s: &str) -> (r: String)
    ensures
        r@ == trim(s@),
{
    let v = to_chars(s);
    let t = trim_chars(&v);
    from_chars(t.as_slice())
}

} // verus!

verus! {

/// Index of the first `c` in `s` at or after `i`, or `s.len()` when there is none.
pub open spec fn find_from(s: Seq<char>, i: int, c: char) -> int
    decreases s.len() - i,
{
    if i >= s.len() {
        s.len() as int
    } else if s[i] == c {
        i
    } else {
        find_from(s, i + 1, c)
    }
}

pub proof fn lemma_find_from_bounds(s: Seq<char>, i: int, c: char)
    requires
        0 <= i,
    ensures
        i <= find_from(s, i, c) || (i > s.len() && find_from(s, i, c) == s.len()),
        find_from(s, i, c) <= s.len() || i > s.len(),
        find_from(s, i, c) < s.len() ==> s[find_from(s, i, c)] == c,
        forall|k: int| i <= k < find_from(s, i, c) ==> s[k] != c,
    decreases s.len() - i,
{
    if i < s.len() && s[i] != c {
        lemma_find_from_bounds(s, i + 1, c);
    }
}

/// `find_from` is the first `c` at or after `i`.
pub proof fn lemma_find_from_is(s: Seq<char>, i: int, e: int, c: char)
    requires
        0 <= i <= e <= s.len(),
        forall|k: int| i <= k < e ==> s[k] != c,
        e == s.len() || s[e] == c,
    ensures
        find_from(s, i, c) == e,
    decreases e - i,
{
    if i < e {
        lemma_find_from_is(s, i + 1, e, c);
    }
}

/// A line without the `'\r'` that ends it, if any.
pub open spec fn strip_cr(l: Seq<char>) -> Seq<char> {
    if l.len() > 0 && l.last() == '\r' {
        l.drop_last()
    } else {
        l
    }
}

/// `str::lines` of `s` from index `i`: pieces ended by `'\n'`, a `'\r'` before
/// that `'\n'` dropped; a last piece without `'\n'` is kept whole, and nothing
/// follows a final `'\n'`.
pub open spec fn lines_from(s: Seq<char>, i: int) -> Seq<Seq<char>>
    decreases s.len() - i,
{
    if i < 0 || i >= s.len() {
        Seq::empty()
    } else {
        proof {
            lemma_find_from_bounds(s, i, '\n');
        }
        let e = find_from(s, i, '\n');
        let raw = s.subrange(i, e);
        if e < s.len() {
            seq![strip_cr(raw)] + lines_from(s, e + 1)
        } else {
            seq![raw]
        }
    }
}

/// `str::lines`.
pub open spec fn lines(s: Seq<char>) -> Seq<Seq<char>> {
    lines_from(s, 0)
}

/// The lines of `s`, as `str::lines` gives them.
#[verifier::rlimit(40)]
pub fn split_lines(s: &Vec<char>) -> (out: Vec<Vec<char>>)
    ensures
        out@.map_values(|l: Vec<char>| l@) == lines(s@),
{
    let mut out: Vec<Vec<char>> = Vec::new();
    let mut start: usize = 0;
    let mut cur: Vec<char> = Vec::new();
    let mut j: usize = 0;
    while j < s.len()
        invariant
            start <= j <= s.len(),
            cur@ == s@.subrange(start as int, j as int),
            forall|k: int| start <= k < j ==> s@[k] != '\n',
            lines(s@) == out@.map_values(|l: Vec<char>| l@) + lines_from(s@, start as int),
        decreases s.len() - j,
    {
        if s[j] == '\n' {
            proof {
                lemma_find_from_is(s@, start as int, j as int, '\n');
                assert(lines_from(s@, start as int) == seq![strip_cr(cur@)] + lines_from(
                    s@,
                    j + 1,
                ));
            }
            let mut line = cur;
            if line.len() > 0 && line[line.len() - 1] == '\r' {
                line.pop();
            }
            assert(line@ == strip_cr(cur@));
            let ghost before = out@;
            out.push(line);
            proof {
                assert(out@.map_values(|l: Vec<char>| l@) == before.map_values(|l: Vec<char>| l@)
                    + seq![strip_cr(cur@)]);
            }
            cur = Vec::new();
            start = j + 1;
        } else {
            cur.push(s[j]);
        }
        j = j + 1;
    }
    if start < s.len() {
        proof {
            lemma_find_from_is(s@, start as int, j as int, '\n');
            assert(lines_from(s@, start as int) == seq![cur@]);
        }
        let ghost before = out@;
        out.push(cur);
        proof {
            assert(out@.map_values(|l: Vec<char>| l@) == before.map_values(|l: Vec<char>| l@)
                + seq![cur@]);
        }
    } else {
        assert(lines_from(s@, start as int) == Seq::<Seq<char>>::empty());
    }
    out
}

} // verus!

verus! {

/// `a + b` as a new string.
pub fn concat_str(a: &str, b: &str) -> (r: String)
    ensures
        r@ == a@ + b@,
{
    let mut r = String::from_str(a);
    r.append(b);
    r
}

/// Appends the characters of `s` to `out`.
pub fn push_str_chars(out: &mut Vec<char>, s: &str)
    ensures
        final(out)@ == old(out)@ + s@,
{
    let v = to_chars(s);
    push_all(out, &v);
}

/// Appends `v` to `out`.
pub fn push_all(out: &mut Vec<char>, v: &Vec<char>)
    ensures
        final(out)@ == old(out)@ + v@,
{
    let ghost start = out@;
    let mut k: usize = 0;
    while k < v.len()
        invariant
            k <= v.len(),
            out@ == start + v@.take(k as int),
        decreases v.len() - k,
    {
        out.push(v[k]);
        k = k + 1;
        assert(out@ == start + v@.take(k as int));
    }
    assert(v@.take(v.len() as int) == v@);
}

/// `s` begins with `p`.
pub open spec fn has_prefix(s: Seq<char>, p: Seq<char>) -> bool {
    p.len() <= s.len() && s.take(p.len() as int) == p
}

/// Whether `s` begins with `p` (`str::starts_with`).
pub fn starts_with_chars(s: &Vec<char>, p: &Vec<char>) -> (b: bool)
    ensures
        b == has_prefix(s@, p@),
{
    if p.len() > s.len() {
        return false;
    }
    let mut k: usize = 0;
    while k < p.len()
        invariant
            p.len() <= s.len(),
            k <= p.len(),
            forall|j: int| 0 <= j < k ==> s@[j] == p@[j],
        decreases p.len() - k,
    {
        if s[k] != p[k] {
            assert(s@.take(p.len() as int)[k as int] != p@[k as int]);
            return false;
        }
        k = k + 1;
    }
    assert(s@.take(p.len() as int) == p@);
    true
}

/// Whether `a` and `b` hold the same characters.
pub fn chars_eq(a: &Vec<char>, b: &Vec<char>) -> (r: bool)
    ensures
        r == (a@ == b@),
{
    if a.len() != b.len() {
        return false;
    }
    let r = starts_with_chars(a, b);
    assert(a@.take(b.len() as int) == a@);
    r
}

/// `s` with every leading copy of `p` taken off (`str::trim_start_matches`
/// with a string pattern).
pub open spec fn strip_all_prefix(s: Seq<char>, p: Seq<char>) -> Seq<char>
    decreases s.len(),
{
    if p.len() > 0 && has_prefix(s, p) {
        strip_all_prefix(s.skip(p.len() as int), p)
    } else {
        s
    }
}

/// `str::trim_start_matches` with a string pattern.
pub fn strip_all_prefix_chars(s: &Vec<char>, p: &Vec<char>) -> (r: Vec<char>)
    ensures
        r@ == strip_all_prefix(s@, p@),
{
    if p.len() == 0 {
        return slice_chars(s, 0, s.len());
    }
    let mut i: usize = 0;
    let ghost mut cur = s@;
    loop
        invariant
            p.len() > 0,
            i <= s.len(),
            cur == s@.skip(i as int),
            strip_all_prefix(s@, p@) == strip_all_prefix(cur, p@),
        decreases s.len() - i,
    {
        let rest = slice_chars(s, i, s.len());
        if !starts_with_chars(&rest, p) {
            return rest;
        }
        proof {
            assert(cur.skip(p.len() as int) == s@.skip(i + p.len()));
            cur = cur.skip(p.len() as int);
        }
        i = i + p.len();
    }
}

/// Index of the first whitespace character of `s` at or after `i`, or `s.len()`.
pub open spec fn find_ws_from(s: Seq<char>, i: int) -> int
    decreases s.len() - i,
{
    if i >= s.len() {
        s.len() as int
    } else if is_ws(s[i]) {
        i
    } else {
        find_ws_from(s, i + 1)
    }
}

pub proof fn lemma_find_ws_from_is(s: Seq<char>, i: int, e: int)
    requires
        0 <= i <= e <= s.len(),
        forall|k: int| i <= k < e ==> !is_ws(s[k]),
        e == s.len() || is_ws(s[e]),
    ensures
        find_ws_from(s, i) == e,
    decreases e - i,
{
    if i < e {
        lemma_find_ws_from_is(s, i + 1, e);
    }
}

/// The first index of a whitespace character of `s`, or `s.len()`.
pub fn find_ws(s: &Vec<char>) -> (i: usize)
    ensures
        i as int == find_ws_from(s@, 0),
        i <= s.len(),
{
    let mut i: usize = 0;
    while i < s.len() && !is_whitespace(s[i])
        invariant
            i <= s.len(),
            forall|k: int| 0 <= k < i ==> !is_ws(s@[k]),
        decreases s.len() - i,
    {
        i = i + 1;
    }
    proof {
        lemma_find_ws_from_is(s@, 0, i as int);
    }
    i
}

/// The first index of `c` in `s`, or `s.len()`.
pub fn find_char(s: &Vec<char>, c: char) -> (i: usize)
    ensures
        i as int == find_from(s@, 0, c),
        i <= s.len(),
{
    let mut i: usize = 0;
    while i < s.len() && s[i] != c
        invariant
            i <= s.len(),
            forall|k: int| 0 <= k < i ==> s@[k] != c,
        decreases s.len() - i,
    {
        i = i + 1;
    }
    proof {
        lemma_find_from_is(s@, 0, i as int, c);
    }
    i
}

/// The pieces of `ls` joined with `sep` between them (`[&str]::join`).
pub open spec fn join(ls: Seq<Seq<char>>, sep: Seq<char>) -> Seq<char>
    decreases ls.len(),
{
    if ls.len() == 0 {
        Seq::empty()
    } else if ls.len() == 1 {
        ls[0]
    } else {
        join(ls.drop_last(), sep) + sep + ls.last()
    }
}

/// `[&str]::join` over the pieces `ls[lo..]`.
#[verifier::rlimit(40)]
pub fn join_chars(ls: &Vec<Vec<char>>, lo: usize, sep: &Vec<char>) -> (r: Vec<char>)
    requires
        lo <= ls.len(),
    ensures
        r@ == join(ls@.map_values(|l: Vec<char>| l@).skip(lo as int), sep@),
{
    let ghost views = ls@.map_values(|l: Vec<char>| l@);
    let mut r: Vec<char> = Vec::new();
    let mut k: usize = lo;
    while k < ls.len()
        invariant
            lo <= k <= ls.len(),
            views == ls@.map_values(|l: Vec<char>| l@),
            r@ == join(views.subrange(lo as int, k as int), sep@),
        decreases ls.len() - k,
    {
        if k > lo {
            push_all(&mut r, sep);
        }
        push_all(&mut r, &ls[k]);
        proof {
            let a = views.subrange(lo as int, k + 1);
            assert(a.drop_last() == views.subrange(lo as int, k as int));
            assert(a.last() == ls@[k as int]@);
            if k == lo {
                assert(views.subrange(lo as int, k as int).len() == 0);
            }
        }
        k = k + 1;
    }
    assert(views.subrange(lo as int, ls.len() as int) == views.skip(lo as int));
    r
}

} // verus!

verus! {

/// The characters of an optional string.
pub open spec fn opt_view(o: Option<String>) -> Option<Seq<char>> {
    match o {
        Some(s) => Some(s@),
        None => None,
    }
}

} // verus!

verus! {

pub proof fn lemma_trim_start_shorter(s: Seq<char>)
    ensures
        trim_start(s).len() <= s.len(),
        trim_start(s) == s.skip(s.len() - trim_start(s).len()),
    decreases s.len(),
{
    if s.len() > 0 && is_ws(s[0]) {
        lemma_trim_start_shorter(s.drop_first());
        assert(s.drop_first().skip(s.drop_first().len() - trim_start(s).len()) == s.skip(
            s.len() - trim_start(s).len(),
        ));
    } else {
        assert(s.skip(0) == s);
    }
}

pub proof fn lemma_trim_end_shorter(s: Seq<char>)
    ensures
        trim_end(s).len() <= s.len(),
        trim_end(s) == s.take(trim_end(s).len() as int),
    decreases s.len(),
{
    if s.len() > 0 && is_ws(s.last()) {
        lemma_trim_end_shorter(s.drop_last());
        assert(s.drop_last().take(trim_end(s).len() as int) == s.take(trim_end(s).len() as int));
    } else {
        assert(s.take(s.len() as int) == s);
    }
}

/// Trimming never lengthens a string.
pub proof fn lemma_trim_len(s: Seq<char>)
    ensures
        trim(s).len() <= trim_start(s).len() <= s.len(),
{
    lemma_trim_start_shorter(s);
    lemma_trim_end_shorter(trim_start(s));
}

/// A string whose last character is whitespace is not its own `trim`.
pub proof fn lemma_trim_end_last(s: Seq<char>)
    requires
        s.len() > 0,
        is_ws(s.last()),
    ensures
        trim(s) != s,
{
    lemma_trim_start_shorter(s);
    let ts = trim_start(s);
    if ts == s {
        lemma_trim_end_shorter(s.drop_last());
        assert(trim_end(s) == trim_end(s.drop_last()));
        assert(trim(s).len() < s.len());
    } else {
        lemma_trim_end_shorter(ts);
        if ts.len() == s.len() {
            assert(s.skip(0) == s);
        }
        assert(trim(s).len() < s.len());
    }
}

} // verus!

verus! {

/// Searching a suffix of `s` is searching `s` further on.
pub proof fn lemma_find_from_skip(s: Seq<char>, i: int, j: int, c: char)
    requires
        0 <= i <= s.len(),
        0 <= j,
    ensures
        find_from(s.skip(i), j, c) == if i + j >= s.len() {
            s.len() - i
        } else {
            find_from(s, i + j, c) - i
        },
    decreases s.len() - (i + j),
{
    let t = s.skip(i);
    if i + j < s.len() {
        assert(t[j] == s[i + j]);
        if s[i + j] != c {
            lemma_find_from_skip(s, i, j + 1, c);
            assert(find_from(t, j, c) == find_from(t, j + 1, c));
            assert(find_from(s, i + j, c) == find_from(s, i + j + 1, c));
        } else {
            assert(find_from(t, j, c) == j);
            assert(find_from(s, i + j, c) == i + j);
        }
    } else {
        assert(j >= t.len());
        assert(find_from(t, j, c) == t.len());
    }
}

/// The lines of `s` from index `i` are the lines of the rest of `s`.
pub proof fn lemma_lines_skip(s: Seq<char>, i: int)
    requires
        0 <= i <= s.len(),
    ensures
        lines_from(s, i) == lines(s.skip(i)),
    decreases s.len() - i,
{
    let t = s.skip(i);
    if i < s.len() {
        lemma_find_from_skip(s, i, 0, '\n');
        lemma_find_from_bounds(s, i, '\n');
        let e = find_from(s, i, '\n');
        assert(find_from(t, 0, '\n') == e - i);
        assert(t.subrange(0, e - i) == s.subrange(i, e));
        if e < s.len() {
            lemma_lines_skip(s, e + 1);
            lemma_lines_skip(t, e - i + 1);
            assert(t.skip(e - i + 1) == s.skip(e + 1));
        }
    }
}

/// No line of `s` holds a `'\n'`.
pub proof fn lemma_lines_no_newline(s: Seq<char>, i: int)
    requires
        0 <= i,
    ensures
        forall|j: int, k: int|
            0 <= j < lines_from(s, i).len() && 0 <= k < lines_from(s, i)[j].len()
                ==> #[trigger] lines_from(s, i)[j][k] != '\n',
    decreases s.len() - i,
{
    if i < s.len() {
        lemma_find_from_bounds(s, i, '\n');
        let e = find_from(s, i, '\n');
        if e < s.len() {
            lemma_lines_no_newline(s, e + 1);
        }
        let ls = lines_from(s, i);
        assert forall|j: int, k: int|
            0 <= j < ls.len() && 0 <= k < ls[j].len() implies #[trigger] ls[j][k] != '\n' by {
            if j == 0 {
                assert(ls[0][k] == s[i + k]);
            } else {
                assert(ls[j] == lines_from(s, e + 1)[j - 1]);
            }
        }
    }
}

/// A string whose ends are not whitespace is its own `trim`.
pub proof fn lemma_trim_id(s: Seq<char>)
    requires
        s.len() > 0 ==> !is_ws(s[0]) && !is_ws(s.last()),
    ensures
        trim(s) == s,
{
}

/// Dropping a last whitespace character does not change `trim`.
pub proof fn lemma_trim_drop_ws_last(s: Seq<char>)
    requires
        s.len() > 0,
        is_ws(s.last()),
    ensures
        trim(s.drop_last()) == trim(s),
    decreases s.len(),
{
    if s.len() == 1 {
        assert(s.drop_first().len() == 0);
        assert(s.drop_last().len() == 0);
        assert(trim_start(s) == trim_start(s.drop_first()));
    } else if is_ws(s[0]) {
        let d = s.drop_first();
        assert(d.last() == s.last());
        lemma_trim_drop_ws_last(d);
        assert(s.drop_last().drop_first() == d.drop_last());
        assert(s.drop_last()[0] == s[0]);
        assert(trim_start(s.drop_last()) == trim_start(d.drop_last()));
    } else {
        assert(s.drop_last()[0] == s[0]);
        assert(trim_start(s.drop_last()) == s.drop_last());
        assert(trim_end(s) == trim_end(s.drop_last()));
    }
}

/// `trim_end` keeps a prefix that does not end in whitespace.
pub proof fn lemma_trim_end_keeps_prefix(s: Seq<char>, p: Seq<char>)
    requires
        has_prefix(s, p),
        p.len() > 0,
        !is_ws(p.last()),
    ensures
        has_prefix(trim_end(s), p),
    decreases s.len(),
{
    if s.len() > 0 && is_ws(s.last()) {
        assert(s.len() > p.len()) by {
            if s.len() == p.len() {
                assert(s.take(p.len() as int) == s);
            }
        }
        assert(s.drop_last().take(p.len() as int) == s.take(p.len() as int));
        lemma_trim_end_keeps_prefix(s.drop_last(), p);
    }
}

/// A prefix of a prefix.
pub proof fn lemma_prefix_of_take(s: Seq<char>, n: int, p: Seq<char>)
    requires
        0 <= n <= s.len(),
        has_prefix(s.take(n), p),
    ensures
        has_prefix(s, p),
{
    assert(s.take(n).take(p.len() as int) == s.take(p.len() as int));
}

} // verus!

verus! {

/// What `str::to_lowercase` returns for `s` (Unicode lowercase mapping).
pub uninterp spec fn lowercase(s: Seq<char>) -> Seq<char>;

/// `str::to_lowercase`: the result is named; of an ASCII string it is the
/// string with `A`..`Z` turned into `a`..`z`, as the Unicode mapping that std
/// documents gives for ASCII letters (other ASCII characters have no case).
#[verifier::external_body]
pub(crate) fn to_lowercase(s: &str) -> (r: String)
    ensures
        r@ == lowercase(s@),
        is_ascii_seq(s@) ==> r@ == s@.map_values(|c: char| ascii_lower(c)),
{
    s.to_lowercase()
}

/// Every character of `s` is ASCII.
pub open spec fn is_ascii_seq(s: Seq<char>) -> bool {
    forall|i: int| 0 <= i < s.len() ==> (#[trigger] s[i] as u32) < 128
}

/// `c` with an ASCII capital turned into its small letter.
pub open spec fn ascii_lower(c: char) -> char {
    if 'A' <= c && c <= 'Z' {
        ((c as u32) + 32) as char
    } else {
        c
    }
}

/// `str::eq_ignore_ascii_case`.
pub open spec fn eq_ignore_ascii_case(a: Seq<char>, b: Seq<char>) -> bool {
    a.len() == b.len() && forall|i: int| 0 <= i < a.len() ==> ascii_lower(#[trigger] a[i])
        == ascii_lower(b[i])
}

fn lower_char(c: char) -> (r: char)
    ensures
        r == ascii_lower(c),
{
    if 'A' <= c && c <= 'Z' {
        let u: u32 = c as u32 + 32;
        let b: u8 = u as u8;
        b as char
    } else {
        c
    }
}

/// Whether `a` and `b` are equal but for ASCII case.
pub fn eq_ignore_case(a: &str, b: &str) -> (r: bool)
    ensures
        r == eq_ignore_ascii_case(a@, b@),
{
    let x = to_chars(a);
    let y = to_chars(b);
    if x.len() != y.len() {
        return false;
    }
    let mut i: usize = 0;
    while i < x.len()
        invariant
            x@ == a@,
            y@ == b@,
            x.len() == y.len(),
            i <= x.len(),
            forall|k: int| 0 <= k < i ==> ascii_lower(#[trigger] x@[k]) == ascii_lower(y@[k]),
        decreases x.len() - i,
    {
        if lower_char(x[i]) != lower_char(y[i]) {
            return false;
        }
        i = i + 1;
    }
    true
}

/// Whether `a` and `b` hold the same characters.
pub fn str_eq(a: &str, b: &str) -> (r: bool)
    ensures
        r == (a@ == b@),
{
    chars_eq(&to_chars(a), &to_chars(b))
}

} // verus!

verus! {

proof fn lemma_trim_start_head(s: Seq<char>)
    ensures
        trim_start(s).len() > 0 ==> !is_ws(trim_start(s)[0]),
    decreases s.len(),
{
    if s.len() > 0 && is_ws(s[0]) {
        lemma_trim_start_head(s.drop_first());
    }
}

proof fn lemma_trim_end_last_char(s: Seq<char>)
    ensures
        trim_end(s).len() > 0 ==> !is_ws(trim_end(s).last()),
    decreases s.len(),
{
    if s.len() > 0 && is_ws(s.last()) {
        lemma_trim_end_last_char(s.drop_last());
    }
}

/// `trim` leaves no whitespace at either end, so trimming twice is trimming once.
pub proof fn lemma_trim_idempotent(s: Seq<char>)
    ensures
        trim(trim(s)) == trim(s),
        trim(s).len() > 0 ==> !is_ws(trim(s)[0]) && !is_ws(trim(s).last()),
{
    let a = trim_start(s);
    lemma_trim_start_head(s);
    lemma_trim_end_last_char(a);
    lemma_trim_end_shorter(a);
    let t = trim(s);
    if t.len() > 0 {
        assert(t[0] == a.take(t.len() as int)[0]);
    }
    lemma_trim_id(t);
}

} // verus!
