//! The `.env` configuration file: reading its `KEY=value` pairs and setting a
//! key's value, the way the management panel edits it.
//!
//! Reading: each line is trimmed; blank lines, `#` comments and lines without
//! `=` are skipped; an `export ` prefix is dropped; the line is cut at its first
//! `=`. The key is trimmed. The value is trimmed, then: a value opening with a
//! double or single quote runs to the next such quote; otherwise a ` #` starts
//! a comment that is cut off.
//!
//! Setting: the first line that, after leading whitespace and an optional
//! `export `, starts with `KEY=` is replaced by `KEY=value`; when there is
//! none, that line is added at the end. Each line is then written followed by
//! a newline.

use vstd::prelude::*;
use crate::text::{
    find_char, find_from, lines_from, from_chars, has_prefix, lines, slice_chars, split_lines,
    starts_with_chars, strip_cr, to_chars, trim, trim_chars, trim_end, trim_start, chars_eq, push_all,
    is_whitespace, is_ws,
};

verus! {

/// Index of the first `" #"` in `s` at or after `i`, or `s.len()`.
pub open spec fn find_comment_from(s: Seq<char>, i: int) -> int
    decreases s.len() - i,
{
    if i + 1 >= s.len() {
        s.len() as int
    } else if s[i] == ' ' && s[i + 1] == '#' {
        i
    } else {
        find_comment_from(s, i + 1)
    }
}

/// A value as the reader keeps it, from the trimmed text after `=`.
pub open spec fn value_spec(v: Seq<char>) -> Seq<char> {
    if v.len() > 0 && v[0] == '"' {
        let st = v.drop_first();
        st.take(find_from(st, 0, '"'))
    } else if v.len() > 0 && v[0] == '\'' {
        let st = v.drop_first();
        st.take(find_from(st, 0, '\''))
    } else {
        let c = find_comment_from(v, 0);
        if c < v.len() {
            trim(v.take(c))
        } else {
            v
        }
    }
}

/// The `(key, value)` pair that one line of the file holds, if any.
pub open spec fn parse_line_spec(raw: Seq<char>) -> Option<(Seq<char>, Seq<char>)> {
    let line = trim(raw);
    if line.len() == 0 || line[0] == '#' || find_from(line, 0, '=') == line.len() {
        None
    } else {
        let body = if has_prefix(line, "export "@) {
            line.skip("export "@.len() as int)
        } else {
            line
        };
        let e = find_from(body, 0, '=');
        if e >= body.len() {
            None
        } else {
            Some((trim(body.take(e)), value_spec(trim(body.skip(e + 1)))))
        }
    }
}

/// The pairs held by the lines `ls[i..]`, in order.
pub open spec fn pairs_from(ls: Seq<Seq<char>>, i: int) -> Seq<(Seq<char>, Seq<char>)>
    decreases ls.len() - i,
{
    if i < 0 || i >= ls.len() {
        Seq::empty()
    } else {
        match parse_line_spec(ls[i]) {
            Some(p) => seq![p] + pairs_from(ls, i + 1),
            None => pairs_from(ls, i + 1),
        }
    }
}

/// The pairs that the file's text holds, in order.
pub open spec fn pairs_spec(text: Seq<char>) -> Seq<(Seq<char>, Seq<char>)> {
    pairs_from(lines(text), 0)
}

/// The value of the first pair whose key is `key`.
pub open spec fn first_value(ps: Seq<(Seq<char>, Seq<char>)>, key: Seq<char>) -> Option<
    Seq<char>,
>
    decreases ps.len(),
{
    if ps.len() == 0 {
        None
    } else if ps[0].0 == key {
        Some(ps[0].1)
    } else {
        first_value(ps.drop_first(), key)
    }
}

/// The characters of a list of pairs of strings.
pub open spec fn pair_views(ps: Seq<(String, String)>) -> Seq<(Seq<char>, Seq<char>)> {
    ps.map_values(|p: (String, String)| (p.0@, p.1@))
}

fn find_comment(s: &Vec<char>) -> (i: usize)
    ensures
        i as int == find_comment_from(s@, 0),
        i <= s.len(),
{
    let mut i: usize = 0;
    while s.len() > 0 && i < s.len() - 1 && !(s[i] == ' ' && s[i + 1] == '#')
        invariant
            i <= s.len(),
            find_comment_from(s@, 0) == find_comment_from(s@, i as int),
        decreases s.len() - i,
    {
        i = i + 1;
    }
    if s.len() == 0 || i >= s.len() - 1 {
        return s.len();
    }
    i
}

fn value_of(v: &Vec<char>) -> (r: Vec<char>)
    ensures
        r@ == value_spec(v@),
{
    if v.len() > 0 && (v[0] == '"' || v[0] == '\'') {
        let q = v[0];
        let st = slice_chars(v, 1, v.len());
        assert(st@ == v@.drop_first());
        let e = find_char(&st, q);
        slice_chars(&st, 0, e)
    } else {
        let c = find_comment(v);
        if c < v.len() {
            let head = slice_chars(v, 0, c);
            trim_chars(&head)
        } else {
            slice_chars(v, 0, v.len())
        }
    }
}

/// The pair that one line holds, if any.
#[verifier::rlimit(40)]
fn parse_line(raw: &Vec<char>) -> (r: Option<(Vec<char>, Vec<char>)>)
    ensures
        r matches Some((k, v)) ==> parse_line_spec(raw@) == Some((k@, v@)),
        r is None ==> parse_line_spec(raw@) is None,
{
    let line = trim_chars(raw);
    if line.len() == 0 || line[0] == '#' {
        assert(parse_line_spec(raw@) is None);
        return None;
    }
    if find_char(&line, '=') == line.len() {
        return None;
    }
    let export = to_chars("export ");
    let body = if starts_with_chars(&line, &export) {
        slice_chars(&line, export.len(), line.len())
    } else {
        slice_chars(&line, 0, line.len())
    };
    assert(body@ == (if has_prefix(line@, "export "@) {
            line@.skip("export "@.len() as int)
        } else {
            line@
        }));
    let e = find_char(&body, '=');
    if e >= body.len() {
        return None;
    }
    let k = slice_chars(&body, 0, e);
    let rest = slice_chars(&body, e + 1, body.len());
    assert(rest@ == body@.skip(e + 1));
    let v = trim_chars(&rest);
    let kt = trim_chars(&k);
    let vv = value_of(&v);
    assert(k@ == body@.take(e as int));
    Some((kt, vv))
}

/// The `(key, value)` pairs of an env file's text, in order of appearance.
#[verifier::rlimit(40)]
pub fn read_pairs(text: &str) -> (out: Vec<(String, String)>)
    ensures
        pair_views(out@) == pairs_spec(text@),
{
    let all = to_chars(text);
    let ls = split_lines(&all);
    let ghost lv = ls@.map_values(|l: Vec<char>| l@);
    let mut out: Vec<(String, String)> = Vec::new();
    let mut k: usize = 0;
    while k < ls.len()
        invariant
            k <= ls.len(),
            lv == ls@.map_values(|l: Vec<char>| l@),
            lv == lines(all@),
            pairs_spec(text@) == pair_views(out@) + pairs_from(lv, k as int),
        decreases ls.len() - k,
    {
        assert(lv[k as int] == ls@[k as int]@);
        let ghost before = out@;
        match parse_line(&ls[k]) {
            Some((key, val)) => {
                out.push((from_chars(key.as_slice()), from_chars(val.as_slice())));
                assert(pair_views(out@) == pair_views(before) + seq![(key@, val@)]);
            },
            None => {},
        }
        k = k + 1;
    }
    out
}

/// The value set for `key` in a list of pairs: that of the first pair with
/// that key, or the empty string when there is none.
pub fn lookup(pairs: &Vec<(String, String)>, key: &str) -> (r: String)
    ensures
        r@ == match first_value(pair_views(pairs@), key@) {
            Some(v) => v,
            None => Seq::empty(),
        },
{
    let ghost ps = pair_views(pairs@);
    let kc = to_chars(key);
    let mut k: usize = 0;
    assert(ps.skip(0) == ps);
    while k < pairs.len()
        invariant
            k <= pairs.len(),
            ps == pair_views(pairs@),
            kc@ == key@,
            first_value(ps, key@) == first_value(ps.skip(k as int), key@),
        decreases pairs.len() - k,
    {
        let pk = to_chars(pairs[k].0.as_str());
        assert(ps.skip(k as int)[0] == ps[k as int]);
        assert(ps.skip(k as int).drop_first() == ps.skip(k + 1));
        if chars_eq(&pk, &kc) {
            let v = pairs[k].1.clone();
            return v;
        }
        k = k + 1;
    }
    assert(ps.skip(k as int).len() == 0);
    String::new()
}

/// The value that an env file's text sets for `key` (`""` when none does).
pub fn get_val(text: &str, key: &str) -> (r: String)
    ensures
        r@ == match first_value(pairs_spec(text@), key@) {
            Some(v) => v,
            None => Seq::empty(),
        },
{
    let pairs = read_pairs(text);
    lookup(&pairs, key)
}

} // verus!

verus! {

/// Whether `set_val` takes `line` for the line that sets `key`: after its
/// leading whitespace and an optional `export `, it starts with `key=`.
pub open spec fn line_sets(line: Seq<char>, key: Seq<char>) -> bool {
    let t = trim_start(line);
    let body = if has_prefix(t, "export "@) {
        t.skip("export "@.len() as int)
    } else {
        t
    };
    has_prefix(body, key + seq!['='])
}

/// Index of the first of `ls[i..]` that sets `key`, or `ls.len()`.
pub open spec fn first_setting_from(ls: Seq<Seq<char>>, key: Seq<char>, i: int) -> int
    decreases ls.len() - i,
{
    if i >= ls.len() {
        ls.len() as int
    } else if line_sets(ls[i], key) {
        i
    } else {
        first_setting_from(ls, key, i + 1)
    }
}

/// The line `key=val`.
pub open spec fn setting_line(key: Seq<char>, val: Seq<char>) -> Seq<char> {
    key + seq!['='] + val
}

/// The lines after setting `key` to `val`: the first line that sets `key` is
/// replaced by `key=val`, or `key=val` is added at the end.
pub open spec fn set_lines_spec(ls: Seq<Seq<char>>, key: Seq<char>, val: Seq<char>) -> Seq<
    Seq<char>,
> {
    let i = first_setting_from(ls, key, 0);
    if i < ls.len() {
        ls.update(i, setting_line(key, val))
    } else {
        ls.push(setting_line(key, val))
    }
}

/// Lines written out, each followed by `'\n'`.
pub open spec fn render_lines(ls: Seq<Seq<char>>) -> Seq<char>
    decreases ls.len(),
{
    if ls.len() == 0 {
        Seq::empty()
    } else {
        ls[0] + seq!['\n'] + render_lines(ls.drop_first())
    }
}

/// The file's text after setting `key` to `val` in `text`.
pub open spec fn set_val_spec(text: Seq<char>, key: Seq<char>, val: Seq<char>) -> Seq<char> {
    render_lines(set_lines_spec(lines(text), key, val))
}

fn trim_start_index(s: &Vec<char>) -> (i: usize)
    ensures
        i <= s.len(),
        trim_start(s@) == s@.skip(i as int),
{
    let mut i: usize = 0;
    assert(s@.skip(0) == s@);
    while i < s.len() && is_whitespace(s[i])
        invariant
            i <= s.len(),
            trim_start(s@) == trim_start(s@.skip(i as int)),
        decreases s.len() - i,
    {
        assert(s@.skip(i as int).drop_first() == s@.skip(i + 1));
        i = i + 1;
    }
    i
}

fn sets_key(line: &Vec<char>, key_eq: &Vec<char>) -> (b: bool)
    requires
        key_eq@.len() > 0,
        key_eq@.last() == '=',
    ensures
        b == line_sets(line@, key_eq@.drop_last()),
{
    let i = trim_start_index(line);
    let t = slice_chars(line, i, line.len());
    assert(t@ == trim_start(line@));
    let export = to_chars("export ");
    let body = if starts_with_chars(&t, &export) {
        slice_chars(&t, export.len(), t.len())
    } else {
        t
    };
    assert(key_eq@.drop_last() + seq!['='] == key_eq@);
    starts_with_chars(&body, key_eq)
}

/// The env file's text after setting `key` to `val` (`text` is the file's
/// text before, empty when it could not be read).
#[verifier::rlimit(40)]
pub fn set_val_text(text: &str, key: &str, val: &str) -> (r: String)
    ensures
        r@ == set_val_spec(text@, key@, val@),
{
    let all = to_chars(text);
    let mut ls = split_lines(&all);
    let ghost lv = ls@.map_values(|l: Vec<char>| l@);
    let mut key_eq = to_chars(key);
    key_eq.push('=');
    let mut line = slice_chars(&key_eq, 0, key_eq.len());
    push_all(&mut line, &to_chars(val));
    assert(line@ == setting_line(key@, val@));
    assert(key_eq@.drop_last() == key@);
    let mut k: usize = 0;
    while k < ls.len() && !sets_key(&ls[k], &key_eq)
        invariant
            k <= ls.len(),
            lv == lines(all@),
            all@ == text@,
            key_eq@ == key@ + seq!['='],
            line@ == setting_line(key@, val@),
            ls@.map_values(|l: Vec<char>| l@) == lv,
            first_setting_from(lv, key@, 0) == first_setting_from(lv, key@, k as int),
            key_eq@.drop_last() == key@,
            forall|j: int| 0 <= j < ls.len() ==> #[trigger] ls@[j]@ == lv[j],
        decreases ls.len() - k,
    {
        k = k + 1;
    }
    let ghost idx = first_setting_from(lv, key@, 0);
    if k < ls.len() {
        assert(idx == k);
        ls.set(k, line);
        assert(ls@.map_values(|l: Vec<char>| l@) == lv.update(k as int, setting_line(key@, val@)));
    } else {
        assert(idx == lv.len());
        ls.push(line);
        assert(ls@.map_values(|l: Vec<char>| l@) == lv.push(setting_line(key@, val@)));
    }
    let ghost nv = ls@.map_values(|l: Vec<char>| l@);
    assert(nv == set_lines_spec(lv, key@, val@));
    let mut out: Vec<char> = Vec::new();
    let mut j: usize = 0;
    assert(nv.skip(0) == nv);
    while j < ls.len()
        invariant
            j <= ls.len(),
            nv == ls@.map_values(|l: Vec<char>| l@),
            render_lines(nv) == out@ + render_lines(nv.skip(j as int)),
        decreases ls.len() - j,
    {
        assert(nv.skip(j as int)[0] == ls@[j as int]@);
        assert(nv.skip(j as int).drop_first() == nv.skip(j + 1));
        push_all(&mut out, &ls[j]);
        out.push('\n');
        j = j + 1;
    }
    assert(nv.skip(j as int).len() == 0);
    from_chars(out.as_slice())
}

} // verus!

verus! {

/// The value of the first of the lines `ls[i..]` that holds a pair with key `key`.
pub open spec fn line_value_from(ls: Seq<Seq<char>>, key: Seq<char>, i: int) -> Option<
    Seq<char>,
>
    decreases ls.len() - i,
{
    if i < 0 || i >= ls.len() {
        None
    } else if line_key(ls[i]) == Some(key) {
        line_val(ls[i])
    } else {
        line_value_from(ls, key, i + 1)
    }
}

/// A key that the panel can write: nonempty, no whitespace and no `=` in it,
/// and not starting with `#`.
pub open spec fn key_ok(key: Seq<char>) -> bool {
    &&& key.len() > 0
    &&& key[0] != '#'
    &&& forall|k: int| 0 <= k < key.len() ==> !is_ws(#[trigger] key[k]) && key[k] != '='
}

/// A value that the reader gives back as written: no whitespace at its ends,
/// no line break, no opening quote, and no ` #`.
pub open spec fn value_ok(val: Seq<char>) -> bool {
    &&& trim(val) == val
    &&& forall|k: int| 0 <= k < val.len() ==> #[trigger] val[k] != '\n'
    &&& !(val.len() > 0 && (val[0] == '"' || val[0] == '\''))
    &&& find_comment_from(val, 0) == val.len()
}

/// The value of the pair that a line holds, if any.
pub open spec fn line_val(l: Seq<char>) -> Option<Seq<char>> {
    match parse_line_spec(l) {
        Some(p) => Some(p.1),
        None => None,
    }
}

/// The key of the pair that a line holds, if any.
pub open spec fn line_key(l: Seq<char>) -> Option<Seq<char>> {
    match parse_line_spec(l) {
        Some(p) => Some(p.0),
        None => None,
    }
}

proof fn lemma_pairs_value(ls: Seq<Seq<char>>, key: Seq<char>, i: int)
    requires
        0 <= i,
    ensures
        first_value(pairs_from(ls, i), key) == line_value_from(ls, key, i),
    decreases ls.len() - i,
{
    if i < ls.len() {
        lemma_pairs_value(ls, key, i + 1);
        match parse_line_spec(ls[i]) {
            Some(p) => {
                let rest = pairs_from(ls, i + 1);
                assert((seq![p] + rest).drop_first() == rest);
            },
            None => {},
        }
    }
}

#[verifier::rlimit(40)]
proof fn lemma_render_lines(ls: Seq<Seq<char>>)
    requires
        forall|j: int, k: int| 0 <= j < ls.len() && 0 <= k < ls[j].len() ==> #[trigger] ls[j][k]
            != '\n',
    ensures
        lines(render_lines(ls)) == ls.map_values(|l: Seq<char>| strip_cr(l)),
    decreases ls.len(),
{
    if ls.len() == 0 {
        assert(lines(render_lines(ls)) == Seq::<Seq<char>>::empty());
    } else {
        let l0 = ls[0];
        let rest = ls.drop_first();
        assert forall|j: int, k: int|
            0 <= j < rest.len() && 0 <= k < rest[j].len() implies #[trigger] rest[j][k]
            != '\n' by {
            assert(rest[j] == ls[j + 1]);
        }
        lemma_render_lines(rest);
        let r = render_lines(rest);
        let s = render_lines(ls);
        assert(s == l0 + seq!['\n'] + r);
        assert forall|k: int| 0 <= k < l0.len() implies s[k] != '\n' by {
            assert(s[k] == ls[0][k]);
        }
        crate::text::lemma_find_from_is(s, 0, l0.len() as int, '\n');
        assert(s.subrange(0, l0.len() as int) == l0);
        crate::text::lemma_lines_skip(s, l0.len() as int + 1);
        assert(s.skip(l0.len() as int + 1) == r);
        assert(lines(s) == seq![strip_cr(l0)] + lines(r));
        assert(ls.map_values(|l: Seq<char>| strip_cr(l)) == seq![strip_cr(l0)]
            + rest.map_values(|l: Seq<char>| strip_cr(l)));
    }
}

proof fn lemma_parse_strip_cr(l: Seq<char>)
    ensures
        parse_line_spec(strip_cr(l)) == parse_line_spec(l),
{
    if l.len() > 0 && l.last() == '\r' {
        crate::text::lemma_trim_drop_ws_last(l);
    }
}

proof fn lemma_pairs_strip_cr(ls: Seq<Seq<char>>, i: int)
    requires
        0 <= i,
    ensures
        pairs_from(ls.map_values(|l: Seq<char>| strip_cr(l)), i) == pairs_from(ls, i),
    decreases ls.len() - i,
{
    if i < ls.len() {
        lemma_pairs_strip_cr(ls, i + 1);
        lemma_parse_strip_cr(ls[i]);
    }
}

/// The pairs of a set file's text are those of the set lines.
proof fn lemma_pairs_after_set(text: Seq<char>, key: Seq<char>, val: Seq<char>)
    requires
        key_ok(key),
        forall|k: int| 0 <= k < val.len() ==> #[trigger] val[k] != '\n',
    ensures
        pairs_spec(set_val_spec(text, key, val)) == pairs_from(set_lines_spec(lines(text), key, val), 0),
{
    let ls = lines(text);
    crate::text::lemma_lines_no_newline(text, 0);
    let n = setting_line(key, val);
    assert forall|k: int| 0 <= k < n.len() implies #[trigger] n[k] != '\n' by {
        if k < key.len() {
            assert(n[k] == key[k]);
            assert(!is_ws(key[k]));
        } else if k > key.len() {
            assert(n[k] == val[k - key.len() - 1]);
        }
    }
    let sl = set_lines_spec(ls, key, val);
    let i = first_setting_from(ls, key, 0);
    lemma_first_setting(ls, key, 0);
    assert forall|j: int, k: int| 0 <= j < sl.len() && 0 <= k < sl[j].len() implies #[trigger] sl[j][k]
        != '\n' by {
        if (i < ls.len() && j == i) || (i >= ls.len() && j == ls.len()) {
            assert(sl[j] == n);
        } else {
            assert(sl[j] == ls[j]);
            assert(ls[j][k] != '\n');
        }
    }
    lemma_render_lines(sl);
    lemma_pairs_strip_cr(sl, 0);
}

/// `"export "` is not a prefix of a line that starts with `key=`.
proof fn lemma_not_export(line: Seq<char>, key: Seq<char>)
    requires
        key_ok(key),
        has_prefix(line, key + seq!['=']),
    ensures
        !has_prefix(line, "export "@),
{
    reveal_strlit("export ");
    if has_prefix(line, "export "@) {
        if key.len() >= 7 {
            let p = key + seq!['='];
            assert(line.take(p.len() as int)[6] == line[6]);
            assert(p[6] == key[6]);
            assert(line[6] == key[6]);
            assert(!is_ws(key[6]));
            assert(line.take(7)[6] == ' ');
        } else {
            let m = key.len() as int;
            assert(line[m] == (key + seq!['='])[m]);
            assert(line.take(7)[m] == "export "@[m]);
        }
    }
}

/// The key of a line that starts with `key=` is `key`.
proof fn lemma_key_of_setting_prefix(line: Seq<char>, key: Seq<char>)
    requires
        key_ok(key),
        has_prefix(line, key + seq!['=']),
    ensures
        find_from(line, 0, '=') == key.len(),
        trim(line.take(key.len() as int)) == key,
{
    let p = key + seq!['='];
    assert forall|k: int| 0 <= k < key.len() implies line[k] != '=' by {
        assert(line[k] == p[k]);
    }
    assert(line[key.len() as int] == p[key.len() as int]);
    crate::text::lemma_find_from_is(line, 0, key.len() as int, '=');
    assert(line.take(key.len() as int) == key);
    crate::text::lemma_trim_id(key);
}

/// A line that `set_val` takes for `key` holds a pair with key `key`.
#[verifier::rlimit(40)]
proof fn lemma_setting_line_key(l: Seq<char>, key: Seq<char>)
    requires
        key_ok(key),
        line_sets(l, key),
    ensures
        line_key(l) == Some(key),
{
    reveal_strlit("export ");
    let p = key + seq!['='];
    let t = trim_start(l);
    let line = trim(l);
    assert(p.last() == '=');
    if has_prefix(t, "export "@) {
        let body = t.skip(7);
        assert(has_prefix(body, p));
        let q = "export "@ + p;
        assert(t.take(q.len() as int) == q) by {
            assert forall|k: int| 0 <= k < q.len() implies t[k] == q[k] by {
                if k < 7 {
                    assert(t.take(7)[k] == t[k]);
                } else {
                    assert(body.take(p.len() as int)[k - 7] == body[k - 7]);
                }
            }
        }
        assert(q.last() == '=');
        crate::text::lemma_trim_end_keeps_prefix(t, q);
        assert(line.take(7) == "export "@) by {
            assert(line.take(q.len() as int).take(7) == line.take(7));
            assert(q.take(7) == "export "@);
        }
        let b2 = line.skip(7);
        assert(b2.take(p.len() as int) == p) by {
            assert forall|k: int| 0 <= k < p.len() implies b2[k] == p[k] by {
                assert(line.take(q.len() as int)[k + 7] == line[k + 7]);
            }
        }
        lemma_key_of_setting_prefix(b2, key);
        assert(line.take(7)[0] == line[0]);
        assert("export "@[0] == 'e');
        assert(line[0] == 'e');
        assert(find_from(line, 0, '=') < line.len()) by {
            crate::text::lemma_find_from_bounds(line, 0, '=');
            if find_from(line, 0, '=') == line.len() {
                assert(line[7 + key.len() as int] == '=');
            }
        }
    } else {
        crate::text::lemma_trim_end_keeps_prefix(t, p);
        assert(has_prefix(t, p));
        if has_prefix(line, "export "@) {
            crate::text::lemma_trim_end_shorter(t);
            crate::text::lemma_prefix_of_take(t, line.len() as int, "export "@);
        }
        lemma_key_of_setting_prefix(line, key);
        assert(line[0] == key[0]);
    }
}

/// The line `key=val` holds a pair with key `key`.
proof fn lemma_new_line_key(key: Seq<char>, val: Seq<char>)
    requires
        key_ok(key),
    ensures
        line_key(setting_line(key, val)) == Some(key),
        line_sets(setting_line(key, val), key),
{
    let n = setting_line(key, val);
    let p = key + seq!['='];
    assert(n.take(p.len() as int) == p);
    assert(!is_ws(n[0])) by {
        assert(n[0] == key[0]);
    }
    assert(trim_start(n) == n);
    lemma_not_export(n, key);
    lemma_setting_line_key(n, key);
}

/// The line `key=val` holds exactly the pair `(key, val)` for a value that the
/// reader keeps as it is.
proof fn lemma_new_line_pair(key: Seq<char>, val: Seq<char>)
    requires
        key_ok(key),
        value_ok(val),
    ensures
        parse_line_spec(setting_line(key, val)) == Some((key, val)),
{
    let n = setting_line(key, val);
    let p = key + seq!['='];
    assert(n.take(p.len() as int) == p);
    assert(n[0] == key[0]);
    assert(!is_ws(n.last())) by {
        if val.len() > 0 {
            assert(n.last() == val.last());
            if is_ws(val.last()) {
                crate::text::lemma_trim_end_last(val);
            }
        } else {
            assert(n.last() == '=');
        }
    }
    crate::text::lemma_trim_id(n);
    lemma_not_export(n, key);
    lemma_key_of_setting_prefix(n, key);
    assert(n.skip(key.len() as int + 1) == val);
    assert(trim(n.take(key.len() as int)) == key);
}

proof fn lemma_value_after_update(ls: Seq<Seq<char>>, key: Seq<char>, i: int, n: Seq<char>, j: int)
    requires
        0 <= j <= i < ls.len(),
        forall|k: int| j <= k < i ==> line_key(#[trigger] ls[k]) != Some(key),
        line_key(n) == Some(key),
    ensures
        line_value_from(ls.update(i, n), key, j) == line_val(n),
    decreases i - j,
{
    if j < i {
        assert(ls.update(i, n)[j] == ls[j]);
        lemma_value_after_update(ls, key, i, n, j + 1);
    }
}

proof fn lemma_value_after_push(ls: Seq<Seq<char>>, key: Seq<char>, n: Seq<char>, j: int)
    requires
        0 <= j <= ls.len(),
        forall|k: int| j <= k < ls.len() ==> line_key(#[trigger] ls[k]) != Some(key),
        line_key(n) == Some(key),
    ensures
        line_value_from(ls.push(n), key, j) == line_val(n),
    decreases ls.len() - j,
{
    if j < ls.len() {
        assert(ls.push(n)[j] == ls[j]);
        lemma_value_after_push(ls, key, n, j + 1);
    }
}

proof fn lemma_first_setting(ls: Seq<Seq<char>>, key: Seq<char>, i: int)
    requires
        0 <= i,
    ensures
        i <= first_setting_from(ls, key, i) <= ls.len() || i > ls.len(),
        first_setting_from(ls, key, i) < ls.len() ==> line_sets(
            ls[first_setting_from(ls, key, i)],
            key,
        ),
        forall|k: int| i <= k < first_setting_from(ls, key, i) ==> !line_sets(#[trigger] ls[k], key),
    decreases ls.len() - i,
{
    if i < ls.len() && !line_sets(ls[i], key) {
        lemma_first_setting(ls, key, i + 1);
    }
}

/// Law: after the panel sets `key` to `val`, reading the file gives `val` for
/// `key`. It holds for a writable key and a value that the reader keeps as it
/// is, provided that no line before the first one that setting recognises
/// (before the end, when it recognises none) holds a pair for `key` that
/// setting does not recognise (such as `KEY = old`, with a space before `=`).
pub proof fn lemma_get_after_set(text: Seq<char>, key: Seq<char>, val: Seq<char>)
    requires
        key_ok(key),
        value_ok(val),
        forall|j: int|
            0 <= j < first_setting_from(lines(text), key, 0) ==> line_key(#[trigger] lines(text)[j])
                != Some(key),
    ensures
        first_value(pairs_spec(set_val_spec(text, key, val)), key) == Some(val),
{
    let ls = lines(text);
    let n = setting_line(key, val);
    lemma_pairs_after_set(text, key, val);
    lemma_new_line_pair(key, val);
    lemma_first_setting(ls, key, 0);
    let i = first_setting_from(ls, key, 0);
    let sl = set_lines_spec(ls, key, val);
    lemma_pairs_value(sl, key, 0);
    if i < ls.len() {
        lemma_value_after_update(ls, key, i, n, 0);
    } else {
        lemma_value_after_push(ls, key, n, 0);
    }
}

proof fn lemma_other_after_update(ls: Seq<Seq<char>>, key2: Seq<char>, i: int, n: Seq<char>, j: int)
    requires
        0 <= j,
        0 <= i < ls.len(),
        line_key(ls[i]) is Some && line_key(ls[i]) != Some(key2),
        line_key(n) is Some && line_key(n) != Some(key2),
    ensures
        line_value_from(ls.update(i, n), key2, j) == line_value_from(ls, key2, j),
    decreases ls.len() - j,
{
    if j < ls.len() {
        lemma_other_after_update(ls, key2, i, n, j + 1);
    }
}

proof fn lemma_other_after_push(ls: Seq<Seq<char>>, key2: Seq<char>, n: Seq<char>, j: int)
    requires
        0 <= j,
        line_key(n) is Some && line_key(n) != Some(key2),
    ensures
        line_value_from(ls.push(n), key2, j) == line_value_from(ls, key2, j),
    decreases ls.len() + 1 - j,
{
    if j < ls.len() {
        assert(ls.push(n)[j] == ls[j]);
        lemma_other_after_push(ls, key2, n, j + 1);
    } else if j == ls.len() {
        assert(ls.push(n)[j] == n);
        assert(line_value_from(ls.push(n), key2, j + 1) == None::<Seq<char>>);
    }
}

/// Law: setting `key` leaves the value read for every other key as it was.
/// It holds for a writable key and a value without line breaks.
pub proof fn lemma_set_keeps_others(text: Seq<char>, key: Seq<char>, val: Seq<char>, key2: Seq<char>)
    requires
        key_ok(key),
        forall|k: int| 0 <= k < val.len() ==> #[trigger] val[k] != '\n',
        key2 != key,
    ensures
        first_value(pairs_spec(set_val_spec(text, key, val)), key2) == first_value(
            pairs_spec(text),
            key2,
        ),
{
    let ls = lines(text);
    let n = setting_line(key, val);
    lemma_pairs_after_set(text, key, val);
    lemma_new_line_key(key, val);
    lemma_first_setting(ls, key, 0);
    let i = first_setting_from(ls, key, 0);
    let sl = set_lines_spec(ls, key, val);
    lemma_pairs_value(sl, key2, 0);
    lemma_pairs_value(ls, key2, 0);
    if i < ls.len() {
        lemma_setting_line_key(ls[i], key);
        lemma_other_after_update(ls, key2, i, n, 0);
    } else {
        lemma_other_after_push(ls, key2, n, 0);
    }
}

} // verus!

verus! {

/// No quote mark, single or double, anywhere in `s`.
pub open spec fn has_no_quote(s: Seq<char>) -> bool {
    forall|j: int| 0 <= j < s.len() ==> #[trigger] s[j] != '"' && s[j] != '\''
}

/// No comment mark (a space followed by `#`) anywhere in `s`.
pub open spec fn has_no_comment_mark(s: Seq<char>) -> bool {
    forall|j: int| 0 <= j && j + 1 < s.len() ==> !(#[trigger] s[j] == ' ' && s[j + 1] == '#')
}

/// A trimmed string is a contiguous piece of the string.
proof fn lemma_trim_piece(s: Seq<char>) -> (a: int)
    ensures
        0 <= a,
        a + trim(s).len() <= s.len(),
        trim(s) == s.subrange(a, a + trim(s).len()),
{
    crate::text::lemma_trim_start_shorter(s);
    let ts = trim_start(s);
    crate::text::lemma_trim_end_shorter(ts);
    let a = s.len() - ts.len();
    assert(trim(s) =~= s.subrange(a, a + trim(s).len()));
    a
}

proof fn lemma_piece_no_quote(s: Seq<char>, a: int, b: int)
    requires
        has_no_quote(s),
        0 <= a <= b <= s.len(),
    ensures
        has_no_quote(s.subrange(a, b)),
{
    assert forall|j: int| 0 <= j < b - a implies #[trigger] s.subrange(a, b)[j] != '"' && s.subrange(
        a,
        b,
    )[j] != '\'' by {
        assert(s.subrange(a, b)[j] == s[a + j]);
    }
}

proof fn lemma_piece_no_mark(s: Seq<char>, a: int, b: int)
    requires
        has_no_comment_mark(s),
        0 <= a <= b <= s.len(),
    ensures
        has_no_comment_mark(s.subrange(a, b)),
{
    assert forall|j: int| 0 <= j && j + 1 < b - a implies !(#[trigger] s.subrange(a, b)[j] == ' '
        && s.subrange(a, b)[j + 1] == '#') by {
        assert(s.subrange(a, b)[j] == s[a + j]);
        assert(s.subrange(a, b)[j + 1] == s[a + j + 1]);
    }
}

proof fn lemma_find_comment_first(s: Seq<char>, i: int)
    requires
        0 <= i,
    ensures
        i <= find_comment_from(s, i) || find_comment_from(s, i) == s.len(),
        find_comment_from(s, i) <= s.len(),
        find_comment_from(s, i) < s.len() ==> find_comment_from(s, i) + 1 < s.len() && s[find_comment_from(
            s,
            i,
        )] == ' ' && s[find_comment_from(s, i) + 1] == '#',
        forall|j: int| i <= j < find_comment_from(s, i) && j + 1 < s.len() ==> !(#[trigger] s[j] == ' '
            && s[j + 1] == '#'),
    decreases s.len() - i,
{
    if i + 1 < s.len() && !(s[i] == ' ' && s[i + 1] == '#') {
        lemma_find_comment_first(s, i + 1);
    }
}

/// What is read from an unquoted value text has no whitespace at either end
/// and no comment mark.
proof fn lemma_unquoted_value(w: Seq<char>)
    requires
        w == trim(w),
        w.len() == 0 || (w[0] != '"' && w[0] != '\''),
    ensures
        trim(value_spec(w)) == value_spec(w),
        has_no_comment_mark(value_spec(w)),
{
    lemma_find_comment_first(w, 0);
    let c = find_comment_from(w, 0);
    if c < w.len() {
        let h = w.take(c);
        assert(has_no_comment_mark(h)) by {
            assert forall|j: int| 0 <= j && j + 1 < h.len() implies !(#[trigger] h[j] == ' ' && h[j
                + 1] == '#') by {
                assert(h[j] == w[j] && h[j + 1] == w[j + 1]);
            }
        }
        crate::text::lemma_trim_idempotent(h);
        let a = lemma_trim_piece(h);
        lemma_piece_no_mark(h, a, a + trim(h).len());
    }
}

/// Law: on a line without quote marks, the key and the value read from it
/// have no whitespace at either end, and no ` #` comment is left in the
/// value. On any line the key read has no whitespace at either end.
pub proof fn lemma_line_pair_trimmed(raw: Seq<char>)
    ensures
        parse_line_spec(raw) matches Some((k, v)) ==> trim(k) == k && (has_no_quote(raw) ==> trim(v)
            == v && has_no_comment_mark(v)),
{
    if parse_line_spec(raw) is Some {
        let line = trim(raw);
        let body = if has_prefix(line, "export "@) {
            line.skip("export "@.len() as int)
        } else {
            line
        };
        let e = find_from(body, 0, '=');
        crate::text::lemma_find_from_bounds(body, 0, '=');
        crate::text::lemma_trim_idempotent(body.take(e));
        let w = trim(body.skip(e + 1));
        crate::text::lemma_trim_idempotent(body.skip(e + 1));
        if has_no_quote(raw) {
            let a = lemma_trim_piece(raw);
            lemma_piece_no_quote(raw, a, a + line.len());
            assert(line == raw.subrange(a, a + line.len()));
            let p: int = if has_prefix(line, "export "@) {
                "export "@.len() as int
            } else {
                0
            };
            assert(body =~= line.subrange(p, line.len() as int));
            lemma_piece_no_quote(line, p, line.len() as int);
            assert(body.skip(e + 1) =~= body.subrange(e + 1, body.len() as int));
            lemma_piece_no_quote(body, e + 1, body.len() as int);
            let r = body.skip(e + 1);
            let b = lemma_trim_piece(r);
            lemma_piece_no_quote(r, b, b + w.len());
            if w.len() > 0 {
                assert(w[0] != '"' && w[0] != '\'');
            }
            lemma_unquoted_value(w);
        }
    }
}

/// A pair whose key and value have no whitespace at either end and whose
/// value holds no comment mark.
pub open spec fn is_clean_pair(p: (Seq<char>, Seq<char>)) -> bool {
    trim(p.0) == p.0 && trim(p.1) == p.1 && has_no_comment_mark(p.1)
}

proof fn lemma_lines_no_quote(s: Seq<char>, i: int)
    requires
        has_no_quote(s),
        0 <= i,
    ensures
        forall|t: int| 0 <= t < lines_from(s, i).len() ==> has_no_quote(#[trigger] lines_from(s, i)[t]),
    decreases s.len() - i,
{
    if i < s.len() {
        crate::text::lemma_find_from_bounds(s, i, '\n');
        let e = find_from(s, i, '\n');
        lemma_piece_no_quote(s, i, e);
        let raw = s.subrange(i, e);
        if e < s.len() {
            lemma_lines_no_quote(s, e + 1);
            if raw.len() > 0 && raw.last() == '\r' {
                lemma_piece_no_quote(raw, 0, raw.len() - 1);
                assert(raw.drop_last() =~= raw.subrange(0, raw.len() - 1));
            }
            let rest = lines_from(s, e + 1);
            assert forall|t: int| 0 <= t < lines_from(s, i).len() implies has_no_quote(
                #[trigger] lines_from(s, i)[t],
            ) by {
                if t > 0 {
                    assert(lines_from(s, i)[t] == rest[t - 1]);
                }
            }
        }
    }
}

proof fn lemma_pairs_clean(ls: Seq<Seq<char>>, i: int)
    requires
        forall|t: int| 0 <= t < ls.len() ==> has_no_quote(#[trigger] ls[t]),
        0 <= i,
    ensures
        forall|t: int| 0 <= t < pairs_from(ls, i).len() ==> is_clean_pair(#[trigger] pairs_from(ls, i)[t]),
    decreases ls.len() - i,
{
    if i < ls.len() {
        lemma_pairs_clean(ls, i + 1);
        lemma_line_pair_trimmed(ls[i]);
        let rest = pairs_from(ls, i + 1);
        match parse_line_spec(ls[i]) {
            Some(p) => {
                assert forall|t: int| 0 <= t < pairs_from(ls, i).len() implies is_clean_pair(
                    #[trigger] pairs_from(ls, i)[t],
                ) by {
                    if t > 0 {
                        assert(pairs_from(ls, i)[t] == rest[t - 1]);
                    }
                }
            },
            None => {},
        }
    }
}

proof fn lemma_first_value_clean(ps: Seq<(Seq<char>, Seq<char>)>, key: Seq<char>)
    requires
        forall|t: int| 0 <= t < ps.len() ==> is_clean_pair(#[trigger] ps[t]),
    ensures
        first_value(ps, key) matches Some(v) ==> trim(v) == v && has_no_comment_mark(v),
    decreases ps.len(),
{
    if ps.len() > 0 {
        assert(is_clean_pair(ps[0]));
        assert forall|t: int| 0 <= t < ps.drop_first().len() implies is_clean_pair(
            #[trigger] ps.drop_first()[t],
        ) by {
            assert(ps.drop_first()[t] == ps[t + 1]);
        }
        lemma_first_value_clean(ps.drop_first(), key);
    }
}

/// Law: in a file without quote marks, every key and value read has no
/// whitespace at either end and no value keeps a ` #` comment; so the value
/// looked up for any key is its own trim.
pub proof fn lemma_read_values_trimmed(text: Seq<char>, key: Seq<char>)
    requires
        has_no_quote(text),
    ensures
        forall|t: int| 0 <= t < pairs_spec(text).len() ==> is_clean_pair(#[trigger] pairs_spec(text)[t]),
        first_value(pairs_spec(text), key) matches Some(v) ==> trim(v) == v && has_no_comment_mark(v),
{
    lemma_lines_no_quote(text, 0);
    lemma_pairs_clean(lines(text), 0);
    lemma_first_value_clean(pairs_spec(text), key);
}

/// Law: a value opening with a quote reads as the text between that quote
/// and the next one of the same kind (or the end of the value): it holds no
/// such quote, and only that quote or the end follows it.
pub proof fn lemma_quoted_value(w: Seq<char>)
    requires
        w.len() > 0,
        w[0] == '"' || w[0] == '\'',
    ensures
        1 + value_spec(w).len() <= w.len(),
        value_spec(w) == w.subrange(1, 1 + value_spec(w).len() as int),
        forall|j: int| 0 <= j < value_spec(w).len() ==> #[trigger] value_spec(w)[j] != w[0],
        1 + value_spec(w).len() == w.len() || w[1 + value_spec(w).len() as int] == w[0],
{
    let st = w.drop_first();
    crate::text::lemma_find_from_bounds(st, 0, w[0]);
    let e = find_from(st, 0, w[0]);
    assert(value_spec(w) == st.take(e));
    assert(st.take(e) =~= w.subrange(1, 1 + e));
    if e < st.len() {
        assert(st[e] == w[1 + e]);
    }
}

/// Law: `export ` before a setting changes nothing that is read from it.
pub proof fn lemma_export_ignored(l: Seq<char>)
    requires
        l == trim(l),
        l.len() > 0,
        l[0] != '#',
        !has_prefix(l, "export "@),
    ensures
        parse_line_spec("export "@ + l) == parse_line_spec(l),
{
    reveal_strlit("export ");
    let ex = "export "@;
    let s = ex + l;
    crate::text::lemma_trim_idempotent(l);
    assert(s[0] == 'e');
    assert(s.last() == l.last());
    crate::text::lemma_trim_id(s);
    assert(has_prefix(s, ex)) by {
        assert(s.take(7) =~= ex);
    }
    assert(s.skip(7) =~= l);
    crate::text::lemma_find_from_bounds(s, 7, '=');
    crate::text::lemma_find_from_skip(s, 7, 0, '=');
    let e = find_from(s, 7, '=');
    assert forall|k: int| 0 <= k < e implies s[k] != '=' by {
        if k < 7 {
            assert(s[k] == ex[k]);
        }
    }
    crate::text::lemma_find_from_is(s, 0, e, '=');
}

proof fn lemma_trim_end_drops_ws(s: Seq<char>)
    ensures
        forall|j: int| trim_end(s).len() <= j < s.len() ==> is_ws(#[trigger] s[j]),
    decreases s.len(),
{
    if s.len() > 0 && is_ws(s.last()) {
        lemma_trim_end_drops_ws(s.drop_last());
        assert forall|j: int| trim_end(s).len() <= j < s.len() implies is_ws(#[trigger] s[j]) by {
            if j < s.len() - 1 {
                assert(s[j] == s.drop_last()[j]);
            }
        }
    }
}

/// Law: an unquoted value is read whole when no comment mark (` #`) is in
/// it. Otherwise what is read is the part before the first comment mark with
/// the whitespace before the mark left off: a prefix of the value text,
/// followed there by only whitespace up to the first ` #`.
pub proof fn lemma_unquoted_value_kept(w: Seq<char>)
    requires
        w == trim(w),
        w.len() == 0 || (w[0] != '"' && w[0] != '\''),
    ensures
        has_no_comment_mark(w) ==> value_spec(w) == w,
        has_prefix(w, value_spec(w)),
        !has_no_comment_mark(w) ==> exists|c: int|
            value_spec(w).len() <= c && c + 1 < w.len() && w[c] == ' ' && w[c + 1] == '#'
                && has_no_comment_mark(#[trigger] w.take(c + 1))
                && forall|j: int| value_spec(w).len() <= j < c ==> is_ws(#[trigger] w[j]),
{
    lemma_find_comment_first(w, 0);
    let c = find_comment_from(w, 0);
    if c < w.len() {
        assert(c + 1 < w.len() && w[c] == ' ' && w[c + 1] == '#');
        let h = w.take(c);
        crate::text::lemma_trim_idempotent(w);
        assert(c > 0);
        assert(!is_ws(h[0]));
        assert(trim_start(h) == h);
        crate::text::lemma_trim_end_shorter(h);
        lemma_trim_end_drops_ws(h);
        let r = value_spec(w);
        assert(r == trim_end(h));
        assert(r =~= w.take(r.len() as int));
        assert forall|j: int| r.len() <= j < c implies is_ws(#[trigger] w[j]) by {
            assert(w[j] == h[j]);
        }
        assert(has_no_comment_mark(w.take(c + 1))) by {
            let t = w.take(c + 1);
            assert forall|j: int| 0 <= j && j + 1 < t.len() implies !(#[trigger] t[j] == ' ' && t[j
                + 1] == '#') by {
                assert(t[j] == w[j] && t[j + 1] == w[j + 1]);
            }
        }
        assert(!has_no_comment_mark(w));
    } else {
        assert(w.take(w.len() as int) =~= w);
        assert(has_no_comment_mark(w));
    }
}

} // verus!
