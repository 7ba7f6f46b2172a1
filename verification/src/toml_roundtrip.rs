use vstd::prelude::*;
use crate::kv::{lookup, insert, lemma_insert_lookup, lemma_lookup_first, lemma_lookup_none};
use crate::text::{
    trim, trim_start, trim_end, is_ws, is_digit, split, split_acc, escaped,
    unsigned_body, i64_text, skip_sign, skip_digits, lemma_skip_digits,
    lemma_split_no_sep, lemma_trim_start_first, lemma_trim_end_prefix, lemma_find_char_first,
};
use crate::fsutil::{
    toml_line, toml_lines, toml_entries, quoted, key_split, toml_value_line, add_line, toml_groups,
    group_header, group_lines, joined_lines, toml_text, strip_quotes, toml_number, Groups,
};

verus! {

// What a flat TOML file written from entries reads back as.

pub type Entries = Seq<(Seq<char>, Seq<char>)>;

/// `c` does not occur in `s`.
pub open spec fn has_no(s: Seq<char>, c: char) -> bool {
    forall|i: int| 0 <= i < s.len() ==> s[i] != c
}

/// A key name the reader gives back as written: not empty, without surrounding whitespace,
/// not starting a comment, with no `=` and no line break.
pub open spec fn toml_name_ok(n: Seq<char>) -> bool {
    &&& n.len() > 0
    &&& trim(n) == n
    &&& n[0] != '#'
    &&& has_no(n, '=')
    &&& has_no(n, '\n')
}

/// A section name the reader gives back as written: without surrounding whitespace and with
/// no line break.
pub open spec fn toml_section_ok(s: Seq<char>) -> bool {
    trim(s) == s && has_no(s, '\n')
}

/// A key whose section (the part before its first `.`, when not empty) and name read back.
pub open spec fn toml_key_ok(k: Seq<char>) -> bool {
    toml_section_ok(key_split(k).0) && toml_name_ok(key_split(k).1)
}

/// A value that reads back as written: no line break, double quote or backslash.
pub open spec fn toml_value_ok(v: Seq<char>) -> bool {
    has_no(v, '\n') && has_no(v, '"') && has_no(v, '\\')
}

/// No key occurs twice.
pub open spec fn distinct_keys(data: Entries) -> bool {
    forall|i: int, j: int| 0 <= i < j < data.len() ==> data[i].0 != data[j].0
}

/// The key the reader gives a name under a section.
pub open spec fn full_key(sec: Seq<char>, name: Seq<char>) -> Seq<char> {
    if sec.len() == 0 {
        name
    } else {
        sec + "."@ + name
    }
}

proof fn lemma_find_char_found(s: Seq<char>, c: char)
    ensures
        match crate::text::find_char(s, c) {
            Some(i) => 0 <= i < s.len() && s[i] == c,
            None => true,
        },
    decreases s.len(),
{
    if s.len() > 0 && s[0] != c {
        lemma_find_char_found(s.drop_first(), c);
    }
}

proof fn lemma_full_key_split(k: Seq<char>)
    ensures
        full_key(key_split(k).0, key_split(k).1) == k,
{
    reveal_strlit(".");
    match crate::text::find_char(k, '.') {
        Some(i) => {
            if i > 0 {
                lemma_find_char_found(k, '.');
                assert(k.take(i) + "."@ + k.skip(i + 1) =~= k);
            }
        },
        None => {},
    }
}

proof fn lemma_trim_fixed(s: Seq<char>)
    requires
        s.len() > 0,
        !is_ws(s[0]),
        !is_ws(s.last()),
    ensures
        trim(s) == s,
{
    assert(trim_start(s) == s);
    assert(trim_end(s) == s);
}

proof fn lemma_trimmed_edges(s: Seq<char>)
    requires
        s.len() > 0,
        trim(s) == s,
    ensures
        !is_ws(s[0]),
        !is_ws(s.last()),
{
    let ts = trim_start(s);
    lemma_trim_start_first(s);
    lemma_trim_end_prefix(ts);
    assert(s == ts.take(s.len() as int));
    assert(s[0] == ts[0]);
}

proof fn lemma_split_acc_sep(cur: Seq<char>, r: Seq<char>, t: Seq<char>, c: char)
    ensures
        split_acc(cur, r + seq![c] + t, c) == split_acc(cur, r, c) + split_acc(
            Seq::empty(),
            t,
            c,
        ),
    decreases r.len(),
{
    let x = r + seq![c] + t;
    if r.len() == 0 {
        assert(x[0] == c);
        assert(x.drop_first() =~= t);
    } else {
        assert(x[0] == r[0]);
        assert(x.drop_first() =~= r.drop_first() + seq![c] + t);
        if r[0] == c {
            lemma_split_acc_sep(Seq::empty(), r.drop_first(), t, c);
            let a = split_acc(Seq::<char>::empty(), r.drop_first(), c);
            let b = split_acc(Seq::<char>::empty(), t, c);
            assert(seq![cur] + (a + b) =~= (seq![cur] + a) + b);
        } else {
            lemma_split_acc_sep(cur.push(r[0]), r.drop_first(), t, c);
        }
    }
}

proof fn lemma_split_joined(ls: Seq<Seq<char>>, l: Seq<char>)
    requires
        forall|i: int| 0 <= i < ls.len() ==> has_no(#[trigger] ls[i], '\n'),
        has_no(l, '\n'),
    ensures
        split(joined_lines(ls) + l, '\n') == ls.push(l),
    decreases ls.len(),
{
    lemma_split_no_sep(l, '\n');
    if ls.len() == 0 {
        assert(joined_lines(ls) + l =~= l);
        assert(seq![l] =~= ls.push(l));
    } else {
        let ls2 = ls.drop_last();
        let m = ls.last();
        assert(has_no(ls[ls.len() - 1], '\n'));
        lemma_split_joined(ls2, m);
        reveal_strlit("\n");
        assert(joined_lines(ls) + l =~= (joined_lines(ls2) + m) + seq!['\n'] + l);
        lemma_split_acc_sep(Seq::empty(), joined_lines(ls2) + m, l, '\n');
        assert(ls2.push(m) + seq![l] =~= ls.push(l));
    }
}

proof fn lemma_toml_lines_concat(
    st: (Seq<char>, Entries),
    a: Seq<Seq<char>>,
    b: Seq<Seq<char>>,
)
    ensures
        toml_lines(st, a + b) == toml_lines(toml_lines(st, a), b),
    decreases a.len(),
{
    if a.len() == 0 {
        assert(a + b =~= b);
    } else {
        assert((a + b)[0] == a[0]);
        assert((a + b).drop_first() =~= a.drop_first() + b);
        lemma_toml_lines_concat(toml_line(st, a[0]), a.drop_first(), b);
    }
}

proof fn lemma_toml_lines_one(st: (Seq<char>, Entries), l: Seq<char>)
    ensures
        toml_lines(st, seq![l]) == toml_line(st, l),
{
    assert(seq![l].drop_first() =~= Seq::<Seq<char>>::empty());
    assert(toml_lines(toml_line(st, l), Seq::<Seq<char>>::empty()) == toml_line(st, l));
}

proof fn lemma_escaped_plain(v: Seq<char>)
    requires
        has_no(v, '"'),
        has_no(v, '\\'),
    ensures
        escaped(v) == v,
    decreases v.len(),
{
    if v.len() > 0 {
        lemma_escaped_plain(v.drop_last());
        assert(v[v.len() - 1] != '"');
        assert(v[v.len() - 1] != '\\');
        assert(v.drop_last() + seq![v.last()] =~= v);
    }
}

proof fn lemma_number_edges(v: Seq<char>)
    requires
        toml_number(v),
    ensures
        v.len() > 0,
        is_digit(v[0]) || v[0] == '+' || v[0] == '-' || v[0] == '.',
        is_digit(v.last()) || v.last() == '.',
{
    if i64_text(v) {
        if v[0] == '-' {
            let d = v.drop_first();
            assert(is_digit(d[d.len() - 1]));
        } else {
            let d = unsigned_body(v);
            assert(is_digit(d[0]));
            assert(is_digit(d[d.len() - 1]));
        }
    } else {
        let a = skip_sign(v, 0);
        lemma_skip_digits(v, a);
        let b = skip_digits(v, a);
        let dot = b < v.len() && v[b] == '.';
        let c = if dot {
            b + 1
        } else {
            b
        };
        lemma_skip_digits(v, c);
        let d = skip_digits(v, c);
        if d == v.len() {
            if d > c {
                assert(is_digit(v[d - 1]));
            } else if !dot {
                assert(is_digit(v[b - 1]));
            }
        } else {
            let e = skip_sign(v, d + 1);
            lemma_skip_digits(v, e);
            assert(is_digit(v[v.len() - 1]));
        }
        if a == 0 && b == 0 && !dot {
            assert(false);
        }
    }
}

proof fn lemma_quoted(v: Seq<char>)
    requires
        toml_value_ok(v),
    ensures
        quoted(v).len() > 0,
        !is_ws(quoted(v)[0]),
        !is_ws(quoted(v).last()),
        quoted(v).last() != ']',
        strip_quotes(quoted(v)) == v,
        has_no(quoted(v), '\n'),
{
    reveal_strlit("true");
    reveal_strlit("false");
    if v == "true"@ || v == "false"@ {
    } else if toml_number(v) {
        lemma_number_edges(v);
    } else {
        lemma_escaped_plain(v);
        let q = seq!['"'] + v + seq!['"'];
        assert(quoted(v) == q);
        assert(q.subrange(1, q.len() - 1) =~= v);
        assert forall|i: int| 0 <= i < q.len() implies q[i] != '\n' by {
            if 0 < i < q.len() - 1 {
                assert(q[i] == v[i - 1]);
            }
        }
    }
}

proof fn lemma_trim_push_space(n: Seq<char>)
    requires
        n.len() > 0,
        trim(n) == n,
    ensures
        trim(n.push(' ')) == n,
{
    lemma_trimmed_edges(n);
    let s = n.push(' ');
    assert(trim_start(s) == s);
    assert(s.drop_last() =~= n);
    assert(trim_end(n) == n);
    assert(trim_end(s) == trim_end(n));
}

proof fn lemma_trim_space_first(q: Seq<char>)
    requires
        q.len() > 0,
        !is_ws(q[0]),
        !is_ws(q.last()),
    ensures
        trim(seq![' '] + q) == q,
{
    let s = seq![' '] + q;
    assert(s.drop_first() =~= q);
    assert(trim_start(q) == q);
    assert(trim_start(s) == q);
    assert(trim_end(q) == q);
}

/// Reading the line written for a name and a value sets the name's key to the value.
proof fn lemma_value_line(st: (Seq<char>, Entries), name: Seq<char>, v: Seq<char>)
    requires
        toml_name_ok(name),
        toml_value_ok(v),
    ensures
        toml_line(st, toml_value_line(name, v)) == (st.0, insert(st.1, full_key(st.0, name), v)),
        has_no(toml_value_line(name, v), '\n'),
{
    reveal_strlit(" = ");
    let q = quoted(v);
    lemma_quoted(v);
    lemma_trimmed_edges(name);
    let l = toml_value_line(name, v);
    let n: int = name.len() as int;
    assert(l =~= name + seq![' ', '=', ' '] + q);
    assert(l[0] == name[0]);
    assert(l.last() == q.last());
    lemma_trim_fixed(l);
    assert(l[n + 1] == '=');
    assert forall|j: int| 0 <= j < n + 1 implies l[j] != '=' by {
        if j < n {
            assert(l[j] == name[j]);
        }
    }
    lemma_find_char_first(l, '=', n + 1);
    assert(l.take(n + 1) =~= name.push(' '));
    lemma_trim_push_space(name);
    assert(l.skip(n + 2) =~= seq![' '] + q);
    lemma_trim_space_first(q);
    assert forall|i: int| 0 <= i < l.len() implies l[i] != '\n' by {
        if i < n {
            assert(l[i] == name[i]);
        } else if i >= n + 3 {
            assert(l[i] == q[i - n - 3]);
        }
    }
}

/// Reading a section header opens that section.
proof fn lemma_header_line(st: (Seq<char>, Entries), sec: Seq<char>)
    requires
        toml_section_ok(sec),
    ensures
        toml_line(st, "["@ + sec + "]"@) == (sec, st.1),
        has_no("["@ + sec + "]"@, '\n'),
{
    reveal_strlit("[");
    reveal_strlit("]");
    let h = "["@ + sec + "]"@;
    assert(h =~= seq!['['] + sec + seq![']']);
    lemma_trim_fixed(h);
    assert(h.subrange(1, h.len() - 1) =~= sec);
    assert forall|i: int| 0 <= i < h.len() implies h[i] != '\n' by {
        if 0 < i < h.len() - 1 {
            assert(h[i] == sec[i - 1]);
        }
    }
}

proof fn lemma_blank_line(st: (Seq<char>, Entries))
    ensures
        toml_line(st, Seq::empty()) == st,
{
    assert(trim_start(Seq::<char>::empty()) == Seq::<char>::empty());
    assert(trim_end(Seq::<char>::empty()) == Seq::<char>::empty());
}

/// Entries grouped by section as the writer groups them, each name with its value.
pub type KvGroups = Seq<(Seq<char>, Entries)>;

spec fn add_kv_into(g: KvGroups, sec: Seq<char>, p: (Seq<char>, Seq<char>)) -> KvGroups
    decreases g.len(),
{
    if g.len() == 0 {
        seq![(sec, seq![p])]
    } else if g[0].0 == sec {
        g.update(0, (sec, g[0].1.push(p)))
    } else {
        seq![g[0]] + add_kv_into(g.drop_first(), sec, p)
    }
}

/// The writer's grouping: a new unnamed group goes first.
spec fn add_kv(g: KvGroups, sec: Seq<char>, p: (Seq<char>, Seq<char>)) -> KvGroups {
    if sec.len() == 0 && !(g.len() > 0 && g[0].0.len() == 0) {
        seq![(sec, seq![p])] + g
    } else {
        add_kv_into(g, sec, p)
    }
}

spec fn kv_groups(data: Entries) -> KvGroups
    decreases data.len(),
{
    if data.len() == 0 {
        Seq::empty()
    } else {
        let e = data.last();
        let ks = key_split(e.0);
        add_kv(kv_groups(data.drop_last()), ks.0, (ks.1, e.1))
    }
}

spec fn lines_of(ps: Entries) -> Seq<Seq<char>> {
    Seq::new(ps.len(), |j: int| toml_value_line(ps[j].0, ps[j].1))
}

spec fn rendered(g: KvGroups) -> Groups {
    Seq::new(g.len(), |i: int| (g[i].0, lines_of(g[i].1)))
}

proof fn lemma_render_add(g: KvGroups, sec: Seq<char>, p: (Seq<char>, Seq<char>))
    ensures
        rendered(add_kv_into(g, sec, p)) == add_line(rendered(g), sec, toml_value_line(p.0, p.1)),
    decreases g.len(),
{
    let line = toml_value_line(p.0, p.1);
    let r = rendered(g);
    if g.len() == 0 {
        assert(lines_of(seq![p]) =~= seq![line]);
        assert(rendered(add_kv_into(g, sec, p)) =~= seq![(sec, seq![line])]);
    } else if g[0].0 == sec {
        assert(lines_of(g[0].1.push(p)) =~= lines_of(g[0].1).push(line));
        assert(rendered(add_kv_into(g, sec, p)) =~= r.update(0, (sec, r[0].1.push(line))));
    } else {
        lemma_render_add(g.drop_first(), sec, p);
        assert(r.drop_first() =~= rendered(g.drop_first()));
        assert(rendered(add_kv_into(g, sec, p)) =~= seq![r[0]] + rendered(
            add_kv_into(g.drop_first(), sec, p),
        ));
    }
}

proof fn lemma_groups_rendered(data: Entries)
    ensures
        toml_groups(data) == rendered(kv_groups(data)),
    decreases data.len(),
{
    if data.len() == 0 {
        assert(rendered(kv_groups(data)) =~= Seq::<(Seq<char>, Seq<Seq<char>>)>::empty());
    } else {
        lemma_groups_rendered(data.drop_last());
        let e = data.last();
        let ks = key_split(e.0);
        lemma_render_entry(kv_groups(data.drop_last()), ks.0, (ks.1, e.1));
    }
}

proof fn lemma_render_entry(g: KvGroups, sec: Seq<char>, p: (Seq<char>, Seq<char>))
    ensures
        rendered(add_kv(g, sec, p)) == crate::fsutil::add_entry_line(
            rendered(g),
            sec,
            toml_value_line(p.0, p.1),
        ),
{
    let line = toml_value_line(p.0, p.1);
    if sec.len() == 0 && !(g.len() > 0 && g[0].0.len() == 0) {
        assert(lines_of(seq![p]) =~= seq![line]);
        assert(rendered(seq![(sec, seq![p])] + g) =~= seq![(sec, seq![line])] + rendered(g));
    } else {
        lemma_render_add(g, sec, p);
    }
}

/// The entries a group gives: its names under its section.
spec fn fulls(sec: Seq<char>, ps: Entries) -> Entries {
    Seq::new(ps.len(), |j: int| (full_key(sec, ps[j].0), ps[j].1))
}

/// The entries of all groups, in the order they are written.
spec fn flat(g: KvGroups) -> Entries
    decreases g.len(),
{
    if g.len() == 0 {
        Seq::empty()
    } else {
        flat(g.drop_last()) + fulls(g.last().0, g.last().1)
    }
}

/// `e` after inserting the entries of `f` one after another.
spec fn inserted(e: Entries, f: Entries) -> Entries
    decreases f.len(),
{
    if f.len() == 0 {
        e
    } else {
        insert(inserted(e, f.drop_last()), f.last().0, f.last().1)
    }
}

proof fn lemma_inserted_concat(e: Entries, a: Entries, b: Entries)
    ensures
        inserted(e, a + b) == inserted(inserted(e, a), b),
    decreases b.len(),
{
    if b.len() == 0 {
        assert(a + b =~= a);
    } else {
        assert((a + b).drop_last() =~= a + b.drop_last());
        assert((a + b).last() == b.last());
        lemma_inserted_concat(e, a, b.drop_last());
    }
}

proof fn lemma_flat_concat(a: KvGroups, b: KvGroups)
    ensures
        flat(a + b) == flat(a) + flat(b),
    decreases b.len(),
{
    if b.len() == 0 {
        assert(a + b =~= a);
        assert(flat(a) + flat(b) =~= flat(a));
    } else {
        assert((a + b).drop_last() =~= a + b.drop_last());
        assert((a + b).last() == b.last());
        lemma_flat_concat(a, b.drop_last());
        assert(flat(a) + flat(b.drop_last()) + fulls(b.last().0, b.last().1) =~= flat(a) + (flat(
            b.drop_last(),
        ) + fulls(b.last().0, b.last().1)));
    }
}

/// Names and values that read back, under sections that read back.
spec fn groups_ok(g: KvGroups) -> bool {
    forall|i: int|
        0 <= i < g.len() ==> toml_section_ok(#[trigger] g[i].0) && forall|j: int|
            0 <= j < g[i].1.len() ==> toml_name_ok(#[trigger] g[i].1[j].0) && toml_value_ok(
                g[i].1[j].1,
            )
}

proof fn lemma_read_pairs(st: (Seq<char>, Entries), ps: Entries)
    requires
        forall|j: int|
            0 <= j < ps.len() ==> toml_name_ok(#[trigger] ps[j].0) && toml_value_ok(ps[j].1),
    ensures
        toml_lines(st, lines_of(ps)) == (st.0, inserted(st.1, fulls(st.0, ps))),
        forall|j: int| 0 <= j < ps.len() ==> has_no(#[trigger] lines_of(ps)[j], '\n'),
    decreases ps.len(),
{
    if ps.len() == 0 {
        assert(lines_of(ps) =~= Seq::<Seq<char>>::empty());
        assert(fulls(st.0, ps) =~= Seq::<(Seq<char>, Seq<char>)>::empty());
    } else {
        let p2 = ps.drop_last();
        let last = ps.last();
        assert(toml_name_ok(ps[ps.len() - 1].0));
        lemma_read_pairs(st, p2);
        assert(lines_of(ps) =~= lines_of(p2) + seq![toml_value_line(last.0, last.1)]);
        lemma_toml_lines_concat(st, lines_of(p2), seq![toml_value_line(last.0, last.1)]);
        let st1 = (st.0, inserted(st.1, fulls(st.0, p2)));
        lemma_toml_lines_one(st1, toml_value_line(last.0, last.1));
        lemma_value_line(st1, last.0, last.1);
        assert(fulls(st.0, ps).drop_last() =~= fulls(st.0, p2));
        assert forall|j: int| 0 <= j < ps.len() implies has_no(#[trigger] lines_of(ps)[j], '\n') by {
            if j < ps.len() - 1 {
                assert(lines_of(ps)[j] == lines_of(p2)[j]);
            }
        }
    }
}

spec fn all_plain(ls: Seq<Seq<char>>) -> bool {
    forall|i: int| 0 <= i < ls.len() ==> has_no(#[trigger] ls[i], '\n')
}

proof fn lemma_all_plain_concat(a: Seq<Seq<char>>, b: Seq<Seq<char>>)
    requires
        all_plain(a),
        all_plain(b),
    ensures
        all_plain(a + b),
{
    assert forall|i: int| 0 <= i < (a + b).len() implies has_no(#[trigger] (a + b)[i], '\n') by {
        if i < a.len() {
            assert((a + b)[i] == a[i]);
        } else {
            assert((a + b)[i] == b[i - a.len()]);
        }
    }
}

/// Reading the written groups from the start inserts their entries in order; the section in
/// force at the end is the last group's.
proof fn lemma_read_groups(e: Entries, g: KvGroups)
    requires
        groups_ok(g),
        forall|i: int| 0 < i < g.len() ==> (#[trigger] g[i].0).len() > 0,
    ensures
        toml_lines((Seq::empty(), e), group_lines(rendered(g))) == (
            if g.len() == 0 {
                Seq::empty()
            } else {
                g.last().0
            },
            inserted(e, flat(g)),
        ),
        all_plain(group_lines(rendered(g))),
    decreases g.len(),
{
    let init: (Seq<char>, Entries) = (Seq::empty(), e);
    let r = rendered(g);
    if g.len() == 0 {
        assert(r =~= Seq::<(Seq<char>, Seq<Seq<char>>)>::empty());
    } else {
        let g2 = g.drop_last();
        let sec = g.last().0;
        let ps = g.last().1;
        assert forall|i: int| 0 <= i < g2.len() implies #[trigger] g2[i] == g[i] by {}
        assert(groups_ok(g2)) by {
            assert forall|i: int| 0 <= i < g2.len() implies toml_section_ok(#[trigger] g2[i].0)
                && forall|j: int|
                0 <= j < g2[i].1.len() ==> toml_name_ok(#[trigger] g2[i].1[j].0) && toml_value_ok(
                    g2[i].1[j].1,
                ) by {
                assert(g2[i] == g[i]);
                assert(toml_section_ok(g[i].0));
            }
        }
        assert forall|i: int| 0 < i < g2.len() implies (#[trigger] g2[i].0).len() > 0 by {
            assert(g2[i] == g[i]);
            assert(g[i].0.len() > 0);
        }
        lemma_read_groups(e, g2);
        assert(r.drop_last() =~= rendered(g2));
        assert(r.last() == (sec, lines_of(ps)));
        let a = group_lines(rendered(g2));
        let h = group_header(sec);
        let l = lines_of(ps);
        assert(group_lines(r) == a + h + l);
        let st1 = toml_lines(init, a);
        assert(toml_section_ok(g[g.len() - 1].0));
        assert(forall|j: int|
            0 <= j < ps.len() ==> toml_name_ok(#[trigger] ps[j].0) && toml_value_ok(ps[j].1)) by {
            assert(toml_section_ok(g[g.len() - 1].0));
        }
        lemma_toml_lines_concat(init, a + h, l);
        lemma_toml_lines_concat(init, a, h);
        let st2 = toml_lines(st1, h);
        if sec.len() > 0 {
            reveal_strlit("[");
            reveal_strlit("]");
            let hl = "["@ + sec + "]"@;
            assert(h =~= seq![Seq::<char>::empty()] + seq![hl]);
            lemma_toml_lines_concat(st1, seq![Seq::<char>::empty()], seq![hl]);
            lemma_toml_lines_one(st1, Seq::<char>::empty());
            lemma_blank_line(st1);
            lemma_toml_lines_one(st1, hl);
            lemma_header_line(st1, sec);
            assert(st2 == (sec, st1.1));
            assert(all_plain(h)) by {
                assert(has_no(h[0], '\n'));
                assert(has_no(h[1], '\n'));
            }
        } else {
            assert(g.len() == 1);
            assert(sec =~= Seq::<char>::empty());
            assert(st2 == st1);
            assert(all_plain(h));
        }
        lemma_read_pairs(st2, ps);
        lemma_inserted_concat(e, flat(g2), fulls(sec, ps));
        lemma_all_plain_concat(a, h);
        lemma_all_plain_concat(a + h, l);
    }
}

proof fn lemma_add_kv_shape(g: KvGroups, sec: Seq<char>, p: (Seq<char>, Seq<char>))
    ensures
        add_kv_into(g, sec, p).len() == g.len() || add_kv_into(g, sec, p).len() == g.len() + 1,
        forall|i: int| 0 <= i < g.len() ==> #[trigger] add_kv_into(g, sec, p)[i].0 == g[i].0,
        add_kv_into(g, sec, p).len() == g.len() + 1 ==> add_kv_into(g, sec, p)[g.len() as int].0 == sec
            && forall|i: int| 0 <= i < g.len() ==> #[trigger] g[i].0 != sec,
    decreases g.len(),
{
    let r = add_kv_into(g, sec, p);
    if g.len() > 0 && g[0].0 != sec {
        let rest = g.drop_first();
        lemma_add_kv_shape(rest, sec, p);
        assert forall|i: int| 0 <= i < g.len() implies #[trigger] r[i].0 == g[i].0 by {
            if i > 0 {
                assert(r[i] == add_kv_into(rest, sec, p)[i - 1]);
                assert(rest[i - 1] == g[i]);
            }
        }
        if r.len() == g.len() + 1 {
            assert(r[g.len() as int] == add_kv_into(rest, sec, p)[rest.len() as int]);
            assert forall|i: int| 0 <= i < g.len() implies #[trigger] g[i].0 != sec by {
                if i > 0 {
                    assert(rest[i - 1] == g[i]);
                }
            }
        }
    }
}

proof fn lemma_add_kv_ok(g: KvGroups, sec: Seq<char>, p: (Seq<char>, Seq<char>))
    requires
        groups_ok(g),
        toml_section_ok(sec),
        toml_name_ok(p.0),
        toml_value_ok(p.1),
    ensures
        groups_ok(add_kv_into(g, sec, p)),
    decreases g.len(),
{
    let r = add_kv_into(g, sec, p);
    if g.len() == 0 {
        assert(r[0].1[0] == p);
    } else if g[0].0 == sec {
        assert forall|i: int| 0 <= i < r.len() implies toml_section_ok(#[trigger] r[i].0)
            && forall|j: int|
            0 <= j < r[i].1.len() ==> toml_name_ok(#[trigger] r[i].1[j].0) && toml_value_ok(
                r[i].1[j].1,
            ) by {
            assert(toml_section_ok(g[i].0));
            if i == 0 {
                assert forall|j: int| 0 <= j < r[i].1.len() implies toml_name_ok(
                    #[trigger] r[i].1[j].0,
                ) && toml_value_ok(r[i].1[j].1) by {
                    if j < g[0].1.len() {
                        assert(r[0].1[j] == g[0].1[j]);
                    }
                }
            }
        }
    } else {
        let rest = g.drop_first();
        assert(groups_ok(rest)) by {
            assert forall|i: int| 0 <= i < rest.len() implies toml_section_ok(#[trigger] rest[i].0)
                && forall|j: int|
                0 <= j < rest[i].1.len() ==> toml_name_ok(#[trigger] rest[i].1[j].0)
                    && toml_value_ok(rest[i].1[j].1) by {
                assert(rest[i] == g[i + 1]);
                assert(toml_section_ok(g[i + 1].0));
            }
        }
        lemma_add_kv_ok(rest, sec, p);
        let r2 = add_kv_into(rest, sec, p);
        assert forall|i: int| 0 <= i < r.len() implies toml_section_ok(#[trigger] r[i].0)
            && forall|j: int|
            0 <= j < r[i].1.len() ==> toml_name_ok(#[trigger] r[i].1[j].0) && toml_value_ok(
                r[i].1[j].1,
            ) by {
            if i == 0 {
                assert(toml_section_ok(g[0].0));
            } else {
                assert(r[i] == r2[i - 1]);
                assert(toml_section_ok(r2[i - 1].0));
            }
        }
    }
}

proof fn lemma_contains_concat(a: Entries, b: Entries, x: (Seq<char>, Seq<char>))
    ensures
        (a + b).contains(x) <==> (a.contains(x) || b.contains(x)),
{
    if (a + b).contains(x) {
        let i = choose|i: int| 0 <= i < (a + b).len() && (a + b)[i] == x;
        if i < a.len() {
            assert(a[i] == x);
        } else {
            assert(b[i - a.len()] == x);
        }
    }
    if a.contains(x) {
        let i = choose|i: int| 0 <= i < a.len() && a[i] == x;
        assert((a + b)[i] == x);
    }
    if b.contains(x) {
        let i = choose|i: int| 0 <= i < b.len() && b[i] == x;
        assert((a + b)[i + a.len()] == x);
    }
}

proof fn lemma_flat_one(a: (Seq<char>, Entries))
    ensures
        flat(seq![a]) == fulls(a.0, a.1),
{
    let one = seq![a];
    assert(one.drop_last() =~= Seq::<(Seq<char>, Entries)>::empty());
    assert(one.last() == a);
    assert(flat(one.drop_last()) == Seq::<(Seq<char>, Seq<char>)>::empty());
    assert(flat(one) == flat(one.drop_last()) + fulls(one.last().0, one.last().1));
    assert(Seq::<(Seq<char>, Seq<char>)>::empty() + fulls(a.0, a.1) =~= fulls(a.0, a.1));
}

proof fn lemma_add_kv_flat(
    g: KvGroups,
    sec: Seq<char>,
    p: (Seq<char>, Seq<char>),
    x: (Seq<char>, Seq<char>),
)
    ensures
        flat(add_kv_into(g, sec, p)).contains(x) <==> (flat(g).contains(x) || x == (
            full_key(sec, p.0),
            p.1,
        )),
    decreases g.len(),
{
    let r = add_kv_into(g, sec, p);
    let nx = (full_key(sec, p.0), p.1);
    if g.len() == 0 {
        lemma_flat_one((sec, seq![p]));
        assert(fulls(sec, seq![p]) =~= seq![nx]);
        if x == nx {
            assert(seq![nx][0] == x);
        }
        assert(flat(g) =~= Seq::<(Seq<char>, Seq<char>)>::empty());
    } else {
        let rest = g.drop_first();
        assert(g =~= seq![g[0]] + rest);
        lemma_flat_concat(seq![g[0]], rest);
        lemma_flat_one(g[0]);
        lemma_contains_concat(fulls(g[0].0, g[0].1), flat(rest), x);
        if g[0].0 == sec {
            let n0 = (sec, g[0].1.push(p));
            assert(r =~= seq![n0] + rest);
            lemma_flat_concat(seq![n0], rest);
            lemma_flat_one(n0);
            assert(fulls(sec, g[0].1.push(p)) =~= fulls(sec, g[0].1) + seq![nx]);
            lemma_contains_concat(fulls(sec, g[0].1.push(p)), flat(rest), x);
            lemma_contains_concat(fulls(sec, g[0].1), seq![nx], x);
            if x == nx {
                assert(seq![nx][0] == x);
            }
        } else {
            let r2 = add_kv_into(rest, sec, p);
            assert(r == seq![g[0]] + r2);
            lemma_flat_concat(seq![g[0]], r2);
            lemma_contains_concat(fulls(g[0].0, g[0].1), flat(r2), x);
            lemma_add_kv_flat(rest, sec, p, x);
        }
    }
}

proof fn lemma_kv_groups(data: Entries)
    requires
        forall|i: int|
            0 <= i < data.len() ==> toml_key_ok(#[trigger] data[i].0) && toml_value_ok(data[i].1),
    ensures
        groups_ok(kv_groups(data)),
        forall|i: int|
            0 < i < kv_groups(data).len() ==> (#[trigger] kv_groups(data)[i].0).len() > 0,
        forall|x: (Seq<char>, Seq<char>)| #[trigger]
            flat(kv_groups(data)).contains(x) <==> data.contains(x),
    decreases data.len(),
{
    let g = kv_groups(data);
    if data.len() == 0 {
        assert(flat(g) =~= Seq::<(Seq<char>, Seq<char>)>::empty());
    } else {
        let d2 = data.drop_last();
        let e = data.last();
        let ks = key_split(e.0);
        let p = (ks.1, e.1);
        assert(toml_key_ok(data[data.len() - 1].0));
        assert forall|i: int| 0 <= i < d2.len() implies toml_key_ok(#[trigger] d2[i].0)
            && toml_value_ok(d2[i].1) by {
            assert(d2[i] == data[i]);
        }
        lemma_kv_groups(d2);
        let g2 = kv_groups(d2);
        lemma_full_key_split(e.0);
        assert forall|x: (Seq<char>, Seq<char>)|
            (flat(g).contains(x) <==> (flat(g2).contains(x) || x == e)) by {
            if ks.0.len() == 0 && !(g2.len() > 0 && g2[0].0.len() == 0) {
                let a = (ks.0, seq![p]);
                lemma_flat_concat(seq![a], g2);
                lemma_flat_one(a);
                assert(fulls(ks.0, seq![p]) =~= seq![e]);
                lemma_contains_concat(seq![e], flat(g2), x);
                if x == e {
                    assert(seq![e][0] == x);
                }
            } else {
                lemma_add_kv_flat(g2, ks.0, p, x);
            }
        }
        assert forall|x: (Seq<char>, Seq<char>)| #[trigger]
            flat(g).contains(x) <==> data.contains(x) by {
            assert(data =~= d2.push(e));
            assert(flat(g).contains(x) <==> (flat(g2).contains(x) || x == e));
            if d2.contains(x) {
                let i = choose|i: int| 0 <= i < d2.len() && d2[i] == x;
                assert(data[i] == x);
            }
            if x == e {
                assert(data[data.len() - 1] == x);
            }
            if data.contains(x) {
                let i = choose|i: int| 0 <= i < data.len() && data[i] == x;
                if i < d2.len() {
                    assert(d2[i] == x);
                }
            }
        }
        if ks.0.len() == 0 && !(g2.len() > 0 && g2[0].0.len() == 0) {
            let a = (ks.0, seq![p]);
            assert(g == seq![a] + g2);
            assert(groups_ok(g)) by {
                assert forall|i: int| 0 <= i < g.len() implies toml_section_ok(#[trigger] g[i].0)
                    && forall|j: int|
                    0 <= j < g[i].1.len() ==> toml_name_ok(#[trigger] g[i].1[j].0)
                        && toml_value_ok(g[i].1[j].1) by {
                    if i == 0 {
                        assert(g[0] == a);
                        assert(g[0].1[0] == p);
                    } else {
                        assert(g[i] == g2[i - 1]);
                        assert(toml_section_ok(g2[i - 1].0));
                    }
                }
            }
            assert forall|i: int| 0 < i < g.len() implies (#[trigger] g[i].0).len() > 0 by {
                assert(g[i] == g2[i - 1]);
                if i - 1 > 0 {
                    assert(g2[i - 1].0.len() > 0);
                }
            }
        } else {
            lemma_add_kv_shape(g2, ks.0, p);
            lemma_add_kv_ok(g2, ks.0, p);
            if g.len() == g2.len() + 1 && g2.len() > 0 && ks.0.len() == 0 {
                assert(g2[0].0 =~= ks.0);
                assert(false);
            }
            assert forall|i: int| 0 < i < g.len() implies (#[trigger] g[i].0).len() > 0 by {
                if i < g2.len() {
                    assert(g2[i].0.len() > 0);
                }
            }
        }
    }
}

proof fn lemma_inserted_lookup(e: Entries, f: Entries, q: Seq<char>)
    requires
        forall|i: int, j: int|
            0 <= i < f.len() && 0 <= j < f.len() && #[trigger] f[i].0 == #[trigger] f[j].0
                ==> f[i].1 == f[j].1,
    ensures
        forall|i: int|
            0 <= i < f.len() && (#[trigger] f[i]).0 == q ==> lookup(inserted(e, f), q) == Some(
                f[i].1,
            ),
        (forall|i: int| 0 <= i < f.len() ==> (#[trigger] f[i]).0 != q) ==> lookup(
            inserted(e, f),
            q,
        ) == lookup(e, q),
    decreases f.len(),
{
    if f.len() > 0 {
        let f2 = f.drop_last();
        let last = f.last();
        assert(forall|i: int| 0 <= i < f2.len() ==> #[trigger] f2[i] == f[i]);
        assert forall|i: int, j: int|
            0 <= i < f2.len() && 0 <= j < f2.len() && #[trigger] f2[i].0 == #[trigger] f2[j].0
                implies f2[i].1 == f2[j].1 by {
            assert(f2[i] == f[i]);
            assert(f2[j] == f[j]);
        }
        lemma_inserted_lookup(e, f2, q);
        lemma_insert_lookup(inserted(e, f2), last.0, last.1, q);
        assert forall|i: int|
            0 <= i < f.len() && (#[trigger] f[i]).0 == q implies lookup(inserted(e, f), q) == Some(
                f[i].1,
            ) by {
            if q == last.0 {
                assert(f[f.len() - 1] == last);
            } else {
                assert(f2[i] == f[i]);
            }
        }
        if forall|i: int| 0 <= i < f.len() ==> (#[trigger] f[i]).0 != q {
            assert(f[f.len() - 1] == last);
            assert forall|i: int| 0 <= i < f2.len() implies (#[trigger] f2[i]).0 != q by {
                assert(f2[i] == f[i]);
            }
        }
    }
}

/// A flat TOML text written from entries reads back as those entries: every key has its
/// value again, and no other key appears. This holds for entries with distinct keys whose
/// section (the part before the first `.`) and name read back as written (no surrounding
/// whitespace, no line break; the name not empty, not starting with `#` and without `=`),
/// and whose values hold no line break, double quote or backslash.
pub proof fn law_toml_written_reads_back(data: Entries)
    requires
        forall|i: int|
            0 <= i < data.len() ==> toml_key_ok(#[trigger] data[i].0) && toml_value_ok(data[i].1),
        distinct_keys(data),
    ensures
        forall|q: Seq<char>| #[trigger]
            lookup(toml_entries(toml_text(data)), q) == lookup(data, q),
{
    let g = kv_groups(data);
    lemma_kv_groups(data);
    lemma_groups_rendered(data);
    let init: (Seq<char>, Entries) = (Seq::empty(), Seq::empty());
    lemma_read_groups(Seq::empty(), g);
    let ls = group_lines(toml_groups(data));
    assert(ls == group_lines(rendered(g)));
    let f = flat(g);
    let text = toml_text(data);
    assert(toml_entries(text) == inserted(Seq::empty(), f)) by {
        if ls.len() == 0 {
            reveal_strlit("\n");
            assert(text == "\n"@);
            let one = seq![Seq::<char>::empty()];
            assert(joined_lines(one) =~= "\n"@) by {
                assert(one.drop_last() =~= Seq::<Seq<char>>::empty());
                assert(one.last() == Seq::<char>::empty());
                assert(joined_lines(one.drop_last()) == Seq::<char>::empty());
                assert(joined_lines(one) == joined_lines(one.drop_last()) + one.last() + "\n"@);
            }
            assert(has_no(one[0], '\n'));
            lemma_split_joined(one, Seq::empty());
            assert(joined_lines(one) + Seq::<char>::empty() =~= joined_lines(one));
            let two = one.push(Seq::<char>::empty());
            assert(two =~= one + one);
            lemma_toml_lines_concat(init, one, one);
            lemma_toml_lines_one(init, Seq::empty());
            lemma_blank_line(init);
            assert(toml_lines(init, ls) == init);
        } else {
            lemma_split_joined(ls, Seq::empty());
            assert(joined_lines(ls) + Seq::<char>::empty() =~= joined_lines(ls));
            let one = seq![Seq::<char>::empty()];
            assert(ls.push(Seq::<char>::empty()) =~= ls + one);
            lemma_toml_lines_concat(init, ls, one);
            lemma_toml_lines_one(toml_lines(init, ls), Seq::empty());
            lemma_blank_line(toml_lines(init, ls));
        }
    }
    assert forall|i: int, j: int|
        0 <= i < f.len() && 0 <= j < f.len() && #[trigger] f[i].0 == #[trigger] f[j].0
            implies f[i].1 == f[j].1 by {
        assert(f.contains(f[i]));
        assert(f.contains(f[j]));
        assert(data.contains(f[i]));
        assert(data.contains(f[j]));
        let m1 = choose|m: int| 0 <= m < data.len() && data[m] == f[i];
        let m2 = choose|m: int| 0 <= m < data.len() && data[m] == f[j];
        if m1 != m2 {
            if m1 < m2 {
                assert(data[m1].0 != data[m2].0);
            } else {
                assert(data[m2].0 != data[m1].0);
            }
        }
    }
    assert forall|q: Seq<char>| #[trigger]
        lookup(toml_entries(toml_text(data)), q) == lookup(data, q) by {
        lemma_inserted_lookup(Seq::empty(), f, q);
        if exists|m: int| 0 <= m < data.len() && (#[trigger] data[m]).0 == q {
            let m = choose|m: int| 0 <= m < data.len() && (#[trigger] data[m]).0 == q;
            assert forall|j: int| 0 <= j < m implies (#[trigger] data[j]).0 != q by {
                assert(data[j].0 != data[m].0);
            }
            lemma_lookup_first(data, q, m);
            assert(data.contains(data[m]));
            assert(f.contains(data[m]));
            let i = choose|i: int| 0 <= i < f.len() && f[i] == data[m];
            assert(f[i].0 == q);
        } else {
            assert forall|j: int| 0 <= j < data.len() implies (#[trigger] data[j]).0 != q by {}
            lemma_lookup_none(data, q);
            assert forall|i: int| 0 <= i < f.len() implies (#[trigger] f[i]).0 != q by {
                assert(f.contains(f[i]));
                assert(data.contains(f[i]));
                let m = choose|m: int| 0 <= m < data.len() && data[m] == f[i];
                assert(data[m].0 == f[i].0);
            }
            assert(lookup(Seq::<(Seq<char>, Seq<char>)>::empty(), q) is None);
        }
    }
}

} // verus!
