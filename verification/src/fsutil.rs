use vstd::prelude::*;
use crate::kv::{insert, pairs_view, pair_insert};
use crate::text::{
    trim, split, find_char, chars_of, trim_chars, split_chars, find_char_in, slice_chars,
    string_of, ends_with, starts_with, replace_all, replace_str, str_eq, str_ends_with,
    str_starts_with,
};

verus! {

/// A value written between matching double or single quotes, without them.
pub open spec fn strip_quotes(v: Seq<char>) -> Seq<char> {
    if v.len() >= 2 && ((v[0] == '"' && v.last() == '"') || (v[0] == '\'' && v.last() == '\'')) {
        v.subrange(1, v.len() - 1)
    } else {
        v
    }
}

/// Removes one pair of matching surrounding quotes.
pub fn strip_toml_quotes(v: &Vec<char>) -> (r: Vec<char>)
    ensures
        r@ == strip_quotes(v@),
{
    let n = v.len();
    if n >= 2 && ((v[0] == '"' && v[n - 1] == '"') || (v[0] == '\'' && v[n - 1] == '\'')) {
        slice_chars(v, 1, n - 1)
    } else {
        slice_chars(v, 0, n)
    }
}

/// The state of reading a flat TOML file: the current section and the entries read so far.
pub type TomlState = (Seq<char>, Seq<(Seq<char>, Seq<char>)>);

/// What one line of a flat TOML file does to the reading state: blank lines and comments do
/// nothing, `[name]` opens a section, `key = value` sets `section.key` (or `key` outside any
/// section), anything else is skipped.
pub open spec fn toml_line(st: TomlState, line: Seq<char>) -> TomlState {
    let t = trim(line);
    if t.len() == 0 || t[0] == '#' {
        st
    } else if t[0] == '[' && t.last() == ']' {
        (trim(t.subrange(1, t.len() - 1)), st.1)
    } else {
        match find_char(t, '=') {
            Some(i) => if i > 0 {
                let key = trim(t.take(i));
                let value = strip_quotes(trim(t.skip(i + 1)));
                let full = if st.0.len() == 0 {
                    key
                } else {
                    st.0 + "."@ + key
                };
                (st.0, insert(st.1, full, value))
            } else {
                st
            },
            None => st,
        }
    }
}

/// The reading state after the given lines.
pub open spec fn toml_lines(st: TomlState, lines: Seq<Seq<char>>) -> TomlState
    decreases lines.len(),
{
    if lines.len() == 0 {
        st
    } else {
        toml_lines(toml_line(st, lines[0]), lines.drop_first())
    }
}

/// The entries of a flat TOML text. Lines are the pieces between newlines; since every line is
/// trimmed and blank ones are skipped, this reads the text as `str::lines` splits it.
pub open spec fn toml_entries(raw: Seq<char>) -> Seq<(Seq<char>, Seq<char>)> {
    toml_lines((Seq::empty(), Seq::empty()), split(raw, '\n')).1
}

/// Reads a flat TOML text: `key = value` lines, optionally under `[section]` headers (whose
/// keys become `section.key`); all values are strings. Later keys replace earlier ones.
pub fn read_toml_flat(raw: &str) -> (r: Vec<(String, String)>)
    ensures
        pairs_view(r@) == toml_entries(raw@),
{
    let lines = split_chars(&chars_of(raw), '\n');
    let ghost ls = split(raw@, '\n');
    let mut section: Vec<char> = Vec::new();
    let mut result: Vec<(String, String)> = Vec::new();
    let mut i: usize = 0;
    assert(ls.skip(0) =~= ls);
    assert(pairs_view(result@) =~= Seq::<(Seq<char>, Seq<char>)>::empty());
    while i < lines.len()
        invariant
            i <= lines.len(),
            lines@.len() == ls.len(),
            forall|k: int| 0 <= k < lines@.len() ==> #[trigger] lines@[k]@ == ls[k],
            toml_lines((Seq::empty(), Seq::empty()), ls) == toml_lines(
                (section@, pairs_view(result@)),
                ls.skip(i as int),
            ),
        decreases lines.len() - i,
    {
        let ghost st = (section@, pairs_view(result@));
        assert(ls.skip(i as int)[0] == lines@[i as int]@);
        assert(ls.skip(i as int).drop_first() =~= ls.skip(i + 1));
        let t = trim_chars(&lines[i]);
        let n = t.len();
        if n == 0 || t[0] == '#' {
        } else if t[0] == '[' && t[n - 1] == ']' {
            section = trim_chars(&slice_chars(&t, 1, n - 1));
        } else {
            match find_char_in(&t, '=') {
                Some(eq) => {
                    if eq > 0 {
                        let key = trim_chars(&slice_chars(&t, 0, eq));
                        let value = strip_toml_quotes(&trim_chars(&slice_chars(&t, eq + 1, n)));
                        assert(t@.take(eq as int) =~= t@.subrange(0, eq as int));
                        assert(t@.skip(eq + 1) =~= t@.subrange(eq + 1, n as int));
                        let full = if section.len() == 0 {
                            key
                        } else {
                            let mut f = slice_chars(&section, 0, section.len());
                            f.push('.');
                            let mut k2 = key;
                            f.append(&mut k2);
                            assert(section@.subrange(0, section@.len() as int) =~= section@);
                            assert(f@ =~= section@ + "."@ + trim(t@.take(eq as int))) by {
                                reveal_strlit(".");
                            }
                            f
                        };
                        pair_insert(&mut result, string_of(&full), string_of(&value));
                    }
                },
                None => {},
            }
        }
        assert((section@, pairs_view(result@)) == toml_line(st, ls[i as int]));
        i = i + 1;
    }
    assert(ls.skip(i as int).len() == 0);
    result
}

} // verus!

verus! {

pub open spec fn no_letters(s: Seq<char>) -> bool {
    forall|i: int| 0 <= i < s.len() ==> !crate::text::is_ascii_letter(#[trigger] s[i])
}

/// Whether a TOML value is written bare as a number: a non-empty integer `i64::from_str`
/// accepts, or a decimal with a `.` and no letter that `f64::from_str` accepts. (The words
/// `f64::from_str` also reads, `inf` and `nan`, hold letters; and a text it accepts is ASCII,
/// so no alphabetic character means no ASCII letter.)
pub open spec fn toml_number(v: Seq<char>) -> bool {
    v.len() > 0 && (crate::text::i64_text(v) || (crate::text::float_number_text(v) && find_char(
        v,
        '.',
    ) is Some && no_letters(v)))
}

/// How a value is written in a TOML file: booleans and numbers bare, anything else as a
/// double-quoted string with `\` and `"` escaped.
pub open spec fn quoted(v: Seq<char>) -> Seq<char> {
    if v == "true"@ || v == "false"@ || toml_number(v) {
        v
    } else {
        seq!['"'] + crate::text::escaped(v) + seq!['"']
    }
}

fn no_letters_in(v: &Vec<char>) -> (b: bool)
    ensures
        b == no_letters(v@),
{
    let mut i: usize = 0;
    while i < v.len()
        invariant
            i <= v.len(),
            forall|k: int| 0 <= k < i ==> !crate::text::is_ascii_letter(v@[k]),
        decreases v.len() - i,
    {
        let c = v[i];
        if ('a' <= c && c <= 'z') || ('A' <= c && c <= 'Z') {
            return false;
        }
        i = i + 1;
    }
    true
}

fn same_chars(a: &Vec<char>, b: &str) -> (r: bool)
    ensures
        r == (a@ == b@),
{
    let bv = chars_of(b);
    if a.len() != bv.len() {
        return false;
    }
    let r = crate::text::starts_with_chars(a, &bv);
    proof {
        assert(a@.take(bv@.len() as int) =~= a@);
    }
    r
}

/// Writes a value for a TOML file.
pub fn quote_toml(v: &Vec<char>) -> (r: Vec<char>)
    ensures
        r@ == quoted(v@),
{
    let is_number = v.len() > 0 && (crate::text::i64_text_chars(v) || (
    crate::text::float_number_chars(v) && find_char_in(v, '.').is_some() && no_letters_in(v)));
    if same_chars(v, "true") || same_chars(v, "false") || is_number {
        return slice_chars(v, 0, v.len());
    }
    let mut r: Vec<char> = Vec::new();
    r.push('"');
    let mut e = crate::text::escape_chars(v);
    r.append(&mut e);
    r.push('"');
    assert(r@ =~= seq!['"'] + crate::text::escaped(v@) + seq!['"']);
    r
}

} // verus!

verus! {

/// A key's section and name: the part before its first `.` (when non-empty) and the rest.
pub open spec fn key_split(key: Seq<char>) -> (Seq<char>, Seq<char>) {
    match find_char(key, '.') {
        Some(i) => if i > 0 {
            (key.take(i), key.skip(i + 1))
        } else {
            (Seq::empty(), key)
        },
        None => (Seq::empty(), key),
    }
}

/// The line written for one entry.
pub open spec fn toml_value_line(k: Seq<char>, v: Seq<char>) -> Seq<char> {
    k + " = "@ + quoted(v)
}

/// Lines grouped by section: the unnamed section first, the others in order of first
/// appearance.
pub type Groups = Seq<(Seq<char>, Seq<Seq<char>>)>;

/// `g` with `line` added to the group of `sec` (a new group at the end when there is none).
pub open spec fn add_line(g: Groups, sec: Seq<char>, line: Seq<char>) -> Groups
    decreases g.len(),
{
    if g.len() == 0 {
        seq![(sec, seq![line])]
    } else if g[0].0 == sec {
        g.update(0, (sec, g[0].1.push(line)))
    } else {
        seq![g[0]] + add_line(g.drop_first(), sec, line)
    }
}

/// `g` with `line` added to the group of `sec`, where a new unnamed group goes first, so
/// that its lines come before any section header.
pub open spec fn add_entry_line(g: Groups, sec: Seq<char>, line: Seq<char>) -> Groups {
    if sec.len() == 0 && !(g.len() > 0 && g[0].0.len() == 0) {
        seq![(sec, seq![line])] + g
    } else {
        add_line(g, sec, line)
    }
}

/// The entries grouped by section.
pub open spec fn toml_groups(data: Seq<(Seq<char>, Seq<char>)>) -> Groups
    decreases data.len(),
{
    if data.len() == 0 {
        Seq::empty()
    } else {
        let e = data.last();
        let ks = key_split(e.0);
        add_entry_line(toml_groups(data.drop_last()), ks.0, toml_value_line(ks.1, e.1))
    }
}

/// The lines that open a section: none for the unnamed one, else a blank line and `[name]`.
pub open spec fn group_header(sec: Seq<char>) -> Seq<Seq<char>> {
    if sec.len() == 0 {
        Seq::empty()
    } else {
        seq![Seq::empty(), "["@ + sec + "]"@]
    }
}

/// All lines, group after group.
pub open spec fn group_lines(g: Groups) -> Seq<Seq<char>>
    decreases g.len(),
{
    if g.len() == 0 {
        Seq::empty()
    } else {
        group_lines(g.drop_last()) + group_header(g.last().0) + g.last().1
    }
}

/// Every line followed by a newline.
pub open spec fn joined_lines(ls: Seq<Seq<char>>) -> Seq<char>
    decreases ls.len(),
{
    if ls.len() == 0 {
        Seq::empty()
    } else {
        joined_lines(ls.drop_last()) + ls.last() + "\n"@
    }
}

/// The text of a flat TOML file: the lines joined by newlines, with a final newline.
pub open spec fn toml_text(data: Seq<(Seq<char>, Seq<char>)>) -> Seq<char> {
    let ls = group_lines(toml_groups(data));
    if ls.len() == 0 {
        "\n"@
    } else {
        joined_lines(ls)
    }
}

proof fn lemma_add_line_update(g: Groups, sec: Seq<char>, line: Seq<char>, i: int)
    requires
        0 <= i < g.len(),
        g[i].0 == sec,
        forall|j: int| 0 <= j < i ==> g[j].0 != sec,
    ensures
        add_line(g, sec, line) == g.update(i, (sec, g[i].1.push(line))),
    decreases i,
{
    if i > 0 {
        lemma_add_line_update(g.drop_first(), sec, line, i - 1);
        assert(seq![g[0]] + g.drop_first().update(i - 1, (sec, g[i].1.push(line))) =~= g.update(
            i,
            (sec, g[i].1.push(line)),
        ));
    }
}

proof fn lemma_add_line_append(g: Groups, sec: Seq<char>, line: Seq<char>)
    requires
        forall|j: int| 0 <= j < g.len() ==> g[j].0 != sec,
    ensures
        add_line(g, sec, line) == g.push((sec, seq![line])),
    decreases g.len(),
{
    if g.len() > 0 {
        lemma_add_line_append(g.drop_first(), sec, line);
        assert(seq![g[0]] + g.drop_first().push((sec, seq![line])) =~= g.push((sec, seq![line])));
    }
}

pub open spec fn groups_view(g: Seq<(Vec<char>, Vec<Vec<char>>)>) -> Groups {
    Seq::new(g.len(), |i: int| (g[i].0@, Seq::new(g[i].1@.len(), |j: int| g[i].1@[j]@)))
}

pub open spec fn lines_view(ls: Seq<Vec<char>>) -> Seq<Seq<char>> {
    Seq::new(ls.len(), |i: int| ls[i]@)
}

fn add_line_to(g: &mut Vec<(Vec<char>, Vec<Vec<char>>)>, sec: Vec<char>, line: Vec<char>)
    ensures
        groups_view(final(g)@) == add_line(groups_view(old(g)@), sec@, line@),
{
    let ghost gv = groups_view(g@);
    let mut i: usize = 0;
    while i < g.len()
        invariant
            i <= g.len(),
            gv == groups_view(g@),
            gv == groups_view(old(g)@),
            forall|j: int| 0 <= j < i ==> gv[j].0 != sec@,
        decreases g.len() - i,
    {
        if same_vec(&g[i].0, &sec) {
            proof {
                lemma_add_line_update(gv, sec@, line@, i as int);
            }
            let (s, mut ls) = g.remove(i);
            let ghost lsv = lines_view(ls@);
            ls.push(line);
            assert(lines_view(ls@) =~= lsv.push(line@));
            g.insert(i, (s, ls));
            assert(groups_view(g@) =~= gv.update(i as int, (sec@, gv[i as int].1.push(line@))));
            return;
        }
        i = i + 1;
    }
    proof {
        lemma_add_line_append(gv, sec@, line@);
    }
    let ghost lv = line@;
    let mut one: Vec<Vec<char>> = Vec::new();
    one.push(line);
    assert(Seq::new(one@.len(), |j: int| one@[j]@) =~= seq![lv]);
    let ghost sv = sec@;
    g.push((sec, one));
    assert(groups_view(g@).last() == (sv, seq![lv]));
    assert(groups_view(g@) =~= gv.push((sec@, seq![lv])));
}

fn same_vec(a: &Vec<char>, b: &Vec<char>) -> (r: bool)
    ensures
        r == (a@ == b@),
{
    if a.len() != b.len() {
        return false;
    }
    let r = crate::text::starts_with_chars(a, b);
    proof {
        assert(a@.take(b@.len() as int) =~= a@);
    }
    r
}

/// Renders entries as a flat TOML text: entries are grouped by the section before the first
/// `.` of their key; the entries without a section come first, then the sections in order of
/// first appearance, each under its `[section]` header; the text ends with a newline.
pub fn write_toml_flat(data: &Vec<(String, String)>) -> (r: String)
    ensures
        r@ == toml_text(pairs_view(data@)),
{
    let ghost dv = pairs_view(data@);
    let mut groups: Vec<(Vec<char>, Vec<Vec<char>>)> = Vec::new();
    let mut i: usize = 0;
    assert(groups_view(groups@) =~= toml_groups(dv.take(0)));
    while i < data.len()
        invariant
            i <= data.len(),
            dv == pairs_view(data@),
            groups_view(groups@) == toml_groups(dv.take(i as int)),
        decreases data.len() - i,
    {
        assert(dv.take(i + 1).drop_last() =~= dv.take(i as int));
        assert(dv.take(i + 1).last() == dv[i as int]);
        let key = chars_of(data[i].0.as_str());
        let val = chars_of(data[i].1.as_str());
        let (sec, k) = match find_char_in(&key, '.') {
            Some(d) => if d > 0 {
                assert(key@.take(d as int) =~= key@.subrange(0, d as int));
                assert(key@.skip(d + 1) =~= key@.subrange(d + 1, key@.len() as int));
                (slice_chars(&key, 0, d), slice_chars(&key, d + 1, key.len()))
            } else {
                assert(key@.subrange(0, key@.len() as int) =~= key@);
                (Vec::new(), slice_chars(&key, 0, key.len()))
            },
            None => {
                assert(key@.subrange(0, key@.len() as int) =~= key@);
                (Vec::new(), slice_chars(&key, 0, key.len()))
            },
        };
        assert(sec@ == key_split(key@).0);
        let mut line = k;
        line.push(' ');
        line.push('=');
        line.push(' ');
        let mut q = quote_toml(&val);
        let ghost lk = key_split(key@).1;
        line.append(&mut q);
        assert(line@ =~= toml_value_line(lk, val@)) by {
            reveal_strlit(" = ");
        }
        if sec.len() == 0 && !(groups.len() > 0 && groups[0].0.len() == 0) {
            let ghost gv0 = groups_view(groups@);
            let ghost sv = sec@;
            let ghost lv = line@;
            let mut one: Vec<Vec<char>> = Vec::new();
            one.push(line);
            assert(Seq::new(one@.len(), |j: int| one@[j]@) =~= seq![lv]);
            groups.insert(0, (sec, one));
            assert(groups_view(groups@) =~= seq![(sv, seq![lv])] + gv0);
        } else {
            add_line_to(&mut groups, sec, line);
        }
        i = i + 1;
    }
    assert(dv.take(i as int) =~= dv);
    let ghost gv = groups_view(groups@);
    let mut lines: Vec<Vec<char>> = Vec::new();
    let mut j: usize = 0;
    assert(gv.take(0) =~= Seq::<(Seq<char>, Seq<Seq<char>>)>::empty());
    assert(lines_view(lines@) =~= Seq::<Seq<char>>::empty());
    while j < groups.len()
        invariant
            j <= groups.len(),
            gv == groups_view(groups@),
            lines_view(lines@) == group_lines(gv.take(j as int)),
        decreases groups.len() - j,
    {
        assert(gv.take(j + 1).drop_last() =~= gv.take(j as int));
        let ghost before = lines_view(lines@);
        let sec = &groups[j].0;
        if sec.len() > 0 {
            lines.push(Vec::new());
            let mut h: Vec<char> = Vec::new();
            h.push('[');
            let mut s2 = slice_chars(sec, 0, sec.len());
            h.append(&mut s2);
            h.push(']');
            assert(h@ =~= "["@ + sec@ + "]"@) by {
                reveal_strlit("[");
                reveal_strlit("]");
                assert(sec@.subrange(0, sec@.len() as int) =~= sec@);
            }
            lines.push(h);
        }
        assert(lines_view(lines@) =~= before + group_header(gv[j as int].0));
        let ghost mid = lines_view(lines@);
        let ls = &groups[j].1;
        let mut k: usize = 0;
        while k < ls.len()
            invariant
                k <= ls.len(),
                lines_view(lines@) =~= mid + lines_view(ls@).take(k as int),
            decreases ls.len() - k,
        {
            let ghost b2 = lines_view(lines@);
            lines.push(slice_chars(&ls[k], 0, ls[k].len()));
            assert(ls@[k as int]@.subrange(0, ls@[k as int]@.len() as int) =~= ls@[k as int]@);
            assert(lines_view(lines@) =~= b2.push(ls@[k as int]@));
            assert(lines_view(ls@).take(k + 1) =~= lines_view(ls@).take(k as int).push(ls@[k as int]@));
            k = k + 1;
        }
        assert(lines_view(ls@).take(k as int) =~= lines_view(ls@));
        assert(lines_view(ls@) =~= gv[j as int].1);
        j = j + 1;
    }
    assert(gv.take(j as int) =~= gv);
    let ghost lv = lines_view(lines@);
    if lines.len() == 0 {
        return "\n".to_owned();
    }
    let mut out: Vec<char> = Vec::new();
    let mut m: usize = 0;
    assert(lv.take(0) =~= Seq::<Seq<char>>::empty());
    while m < lines.len()
        invariant
            m <= lines.len(),
            lv == lines_view(lines@),
            out@ == joined_lines(lv.take(m as int)),
        decreases lines.len() - m,
    {
        assert(lv.take(m + 1).drop_last() =~= lv.take(m as int));
        let mut piece = slice_chars(&lines[m], 0, lines[m].len());
        let ghost before = out@;
        out.append(&mut piece);
        out.push('\n');
        assert(out@ =~= before + lines@[m as int]@ + "\n"@) by {
            reveal_strlit("\n");
        }
        m = m + 1;
    }
    assert(lv.take(m as int) =~= lv);
    string_of(&out)
}

} // verus!

verus! {

/// `Path::join` on the target platform: `b` after `a` and a separator, or `b` alone when it
/// is absolute; as text.
pub uninterp spec fn joined(a: Seq<char>, b: Seq<char>) -> Seq<char>;

/// `Path::parent` on the target platform, as text.
pub uninterp spec fn parent_path(p: Seq<char>) -> Option<Seq<char>>;

/// `str::to_lowercase` (Unicode lowercase mapping).
pub uninterp spec fn lowercased(s: Seq<char>) -> Seq<char>;

/// `Path::join`, with the result converted to text. Its contract names the result: the same
/// arguments give the same path on the platform the library is built for.
#[verifier::external_body]
pub(crate) fn path_join(a: &str, b: &str) -> (r: String)
    ensures
        r@ == joined(a@, b@),
{
    std::path::Path::new(a).join(b).to_string_lossy().into_owned()
}

/// `Path::parent`, with the result converted to text. Its contract names the result: the
/// same path gives the same parent on the platform the library is built for.
#[verifier::external_body]
pub(crate) fn path_parent(p: &str) -> (r: Option<String>)
    ensures
        crate::store::opt_str(r) == parent_path(p@),
{
    match std::path::Path::new(p).parent() {
        Some(q) => Some(q.to_string_lossy().into_owned()),
        None => None,
    }
}

/// `str::to_lowercase`: the Unicode lowercase mapping, which depends on the text alone. Its
/// contract names the result.
#[verifier::external_body]
pub(crate) fn to_lowercase(s: &str) -> (r: String)
    ensures
        r@ == lowercased(s@),
{
    s.to_lowercase()
}

/// The format of a configuration file, by its extension: `toml` for `.toml` and `.tml`
/// (in any case), `json` otherwise.
pub open spec fn format_of(file: Seq<char>) -> Seq<char> {
    let lower = lowercased(file);
    if ends_with(lower, ".toml"@) || ends_with(lower, ".tml"@) {
        "toml"@
    } else {
        "json"@
    }
}

pub fn detect_format(file: &str) -> (r: &'static str)
    ensures
        r@ == format_of(file@),
{
    let lower = to_lowercase(file);
    if str_ends_with(lower.as_str(), ".toml") || str_ends_with(lower.as_str(), ".tml") {
        "toml"
    } else {
        "json"
    }
}

/// The environment variables that path templates are resolved against (`None`: not set).
pub struct PathEnv {
    pub userprofile: Option<String>,
    pub home: Option<String>,
    pub appdata: Option<String>,
    pub xdg_config_home: Option<String>,
}

pub open spec fn or_else(a: Option<String>, d: Seq<char>) -> Seq<char> {
    match a {
        Some(s) => s@,
        None => d,
    }
}

/// The home directory: `USERPROFILE`, else `HOME`, else `/`.
pub open spec fn env_home(e: PathEnv) -> Seq<char> {
    or_else(e.userprofile, or_else(e.home, "/"@))
}

/// `{appdata}`: `APPDATA`, else `home/.config`.
pub open spec fn env_appdata(e: PathEnv) -> Seq<char> {
    or_else(e.appdata, joined(env_home(e), ".config"@))
}

/// `{config}`: `XDG_CONFIG_HOME`, else `home/.config`.
pub open spec fn env_config(e: PathEnv) -> Seq<char> {
    or_else(e.xdg_config_home, joined(env_home(e), ".config"@))
}

/// A path template resolved: `{appdata}`, `{config}` and `{home}` are replaced, in that order,
/// and a leading `~` stands for the home directory.
pub open spec fn resolved(tmpl: Seq<char>, e: PathEnv) -> Seq<char> {
    let out = replace_all(
        replace_all(replace_all(tmpl, "{appdata}"@, env_appdata(e)), "{config}"@, env_config(e)),
        "{home}"@,
        env_home(e),
    );
    if out == "~"@ {
        env_home(e)
    } else if starts_with(out, "~/"@) || starts_with(out, "~\\"@) {
        joined(env_home(e), out.skip(2))
    } else {
        out
    }
}

fn opt_or(a: &Option<String>, d: String) -> (r: String)
    ensures
        r@ == or_else(*a, d@),
{
    match a {
        Some(s) => s.clone(),
        None => d,
    }
}

/// Resolves a platform path template against the environment.
pub fn resolve_tmpl(tmpl: &str, env: &PathEnv) -> (r: String)
    ensures
        r@ == resolved(tmpl@, *env),
{
    let home = opt_or(&env.userprofile, opt_or(&env.home, "/".to_owned()));
    let appdata = opt_or(&env.appdata, path_join(home.as_str(), ".config"));
    let config = opt_or(&env.xdg_config_home, path_join(home.as_str(), ".config"));
    proof {
        reveal_strlit("{appdata}");
        reveal_strlit("{config}");
        reveal_strlit("{home}");
    }
    let a = replace_str(tmpl, "{appdata}", appdata.as_str());
    let b = replace_str(a.as_str(), "{config}", config.as_str());
    let out = replace_str(b.as_str(), "{home}", home.as_str());
    if str_eq(out.as_str(), "~") {
        return home;
    }
    if str_starts_with(out.as_str(), "~/") || str_starts_with(out.as_str(), "~\\") {
        let v = chars_of(out.as_str());
        proof {
            reveal_strlit("~/");
            reveal_strlit("~\\");
        }
        let rest = string_of(&slice_chars(&v, 2, v.len()));
        assert(v@.subrange(2, v@.len() as int) =~= out@.skip(2));
        return path_join(home.as_str(), rest.as_str());
    }
    out
}

/// The name of a backup copy: the config file's directory (with `\`, `/` and `:` made `_`),
/// an underscore, the file name, a dot, and the time stamp.
pub open spec fn backup_name(dir: Seq<char>, file_name: Seq<char>, ts: Seq<char>) -> Seq<char> {
    flattened_dir(dir) + "_"@ + file_name + "."@ + ts
}

pub open spec fn flat_char(c: char) -> char {
    if c == '\\' || c == '/' || c == ':' {
        '_'
    } else {
        c
    }
}

/// A directory path made into one name.
pub open spec fn flattened_dir(dir: Seq<char>) -> Seq<char> {
    Seq::new(dir.len(), |i: int| flat_char(dir[i]))
}

/// The file name of a backup of the config file whose directory and name are given (each
/// empty when the path has none), taken at time stamp `ts`.
pub fn backup_file_name(dir: &str, file_name: &str, ts: &str) -> (r: String)
    ensures
        r@ == backup_name(dir@, file_name@, ts@),
{
    let d = chars_of(dir);
    let mut out: Vec<char> = Vec::new();
    let mut i: usize = 0;
    while i < d.len()
        invariant
            i <= d.len(),
            out@ =~= flattened_dir(d@).take(i as int),
        decreases d.len() - i,
    {
        let c = d[i];
        out.push(
            if c == '\\' || c == '/' || c == ':' {
                '_'
            } else {
                c
            },
        );
        i = i + 1;
    }
    assert(flattened_dir(d@).take(i as int) =~= flattened_dir(d@));
    out.push('_');
    let mut f = chars_of(file_name);
    out.append(&mut f);
    out.push('.');
    let mut t = chars_of(ts);
    out.append(&mut t);
    assert(out@ =~= backup_name(dir@, file_name@, ts@)) by {
        reveal_strlit("_");
        reveal_strlit(".");
    }
    string_of(&out)
}

/// Where the backup of a config file (directory `dir`, name `file_name`) taken at time stamp
/// `ts` is written: directly inside `backup_dir`.
pub fn backup_path(backup_dir: &str, dir: &str, file_name: &str, ts: &str) -> (r: String)
    ensures
        r@ == joined(backup_dir@, backup_name(dir@, file_name@, ts@)),
{
    let name = backup_file_name(dir, file_name, ts);
    path_join(backup_dir, name.as_str())
}

} // verus!

verus! {

/// Reads the text of a JSON file: the value it holds, or the parser's message.
pub fn read_json(raw: &str) -> (r: Result<crate::json::Json, String>)
    ensures
        crate::json_text::parsed_view(r) == crate::json_text::json_parsed(raw@),
{
    crate::json_text::parse_json(raw)
}

/// The object a read gave; an empty object when the read failed or gave another value.
pub open spec fn object_of(parsed: Result<crate::json::JVal, Seq<char>>) -> crate::json::JVal {
    match parsed {
        Ok(crate::json::JVal::Obj(e)) => crate::json::JVal::Obj(e),
        _ => crate::json::JVal::Obj(Seq::empty()),
    }
}

/// The object of a parse result, or an empty object.
pub fn object_or_empty(parsed: Result<crate::json::Json, String>) -> (r: crate::json::Json)
    ensures
        r@ == object_of(crate::json_text::parsed_view(parsed)),
{
    match parsed {
        Ok(crate::json::Json::Obj(e)) => crate::json::Json::Obj(e),
        _ => crate::json::empty_obj(),
    }
}

/// The object a JSON file holds (`raw`: its text, `None` when it could not be read); an
/// empty object when the file is missing, unreadable, no JSON or not an object.
pub fn read_json_object(raw: Option<&str>) -> (r: crate::json::Json)
    ensures
        r@ == match raw {
            Some(t) => object_of(crate::json_text::json_parsed(t@)),
            None => crate::json::JVal::Obj(Seq::empty()),
        },
{
    match raw {
        Some(t) => object_or_empty(read_json(t)),
        None => crate::json::empty_obj(),
    }
}

/// The text a JSON file is written with: the value pretty-printed, or the writer's message.
pub fn json_file_text(data: &crate::json::Json) -> (r: Result<String, String>)
    ensures
        match r {
            Ok(t) => crate::json_text::json_pretty(data@) == Ok::<Seq<char>, Seq<char>>(t@),
            Err(e) => crate::json_text::json_pretty(data@) == Err::<Seq<char>, Seq<char>>(e@),
        },
{
    crate::json_text::pretty_text(data)
}

} // verus!
