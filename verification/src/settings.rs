//! The settings store: a text file of `key:value` lines.
//!
//! Reading and writing the file is the application's part; the library turns
//! the file's text into a map and a map back into text.
use vstd::prelude::*;
use crate::strmap::{StrMap, Pairs, keys_distinct, map_of, has_key, lemma_map_of_push};
use crate::text::{split, split_on, chars_of, string_of, push_all};

verus! {

/// What one line contributes: the text before the first `:` and the text
/// between the first and the second `:`; nothing when the line has no `:`.
pub open spec fn line_entry(line: Seq<char>) -> Option<(Seq<char>, Seq<char>)> {
    let parts = split(line, ':');
    if parts.len() >= 2 {
        Some((parts[0], parts[1]))
    } else {
        None
    }
}

/// The settings that a list of lines holds; a later line wins over an earlier
/// one with the same key.
pub open spec fn settings_of_lines(lines: Seq<Seq<char>>) -> Map<Seq<char>, Seq<char>>
    decreases lines.len(),
{
    if lines.len() == 0 {
        Map::empty()
    } else {
        let m = settings_of_lines(lines.drop_last());
        match line_entry(lines.last()) {
            Some(e) => m.insert(e.0, e.1),
            None => m,
        }
    }
}

/// The settings that the text of a settings file holds.
pub open spec fn settings_map(content: Seq<char>) -> Map<Seq<char>, Seq<char>> {
    settings_of_lines(split(content, '\n'))
}

/// The line that stores one pair: `key:value` and a line break.
pub open spec fn pair_line(k: Seq<char>, v: Seq<char>) -> Seq<char> {
    k + seq![':'] + v + seq!['\n']
}

/// The text that stores the pairs, one line each, in order.
pub open spec fn render(p: Pairs) -> Seq<char>
    decreases p.len(),
{
    if p.len() == 0 {
        Seq::empty()
    } else {
        render(p.drop_last()) + pair_line(p.last().0, p.last().1)
    }
}

/// The text `t` stores the map `m`: it is the rendering of some order of its pairs.
pub open spec fn renders(t: Seq<char>, m: Map<Seq<char>, Seq<char>>) -> bool {
    exists|p: Pairs| keys_distinct(p) && map_of(p) == m && t == render(p)
}

/// Neither `:` nor a line break occurs in `s`.
pub open spec fn clean(s: Seq<char>) -> bool {
    forall|i: int| 0 <= i < s.len() ==> s[i] != ':' && s[i] != '\n'
}

/// Every key and value of `m` is clean.
pub open spec fn clean_map(m: Map<Seq<char>, Seq<char>>) -> bool {
    forall|k: Seq<char>| #[trigger] m.dom().contains(k) ==> clean(k) && clean(m[k])
}

// ---------------------------------------------------------------------------
// Facts about splitting
// ---------------------------------------------------------------------------

proof fn lemma_split_extend(s: Seq<char>, x: Seq<char>, sep: char)
    requires
        forall|i: int| 0 <= i < x.len() ==> x[i] != sep,
    ensures
        split(s + x, sep) == split(s, sep).update(
            split(s, sep).len() - 1,
            split(s, sep).last() + x,
        ),
    decreases x.len(),
{
    crate::text::lemma_split_nonempty(s, sep);
    if x.len() == 0 {
        assert(s + x =~= s);
        assert(split(s, sep).last() + x =~= split(s, sep).last());
        assert(split(s, sep).update(split(s, sep).len() - 1, split(s, sep).last())
            =~= split(s, sep));
    } else {
        let y = x.drop_last();
        lemma_split_extend(s, y, sep);
        assert((s + x).drop_last() =~= s + y);
        assert((s + x).last() == x.last());
        assert(split(s, sep).last() + y + seq![x.last()] =~= split(s, sep).last() + x);
        assert(x.last() == x[x.len() - 1]);
        let sp = split(s, sep);
        let mid = split(s + y, sep);
        assert(mid.len() == sp.len());
        assert(mid.last() == sp.last() + y);
        assert(split(s + x, sep) == mid.update(mid.len() - 1, mid.last().push(x.last())));
        assert(mid.last().push(x.last()) =~= sp.last() + x);
        assert(split(s + x, sep) =~= split(s, sep).update(
            split(s, sep).len() - 1,
            split(s, sep).last() + x,
        ));
    }
}

proof fn lemma_split_sep(s: Seq<char>, sep: char)
    ensures
        split(s + seq![sep], sep) == split(s, sep).push(Seq::<char>::empty()),
{
    assert((s + seq![sep]).drop_last() =~= s);
}

proof fn lemma_split_plain(x: Seq<char>, sep: char)
    requires
        forall|i: int| 0 <= i < x.len() ==> x[i] != sep,
    ensures
        split(x, sep) == seq![x],
{
    lemma_split_extend(Seq::<char>::empty(), x, sep);
    assert(Seq::<char>::empty() + x =~= x);
    assert(Seq::<char>::empty() + x =~= x);
    assert(split(x, sep) =~= seq![x]);
}

proof fn lemma_line_entry_pair(k: Seq<char>, v: Seq<char>)
    requires
        clean(k),
        clean(v),
    ensures
        line_entry(k + seq![':'] + v) == Some((k, v)),
{
    lemma_split_plain(k, ':');
    lemma_split_sep(k, ':');
    lemma_split_extend(k + seq![':'], v, ':');
    assert(seq![k].push(Seq::<char>::empty()).update(1, Seq::<char>::empty() + v) =~= seq![k, v]);
    assert(Seq::<char>::empty() + v =~= v);
}

/// The lines of the rendering of `p`, without the empty text after the last
/// line break.
spec fn lines_of(p: Pairs) -> Seq<Seq<char>>
    decreases p.len(),
{
    if p.len() == 0 {
        Seq::empty()
    } else {
        lines_of(p.drop_last()).push(p.last().0 + seq![':'] + p.last().1)
    }
}

proof fn lemma_split_render(p: Pairs)
    requires
        forall|i: int| 0 <= i < p.len() ==> clean(#[trigger] p[i].0) && clean(p[i].1),
    ensures
        split(render(p), '\n') == lines_of(p).push(Seq::<char>::empty()),
        lines_of(p).len() == p.len(),
        forall|i: int| 0 <= i < p.len() ==> #[trigger] lines_of(p)[i] == p[i].0 + seq![':'] + p[i].1,
    decreases p.len(),
{
    if p.len() == 0 {
        assert(split(Seq::<char>::empty(), '\n') =~= seq![Seq::<char>::empty()]);
        assert(lines_of(p).push(Seq::<char>::empty()) =~= seq![Seq::<char>::empty()]);
    } else {
        let q = p.drop_last();
        assert forall|i: int| 0 <= i < q.len() implies clean(#[trigger] q[i].0) && clean(q[i].1) by {
            assert(q[i] == p[i]);
        }
        lemma_split_render(q);
        let (k, v) = p.last();
        assert(clean(k) && clean(v)) by {
            assert(p.last() == p[p.len() - 1]);
        }
        let line = k + seq![':'] + v;
        assert forall|i: int| 0 <= i < line.len() implies line[i] != '\n' by {
            if i < k.len() {
                assert(line[i] == k[i]);
            } else if i > k.len() {
                assert(line[i] == v[i - k.len() - 1]);
            }
        }
        let r = render(q);
        lemma_split_extend(r, line, '\n');
        assert(Seq::<char>::empty() + line =~= line);
        lemma_split_sep(r + line, '\n');
        assert(render(p) =~= (r + line) + seq!['\n']);
        assert(lines_of(q).push(Seq::<char>::empty()).update(
            lines_of(q).len() as int,
            Seq::<char>::empty() + line,
        ) =~= lines_of(q).push(line));
        assert forall|i: int| 0 <= i < p.len() implies #[trigger] lines_of(p)[i] == p[i].0 + seq![
            ':',
        ] + p[i].1 by {
            if i < q.len() {
                assert(lines_of(p)[i] == lines_of(q)[i]);
                assert(p[i] == q[i]);
            }
        }
    }
}

proof fn lemma_lines_settings(p: Pairs)
    requires
        keys_distinct(p),
        forall|i: int| 0 <= i < p.len() ==> clean(#[trigger] p[i].0) && clean(p[i].1),
    ensures
        settings_of_lines(lines_of(p)) == map_of(p),
    decreases p.len(),
{
    if p.len() == 0 {
        assert(map_of(p) =~= Map::<Seq<char>, Seq<char>>::empty());
    } else {
        let q = p.drop_last();
        assert forall|i: int| 0 <= i < q.len() implies clean(#[trigger] q[i].0) && clean(q[i].1) by {
            assert(q[i] == p[i]);
        }
        assert(keys_distinct(q)) by {
            assert forall|i: int, j: int|
                0 <= i < q.len() && 0 <= j < q.len() && i != j implies q[i].0 != q[j].0 by {
                assert(q[i] == p[i] && q[j] == p[j]);
            }
        }
        lemma_lines_settings(q);
        let (k, v) = p.last();
        assert(clean(k) && clean(v)) by {
            assert(p.last() == p[p.len() - 1]);
        }
        lemma_line_entry_pair(k, v);
        assert(lines_of(p).drop_last() =~= lines_of(q));
        assert(!has_key(q, k)) by {
            if has_key(q, k) {
                let i = choose|i: int| 0 <= i < q.len() && q[i].0 == k;
                assert(p[i].0 == p[p.len() - 1].0);
            }
        }
        assert(p =~= q.push((k, v)));
        lemma_map_of_push(q, k, v);
    }
}

/// Reading back what was written gives the same settings: the rendering of
/// distinct, clean pairs is read as exactly their map.
pub proof fn law_read_rendered(p: Pairs)
    requires
        keys_distinct(p),
        forall|i: int| 0 <= i < p.len() ==> clean(#[trigger] p[i].0) && clean(p[i].1),
    ensures
        settings_map(render(p)) == map_of(p),
{
    lemma_split_render(p);
    lemma_lines_settings(p);
    let l = lines_of(p);
    assert(l.push(Seq::<char>::empty()).drop_last() =~= l);
    assert(split(Seq::<char>::empty(), ':') =~= seq![Seq::<char>::empty()]);
}

/// Every key and value read from a settings file is clean: a key stops at the
/// first `:`, a value at the next one, and neither crosses a line break.
pub proof fn law_read_is_clean(content: Seq<char>)
    ensures
        clean_map(settings_map(content)),
{
    let lines = split(content, '\n');
    crate::text::lemma_split_pieces_free(content, '\n');
    lemma_lines_clean(lines);
}

proof fn lemma_lines_clean(lines: Seq<Seq<char>>)
    requires
        forall|k: int, j: int|
            0 <= k < lines.len() && 0 <= j < lines[k].len() ==> lines[k][j] != '\n',
    ensures
        clean_map(settings_of_lines(lines)),
    decreases lines.len(),
{
    if lines.len() > 0 {
        let rest = lines.drop_last();
        assert forall|k: int, j: int| 0 <= k < rest.len() && 0 <= j < rest[k].len() implies rest[k][j]
            != '\n' by {
            assert(rest[k] == lines[k]);
        }
        lemma_lines_clean(rest);
        let line = lines.last();
        let parts = split(line, ':');
        crate::text::lemma_split_pieces_free(line, ':');
        crate::text::lemma_split_nonempty(line, ':');
        if parts.len() >= 2 {
            lemma_piece_no_newline(line, ':', '\n');
            assert(clean(parts[0]) && clean(parts[1])) by {
                assert(line == lines[lines.len() - 1]);
            }
        }
    }
}

proof fn lemma_piece_no_newline(s: Seq<char>, sep: char, other: char)
    requires
        forall|j: int| 0 <= j < s.len() ==> s[j] != other,
    ensures
        forall|k: int, j: int|
            0 <= k < split(s, sep).len() && 0 <= j < split(s, sep)[k].len() ==> split(s, sep)[k][j]
                != other,
    decreases s.len(),
{
    if s.len() > 0 {
        crate::text::lemma_split_nonempty(s.drop_last(), sep);
        lemma_piece_no_newline(s.drop_last(), sep, other);
    }
}

// ---------------------------------------------------------------------------
// Executable part
// ---------------------------------------------------------------------------

/// The settings that the file text `content` holds.
pub fn parse_settings(content: &str) -> (m: StrMap)
    ensures
        m.wf(),
        m.map() == settings_map(content@),
{
    let text = chars_of(content);
    let lines = split_on(&text, '\n');
    let mut m = StrMap::new();
    let mut i: usize = 0;
    while i < lines.len()
        invariant
            i <= lines.len(),
            lines.deep_view() == split(content@, '\n'),
            m.wf(),
            m.map() == settings_of_lines(lines.deep_view().take(i as int)),
        decreases lines.len() - i,
    {
        let parts = split_on(&lines[i], ':');
        assert(lines.deep_view()[i as int] == lines[i as int]@);
        assert(lines.deep_view().take(i + 1).drop_last() =~= lines.deep_view().take(i as int));
        if parts.len() >= 2 {
            assert(parts.deep_view()[0] == parts[0]@);
            assert(parts.deep_view()[1] == parts[1]@);
            m.insert(&parts[0], &parts[1]);
        }
        i += 1;
    }
    assert(lines.deep_view().take(lines.len() as int) =~= lines.deep_view());
    m
}

/// The file text that stores `vals`, one `key:value` line per pair.
pub fn render_settings(vals: &StrMap) -> (t: String)
    ensures
        t@ == render(vals.pairs()),
{
    let mut out: Vec<char> = Vec::new();
    let mut i: usize = 0;
    while i < vals.entries.len()
        invariant
            i <= vals.entries.len(),
            out@ == render(vals.pairs().take(i as int)),
        decreases vals.entries.len() - i,
    {
        let k = chars_of(vals.entries[i].0.as_str());
        let v = chars_of(vals.entries[i].1.as_str());
        push_all(&mut out, &k);
        out.push(':');
        push_all(&mut out, &v);
        out.push('\n');
        assert(vals.pairs().take(i + 1).drop_last() =~= vals.pairs().take(i as int));
        assert(vals.pairs()[i as int] == (k@, v@));
        assert(out@ =~= render(vals.pairs().take(i as int)) + pair_line(k@, v@));
        i += 1;
    }
    assert(vals.pairs().take(vals.entries.len() as int) =~= vals.pairs());
    string_of(&out)
}

/// The value stored under `name` in the settings text `content`, or `default`
/// when there is none.
pub fn lookup(content: &str, name: &str, default: &str) -> (r: String)
    ensures
        r@ == (if settings_map(content@).dom().contains(name@) {
            settings_map(content@)[name@]
        } else {
            default@
        }),
{
    let m = parse_settings(content);
    let key = chars_of(name);
    let def = chars_of(default);
    let v = m.get_or(&key, &def);
    string_of(&v)
}

/// The settings text after storing `value` under `name` in `content`: every
/// other key keeps its value.
pub fn store(content: &str, name: &str, value: &str) -> (t: String)
    ensures
        renders(t@, settings_map(content@).insert(name@, value@)),
{
    let mut m = parse_settings(content);
    let key = chars_of(name);
    let val = chars_of(value);
    m.remove(&key);
    m.insert(&key, &val);
    let t = render_settings(&m);
    assert(m.map() =~= settings_map(content@).insert(name@, value@));
    assert(keys_distinct(m.pairs()) && map_of(m.pairs()) == settings_map(content@).insert(
        name@,
        value@,
    ) && t@ == render(m.pairs()));
    t
}

/// A stored setting reads back: after storing a clean `value` under a clean
/// `name`, the file holds the old settings with `name` set to `value`.
pub proof fn law_store_then_read(content: Seq<char>, name: Seq<char>, value: Seq<char>, t: Seq<char>)
    requires
        clean(name),
        clean(value),
        renders(t, settings_map(content).insert(name, value)),
    ensures
        settings_map(t) == settings_map(content).insert(name, value),
        settings_map(t)[name] == value,
{
    let m = settings_map(content).insert(name, value);
    law_read_is_clean(content);
    let p = choose|p: Pairs| keys_distinct(p) && map_of(p) == m && t == render(p);
    assert forall|i: int| 0 <= i < p.len() implies clean(#[trigger] p[i].0) && clean(p[i].1) by {
        crate::strmap::lemma_map_of_at(p, i);
        if p[i].0 != name {
            assert(settings_map(content).dom().contains(p[i].0));
        }
    }
    law_read_rendered(p);
}

} // verus!
