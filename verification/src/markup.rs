//! The rewriting of view markup (`<tag attrs>content</>`) and of style sheets
//! (`sel { prop: value; }`) into JSON text.
use vstd::prelude::*;
use crate::text::{
    replace_all, collapse_spaces, trim, replace, collapse, trimmed, chars_of, string_of, utf8_len,
    byte_cut, contains, two_spaces, trim_front, trim_back, is_ws, lemma_replace_len,
};

verus! {

/// `"`.
pub open spec fn quote() -> Seq<char> {
    seq!['"']
}

/// `]], "content": [[`: what a `>` that closes a tag's head becomes.
pub open spec fn head_end() -> Seq<char> {
    seq![']', ']', ',', ' ', '"', 'c', 'o', 'n', 't', 'e', 'n', 't', '"', ':', ' ', '[', '[']
}

/// `{ "<key>": [[`: what a `<` that opens a tag becomes, for the given key.
pub open spec fn head_start(key: Seq<char>) -> Seq<char> {
    seq!['{', ' ', '"'] + key + seq!['"', ':', ' ', '[', '[']
}

/// `tag`.
pub open spec fn tag_key() -> Seq<char> {
    seq!['t', 'a', 'g']
}

/// `inner`.
pub open spec fn inner_key() -> Seq<char> {
    seq!['i', 'n', 'n', 'e', 'r']
}

/// The rewriting shared by both kinds of view, from the step that turns `</>`
/// into a closing brace on.
pub open spec fn markup_tail(s: Seq<char>, key: Seq<char>) -> Seq<char> {
    let a = replace_all(s, seq!['<', '/', '>'], seq![']', ']', ' ', '}']);
    let b = replace_all(a, seq!['>'], head_end());
    let c = replace_all(b, seq!['<'], head_start(key));
    let d = replace_all(c, seq!['[', '[', '{'], seq!['[', '{']);
    let e = replace_all(d, seq!['}', ']', ']'], seq!['}', ']']);
    let f = replace_all(e, seq!['}', '{'], seq!['}', ',', '{']);
    let g = replace_all(f, seq!['[', '['], quote());
    replace_all(g, seq![']', ']'], quote())
}

/// A view's text with line breaks dropped, outer white space trimmed and runs
/// of spaces collapsed.
pub open spec fn flattened(raw: Seq<char>) -> Seq<char> {
    collapse_spaces(trim(replace_all(raw, seq!['\n'], Seq::empty())))
}

/// The JSON text of a view in the window tree's dialect: tags under `"tag"`,
/// `> <` joined and the result trimmed before the tags are rewritten.
pub open spec fn scene_json(raw: Seq<char>) -> Seq<char> {
    let s = trim(replace_all(flattened(raw), seq!['>', ' ', '<'], seq!['>', '<']));
    markup_tail(s, tag_key())
}

/// The JSON text of a view in the layer dialect: quotes escaped, tags under
/// `"inner"`.
pub open spec fn layer_json(raw: Seq<char>) -> Seq<char> {
    let a = replace_all(flattened(raw), quote(), seq!['\\', '"']);
    let b = replace_all(a, seq!['>', ' ', '<'], seq!['>', '<']);
    markup_tail(b, inner_key())
}

/// The JSON document around a rewritten view: `{ "content": [ ... ] }`.
pub open spec fn view_document(body: Seq<char>) -> Seq<char> {
    seq!['{', ' ', '"', 'c', 'o', 'n', 't', 'e', 'n', 't', '"', ':', ' ', '[', ' '] + body + seq![
        ' ',
        ']',
        ' ',
        '}',
    ]
}

/// How many times `c` occurs in `s`.
pub open spec fn count_of(s: Seq<char>, c: char) -> nat
    decreases s.len(),
{
    if s.len() == 0 {
        0
    } else {
        (if s[0] == c {
            1nat
        } else {
            0nat
        }) + count_of(s.skip(1), c)
    }
}

proof fn lemma_count_concat(a: Seq<char>, b: Seq<char>, c: char)
    ensures
        count_of(a + b, c) == count_of(a, c) + count_of(b, c),
    decreases a.len(),
{
    if a.len() == 0 {
        assert(a + b =~= b);
    } else {
        assert((a + b).skip(1) =~= a.skip(1) + b);
        lemma_count_concat(a.skip(1), b, c);
    }
}

/// A text without `c` holds no `c`.
proof fn lemma_count_none(s: Seq<char>, c: char)
    requires
        forall|i: int| 0 <= i < s.len() ==> s[i] != c,
    ensures
        count_of(s, c) == 0,
    decreases s.len(),
{
    if s.len() > 0 {
        lemma_count_none(s.skip(1), c);
    }
}

proof fn lemma_count_one(x: char, c: char)
    ensures
        count_of(seq![x], c) == if x == c {
            1nat
        } else {
            0nat
        },
{
    let s = seq![x];
    assert(s.len() == 1 && s[0] == x);
    assert(s.skip(1) =~= Seq::<char>::empty());
    assert(count_of(s.skip(1), c) == 0);
}

/// Replacing a pattern that holds no `c` by a text that holds none keeps the
/// number of `c`s.
proof fn lemma_count_replace_free(s: Seq<char>, pat: Seq<char>, rep: Seq<char>, c: char)
    requires
        count_of(pat, c) == 0,
        count_of(rep, c) == 0,
    ensures
        count_of(replace_all(s, pat, rep), c) == count_of(s, c),
    decreases s.len(),
{
    if pat.len() == 0 || s.len() < pat.len() {
    } else if s.subrange(0, pat.len() as int) == pat {
        let rest = s.skip(pat.len() as int);
        lemma_count_replace_free(rest, pat, rep, c);
        lemma_count_concat(rep, replace_all(rest, pat, rep), c);
        assert(s =~= pat + rest);
        lemma_count_concat(pat, rest, c);
    } else {
        lemma_count_replace_free(s.skip(1), pat, rep, c);
        lemma_count_concat(seq![s[0]], replace_all(s.skip(1), pat, rep), c);
        lemma_count_one(s[0], c);
    }
}

/// Escaping every `"` as `\"` adds one backslash for each quote.
proof fn lemma_count_escape(s: Seq<char>)
    ensures
        count_of(replace_all(s, quote(), seq!['\\', '"']), '\\') == count_of(s, '\\') + count_of(s, '"'),
    decreases s.len(),
{
    let e = seq!['\\', '"'];
    if s.len() == 0 {
    } else if s.subrange(0, 1) == quote() {
        let rest = s.skip(1);
        lemma_count_escape(rest);
        lemma_count_concat(e, replace_all(rest, quote(), e), '\\');
        lemma_count_concat(seq!['\\'], seq!['"'], '\\');
        lemma_count_one('\\', '\\');
        lemma_count_one('"', '\\');
        assert(e =~= seq!['\\'] + seq!['"']);
        assert(s[0] == '"') by {
            assert(s.subrange(0, 1)[0] == s[0]);
        }
    } else {
        lemma_count_escape(s.skip(1));
        lemma_count_concat(seq![s[0]], replace_all(s.skip(1), quote(), e), '\\');
        lemma_count_one(s[0], '\\');
        assert(s[0] != '"') by {
            if s[0] == '"' {
                assert(s.subrange(0, 1) =~= quote());
            }
        }
    }
}

/// Collapsing runs of spaces keeps the number of `c`s, for any `c` but a space.
proof fn lemma_count_collapse(s: Seq<char>, c: char)
    requires
        c != ' ',
    ensures
        count_of(collapse_spaces(s), c) == count_of(s, c),
    decreases s.len(),
{
    if contains(s, two_spaces()) {
        lemma_replace_len(s, two_spaces(), seq![' ']);
        assert(count_of(two_spaces(), c) == 0) by {
            assert(two_spaces().skip(1) =~= seq![' ']);
            lemma_count_one(' ', c);
        }
        lemma_count_one(' ', c);
        lemma_count_replace_free(s, two_spaces(), seq![' '], c);
        lemma_count_collapse(replace_all(s, two_spaces(), seq![' ']), c);
    }
}

/// Trimming white space keeps the number of `c`s, for any `c` that is not
/// white space.
proof fn lemma_count_trim(s: Seq<char>, c: char)
    requires
        !is_ws(c),
    ensures
        count_of(trim(s), c) == count_of(s, c),
{
    lemma_count_trim_front(s, c);
    lemma_count_trim_back(trim_front(s), c);
}

proof fn lemma_count_trim_front(s: Seq<char>, c: char)
    requires
        !is_ws(c),
    ensures
        count_of(trim_front(s), c) == count_of(s, c),
    decreases s.len(),
{
    if s.len() > 0 && is_ws(s[0]) {
        assert(s.drop_first() =~= s.skip(1));
        lemma_count_trim_front(s.drop_first(), c);
    }
}

proof fn lemma_count_trim_back(s: Seq<char>, c: char)
    requires
        !is_ws(c),
    ensures
        count_of(trim_back(s), c) == count_of(s, c),
    decreases s.len(),
{
    if s.len() > 0 && is_ws(s.last()) {
        lemma_count_trim_back(s.drop_last(), c);
        assert(s =~= s.drop_last() + seq![s.last()]);
        lemma_count_concat(s.drop_last(), seq![s.last()], c);
        lemma_count_one(s.last(), c);
    }
}

/// Flattening a view keeps its backslashes and its double quotes.
proof fn lemma_count_flattened(raw: Seq<char>, c: char)
    requires
        c == '\\' || c == '"',
    ensures
        count_of(flattened(raw), c) == count_of(raw, c),
{
    let nl = seq!['\n'];
    lemma_count_one('\n', c);
    assert(count_of(Seq::<char>::empty(), c) == 0);
    lemma_count_replace_free(raw, nl, Seq::empty(), c);
    let a = replace_all(raw, nl, Seq::empty());
    lemma_count_trim(a, c);
    lemma_count_collapse(trim(a), c);
}

/// Every double quote of a view's text is escaped in the view's layer JSON,
/// so none of them ends a JSON string early: the JSON holds one backslash for
/// each backslash and each double quote of the view, and the rewriting of
/// the tags adds none.
pub proof fn law_layer_json_escapes_quotes(raw: Seq<char>)
    ensures
        count_of(layer_json(raw), '\\') == count_of(raw, '\\') + count_of(raw, '"'),
{
    let bs = '\\';
    let f = flattened(raw);
    lemma_count_flattened(raw, '\\');
    lemma_count_flattened(raw, '"');
    lemma_count_escape(f);
    let a = replace_all(f, quote(), seq!['\\', '"']);
    lemma_count_none(seq!['>', ' ', '<'], bs);
    lemma_count_none(seq!['>', '<'], bs);
    lemma_count_replace_free(a, seq!['>', ' ', '<'], seq!['>', '<'], bs);
    let b = replace_all(a, seq!['>', ' ', '<'], seq!['>', '<']);
    lemma_count_none(inner_key(), bs);
    lemma_count_markup_tail(b, inner_key());
}

/// Rewriting the tags adds and removes no backslash, for a key without one.
proof fn lemma_count_markup_tail(s: Seq<char>, key: Seq<char>)
    requires
        count_of(key, '\\') == 0,
    ensures
        count_of(markup_tail(s, key), '\\') == count_of(s, '\\'),
{
    let bs = '\\';
    lemma_count_none(seq!['<', '/', '>'], bs);
    lemma_count_none(seq![']', ']', ' ', '}'], bs);
    lemma_count_none(seq!['>'], bs);
    lemma_count_none(head_end(), bs);
    lemma_count_none(seq!['<'], bs);
    lemma_count_none(seq!['{', ' ', '"'], bs);
    lemma_count_none(seq!['"', ':', ' ', '[', '['], bs);
    lemma_count_concat(seq!['{', ' ', '"'], key, bs);
    lemma_count_concat(seq!['{', ' ', '"'] + key, seq!['"', ':', ' ', '[', '['], bs);
    assert(count_of(head_start(key), bs) == 0);
    lemma_count_none(seq!['[', '[', '{'], bs);
    lemma_count_none(seq!['[', '{'], bs);
    lemma_count_none(seq!['}', ']', ']'], bs);
    lemma_count_none(seq!['}', ']'], bs);
    lemma_count_none(seq!['}', '{'], bs);
    lemma_count_none(seq!['}', ',', '{'], bs);
    lemma_count_none(seq!['[', '['], bs);
    lemma_count_none(quote(), bs);
    lemma_count_none(seq![']', ']'], bs);
    let a = replace_all(s, seq!['<', '/', '>'], seq![']', ']', ' ', '}']);
    lemma_count_replace_free(s, seq!['<', '/', '>'], seq![']', ']', ' ', '}'], bs);
    let b = replace_all(a, seq!['>'], head_end());
    lemma_count_replace_free(a, seq!['>'], head_end(), bs);
    let c = replace_all(b, seq!['<'], head_start(key));
    lemma_count_replace_free(b, seq!['<'], head_start(key), bs);
    let d = replace_all(c, seq!['[', '[', '{'], seq!['[', '{']);
    lemma_count_replace_free(c, seq!['[', '[', '{'], seq!['[', '{'], bs);
    let e = replace_all(d, seq!['}', ']', ']'], seq!['}', ']']);
    lemma_count_replace_free(d, seq!['}', ']', ']'], seq!['}', ']'], bs);
    let f = replace_all(e, seq!['}', '{'], seq!['}', ',', '{']);
    lemma_count_replace_free(e, seq!['}', '{'], seq!['}', ',', '{'], bs);
    let g = replace_all(f, seq!['[', '['], quote());
    lemma_count_replace_free(f, seq!['[', '['], quote(), bs);
    lemma_count_replace_free(g, seq![']', ']'], quote(), bs);
}

fn chars1(c0: char) -> (v: Vec<char>)
    ensures
        v@ == seq![c0],
{
    let v = vec![c0];
    assert(v@ =~= seq![c0]);
    v
}

fn chars2(c0: char, c1: char) -> (v: Vec<char>)
    ensures
        v@ == seq![c0, c1],
{
    let v = vec![c0, c1];
    assert(v@ =~= seq![c0, c1]);
    v
}

fn chars3(c0: char, c1: char, c2: char) -> (v: Vec<char>)
    ensures
        v@ == seq![c0, c1, c2],
{
    let v = vec![c0, c1, c2];
    assert(v@ =~= seq![c0, c1, c2]);
    v
}

fn chars4(c0: char, c1: char, c2: char, c3: char) -> (v: Vec<char>)
    ensures
        v@ == seq![c0, c1, c2, c3],
{
    let v = vec![c0, c1, c2, c3];
    assert(v@ =~= seq![c0, c1, c2, c3]);
    v
}

fn chars5(c0: char, c1: char, c2: char, c3: char, c4: char) -> (v: Vec<char>)
    ensures
        v@ == seq![c0, c1, c2, c3, c4],
{
    let v = vec![c0, c1, c2, c3, c4];
    assert(v@ =~= seq![c0, c1, c2, c3, c4]);
    v
}

fn chars6(c0: char, c1: char, c2: char, c3: char, c4: char, c5: char) -> (v: Vec<char>)
    ensures
        v@ == seq![c0, c1, c2, c3, c4, c5],
{
    let v = vec![c0, c1, c2, c3, c4, c5];
    assert(v@ =~= seq![c0, c1, c2, c3, c4, c5]);
    v
}

fn rep(s: &Vec<char>, pat: Vec<char>, by: Vec<char>) -> (r: Vec<char>)
    requires
        pat.len() > 0,
    ensures
        r@ == replace_all(s@, pat@, by@),
{
    replace(s, &pat, &by)
}

fn tail(s: Vec<char>, key: &Vec<char>) -> (r: Vec<char>)
    ensures
        r@ == markup_tail(s@, key@),
{
    let a = rep(&s, chars3('<', '/', '>'), chars4(']', ']', ' ', '}'));
    let he = vec![']', ']', ',', ' ', '"', 'c', 'o', 'n', 't', 'e', 'n', 't', '"', ':', ' ', '[', '['];
    assert(he@ =~= head_end());
    let b = rep(&a, chars1('>'), he);
    let mut open = chars3('{', ' ', '"');
    crate::text::push_all(&mut open, key);
    let close = chars5('"', ':', ' ', '[', '[');
    crate::text::push_all(&mut open, &close);
    let c = rep(&b, chars1('<'), open);
    let d = rep(&c, chars3('[', '[', '{'), chars2('[', '{'));
    let e = rep(&d, chars3('}', ']', ']'), chars2('}', ']'));
    let f = rep(&e, chars2('}', '{'), chars3('}', ',', '{'));
    let g = rep(&f, chars2('[', '['), chars1('"'));
    let h = rep(&g, chars2(']', ']'), chars1('"'));
    assert(h@ =~= markup_tail(s@, key@));
    h
}

fn flatten(raw: &str) -> (r: Vec<char>)
    ensures
        r@ == flattened(raw@),
{
    let text = chars_of(raw);
    let a = rep(&text, chars1('\n'), Vec::new());
    let b = trimmed(&a);
    collapse(b)
}

/// The JSON text of a view in the window tree's dialect.
pub fn scene_process(raw: &str) -> (r: String)
    ensures
        r@ == scene_json(raw@),
{
    let f = flatten(raw);
    let a = rep(&f, chars3('>', ' ', '<'), chars2('>', '<'));
    let b = trimmed(&a);
    let key = chars3('t', 'a', 'g');
    assert(key@ =~= tag_key());
    let r = tail(b, &key);
    string_of(&r)
}

/// The JSON text of a view in the layer dialect.
pub fn layer_process(raw: &str) -> (r: String)
    ensures
        r@ == layer_json(raw@),
{
    let f = flatten(raw);
    let a = rep(&f, chars1('"'), chars2('\\', '"'));
    let b = rep(&a, chars3('>', ' ', '<'), chars2('>', '<'));
    let key = chars5('i', 'n', 'n', 'e', 'r');
    assert(key@ =~= inner_key());
    let r = tail(b, &key);
    string_of(&r)
}

/// `{ "content": [ body ] }`.
pub fn document(body: &str) -> (r: String)
    ensures
        r@ == view_document(body@),
{
    let mut d = vec!['{', ' ', '"', 'c', 'o', 'n', 't', 'e', 'n', 't', '"', ':', ' ', '[', ' '];
    let b = chars_of(body);
    crate::text::push_all(&mut d, &b);
    let e = chars4(' ', ']', ' ', '}');
    crate::text::push_all(&mut d, &e);
    assert(d@ =~= view_document(body@));
    string_of(&d)
}

/// A style sheet's text before its last three bytes are cut: line breaks as
/// spaces, trimmed, quoted in front, a space behind, spacing around `:`, `{`,
/// `}` and `;`, runs of spaces collapsed, and the separators turned into JSON
/// punctuation.
pub open spec fn style_body(raw: Seq<char>) -> Seq<char> {
    let a = quote() + trim(replace_all(raw, seq!['\n'], seq![' '])) + seq![' '];
    let b = replace_all(a, seq![':'], seq![':', ' ']);
    let c = replace_all(b, seq!['{'], seq!['{', ' ']);
    let d = replace_all(c, seq!['}'], seq![' ', '}']);
    let e = replace_all(d, seq![';'], seq![';', ' ']);
    let f = collapse_spaces(e);
    let g = replace_all(f, seq![';', ' '], seq!['"', ',', ' ', '"']);
    let h = replace_all(g, seq![':', ' '], seq!['"', ':', ' ', '"']);
    let i = replace_all(h, seq![' ', '{', ' '], seq!['"', ':', ' ', '{', ' ', '"']);
    replace_all(i, seq![',', ' ', '"', '}', ' '], seq![' ', '}', ',', ' ', '"'])
}

/// The style sheet's body ends in whole characters that take three bytes, so
/// cutting those bytes off stays on a character boundary.
pub open spec fn style_cuttable(raw: Seq<char>) -> bool {
    exists|k: int| 0 <= k <= style_body(raw).len() && utf8_len(style_body(raw).skip(k)) == 3
}

/// The JSON text of a style sheet: `{ ` and the body without its last three
/// bytes (that is, without the characters that make them up), then ` }`.
pub open spec fn style_json(raw: Seq<char>) -> Seq<char> {
    let body = style_body(raw);
    let k = choose|k: int| 0 <= k <= body.len() && utf8_len(body.skip(k)) == 3;
    seq!['{', ' '] + body.take(k) + seq![' ', '}']
}

fn style_body_of(raw: &str) -> (r: Vec<char>)
    ensures
        r@ == style_body(raw@),
{
    let text = chars_of(raw);
    let a0 = rep(&text, chars1('\n'), chars1(' '));
    let t = trimmed(&a0);
    let mut a = chars1('"');
    crate::text::push_all(&mut a, &t);
    a.push(' ');
    let b = rep(&a, chars1(':'), chars2(':', ' '));
    let c = rep(&b, chars1('{'), chars2('{', ' '));
    let d = rep(&c, chars1('}'), chars2(' ', '}'));
    let e = rep(&d, chars1(';'), chars2(';', ' '));
    let f = collapse(e);
    let g = rep(&f, chars2(';', ' '), chars4('"', ',', ' ', '"'));
    let h = rep(&g, chars2(':', ' '), chars4('"', ':', ' ', '"'));
    let i = rep(&h, chars3(' ', '{', ' '), chars6('"', ':', ' ', '{', ' ', '"'));
    let j = rep(&i, chars5(',', ' ', '"', '}', ' '), chars5(' ', '}', ',', ' ', '"'));
    assert(a@ =~= quote() + trim(replace_all(raw@, seq!['\n'], seq![' '])) + seq![' ']);
    assert(j@ =~= style_body(raw@));
    j
}

/// Whether the style sheet `raw` can be rewritten (its body ends in three
/// bytes of whole characters).
pub fn style_processable(raw: &str) -> (r: bool)
    ensures
        r == style_cuttable(raw@),
{
    let body = style_body_of(raw);
    byte_cut(&body, 3).is_some()
}

/// The JSON text of a style sheet.
pub fn style_process(raw: &str) -> (r: String)
    requires
        style_cuttable(raw@),
    ensures
        r@ == style_json(raw@),
{
    let body = style_body_of(raw);
    let k = match byte_cut(&body, 3) {
        Some(k) => k,
        None => {
            return String::new();
        },
    };
    proof {
        let kc = choose|kc: int| 0 <= kc <= body@.len() && utf8_len(body@.skip(kc)) == 3;
        crate::text::lemma_cut_unique(body@, kc, k as int);
    }
    let mut out = vec!['{', ' '];
    let head = crate::text::slice_of(&body, 0, k);
    crate::text::push_all(&mut out, &head);
    out.push(' ');
    out.push('}');
    assert(out@ =~= style_json(raw@));
    string_of(&out)
}

} // verus!
