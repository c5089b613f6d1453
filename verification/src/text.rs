//! Character-level text helpers shared by the markup, style and settings code.
//!
//! Text is handled as `Vec<char>` inside the library; its view is the `Seq<char>`
//! that every contract speaks of.
use vstd::prelude::*;
use vstd::std_specs::iter::IteratorSpec;

verus! {

broadcast use vstd::string::group_string_axioms;

// ---------------------------------------------------------------------------
// Conversions
// ---------------------------------------------------------------------------

/// The characters of `s`, in order.
pub fn chars_of(s: &str) -> (v: Vec<char>)
    ensures
        v@ == s@,
{
    let mut v: Vec<char> = Vec::new();
    for c in it: s.chars()
        invariant
            v@ == it.seq().take(it.index() as int),
    {
        v.push(c);
    }
    v
}

/// Builds a `String` holding exactly the characters of `v`
/// (calls `Iterator::collect` into a `String`).
#[verifier::external_body]
pub(crate) fn string_of(v: &Vec<char>) -> (s: String)
    ensures
        s@ == v@,
{
    v.iter().collect::<String>()
}

/// Appends all of `src` to `out`.
pub fn push_all(out: &mut Vec<char>, src: &Vec<char>)
    ensures
        final(out)@ == old(out)@ + src@,
{
    let mut i: usize = 0;
    while i < src.len()
        invariant
            i <= src.len(),
            out@ == old(out)@ + src@.take(i as int),
        decreases src.len() - i,
    {
        out.push(src[i]);
        i += 1;
        assert(src@.take(i as int) =~= src@.take(i - 1) + seq![src@[i - 1]]);
    }
    assert(src@.take(src.len() as int) =~= src@);
}

/// A copy of `s[from..to]`.
pub fn slice_of(s: &Vec<char>, from: usize, to: usize) -> (r: Vec<char>)
    requires
        from <= to <= s.len(),
    ensures
        r@ == s@.subrange(from as int, to as int),
{
    let mut r: Vec<char> = Vec::new();
    let mut i = from;
    while i < to
        invariant
            from <= i <= to <= s.len(),
            r@ == s@.subrange(from as int, i as int),
        decreases to - i,
    {
        r.push(s[i]);
        i += 1;
        assert(r@ =~= s@.subrange(from as int, i as int));
    }
    r
}

/// Whether two character sequences are equal.
pub fn same(a: &Vec<char>, b: &Vec<char>) -> (r: bool)
    ensures
        r == (a@ == b@),
{
    if a.len() != b.len() {
        return false;
    }
    let mut i: usize = 0;
    while i < a.len()
        invariant
            a.len() == b.len(),
            i <= a.len(),
            a@.take(i as int) == b@.take(i as int),
        decreases a.len() - i,
    {
        if a[i] != b[i] {
            assert(a@[i as int] != b@[i as int]);
            return false;
        }
        i += 1;
        assert(a@.take(i as int) =~= a@.take(i - 1) + seq![a@[i - 1]]);
        assert(b@.take(i as int) =~= b@.take(i - 1) + seq![b@[i - 1]]);
    }
    assert(a@ =~= a@.take(a.len() as int));
    assert(b@ =~= b@.take(b.len() as int));
    true
}

/// Whether the text of `s` is the literal `lit`.
pub fn is(s: &String, lit: &str) -> (r: bool)
    ensures
        r == (s@ == lit@),
{
    let t = String::from_str(lit);
    s.eq(&t)
}

// ---------------------------------------------------------------------------
// Occurrences and replacement
// ---------------------------------------------------------------------------

/// `pat` occurs in `s` at position `i`.
pub open spec fn occurs_at(s: Seq<char>, pat: Seq<char>, i: int) -> bool {
    0 <= i && i + pat.len() <= s.len() && s.subrange(i, i + pat.len()) == pat
}

/// `pat` occurs somewhere in `s`.
pub open spec fn contains(s: Seq<char>, pat: Seq<char>) -> bool {
    exists|i: int| occurs_at(s, pat, i)
}

/// Every occurrence of `pat` in `s` replaced by `rep`, scanning from the left and
/// never letting two replaced occurrences overlap (what `str::replace` does for a
/// non-empty pattern).
pub open spec fn replace_all(s: Seq<char>, pat: Seq<char>, rep: Seq<char>) -> Seq<char>
    decreases s.len(),
{
    if pat.len() == 0 || s.len() < pat.len() {
        s
    } else if s.subrange(0, pat.len() as int) == pat {
        rep + replace_all(s.skip(pat.len() as int), pat, rep)
    } else {
        seq![s[0]] + replace_all(s.skip(1), pat, rep)
    }
}

/// Whether `pat` occurs in `s` at position `i`.
pub fn matches_at(s: &Vec<char>, pat: &Vec<char>, i: usize) -> (r: bool)
    requires
        i <= s.len(),
    ensures
        r == occurs_at(s@, pat@, i as int),
{
    if pat.len() > s.len() - i {
        return false;
    }
    let mut j: usize = 0;
    while j < pat.len()
        invariant
            i + pat.len() <= s.len(),
            j <= pat.len(),
            s@.subrange(i as int, i + j) == pat@.take(j as int),
        decreases pat.len() - j,
    {
        if s[i + j] != pat[j] {
            assert(s@.subrange(i as int, i + pat.len())[j as int] != pat@[j as int]);
            return false;
        }
        j += 1;
        assert(s@.subrange(i as int, i + j) =~= s@.subrange(i as int, i + j - 1) + seq![s@[i + j - 1]]);
        assert(pat@.take(j as int) =~= pat@.take(j - 1) + seq![pat@[j - 1]]);
    }
    assert(pat@.take(pat.len() as int) =~= pat@);
    true
}

proof fn lemma_skip_shift(s: Seq<char>, i: int, k: int)
    requires
        0 <= i,
        0 <= k,
        i + k <= s.len(),
    ensures
        s.skip(i).skip(k) =~= s.skip(i + k),
        s.skip(i).subrange(0, k) =~= s.subrange(i, i + k),
{
}

/// `s` with every occurrence of the non-empty `pat` replaced by `rep`.
pub fn replace(s: &Vec<char>, pat: &Vec<char>, rep: &Vec<char>) -> (r: Vec<char>)
    requires
        pat.len() > 0,
    ensures
        r@ == replace_all(s@, pat@, rep@),
{
    let mut out: Vec<char> = Vec::new();
    let mut i: usize = 0;
    assert(s@.skip(0) =~= s@);
    while i < s.len()
        invariant
            pat.len() > 0,
            i <= s.len(),
            replace_all(s@, pat@, rep@) == out@ + replace_all(s@.skip(i as int), pat@, rep@),
        decreases s.len() - i,
    {
        let ghost t = s@.skip(i as int);
        let ghost o = out@;
        if matches_at(s, pat, i) {
            proof {
                lemma_skip_shift(s@, i as int, pat.len() as int);
            }
            push_all(&mut out, rep);
            i += pat.len();
            assert(o + replace_all(t, pat@, rep@) =~= out@ + replace_all(s@.skip(i as int), pat@, rep@));
        } else {
            proof {
                if t.len() >= pat.len() {
                    lemma_skip_shift(s@, i as int, pat.len() as int);
                } else {
                    assert(replace_all(t, pat@, rep@) == t);
                    assert(replace_all(t.skip(1), pat@, rep@) == t.skip(1));
                }
                lemma_skip_shift(s@, i as int, 1);
                assert(t =~= seq![t[0]] + t.skip(1));
            }
            out.push(s[i]);
            i += 1;
            assert(o + replace_all(t, pat@, rep@) =~= out@ + replace_all(s@.skip(i as int), pat@, rep@));
        }
    }
    assert(s@.skip(s.len() as int) =~= Seq::<char>::empty());
    out
}

/// Replacing never lengthens the text when the replacement is no longer than
/// the pattern, and shortens it when it is strictly shorter and the pattern occurs.
pub proof fn lemma_replace_len(s: Seq<char>, pat: Seq<char>, rep: Seq<char>)
    requires
        pat.len() > 0,
        rep.len() <= pat.len(),
    ensures
        replace_all(s, pat, rep).len() <= s.len(),
        rep.len() < pat.len() && contains(s, pat) ==> replace_all(s, pat, rep).len() < s.len(),
    decreases s.len(),
{
    if s.len() < pat.len() {
        if contains(s, pat) {
            let i = choose|i: int| occurs_at(s, pat, i);
            assert(false);
        }
    } else if s.subrange(0, pat.len() as int) == pat {
        lemma_replace_len(s.skip(pat.len() as int), pat, rep);
    } else {
        lemma_replace_len(s.skip(1), pat, rep);
        if contains(s, pat) {
            let i = choose|i: int| occurs_at(s, pat, i);
            if i == 0 {
                assert(false);
            }
            assert(s.skip(1).subrange(i - 1, i - 1 + pat.len()) =~= s.subrange(i, i + pat.len()));
            assert(occurs_at(s.skip(1), pat, i - 1));
        }
    }
}

/// The first position at or after `i` where `pat` occurs in `s`
/// (`str::find` when `i` is 0).
pub open spec fn first_from(s: Seq<char>, pat: Seq<char>, i: int) -> Option<int>
    decreases s.len() + 1 - i,
{
    if i < 0 || i > s.len() {
        None
    } else if occurs_at(s, pat, i) {
        Some(i)
    } else {
        first_from(s, pat, i + 1)
    }
}

/// The first position where `pat` occurs in `s`, if it occurs.
pub fn index_of(s: &Vec<char>, pat: &Vec<char>) -> (r: Option<usize>)
    ensures
        r matches Some(i) ==> first_from(s@, pat@, 0) == Some(i as int) && i <= s.len(),
        r is None ==> first_from(s@, pat@, 0) is None,
{
    let mut i: usize = 0;
    while i < s.len()
        invariant
            i <= s.len(),
            first_from(s@, pat@, 0) == first_from(s@, pat@, i as int),
        decreases s.len() - i,
    {
        if matches_at(s, pat, i) {
            return Some(i);
        }
        i += 1;
    }
    if matches_at(s, pat, i) {
        return Some(i);
    }
    assert(first_from(s@, pat@, i + 1) is None);
    None
}

/// Whether `pat` occurs anywhere in `s`.
pub fn find(s: &Vec<char>, pat: &Vec<char>) -> (r: bool)
    ensures
        r == contains(s@, pat@),
{
    let mut i: usize = 0;
    while i < s.len()
        invariant
            i <= s.len(),
            forall|k: int| 0 <= k < i ==> !occurs_at(s@, pat@, k),
        decreases s.len() - i,
    {
        if matches_at(s, pat, i) {
            return true;
        }
        i += 1;
    }
    if matches_at(s, pat, i) {
        return true;
    }
    assert forall|k: int| !occurs_at(s@, pat@, k) by {
        if 0 <= k <= i {
        }
    }
    false
}

// ---------------------------------------------------------------------------
// Runs of spaces
// ---------------------------------------------------------------------------

/// Two spaces in a row.
pub open spec fn two_spaces() -> Seq<char> {
    seq![' ', ' ']
}

/// The text after repeatedly replacing every pair of spaces by one space until
/// no pair is left.
pub open spec fn collapse_spaces(s: Seq<char>) -> Seq<char>
    decreases s.len(),
{
    if contains(s, two_spaces()) {
        proof {
            lemma_replace_len(s, two_spaces(), seq![' ']);
        }
        collapse_spaces(replace_all(s, two_spaces(), seq![' ']))
    } else {
        s
    }
}

/// After collapsing, no two spaces stand next to each other.
pub proof fn lemma_collapse_spaces_clean(s: Seq<char>)
    ensures
        !contains(collapse_spaces(s), two_spaces()),
    decreases s.len(),
{
    if contains(s, two_spaces()) {
        lemma_replace_len(s, two_spaces(), seq![' ']);
        lemma_collapse_spaces_clean(replace_all(s, two_spaces(), seq![' ']));
    }
}

/// Replaces pairs of spaces by single spaces until none is left.
pub fn collapse(s: Vec<char>) -> (r: Vec<char>)
    ensures
        r@ == collapse_spaces(s@),
        !contains(r@, two_spaces()),
{
    let two = vec![' ', ' '];
    let one = vec![' '];
    assert(two@ =~= two_spaces());
    assert(one@ =~= seq![' ']);
    let mut cur = s;
    while find(&cur, &two)
        invariant
            two@ == two_spaces(),
            one@ == seq![' '],
            collapse_spaces(s@) == collapse_spaces(cur@),
        decreases cur@.len(),
    {
        proof {
            lemma_replace_len(cur@, two_spaces(), seq![' ']);
        }
        cur = replace(&cur, &two, &one);
    }
    proof {
        lemma_collapse_spaces_clean(s@);
    }
    cur
}

// ---------------------------------------------------------------------------
// Whitespace trimming
// ---------------------------------------------------------------------------

/// The characters with the Unicode `White_Space` property, which is what
/// `char::is_whitespace` and `str::trim` go by.
pub open spec fn is_ws(c: char) -> bool {
    ||| ('\u{9}' <= c && c <= '\u{d}')
    ||| c == ' '
    ||| c == '\u{85}'
    ||| c == '\u{a0}'
    ||| c == '\u{1680}'
    ||| ('\u{2000}' <= c && c <= '\u{200a}')
    ||| c == '\u{2028}'
    ||| c == '\u{2029}'
    ||| c == '\u{202f}'
    ||| c == '\u{205f}'
    ||| c == '\u{3000}'
}

/// Whether `c` is white space.
pub fn ws(c: char) -> (r: bool)
    ensures
        r == is_ws(c),
{
    ('\u{9}' <= c && c <= '\u{d}') || c == ' ' || c == '\u{85}' || c == '\u{a0}' || c == '\u{1680}'
        || ('\u{2000}' <= c && c <= '\u{200a}') || c == '\u{2028}' || c == '\u{2029}' || c
        == '\u{202f}' || c == '\u{205f}' || c == '\u{3000}'
}

/// `s` without its leading white space.
pub open spec fn trim_front(s: Seq<char>) -> Seq<char>
    decreases s.len(),
{
    if s.len() > 0 && is_ws(s[0]) {
        trim_front(s.drop_first())
    } else {
        s
    }
}

/// `s` without its trailing white space.
pub open spec fn trim_back(s: Seq<char>) -> Seq<char>
    decreases s.len(),
{
    if s.len() > 0 && is_ws(s.last()) {
        trim_back(s.drop_last())
    } else {
        s
    }
}

/// `s` without leading and trailing white space (`str::trim`).
pub open spec fn trim(s: Seq<char>) -> Seq<char> {
    trim_back(trim_front(s))
}

/// `s` without leading and trailing white space.
pub fn trimmed(s: &Vec<char>) -> (r: Vec<char>)
    ensures
        r@ == trim(s@),
{
    let mut a: usize = 0;
    assert(s@.skip(0) =~= s@);
    while a < s.len() && ws(s[a])
        invariant
            a <= s.len(),
            trim_front(s@) == trim_front(s@.skip(a as int)),
        decreases s.len() - a,
    {
        assert(s@.skip(a as int).drop_first() =~= s@.skip(a + 1));
        a += 1;
    }
    assert(trim_front(s@.skip(a as int)) == s@.skip(a as int));
    let mut b: usize = s.len();
    while b > a && ws(s[b - 1])
        invariant
            a <= b <= s.len(),
            trim_back(s@.skip(a as int)) == trim_back(s@.subrange(a as int, b as int)),
        decreases b,
    {
        assert(s@.subrange(a as int, b as int).drop_last() =~= s@.subrange(a as int, b - 1));
        b -= 1;
    }
    assert(s@.skip(a as int) =~= s@.subrange(a as int, s.len() as int));
    slice_of(s, a, b)
}

// ---------------------------------------------------------------------------
// Splitting
// ---------------------------------------------------------------------------

/// The pieces of `s` between occurrences of `sep` (`str::split` with a single
/// character): always at least one piece, empty pieces kept.
pub open spec fn split(s: Seq<char>, sep: char) -> Seq<Seq<char>>
    decreases s.len(),
{
    if s.len() == 0 {
        seq![Seq::<char>::empty()]
    } else {
        let rest = split(s.drop_last(), sep);
        if s.last() == sep {
            rest.push(Seq::<char>::empty())
        } else {
            rest.update(rest.len() - 1, rest.last().push(s.last()))
        }
    }
}

/// `split` never yields an empty list of pieces.
pub proof fn lemma_split_nonempty(s: Seq<char>, sep: char)
    ensures
        split(s, sep).len() >= 1,
        split(s, sep).len() <= s.len() + 1,
    decreases s.len(),
{
    if s.len() > 0 {
        lemma_split_nonempty(s.drop_last(), sep);
    }
}

/// No piece of a split holds the separator.
pub proof fn lemma_split_pieces_free(s: Seq<char>, sep: char)
    ensures
        forall|k: int, j: int|
            0 <= k < split(s, sep).len() && 0 <= j < split(s, sep)[k].len() ==> split(s, sep)[k][j]
                != sep,
    decreases s.len(),
{
    if s.len() > 0 {
        lemma_split_nonempty(s.drop_last(), sep);
        lemma_split_pieces_free(s.drop_last(), sep);
    }
}

/// The pieces of `s` between occurrences of `sep`.
pub fn split_on(s: &Vec<char>, sep: char) -> (r: Vec<Vec<char>>)
    ensures
        r.deep_view() == split(s@, sep),
{
    let mut pieces: Vec<Vec<char>> = Vec::new();
    let mut cur: Vec<char> = Vec::new();
    let mut i: usize = 0;
    while i < s.len()
        invariant
            i <= s.len(),
            split(s@.take(i as int), sep) == pieces.deep_view().push(cur@),
        decreases s.len() - i,
    {
        assert(s@.take(i + 1).drop_last() =~= s@.take(i as int));
        let ghost pv = pieces.deep_view();
        if s[i] == sep {
            let done = cur;
            assert(done.deep_view() =~= done@);
            pieces.push(done);
            cur = Vec::new();
            assert(pieces.deep_view() =~= pv.push(done@));
        } else {
            cur.push(s[i]);
        }
        i += 1;
        assert(split(s@.take(i as int), sep) =~= pieces.deep_view().push(cur@));
    }
    assert(s@.take(s.len() as int) =~= s@);
    let ghost pv = pieces.deep_view();
    assert(cur.deep_view() =~= cur@);
    pieces.push(cur);
    assert(pieces.deep_view() =~= pv.push(cur@));
    assert(pieces.deep_view() =~= split(s@, sep));
    pieces
}

// ---------------------------------------------------------------------------
// UTF-8 lengths
// ---------------------------------------------------------------------------

/// The number of UTF-8 bytes that encode `c`.
pub open spec fn utf8_width(c: char) -> nat {
    if (c as u32) < 0x80 {
        1
    } else if (c as u32) < 0x800 {
        2
    } else if (c as u32) < 0x10000 {
        3
    } else {
        4
    }
}

/// The number of UTF-8 bytes that encode `s`.
pub open spec fn utf8_len(s: Seq<char>) -> nat
    decreases s.len(),
{
    if s.len() == 0 {
        0
    } else {
        utf8_len(s.drop_last()) + utf8_width(s.last())
    }
}

pub fn utf8_width_of(c: char) -> (w: usize)
    ensures
        w == utf8_width(c),
{
    if (c as u32) < 0x80 {
        1
    } else if (c as u32) < 0x800 {
        2
    } else if (c as u32) < 0x10000 {
        3
    } else {
        4
    }
}

pub proof fn lemma_utf8_len_skip(s: Seq<char>, k: int)
    requires
        0 <= k < s.len(),
    ensures
        utf8_len(s.skip(k)) == utf8_width(s[k]) + utf8_len(s.skip(k + 1)),
    decreases s.len() - k,
{
    if k == s.len() - 1 {
        assert(s.skip(k).drop_last() =~= Seq::<char>::empty());
        assert(s.skip(k + 1) =~= Seq::<char>::empty());
    } else {
        lemma_utf8_len_skip(s.drop_last(), k);
        assert(s.skip(k).drop_last() =~= s.drop_last().skip(k));
        assert(s.skip(k + 1).drop_last() =~= s.drop_last().skip(k + 1));
        assert(s.skip(k).last() == s.last());
        assert(s.skip(k + 1).last() == s.last());
    }
}

pub proof fn lemma_utf8_len_unique(s: Seq<char>, k1: int, k2: int)
    requires
        0 <= k1 < k2 <= s.len(),
    ensures
        utf8_len(s.skip(k1)) > utf8_len(s.skip(k2)),
    decreases k2 - k1,
{
    lemma_utf8_len_skip(s, k1);
    if k1 + 1 < k2 {
        lemma_utf8_len_unique(s, k1 + 1, k2);
    }
}

/// The position from which the last `n` bytes of the UTF-8 encoding of `s`
/// start, if that is a character boundary.
pub fn byte_cut(s: &Vec<char>, n: usize) -> (r: Option<usize>)
    requires
        n <= 8,
    ensures
        match r {
            Some(k) => k <= s.len() && utf8_len(s@.skip(k as int)) == n,
            None => forall|k: int| 0 <= k <= s.len() ==> utf8_len(s@.skip(k)) != n,
        },
{
    let mut k = s.len();
    let mut bytes: usize = 0;
    assert(s@.skip(k as int) =~= Seq::<char>::empty());
    while k > 0 && bytes < n
        invariant
            k <= s.len(),
            bytes == utf8_len(s@.skip(k as int)),
            n <= 8,
            bytes < n + 4,
            forall|j: int| k < j <= s.len() ==> utf8_len(s@.skip(j)) < n,
        decreases k,
    {
        proof {
            lemma_utf8_len_skip(s@, k - 1);
        }
        bytes = bytes + utf8_width_of(s[k - 1]);
        k -= 1;
    }
    if bytes == n {
        return Some(k);
    }
    assert forall|j: int| 0 <= j <= s.len() implies utf8_len(s@.skip(j)) != n by {
        if j < k {
            lemma_utf8_len_unique(s@, j, k as int);
        }
    }
    None
}

/// At most one position cuts off exactly `n` bytes.
pub proof fn lemma_cut_unique(s: Seq<char>, k1: int, k2: int)
    requires
        0 <= k1 <= s.len(),
        0 <= k2 <= s.len(),
        utf8_len(s.skip(k1)) == utf8_len(s.skip(k2)),
    ensures
        k1 == k2,
{
    if k1 < k2 {
        lemma_utf8_len_unique(s, k1, k2);
    } else if k2 < k1 {
        lemma_utf8_len_unique(s, k2, k1);
    }
}

/// The UTF-8 length of the first `k + 1` characters.
pub proof fn lemma_utf8_len_take(s: Seq<char>, k: int)
    requires
        0 <= k < s.len(),
    ensures
        utf8_len(s.take(k + 1)) == utf8_len(s.take(k)) + utf8_width(s[k]),
{
    assert(s.take(k + 1).drop_last() =~= s.take(k));
}

/// Whether the UTF-8 encoding of `s` is longer than `n` bytes.
pub fn utf8_longer(s: &Vec<char>, n: usize) -> (r: bool)
    requires
        n <= 0x10000,
    ensures
        r == (utf8_len(s@) > n),
{
    let mut bytes: usize = 0;
    let mut i: usize = 0;
    assert(s@.take(0) =~= Seq::<char>::empty());
    while i < s.len()
        invariant
            i <= s.len(),
            n <= 0x10000,
            bytes == utf8_len(s@.take(i as int)),
            bytes <= n,
        decreases s.len() - i,
    {
        proof {
            lemma_utf8_len_take(s@, i as int);
        }
        bytes = bytes + utf8_width_of(s[i]);
        i += 1;
        if bytes > n {
            proof {
                lemma_utf8_len_prefix_le(s@, i as int);
            }
            return true;
        }
    }
    assert(s@.take(i as int) =~= s@);
    false
}

/// A prefix is never longer in bytes than the whole.
pub proof fn lemma_utf8_len_prefix_le(s: Seq<char>, k: int)
    requires
        0 <= k <= s.len(),
    ensures
        utf8_len(s.take(k)) <= utf8_len(s),
    decreases s.len() - k,
{
    if k < s.len() {
        lemma_utf8_len_take(s, k);
        lemma_utf8_len_prefix_le(s, k + 1);
    } else {
        assert(s.take(k) =~= s);
    }
}

/// The number of characters whose UTF-8 encoding is exactly the first `n`
/// bytes of that of `s`, if `n` falls on a character boundary.
pub fn prefix_cut(s: &Vec<char>, n: u128) -> (r: Option<usize>)
    requires
        n <= 0x1_0000_0000_0000_0000_0000,
    ensures
        match r {
            Some(k) => k <= s.len() && utf8_len(s@.take(k as int)) == n,
            None => forall|k: int| 0 <= k <= s.len() ==> utf8_len(s@.take(k)) != n,
        },
{
    let mut bytes: u128 = 0;
    let mut i: usize = 0;
    assert(s@.take(0) =~= Seq::<char>::empty());
    while i < s.len() && bytes < n
        invariant
            i <= s.len(),
            n <= 0x1_0000_0000_0000_0000_0000,
            bytes == utf8_len(s@.take(i as int)),
            bytes < n + 4,
            forall|j: int| 0 <= j < i ==> utf8_len(s@.take(j)) < n,
        decreases s.len() - i,
    {
        proof {
            lemma_utf8_len_take(s@, i as int);
        }
        bytes = bytes + utf8_width_of(s[i]) as u128;
        i += 1;
    }
    if bytes == n {
        return Some(i);
    }
    assert forall|j: int| 0 <= j <= s.len() implies utf8_len(s@.take(j)) != n by {
        if j > i {
            lemma_utf8_len_take_grows(s@, i as int, j);
        }
    }
    None
}

pub proof fn lemma_utf8_len_take_grows(s: Seq<char>, a: int, b: int)
    requires
        0 <= a < b <= s.len(),
    ensures
        utf8_len(s.take(a)) < utf8_len(s.take(b)),
    decreases b - a,
{
    lemma_utf8_len_take(s, a);
    if a + 1 < b {
        lemma_utf8_len_take_grows(s, a + 1, b);
    }
}

/// Every character takes at least one byte.
pub proof fn lemma_utf8_len_ge_len(s: Seq<char>)
    ensures
        utf8_len(s) >= s.len(),
    decreases s.len(),
{
    if s.len() > 0 {
        lemma_utf8_len_ge_len(s.drop_last());
    }
}

/// The number of bytes of the UTF-8 encoding of `s`.
pub fn utf8_bytes(s: &Vec<char>) -> (r: u128)
    ensures
        r == utf8_len(s@),
        r <= 4 * s.len(),
{
    let mut bytes: u128 = 0;
    let mut i: usize = 0;
    assert(s@.take(0) =~= Seq::<char>::empty());
    while i < s.len()
        invariant
            i <= s.len(),
            bytes == utf8_len(s@.take(i as int)),
            bytes <= 4 * i,
        decreases s.len() - i,
    {
        proof {
            lemma_utf8_len_take(s@, i as int);
        }
        bytes = bytes + utf8_width_of(s[i]) as u128;
        i += 1;
    }
    assert(s@.take(i as int) =~= s@);
    bytes
}

/// Replacing by `:` in a text that starts with `:`, a pattern that starts
/// with `:`, leaves a text that starts with `:`.
pub proof fn lemma_replace_ends(s: Seq<char>, pat: Seq<char>)
    requires
        s.len() >= 1,
        s[0] == ':',
        pat.len() >= 1,
        pat[0] == ':',
    ensures
        replace_all(s, pat, seq![':']).len() >= 1,
        replace_all(s, pat, seq![':'])[0] == ':',
{
}

} // verus!
