//! A map from strings to strings, kept as a list of pairs whose keys are all
//! different; it stands where the application keeps `HashMap<String, String>`
//! (attributes, style rules, settings, cached globals).
use vstd::prelude::*;

verus! {

/// Pairs of key and value text.
pub type Pairs = Seq<(Seq<char>, Seq<char>)>;

/// No key occurs twice.
pub open spec fn keys_distinct(s: Pairs) -> bool {
    forall|i: int, j: int| 0 <= i < s.len() && 0 <= j < s.len() && i != j ==> s[i].0 != s[j].0
}

/// Some pair has key `k`.
pub open spec fn has_key(s: Pairs, k: Seq<char>) -> bool {
    exists|i: int| 0 <= i < s.len() && s[i].0 == k
}

/// The map that the pairs denote.
pub open spec fn map_of(s: Pairs) -> Map<Seq<char>, Seq<char>> {
    Map::new(
        |k: Seq<char>| has_key(s, k),
        |k: Seq<char>| s[choose|i: int| 0 <= i < s.len() && s[i].0 == k].1,
    )
}

/// With distinct keys, the map holds the value of pair `i` at its key.
pub proof fn lemma_map_of_at(s: Pairs, i: int)
    requires
        keys_distinct(s),
        0 <= i < s.len(),
    ensures
        map_of(s).dom().contains(s[i].0),
        map_of(s)[s[i].0] == s[i].1,
{
    assert(has_key(s, s[i].0));
    let j = choose|j: int| 0 <= j < s.len() && s[j].0 == s[i].0;
    assert(j == i);
}

/// Adding a fresh key to the pairs adds it to the map.
pub proof fn lemma_map_of_push(s: Pairs, k: Seq<char>, v: Seq<char>)
    requires
        keys_distinct(s),
        !has_key(s, k),
    ensures
        keys_distinct(s.push((k, v))),
        map_of(s.push((k, v))) =~= map_of(s).insert(k, v),
{
    let t = s.push((k, v));
    assert forall|q: Seq<char>| #[trigger] has_key(t, q) <==> has_key(s, q) || q == k by {
        if has_key(t, q) {
            let i = choose|i: int| 0 <= i < t.len() && t[i].0 == q;
            if i < s.len() {
                assert(s[i].0 == q);
            }
        }
        if has_key(s, q) {
            let i = choose|i: int| 0 <= i < s.len() && s[i].0 == q;
            assert(t[i].0 == q);
        }
        if q == k {
            assert(t[s.len() as int].0 == q);
        }
    }
    assert forall|q: Seq<char>| #[trigger] map_of(t).dom().contains(q) implies map_of(t)[q]
        == map_of(s).insert(k, v)[q] by {
        if q == k {
            lemma_map_of_at(t, s.len() as int);
        } else {
            let i = choose|i: int| 0 <= i < s.len() && s[i].0 == q;
            lemma_map_of_at(s, i);
            lemma_map_of_at(t, i);
        }
    }
}

/// Where key `k` stands among the pairs.
pub open spec fn key_index(s: Pairs, k: Seq<char>) -> int {
    choose|i: int| 0 <= i < s.len() && s[i].0 == k
}

/// The pairs after setting `k` to `v`: an old key keeps its place, a new one
/// goes last.
pub open spec fn pairs_insert(s: Pairs, k: Seq<char>, v: Seq<char>) -> Pairs {
    if has_key(s, k) {
        s.update(key_index(s, k), (k, v))
    } else {
        s.push((k, v))
    }
}

/// The pairs after removing key `k`, the others in their order.
pub open spec fn pairs_remove(s: Pairs, k: Seq<char>) -> Pairs {
    if has_key(s, k) {
        s.remove(key_index(s, k))
    } else {
        s
    }
}

proof fn lemma_key_index(s: Pairs, i: int)
    requires
        keys_distinct(s),
        0 <= i < s.len(),
    ensures
        key_index(s, s[i].0) == i,
{
    assert(has_key(s, s[i].0));
}

proof fn lemma_map_of_update(s: Pairs, i: int, v: Seq<char>)
    requires
        keys_distinct(s),
        0 <= i < s.len(),
    ensures
        keys_distinct(s.update(i, (s[i].0, v))),
        map_of(s.update(i, (s[i].0, v))) =~= map_of(s).insert(s[i].0, v),
{
    let k = s[i].0;
    let t = s.update(i, (k, v));
    assert forall|q: Seq<char>| #[trigger] has_key(t, q) <==> has_key(s, q) by {
        if has_key(t, q) {
            let j = choose|j: int| 0 <= j < t.len() && t[j].0 == q;
            assert(s[j].0 == q);
        }
        if has_key(s, q) {
            let j = choose|j: int| 0 <= j < s.len() && s[j].0 == q;
            assert(t[j].0 == q);
        }
    }
    assert(has_key(s, k));
    assert forall|q: Seq<char>| #[trigger] map_of(t).dom().contains(q) implies map_of(t)[q]
        == map_of(s).insert(k, v)[q] by {
        let j = choose|j: int| 0 <= j < s.len() && s[j].0 == q;
        lemma_map_of_at(s, j);
        lemma_map_of_at(t, j);
    }
}

proof fn lemma_map_of_remove(s: Pairs, i: int)
    requires
        keys_distinct(s),
        0 <= i < s.len(),
    ensures
        keys_distinct(s.remove(i)),
        map_of(s.remove(i)) =~= map_of(s).remove(s[i].0),
{
    let k = s[i].0;
    let t = s.remove(i);
    assert forall|a: int, b: int| 0 <= a < t.len() && 0 <= b < t.len() && a != b implies t[a].0
        != t[b].0 by {
        let a2 = if a < i {
            a
        } else {
            a + 1
        };
        let b2 = if b < i {
            b
        } else {
            b + 1
        };
        assert(t[a] == s[a2]);
        assert(t[b] == s[b2]);
    }
    assert forall|q: Seq<char>| #[trigger] has_key(t, q) <==> has_key(s, q) && q != k by {
        if has_key(t, q) {
            let j = choose|j: int| 0 <= j < t.len() && t[j].0 == q;
            let j2 = if j < i {
                j
            } else {
                j + 1
            };
            assert(s[j2].0 == q);
        }
        if has_key(s, q) && q != k {
            let j = choose|j: int| 0 <= j < s.len() && s[j].0 == q;
            if j < i {
                assert(t[j].0 == q);
            } else {
                assert(j != i);
                assert(t[j - 1].0 == q);
            }
        }
    }
    assert forall|q: Seq<char>| #[trigger] map_of(t).dom().contains(q) implies map_of(t)[q]
        == map_of(s).remove(k)[q] by {
        let j = choose|j: int| 0 <= j < t.len() && t[j].0 == q;
        let j2 = if j < i {
            j
        } else {
            j + 1
        };
        assert(t[j] == s[j2]);
        lemma_map_of_at(s, j2);
        lemma_map_of_at(t, j);
    }
}

/// A string-to-string map that remembers the order in which keys came in.
#[derive(Clone)]
pub struct StrMap {
    /// The pairs, oldest key first.
    pub entries: Vec<(String, String)>,
}

impl StrMap {
    /// The pairs as text.
    pub open spec fn pairs(&self) -> Pairs {
        self.entries.deep_view()
    }

    /// Keys are all different.
    pub open spec fn wf(&self) -> bool {
        keys_distinct(self.pairs())
    }

    /// The map.
    pub open spec fn map(&self) -> Map<Seq<char>, Seq<char>> {
        map_of(self.pairs())
    }

    /// An empty map.
    pub fn new() -> (m: StrMap)
        ensures
            m.wf(),
            m.map() == Map::<Seq<char>, Seq<char>>::empty(),
            m.pairs().len() == 0,
    {
        let m = StrMap { entries: Vec::new() };
        assert(m.map() =~= Map::<Seq<char>, Seq<char>>::empty());
        m
    }

    /// The position of key `k`, if present.
    pub fn position(&self, k: &Vec<char>) -> (r: Option<usize>)
        requires
            self.wf(),
        ensures
            match r {
                Some(i) => i < self.pairs().len() && self.pairs()[i as int].0 == k@,
                None => !has_key(self.pairs(), k@),
            },
            r is Some <==> self.map().dom().contains(k@),
    {
        let key = crate::text::string_of(k);
        let mut i: usize = 0;
        while i < self.entries.len()
            invariant
                i <= self.entries.len(),
                key@ == k@,
                forall|j: int| 0 <= j < i ==> self.pairs()[j].0 != k@,
            decreases self.entries.len() - i,
        {
            if self.entries[i].0.eq(&key) {
                return Some(i);
            }
            i += 1;
        }
        None
    }

    /// The value at key `k`.
    pub fn get(&self, k: &Vec<char>) -> (r: Option<&String>)
        requires
            self.wf(),
        ensures
            match r {
                Some(v) => self.map().dom().contains(k@) && v@ == self.map()[k@],
                None => !self.map().dom().contains(k@),
            },
    {
        match self.position(k) {
            Some(i) => {
                proof {
                    lemma_map_of_at(self.pairs(), i as int);
                }
                Some(&self.entries[i].1)
            },
            None => None,
        }
    }

    /// The value at key `k`, or `def` when there is none.
    pub fn get_or(&self, k: &Vec<char>, def: &Vec<char>) -> (r: Vec<char>)
        requires
            self.wf(),
        ensures
            r@ == (if self.map().dom().contains(k@) {
                self.map()[k@]
            } else {
                def@
            }),
    {
        match self.get(k) {
            Some(v) => crate::text::chars_of(v.as_str()),
            None => def.clone(),
        }
    }

    /// Whether key `k` is present.
    pub fn contains_key(&self, k: &Vec<char>) -> (r: bool)
        requires
            self.wf(),
        ensures
            r == self.map().dom().contains(k@),
    {
        self.position(k).is_some()
    }

    /// Sets key `k` to `v`; a new key goes last, an old one keeps its place.
    pub fn insert(&mut self, k: &Vec<char>, v: &Vec<char>)
        requires
            old(self).wf(),
        ensures
            final(self).wf(),
            final(self).map() == old(self).map().insert(k@, v@),
            final(self).pairs() == pairs_insert(old(self).pairs(), k@, v@),
    {
        let value = crate::text::string_of(v);
        match self.position(k) {
            Some(i) => {
                let key = crate::text::string_of(k);
                proof {
                    lemma_map_of_update(self.pairs(), i as int, v@);
                    lemma_key_index(self.pairs(), i as int);
                }
                let ghost before = self.pairs();
                self.entries[i] = (key, value);
                assert(self.pairs() =~= before.update(i as int, (before[i as int].0, v@)));
            },
            None => {
                let key = crate::text::string_of(k);
                proof {
                    lemma_map_of_push(self.pairs(), k@, v@);
                }
                let ghost before = self.pairs();
                self.entries.push((key, value));
                assert(self.pairs() =~= before.push((k@, v@)));
            },
        }
    }

    /// Removes key `k`, keeping the order of the others.
    pub fn remove(&mut self, k: &Vec<char>)
        requires
            old(self).wf(),
        ensures
            final(self).wf(),
            final(self).map() == old(self).map().remove(k@),
            final(self).pairs() == pairs_remove(old(self).pairs(), k@),
    {
        match self.position(k) {
            Some(i) => {
                proof {
                    lemma_map_of_remove(self.pairs(), i as int);
                    lemma_key_index(self.pairs(), i as int);
                }
                let ghost before = self.pairs();
                self.entries.remove(i);
                assert(self.pairs() =~= before.remove(i as int));
            },
            None => {
                assert(self.map() =~= self.map().remove(k@));
            },
        }
    }

    /// A copy with the same pairs in the same order.
    pub fn copy(&self) -> (r: StrMap)
        ensures
            r.pairs() == self.pairs(),
    {
        let mut entries: Vec<(String, String)> = Vec::new();
        let mut i: usize = 0;
        while i < self.entries.len()
            invariant
                i <= self.entries.len(),
                entries.deep_view() == self.pairs().take(i as int),
            decreases self.entries.len() - i,
        {
            let k = crate::text::string_of(&crate::text::chars_of(self.entries[i].0.as_str()));
            let v = crate::text::string_of(&crate::text::chars_of(self.entries[i].1.as_str()));
            let ghost before = entries.deep_view();
            entries.push((k, v));
            assert(entries.deep_view() =~= before.push((k@, v@)));
            assert(self.pairs().take(i + 1) =~= self.pairs().take(i as int).push(self.pairs()[i as int]));
            i += 1;
        }
        assert(self.pairs().take(i as int) =~= self.pairs());
        StrMap { entries }
    }

    /// Whether no key occurs twice.
    pub fn distinct(&self) -> (r: bool)
        ensures
            r == self.wf(),
    {
        let n = self.entries.len();
        let mut i: usize = 0;
        while i < n
            invariant
                i <= n == self.pairs().len(),
                forall|a: int, b: int|
                    0 <= a < i && 0 <= b < n && a != b ==> self.pairs()[a].0 != self.pairs()[b].0,
            decreases n - i,
        {
            let mut j: usize = 0;
            while j < n
                invariant
                    i < n == self.pairs().len(),
                    j <= n,
                    forall|a: int, b: int|
                        0 <= a < i && 0 <= b < n && a != b ==> self.pairs()[a].0 != self.pairs()[b].0,
                    forall|b: int| 0 <= b < j && b != i ==> self.pairs()[i as int].0 != self.pairs()[b].0,
                decreases n - j,
            {
                if j != i && self.entries[i].0.eq(&self.entries[j].0) {
                    assert(self.pairs()[i as int].0 == self.pairs()[j as int].0);
                    return false;
                }
                j += 1;
            }
            i += 1;
        }
        true
    }

    /// Number of keys.
    pub fn len(&self) -> (r: usize)
        ensures
            r == self.pairs().len(),
    {
        self.entries.len()
    }
}

} // verus!
