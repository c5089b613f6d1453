//! The window tree of the first front end: nodes read from a view, and the
//! scene that selects them.
use vstd::prelude::*;
use crate::strmap::StrMap;
use crate::json::{JsonNode, field_is_array, field_members, field_text, head_ok, head_name, head_attrs, parse_head};
use crate::text::trim;

verus! {

/// A random 64-bit number from `rand::random`; nothing is known of it.
#[verifier::external_body]
pub(crate) fn random_id() -> u64 {
    rand::random::<u64>()
}

/// `content`.
pub open spec fn content_key() -> Seq<char> {
    seq!['c', 'o', 'n', 't', 'e', 'n', 't']
}

/// A node of a view: its tag, attributes, text content and children.
pub struct Nnode {
    pub tag: String,
    pub content: String,
    pub children: Vec<Nnode>,
    pub attrs: StrMap,
    pub id: u64,
}

/// Every node of the JSON tree `v` has a well-formed head under `key`.
pub open spec fn buildable(v: JsonNode, key: Seq<char>) -> bool
    decreases v, 1int,
{
    &&& head_ok(trim(field_text(v, key)))
    &&& if field_is_array(v, content_key()) {
        proof {
            crate::json::lemma_field_index(v, content_key());
        }
        all_buildable(field_members(v, content_key()), key)
    } else {
        true
    }
}

/// Every JSON tree in `vs` is buildable.
pub open spec fn all_buildable(vs: Seq<JsonNode>, key: Seq<char>) -> bool
    decreases vs, 0int,
{
    if vs.len() == 0 {
        true
    } else {
        all_buildable(vs.drop_last(), key) && buildable(vs.last(), key)
    }
}

/// `tag`.
pub open spec fn tag_key() -> Seq<char> {
    seq!['t', 'a', 'g']
}

/// `n` was read from the JSON tree `v` whose heads stand under `key`: its tag
/// and attributes come from the head, and either its children from the
/// `content` array or its text from `content`.
pub open spec fn built_from(n: Nnode, v: JsonNode, key: Seq<char>) -> bool
    decreases v, 1int,
{
    &&& n.tag@ == head_name(trim(field_text(v, key)))
    &&& n.attrs.wf()
    &&& n.attrs.map() == head_attrs(trim(field_text(v, key)))
    &&& if field_is_array(v, content_key()) {
        proof {
            crate::json::lemma_field_index(v, content_key());
        }
        &&& n.content@ == Seq::<char>::empty()
        &&& all_built(n.children@, field_members(v, content_key()), key)
    } else {
        &&& n.content@ == field_text(v, content_key())
        &&& n.children@.len() == 0
    }
}

/// Each node of `ns` was read from the tree at the same place in `vs`.
pub open spec fn all_built(ns: Seq<Nnode>, vs: Seq<JsonNode>, key: Seq<char>) -> bool
    decreases vs, 0int,
{
    &&& ns.len() == vs.len()
    &&& if vs.len() == 0 {
        true
    } else {
        all_built(ns.drop_last(), vs.drop_last(), key) && built_from(ns.last(), vs.last(), key)
    }
}

proof fn lemma_all_built_push(ns: Seq<Nnode>, vs: Seq<JsonNode>, n: Nnode, v: JsonNode, key: Seq<char>)
    requires
        all_built(ns, vs, key),
        built_from(n, v, key),
    ensures
        all_built(ns.push(n), vs.push(v), key),
{
    assert(ns.push(n).drop_last() =~= ns);
    assert(vs.push(v).drop_last() =~= vs);
}

/// Reads the node tree whose heads stand under `key` from the JSON tree `v`,
/// giving every node a random id.
fn build_nodes(v: &JsonNode, key: &Vec<char>) -> (r: Option<Nnode>)
    ensures
        r is Some <==> buildable(*v, key@),
        r matches Some(n) ==> built_from(n, *v, key@),
    decreases *v,
{
    let ck = vec!['c', 'o', 'n', 't', 'e', 'n', 't'];
    assert(ck@ =~= content_key());
    let head = v.text_at(key);
    let (tag, attrs) = match parse_head(&head) {
        Some(h) => h,
        None => {
            return None;
        },
    };
    let mut content = String::new();
    let mut children: Vec<Nnode> = Vec::new();
    match v.field_position(&ck) {
        Some(i) => {
            if v.fields[i].1.is_array {
                let ms = &v.fields[i].1.members;
                let mut j: usize = 0;
                assert(ms@.take(0) =~= Seq::<JsonNode>::empty());
                assert(children@ =~= Seq::<Nnode>::empty());
                while j < ms.len()
                    invariant
                        j <= ms.len(),
                        ms@ == field_members(*v, content_key()),
                        i < v.fields@.len(),
                        ms@ == v.fields@[i as int].1.members@,
                        field_is_array(*v, content_key()),
                        all_built(children@, ms@.take(j as int), key@),
                        all_buildable(ms@.take(j as int), key@),
                    decreases ms.len() - j,
                {
                    assert(ms@.take(j + 1).drop_last() =~= ms@.take(j as int));
                    assert(decreases_to!(*v => v.fields@[i as int].1.members@[j as int]));
                    match build_nodes(&ms[j], key) {
                        Some(n) => {
                            proof {
                                lemma_all_built_push(children@, ms@.take(j as int), n, ms@[j as int], key@);
                                assert(ms@.take(j as int).push(ms@[j as int]) =~= ms@.take(j + 1));
                            }
                            children.push(n);
                        },
                        None => {
                            proof {
                                if buildable(*v, key@) {
                                    assert(all_buildable(field_members(*v, content_key()), key@));
                                    lemma_all_buildable_at(ms@, key@, j as int);
                                }
                            }
                            return None;
                        },
                    }
                    j += 1;
                }
                assert(ms@.take(ms.len() as int) =~= ms@);
            } else {
                content = crate::text::string_of(&v.text_at(&ck));
            }
        },
        None => {
            content = crate::text::string_of(&v.text_at(&ck));
        },
    }
    Some(Nnode { tag, content, children, attrs, id: random_id() })
}

/// Every node of `n`'s tree has attributes with distinct keys.
pub open spec fn attrs_wf(n: Nnode) -> bool
    decreases n, 1int,
{
    n.attrs.wf() && all_attrs_wf(n.children@)
}

/// Every tree of `ns` has attributes with distinct keys.
pub open spec fn all_attrs_wf(ns: Seq<Nnode>) -> bool
    decreases ns, 0int,
{
    if ns.len() == 0 {
        true
    } else {
        all_attrs_wf(ns.drop_last()) && attrs_wf(ns.last())
    }
}

/// A node tree read from a JSON tree has attributes with distinct keys.
pub proof fn lemma_built_attrs_wf(n: Nnode, v: JsonNode, key: Seq<char>)
    requires
        built_from(n, v, key),
    ensures
        attrs_wf(n),
    decreases v, 1int,
{
    if field_is_array(v, content_key()) {
        crate::json::lemma_field_index(v, content_key());
        lemma_all_built_attrs_wf(n.children@, field_members(v, content_key()), key);
    } else {
        assert(n.children@ =~= Seq::<Nnode>::empty());
    }
}

/// Node trees read from JSON trees have attributes with distinct keys.
pub proof fn lemma_all_built_attrs_wf(ns: Seq<Nnode>, vs: Seq<JsonNode>, key: Seq<char>)
    requires
        all_built(ns, vs, key),
    ensures
        all_attrs_wf(ns),
    decreases vs, 0int,
{
    if vs.len() > 0 {
        lemma_all_built_attrs_wf(ns.drop_last(), vs.drop_last(), key);
        lemma_built_attrs_wf(ns.last(), vs.last(), key);
    }
}

pub proof fn lemma_all_buildable_at(vs: Seq<JsonNode>, key: Seq<char>, j: int)
    requires
        all_buildable(vs, key),
        0 <= j < vs.len(),
    ensures
        buildable(vs[j], key),
    decreases vs.len(),
{
    if j < vs.len() - 1 {
        lemma_all_buildable_at(vs.drop_last(), key, j);
    }
}

impl Nnode {
    /// Reads a node tree from the JSON tree `v` (heads under `tag`), giving
    /// every node a random id; nothing when some head has an attribute
    /// without `=`.
    pub fn new(v: &JsonNode) -> (r: Option<Nnode>)
        ensures
            r is Some <==> buildable(*v, tag_key()),
            r matches Some(n) ==> built_from(n, *v, tag_key()),
    {
        let key = vec!['t', 'a', 'g'];
        assert(key@ =~= tag_key());
        build_nodes(v, &key)
    }

    /// Nothing is read from a node's inner text.
    pub fn parse_inner(&mut self, inner: &str)
        ensures
            *final(self) == *old(self),
    {
    }
}

/// The ids of `n` and its descendants whose tag is `sel`, in document order.
pub open spec fn select_ids(n: Nnode, sel: Seq<char>) -> Seq<u64>
    decreases n, 1int,
{
    (if n.tag@ == sel {
        seq![n.id]
    } else {
        Seq::empty()
    }) + select_all(n.children@, sel)
}

/// The ids selected from each of the trees `ns`, in order.
pub open spec fn select_all(ns: Seq<Nnode>, sel: Seq<char>) -> Seq<u64>
    decreases ns, 0int,
{
    if ns.len() == 0 {
        Seq::empty()
    } else {
        select_all(ns.drop_last(), sel) + select_ids(ns.last(), sel)
    }
}

/// The pairs (node id, parent id) of `n`, whose parent is `parent`, and of its
/// descendants, in document order.
pub open spec fn walk(n: Nnode, parent: u64) -> Seq<(u64, u64)>
    decreases n, 1int,
{
    seq![(n.id, parent)] + walk_all(n.children@, n.id)
}

/// The pairs of each of the trees `ns`, all children of `parent`.
pub open spec fn walk_all(ns: Seq<Nnode>, parent: u64) -> Seq<(u64, u64)>
    decreases ns, 0int,
{
    if ns.len() == 0 {
        Seq::empty()
    } else {
        walk_all(ns.drop_last(), parent) + walk(ns.last(), parent)
    }
}

impl Nnode {
    /// Adds to `results` the ids of this node and its descendants whose tag is
    /// `sel`, in document order.
    pub fn select(&self, sel: &String, results: &mut Vec<u64>)
        ensures
            final(results)@ == old(results)@ + select_ids(*self, sel@),
        decreases *self,
    {
        let ghost start = results@;
        if self.tag.eq(sel) {
            results.push(self.id);
        }
        let ghost head = results@;
        let mut j: usize = 0;
        assert(self.children@.take(0) =~= Seq::<Nnode>::empty());
        assert(head =~= head + select_all(self.children@.take(0), sel@));
        while j < self.children.len()
            invariant
                j <= self.children.len(),
                head == start + (if self.tag@ == sel@ {
                    seq![self.id]
                } else {
                    Seq::<u64>::empty()
                }),
                results@ == head + select_all(self.children@.take(j as int), sel@),
            decreases self.children.len() - j,
        {
            assert(decreases_to!(*self => self.children@[j as int]));
            self.children[j].select(sel, results);
            assert(self.children@.take(j + 1).drop_last() =~= self.children@.take(j as int));
            assert(self.children@.take(j + 1).last() == self.children@[j as int]);
            j += 1;
            assert(results@ =~= head + select_all(self.children@.take(j as int), sel@));
        }
        assert(self.children@.take(j as int) =~= self.children@);
        assert(results@ =~= start + select_ids(*self, sel@));
    }

    /// Adds to `out` the pair (id, `parent`) of this node and the pairs of its
    /// descendants, each with its parent's id, in document order.
    pub fn traverse(&self, parent: u64, out: &mut Vec<(u64, u64)>)
        ensures
            final(out)@ == old(out)@ + walk(*self, parent),
        decreases *self,
    {
        let ghost start = out@;
        out.push((self.id, parent));
        let ghost head = out@;
        let mut j: usize = 0;
        assert(self.children@.take(0) =~= Seq::<Nnode>::empty());
        assert(head =~= head + walk_all(self.children@.take(0), self.id));
        while j < self.children.len()
            invariant
                j <= self.children.len(),
                head == start.push((self.id, parent)),
                out@ == head + walk_all(self.children@.take(j as int), self.id),
            decreases self.children.len() - j,
        {
            assert(decreases_to!(*self => self.children@[j as int]));
            self.children[j].traverse(self.id, out);
            assert(self.children@.take(j + 1).drop_last() =~= self.children@.take(j as int));
            assert(self.children@.take(j + 1).last() == self.children@[j as int]);
            j += 1;
            assert(out@ =~= head + walk_all(self.children@.take(j as int), self.id));
        }
        assert(self.children@.take(j as int) =~= self.children@);
        assert(out@ =~= start + walk(*self, parent));
    }
}

/// A scene of the window tree: the root of its view.
pub struct Nscene {
    pub root: Nnode,
}

/// The document that the view text `raw` parses to.
pub open spec fn scene_document(raw: Seq<char>) -> Option<JsonNode> {
    crate::json::json_parse(crate::markup::view_document(crate::markup::scene_json(raw)))
}

impl Nscene {
    /// The ids of the nodes below the root whose tag is `sel`, in document order.
    pub fn select(&self, sel: &str) -> (r: Vec<u64>)
        ensures
            r@ == select_all(self.root.children@, sel@),
    {
        let s = String::from_str(sel);
        let mut results: Vec<u64> = Vec::new();
        let mut j: usize = 0;
        assert(self.root.children@.take(0) =~= Seq::<Nnode>::empty());
        while j < self.root.children.len()
            invariant
                j <= self.root.children.len(),
                s@ == sel@,
                results@ == select_all(self.root.children@.take(j as int), sel@),
            decreases self.root.children.len() - j,
        {
            self.root.children[j].select(&s, &mut results);
            assert(self.root.children@.take(j + 1).drop_last() =~= self.root.children@.take(
                j as int,
            ));
            assert(self.root.children@.take(j + 1).last() == self.root.children@[j as int]);
            j += 1;
        }
        assert(self.root.children@.take(j as int) =~= self.root.children@);
        results
    }

    /// A size of the window tree: all of the parent's width for `pw`, all of
    /// its height for `ph`, else the number in front of the unit.
    pub fn calc(def: &str, mw: u16, mh: u16) -> (r: u16)
        requires
            crate::layout::scene_size_ok(def@),
        ensures
            r == crate::layout::scene_size(def@, mw, mh),
    {
        let d = crate::text::chars_of(def);
        crate::layout::scene_calc(&d, mw, mh)
    }

    /// An anchor of the window tree: `s` the start, `c` the middle, anything
    /// else the end of a span of `max`.
    pub fn anchor(def: &str, max: u16) -> (r: i16)
        ensures
            r == crate::layout::scene_anchor(def@, max),
    {
        let d = crate::text::chars_of(def);
        crate::layout::scene_anchor_of(&d, max)
    }

    /// The JSON text of a view in this tree's dialect.
    pub fn process(raw: &str) -> (r: String)
        ensures
            r@ == crate::markup::scene_json(raw@),
    {
        crate::markup::scene_process(raw)
    }

    /// The scene of the view text `raw`: nothing when the rewritten view is not
    /// JSON or some head has an attribute without `=`.
    pub fn new(raw: &str) -> (r: Option<Nscene>)
        ensures
            r is Some <==> (scene_document(raw@) matches Some(d) && buildable(d, tag_key())),
            r matches Some(sc) ==> built_from(sc.root, scene_document(raw@)->0, tag_key()),
            r matches Some(sc) ==> attrs_wf(sc.root),
    {
        let processed = Self::process(raw);
        let jdoc = crate::markup::document(processed.as_str());
        match crate::json::parse_json(jdoc.as_str()) {
            Some(dom) => match Nnode::new(&dom) {
                Some(root) => {
                    proof {
                        lemma_built_attrs_wf(root, dom, tag_key());
                    }
                    Some(Nscene { root })
                },
                None => None,
            },
            None => None,
        }
    }
}

} // verus!
