//! Operations on the model while a parser builds it: keyed lookup in vectors,
//! association lists standing for maps, node insertion.

use vstd::prelude::*;
use crate::text::{chars_eq, views};
use crate::diagram::{
    Text, NodeV, StyleV, EdgeV, SubgraphV, AstV, NodeOf, NodeStyleOf, EdgeOf, SubgraphOf, AstOf,
    DiagramKind, Direction, NodeShape, deep, text_views,
};

verus! {

// ---------------------------------------------------------------------------
// Sequences of views
// ---------------------------------------------------------------------------

pub proof fn lemma_deep_push<A: View>(s: Seq<A>, x: A)
    ensures
        deep(s.push(x)) == deep(s).push(x@),
{
    assert(deep(s.push(x)) =~= deep(s).push(x@));
}

pub proof fn lemma_deep_update<A: View>(s: Seq<A>, k: int, x: A)
    requires
        0 <= k < s.len(),
    ensures
        deep(s.update(k, x)) == deep(s).update(k, x@),
{
    assert(deep(s.update(k, x)) =~= deep(s).update(k, x@));
}

// ---------------------------------------------------------------------------
// First occurrence of a key
// ---------------------------------------------------------------------------

/// Index of the first element of `s` equal to `k`, looking from `i` on.
pub open spec fn first_index_from(s: Seq<Text>, k: Text, i: int) -> Option<int>
    decreases s.len() - i,
{
    if i < 0 || i >= s.len() {
        None
    } else if s[i] == k {
        Some(i)
    } else {
        first_index_from(s, k, i + 1)
    }
}

/// Index of the first element of `s` equal to `k`.
pub open spec fn first_index(s: Seq<Text>, k: Text) -> Option<int> {
    first_index_from(s, k, 0)
}

pub proof fn lemma_first_index_from(s: Seq<Text>, k: Text, i: int)
    requires
        0 <= i,
    ensures
        first_index_from(s, k, i) matches Some(j) ==> i <= j < s.len() && s[j] == k && forall|m: int| i <= m < j ==> s[m] != k,
        first_index_from(s, k, i) is None ==> forall|m: int| i <= m < s.len() ==> s[m] != k,
    decreases s.len() - i,
{
    if i < s.len() && s[i] != k {
        lemma_first_index_from(s, k, i + 1);
    }
}

pub proof fn lemma_first_index(s: Seq<Text>, k: Text)
    ensures
        first_index(s, k) matches Some(j) ==> 0 <= j < s.len() && s[j] == k && forall|m: int| 0 <= m < j ==> s[m] != k,
        first_index(s, k) is None ==> forall|m: int| 0 <= m < s.len() ==> s[m] != k,
{
    lemma_first_index_from(s, k, 0);
}

/// Elements that carry a textual key.
pub trait Keyed {
    spec fn key(&self) -> Text;

    fn key_ref(&self) -> (r: &Vec<char>)
        ensures
            r@ == self.key(),
    ;
}

impl<X> Keyed for (Vec<char>, X) {
    open spec fn key(&self) -> Text {
        self.0@
    }

    fn key_ref(&self) -> (r: &Vec<char>) {
        &self.0
    }
}

impl Keyed for NodeOf<Vec<char>> {
    open spec fn key(&self) -> Text {
        self.id@
    }

    fn key_ref(&self) -> (r: &Vec<char>) {
        &self.id
    }
}

impl Keyed for Vec<char> {
    open spec fn key(&self) -> Text {
        self@
    }

    fn key_ref(&self) -> (r: &Vec<char>) {
        self
    }
}

/// The keys of a sequence of keyed elements.
pub open spec fn keys<K: Keyed>(s: Seq<K>) -> Seq<Text> {
    s.map_values(|x: K| x.key())
}

/// Index of the first element whose key is `k`.
pub fn find_keyed<K: Keyed>(v: &Vec<K>, k: &Vec<char>) -> (r: Option<usize>)
    ensures
        r matches Some(j) ==> first_index(keys(v@), k@) == Some(j as int) && j < v@.len(),
        r is None ==> first_index(keys(v@), k@) is None,
{
    proof {
        lemma_first_index(keys(v@), k@);
    }
    let mut i: usize = 0;
    while i < v.len()
        invariant
            i <= v.len(),
            first_index(keys(v@), k@) == first_index_from(keys(v@), k@, i as int),
        decreases v.len() - i,
    {
        if chars_eq(v[i].key_ref(), k) {
            return Some(i);
        }
        i += 1;
    }
    None
}

// ---------------------------------------------------------------------------
// Association lists standing for maps with textual keys
// ---------------------------------------------------------------------------

/// Value stored under `k`.
pub open spec fn lookup<V>(m: Seq<(Text, V)>, k: Text) -> Option<V> {
    match first_index(m.map_values(|p: (Text, V)| p.0), k) {
        Some(j) => Some(m[j].1),
        None => None,
    }
}

/// `HashMap::insert`: replace the value under `k`, or add the pair.
pub open spec fn insert<V>(m: Seq<(Text, V)>, k: Text, v: V) -> Seq<(Text, V)> {
    match first_index(m.map_values(|p: (Text, V)| p.0), k) {
        Some(j) => m.update(j, (k, v)),
        None => m.push((k, v)),
    }
}

/// `map.entry(k).or_default().push(v)` on a map of lists.
pub open spec fn push_under(m: Seq<(Text, Seq<Text>)>, k: Text, v: Text) -> Seq<(Text, Seq<Text>)> {
    match first_index(m.map_values(|p: (Text, Seq<Text>)| p.0), k) {
        Some(j) => m.update(j, (k, m[j].1.push(v))),
        None => m.push((k, seq![v])),
    }
}

/// View of a map of texts.
pub open spec fn tt_view(m: Seq<(Vec<char>, Vec<char>)>) -> Seq<(Text, Text)> {
    m.map_values(|p: (Vec<char>, Vec<char>)| (p.0@, p.1@))
}

/// View of a map of text lists.
pub open spec fn tl_view(m: Seq<(Vec<char>, Vec<Vec<char>>)>) -> Seq<(Text, Seq<Text>)> {
    m.map_values(|p: (Vec<char>, Vec<Vec<char>>)| (p.0@, views(p.1@)))
}

pub proof fn lemma_tt_keys(m: Seq<(Vec<char>, Vec<char>)>)
    ensures
        tt_view(m).map_values(|p: (Text, Text)| p.0) == keys(m),
{
    assert(tt_view(m).map_values(|p: (Text, Text)| p.0) =~= keys(m));
}

pub proof fn lemma_tl_keys(m: Seq<(Vec<char>, Vec<Vec<char>>)>)
    ensures
        tl_view(m).map_values(|p: (Text, Seq<Text>)| p.0) == keys(m),
{
    assert(tl_view(m).map_values(|p: (Text, Seq<Text>)| p.0) =~= keys(m));
}

/// Value stored under `k`.
pub fn tt_get(m: &Vec<(Vec<char>, Vec<char>)>, k: &Vec<char>) -> (r: Option<Vec<char>>)
    ensures
        opt_text(r) == lookup(tt_view(m@), k@),
{
    proof {
        lemma_tt_keys(m@);
    }
    match find_keyed(m, k) {
        Some(j) => Some(crate::text::copy_chars(&m[j].1)),
        None => None,
    }
}

/// `HashMap::insert` on a map of texts.
pub fn tt_insert(m: &mut Vec<(Vec<char>, Vec<char>)>, k: Vec<char>, v: Vec<char>)
    ensures
        tt_view(final(m)@) == insert(tt_view(old(m)@), k@, v@),
{
    proof {
        lemma_tt_keys(old(m)@);
    }
    match find_keyed(m, &k) {
        Some(j) => {
            let ghost kv = k@;
            let ghost vv = v@;
            m.set(j, (k, v));
            assert(tt_view(m@) =~= tt_view(old(m)@).update(j as int, (kv, vv)));
        },
        None => {
            let ghost kv = k@;
            let ghost vv = v@;
            m.push((k, v));
            assert(tt_view(m@) =~= tt_view(old(m)@).push((kv, vv)));
        },
    }
}

/// Value list stored under `k`.
pub fn tl_get(m: &Vec<(Vec<char>, Vec<Vec<char>>)>, k: &Vec<char>) -> (r: Option<Vec<Vec<char>>>)
    ensures
        match r {
            Some(v) => lookup(tl_view(m@), k@) == Some(views(v@)),
            None => lookup(tl_view(m@), k@) is None,
        },
{
    proof {
        lemma_tl_keys(m@);
    }
    match find_keyed(m, k) {
        Some(j) => Some(crate::text::copy_lines(&m[j].1)),
        None => None,
    }
}

/// `map.entry(k).or_default().push(v)`.
pub fn tl_push(m: &mut Vec<(Vec<char>, Vec<Vec<char>>)>, k: Vec<char>, v: Vec<char>)
    ensures
        tl_view(final(m)@) == push_under(tl_view(old(m)@), k@, v@),
{
    proof {
        lemma_tl_keys(old(m)@);
    }
    let ghost kv = k@;
    let ghost vv = v@;
    match find_keyed(m, &k) {
        Some(j) => {
            let mut list = crate::text::copy_lines(&m[j].1);
            let ghost l0 = list@;
            proof {
                lemma_first_index(keys(old(m)@), kv);
            }
            list.push(v);
            proof {
                crate::text::lemma_views_push(l0, list@.last());
                assert(list@ == l0.push(list@.last()));
            }
            m.set(j, (k, list));
            assert(tl_view(m@) =~= tl_view(old(m)@).update(j as int, (kv, tl_view(old(m)@)[j as int].1.push(vv))));
        },
        None => {
            let mut list: Vec<Vec<char>> = Vec::new();
            list.push(v);
            assert(views(list@) =~= seq![vv]);
            m.push((k, list));
            assert(tl_view(m@) =~= tl_view(old(m)@).push((kv, seq![vv])));
        },
    }
}

/// View of an optional text.
pub open spec fn opt_text(o: Option<Vec<char>>) -> Option<Text> {
    match o {
        Some(t) => Some(t@),
        None => None,
    }
}

// ---------------------------------------------------------------------------
// Nodes
// ---------------------------------------------------------------------------

/// Node ids of a model.
pub open spec fn node_ids(nodes: Seq<NodeV>) -> Seq<Text> {
    nodes.map_values(|n: NodeV| n.id)
}

/// Whether a node with id `id` exists.
pub open spec fn has_node(a: AstV, id: Text) -> bool {
    first_index(node_ids(a.nodes), id) is Some
}

/// A style with no override.
pub open spec fn plain_style() -> StyleV {
    StyleV { fill: None, stroke: None, stroke_width: None, color: None }
}

/// A node with the given id, label and shape, and nothing else.
pub open spec fn plain_node(id: Text, label: Text, shape: NodeShape) -> NodeV {
    NodeV { id, label, shape, style: plain_style(), link: None, subgraph: None }
}

/// The model with `n` added unless a node with its id exists.
pub open spec fn ensure_node(a: AstV, n: NodeV) -> AstV {
    if has_node(a, n.id) {
        a
    } else {
        AstV { nodes: a.nodes.push(n), ..a }
    }
}

/// The model with `n` stored: it replaces the node with its id, or is appended.
pub open spec fn store_node(a: AstV, n: NodeV) -> AstV {
    match first_index(node_ids(a.nodes), n.id) {
        Some(j) => AstV { nodes: a.nodes.update(j, n), ..a },
        None => AstV { nodes: a.nodes.push(n), ..a },
    }
}

/// An empty model of the given kind, flowing top-down.
pub open spec fn empty_ast(kind: DiagramKind) -> AstV {
    AstV {
        kind,
        direction: Direction::TopDown,
        nodes: seq![],
        edges: seq![],
        subgraphs: seq![],
        title: None,
        sequence_meta: None,
    }
}

pub proof fn lemma_node_keys(nodes: Seq<NodeOf<Vec<char>>>)
    ensures
        node_ids(deep(nodes)) == keys(nodes),
{
    assert(node_ids(deep(nodes)) =~= keys(nodes));
}

/// A style with no override.
pub fn plain_style_exec() -> (s: NodeStyleOf<Vec<char>>)
    ensures
        s@ == plain_style(),
{
    NodeStyleOf { fill: None, stroke: None, stroke_width: None, color: None }
}

/// A node with the given id, label and shape, and nothing else.
pub fn plain_node_exec(id: Vec<char>, label: Vec<char>, shape: NodeShape) -> (n: NodeOf<Vec<char>>)
    ensures
        n@ == plain_node(id@, label@, shape),
{
    NodeOf { id, label, shape, style: plain_style_exec(), link: None, subgraph: None }
}

/// An empty model of the given kind, flowing top-down.
pub fn empty_ast_exec(kind: DiagramKind) -> (a: AstOf<Vec<char>>)
    ensures
        a@ == empty_ast(kind),
{
    let a = AstOf {
        kind,
        direction: Direction::TopDown,
        nodes: Vec::new(),
        edges: Vec::new(),
        subgraphs: Vec::new(),
        title: None,
        sequence_meta: None,
    };
    assert(a@.nodes =~= Seq::<NodeV>::empty());
    assert(a@.edges =~= Seq::<EdgeV>::empty());
    assert(a@.subgraphs =~= Seq::<SubgraphV>::empty());
    a
}

/// Index of the node with id `id`.
pub fn find_node(a: &AstOf<Vec<char>>, id: &Vec<char>) -> (r: Option<usize>)
    ensures
        r matches Some(j) ==> first_index(node_ids(a@.nodes), id@) == Some(j as int) && j < a.nodes@.len(),
        r is None ==> first_index(node_ids(a@.nodes), id@) is None,
{
    proof {
        lemma_node_keys(a.nodes@);
    }
    find_keyed(&a.nodes, id)
}

/// Adds `n` unless a node with its id exists.
pub fn ensure_node_exec(a: &mut AstOf<Vec<char>>, n: NodeOf<Vec<char>>)
    ensures
        final(a)@ == ensure_node(old(a)@, n@),
{
    if find_node(a, &n.id).is_none() {
        let ghost nv = n@;
        a.nodes.push(n);
        proof {
            lemma_deep_push(old(a).nodes@, a.nodes@.last());
        }
        assert(a@ =~= ensure_node(old(a)@, nv));
    }
}

/// Stores `n`, replacing the node with its id.
pub fn store_node_exec(a: &mut AstOf<Vec<char>>, n: NodeOf<Vec<char>>)
    ensures
        final(a)@ == store_node(old(a)@, n@),
{
    let ghost nv = n@;
    match find_node(a, &n.id) {
        Some(j) => {
            a.nodes.set(j, n);
            proof {
                lemma_first_index(node_ids(old(a)@.nodes), nv.id);
                lemma_deep_update(old(a).nodes@, j as int, a.nodes@[j as int]);
            }
            assert(a@ =~= store_node(old(a)@, nv));
        },
        None => {
            a.nodes.push(n);
            proof {
                lemma_deep_push(old(a).nodes@, a.nodes@.last());
            }
            assert(a@ =~= store_node(old(a)@, nv));
        },
    }
}

/// Appends an edge.
pub fn push_edge(a: &mut AstOf<Vec<char>>, e: EdgeOf<Vec<char>>)
    ensures
        final(a)@ == (AstV { edges: old(a)@.edges.push(e@), ..old(a)@ }),
{
    let ghost ev = e@;
    a.edges.push(e);
    proof {
        lemma_deep_push(old(a).edges@, a.edges@.last());
    }
    assert(a@ =~= AstV { edges: old(a)@.edges.push(ev), ..old(a)@ });
}

/// Replaces the label of the `i`-th node.
pub fn set_node_label(nodes: &mut Vec<NodeOf<Vec<char>>>, i: usize, label: Vec<char>)
    requires
        i < old(nodes)@.len(),
    ensures
        final(nodes)@.len() == old(nodes)@.len(),
        deep(final(nodes)@) == deep(old(nodes)@).update(i as int, NodeV { label: label@, ..old(nodes)@[i as int]@ }),
{
    let ghost lv = label@;
    let mut n = nodes.remove(i);
    n.label = label;
    nodes.insert(i, n);
    assert(deep(nodes@) =~= deep(old(nodes)@).update(i as int, NodeV { label: lv, ..old(nodes)@[i as int]@ }));
}

// ---------------------------------------------------------------------------
// The public model
// ---------------------------------------------------------------------------

/// Whether no two nodes share an id.
pub open spec fn unique_ids(nodes: Seq<NodeV>) -> bool {
    forall|i: int, j: int| 0 <= i < j < nodes.len() ==> #[trigger] nodes[i].id != #[trigger] nodes[j].id
}


/// `ensure_node` keeps node ids distinct.
pub proof fn lemma_ensure_node_unique(a: AstV, n: NodeV)
    requires
        unique_ids(a.nodes),
    ensures
        unique_ids(ensure_node(a, n).nodes),
{
    lemma_first_index(node_ids(a.nodes), n.id);
    if !has_node(a, n.id) {
        let b = ensure_node(a, n).nodes;
        assert forall|i: int, j: int| 0 <= i < j < b.len() implies #[trigger] b[i].id != #[trigger] b[j].id by {
            if j == a.nodes.len() {
                assert(node_ids(a.nodes)[i] == a.nodes[i].id);
            }
        }
    }
}

/// `store_node` keeps node ids distinct.
pub proof fn lemma_store_node_unique(a: AstV, n: NodeV)
    requires
        unique_ids(a.nodes),
    ensures
        unique_ids(store_node(a, n).nodes),
{
    lemma_first_index(node_ids(a.nodes), n.id);
    let b = store_node(a, n).nodes;
    match first_index(node_ids(a.nodes), n.id) {
        Some(k) => {
            assert forall|i: int, j: int| 0 <= i < j < b.len() implies #[trigger] b[i].id != #[trigger] b[j].id by {
                assert(node_ids(a.nodes)[k] == n.id);
                assert(a.nodes[k].id == n.id);
            }
        },
        None => {
            assert forall|i: int, j: int| 0 <= i < j < b.len() implies #[trigger] b[i].id != #[trigger] b[j].id by {
                if j == a.nodes.len() {
                    assert(node_ids(a.nodes)[i] == a.nodes[i].id);
                }
            }
        },
    }
}

/// Nodes with the same ids in the same order are as distinct as before.
pub proof fn lemma_same_ids_unique(a: Seq<NodeV>, b: Seq<NodeV>)
    requires
        unique_ids(a),
        a.len() == b.len(),
        forall|i: int| 0 <= i < a.len() ==> (#[trigger] b[i]).id == a[i].id,
    ensures
        unique_ids(b),
{
    assert forall|i: int, j: int| 0 <= i < j < b.len() implies #[trigger] b[i].id != #[trigger] b[j].id by {
        assert(a[i].id != a[j].id);
    }
}


/// The node with id `id`, if there is one (the first, were ids repeated).
pub open spec fn node_lookup(a: AstV, id: Text) -> Option<NodeV> {
    match first_index(node_ids(a.nodes), id) {
        Some(j) => Some(a.nodes[j]),
        None => None,
    }
}

/// Law: after a node is stored, looking up its id gives that node, every other
/// id gives what it gave before, and ids stay distinct.
pub proof fn law_store_then_lookup(a: AstV, n: NodeV, id: Text)
    ensures
        node_lookup(store_node(a, n), n.id) == Some(n),
        id != n.id ==> node_lookup(store_node(a, n), id) == node_lookup(a, id),
        unique_ids(a.nodes) ==> unique_ids(store_node(a, n).nodes),
{
    let ids = node_ids(a.nodes);
    let b = store_node(a, n);
    lemma_first_index(ids, n.id);
    lemma_first_index(ids, id);
    lemma_first_index(node_ids(b.nodes), n.id);
    lemma_first_index(node_ids(b.nodes), id);
    let bids = node_ids(b.nodes);
    match first_index(ids, n.id) {
        Some(j) => {
            assert(bids =~= ids.update(j, n.id));
            assert(bids[j] == n.id);
            match first_index(bids, n.id) {
                Some(k) => {
                    if k < j {
                        assert(bids[k] == ids[k]);
                    } else if k > j {
                        assert(bids[j] != n.id);
                    }
                },
                None => {
                    assert(bids[j] != n.id);
                },
            }
            if id != n.id {
                match first_index(ids, id) {
                    Some(k) => {
                        assert(bids[k] == ids[k]);
                        match first_index(bids, id) {
                            Some(k2) => {
                                if k2 < k {
                                    assert(bids[k2] == ids[k2]);
                                } else if k2 > k {
                                    assert(bids[k] != id);
                                }
                            },
                            None => {
                                assert(bids[k] != id);
                            },
                        }
                    },
                    None => {
                        match first_index(bids, id) {
                            Some(k2) => {
                                assert(bids[k2] == ids[k2]);
                            },
                            None => {},
                        }
                    },
                }
            }
        },
        None => {
            assert(bids =~= ids.push(n.id));
            let l = ids.len() as int;
            assert(bids[l] == n.id);
            match first_index(bids, n.id) {
                Some(k) => {
                    if k < l {
                        assert(bids[k] == ids[k]);
                    }
                },
                None => {
                    assert(bids[l] != n.id);
                },
            }
            if id != n.id {
                match first_index(ids, id) {
                    Some(k) => {
                        assert(bids[k] == ids[k]);
                        match first_index(bids, id) {
                            Some(k2) => {
                                if k2 < k {
                                    assert(bids[k2] == ids[k2]);
                                } else if k2 > k {
                                    assert(bids[k] != id);
                                }
                            },
                            None => {
                                assert(bids[k] != id);
                            },
                        }
                    },
                    None => {
                        match first_index(bids, id) {
                            Some(k2) => {
                                if k2 < l {
                                    assert(bids[k2] == ids[k2]);
                                }
                            },
                            None => {},
                        }
                    },
                }
            }
        },
    }
    if unique_ids(a.nodes) {
        lemma_store_node_unique(a, n);
    }
}


/// `insert` then `lookup`: the key gives the new value, other keys what they gave.
pub proof fn lemma_insert_lookup<V>(m: Seq<(Text, V)>, k: Text, v: V, k2: Text)
    ensures
        lookup(insert(m, k, v), k) == Some(v),
        k2 != k ==> lookup(insert(m, k, v), k2) == lookup(m, k2),
{
    let ks = m.map_values(|p: (Text, V)| p.0);
    let n = insert(m, k, v);
    let nks = n.map_values(|p: (Text, V)| p.0);
    lemma_first_index(ks, k);
    lemma_first_index(ks, k2);
    match first_index(ks, k) {
        Some(j) => {
            assert(nks =~= ks.update(j, k));
        },
        None => {
            assert(nks =~= ks.push(k));
        },
    }
    lemma_first_index(nks, k);
    lemma_first_index(nks, k2);
    match first_index(ks, k) {
        Some(j) => {
            assert(nks[j] == k);
            match first_index(nks, k) {
                Some(a) => {
                    if a < j {
                        assert(nks[a] == ks[a]);
                    } else if a > j {
                        assert(nks[j] != k);
                    }
                },
                None => {
                    assert(nks[j] != k);
                },
            }
            if k2 != k {
                match first_index(ks, k2) {
                    Some(b) => {
                        assert(nks[b] == ks[b]);
                        match first_index(nks, k2) {
                            Some(c) => {
                                if c < b {
                                    assert(nks[c] == ks[c]);
                                } else if c > b {
                                    assert(nks[b] != k2);
                                }
                            },
                            None => {
                                assert(nks[b] != k2);
                            },
                        }
                    },
                    None => {
                        match first_index(nks, k2) {
                            Some(c) => {
                                assert(nks[c] == ks[c]);
                            },
                            None => {},
                        }
                    },
                }
            }
        },
        None => {
            let l = ks.len() as int;
            assert(nks[l] == k);
            match first_index(nks, k) {
                Some(a) => {
                    if a < l {
                        assert(nks[a] == ks[a]);
                    }
                },
                None => {
                    assert(nks[l] != k);
                },
            }
            if k2 != k {
                match first_index(ks, k2) {
                    Some(b) => {
                        assert(nks[b] == ks[b]);
                        match first_index(nks, k2) {
                            Some(c) => {
                                if c < b {
                                    assert(nks[c] == ks[c]);
                                } else if c > b {
                                    assert(nks[b] != k2);
                                }
                            },
                            None => {
                                assert(nks[b] != k2);
                            },
                        }
                    },
                    None => {
                        match first_index(nks, k2) {
                            Some(c) => {
                                if c < l {
                                    assert(nks[c] == ks[c]);
                                }
                            },
                            None => {},
                        }
                    },
                }
            }
        },
    }
}

fn find_node_str(nodes: &Vec<NodeOf<String>>, id: &str) -> (r: Option<usize>)
    ensures
        r matches Some(j) ==> first_index(node_ids(deep(nodes@)), id@) == Some(j as int) && j < nodes@.len(),
        r is None ==> first_index(node_ids(deep(nodes@)), id@) is None,
{
    let key = crate::text::str_chars(id);
    let ghost ids = node_ids(deep(nodes@));
    proof {
        lemma_first_index(ids, id@);
    }
    let mut i: usize = 0;
    while i < nodes.len()
        invariant
            i <= nodes.len(),
            ids == node_ids(deep(nodes@)),
            ids.len() == nodes@.len(),
            key@ == id@,
            first_index(ids, id@) == first_index_from(ids, id@, i as int),
        decreases nodes.len() - i,
    {
        let k = crate::text::string_chars(&nodes[i].id);
        assert(ids[i as int] == nodes@[i as int].id@);
        if chars_eq(&k, &key) {
            return Some(i);
        }
        i += 1;
    }
    None
}


/// Index of the first pair whose key has the characters of `k`.
fn find_pair_str<X>(m: &Vec<(String, X)>, k: &str) -> (r: Option<usize>)
    ensures
        r matches Some(j) ==> first_index(m@.map_values(|p: (String, X)| p.0@), k@) == Some(j as int) && j < m@.len(),
        r is None ==> first_index(m@.map_values(|p: (String, X)| p.0@), k@) is None,
{
    let key = crate::text::str_chars(k);
    let ghost ks = m@.map_values(|p: (String, X)| p.0@);
    proof {
        lemma_first_index(ks, k@);
    }
    let mut i: usize = 0;
    while i < m.len()
        invariant
            i <= m.len(),
            ks == m@.map_values(|p: (String, X)| p.0@),
            key@ == k@,
            first_index(ks, k@) == first_index_from(ks, k@, i as int),
        decreases m.len() - i,
    {
        let c = crate::text::string_chars(&m[i].0);
        assert(ks[i as int] == m@[i as int].0@);
        if chars_eq(&c, &key) {
            return Some(i);
        }
        i += 1;
    }
    None
}

impl crate::diagram::SequenceMetaOf<String> {
    /// The participant an alias stands for.
    pub fn alias(&self, name: &str) -> (r: Option<&String>)
        ensures
            match lookup(self@.aliases, name@) {
                Some(id) => r matches Some(t) && t@ == id,
                None => r is None,
            },
    {
        assert(self@.aliases.map_values(|p: (Text, Text)| p.0) =~= self.aliases@.map_values(|p: (String, String)| p.0@));
        match find_pair_str(&self.aliases, name) {
            Some(j) => Some(&self.aliases[j].1),
            None => None,
        }
    }

    /// Whether a participant was last declared as an actor.
    pub fn actor_flag(&self, id: &str) -> (r: Option<bool>)
        ensures
            r == lookup(self@.is_actor, id@),
    {
        assert(self@.is_actor.map_values(|p: (Text, bool)| p.0) =~= self.is_actor@.map_values(|p: (String, bool)| p.0@));
        match find_pair_str(&self.is_actor, id) {
            Some(j) => Some(self.is_actor[j].1),
            None => None,
        }
    }
}

impl AstOf<String> {
    /// An empty diagram of the given kind, flowing top-down.
    pub fn new(kind: DiagramKind) -> (r: Self)
        ensures
            r@ == empty_ast(kind),
    {
        let a = AstOf {
            kind,
            direction: Direction::TopDown,
            nodes: Vec::new(),
            edges: Vec::new(),
            subgraphs: Vec::new(),
            title: None,
            sequence_meta: None,
        };
        assert(a@.nodes =~= Seq::<NodeV>::empty());
        assert(a@.edges =~= Seq::<EdgeV>::empty());
        assert(a@.subgraphs =~= Seq::<SubgraphV>::empty());
        a
    }

    /// Adds a node; a node with the same id is replaced in its place.
    pub fn add_node(&mut self, node: NodeOf<String>)
        ensures
            final(self)@ == store_node(old(self)@, node@),
    {
        let ghost nv = node@;
        match find_node_str(&self.nodes, node.id.as_str()) {
            Some(j) => {
                self.nodes.set(j, node);
                proof {
                    lemma_deep_update(old(self).nodes@, j as int, self.nodes@[j as int]);
                }
                assert(self@ =~= store_node(old(self)@, nv));
            },
            None => {
                self.nodes.push(node);
                proof {
                    lemma_deep_push(old(self).nodes@, self.nodes@.last());
                }
                assert(self@ =~= store_node(old(self)@, nv));
            },
        }
    }

    /// Adds an edge.
    pub fn add_edge(&mut self, edge: EdgeOf<String>)
        ensures
            final(self)@ == (AstV { edges: old(self)@.edges.push(edge@), ..old(self)@ }),
    {
        let ghost ev = edge@;
        self.edges.push(edge);
        proof {
            lemma_deep_push(old(self).edges@, self.edges@.last());
        }
        assert(self@ =~= AstV { edges: old(self)@.edges.push(ev), ..old(self)@ });
    }

    /// Adds a subgraph.
    pub fn add_subgraph(&mut self, subgraph: SubgraphOf<String>)
        ensures
            final(self)@ == (AstV { subgraphs: old(self)@.subgraphs.push(subgraph@), ..old(self)@ }),
    {
        let ghost sv = subgraph@;
        self.subgraphs.push(subgraph);
        proof {
            lemma_deep_push(old(self).subgraphs@, self.subgraphs@.last());
        }
        assert(self@ =~= AstV { subgraphs: old(self)@.subgraphs.push(sv), ..old(self)@ });
    }

    /// Number of nodes.
    pub fn node_count(&self) -> (r: usize)
        ensures
            r == self@.nodes.len(),
    {
        self.nodes.len()
    }

    /// Number of edges.
    pub fn edge_count(&self) -> (r: usize)
        ensures
            r == self@.edges.len(),
    {
        self.edges.len()
    }

    /// The node with the given id.
    pub fn node(&self, id: &str) -> (r: Option<&NodeOf<String>>)
        ensures
            match node_lookup(self@, id@) {
                Some(n) => r matches Some(x) && x@ == n,
                None => r is None,
            },
    {
        match find_node_str(&self.nodes, id) {
            Some(j) => Some(&self.nodes[j]),
            None => None,
        }
    }

    /// Whether a node with the given id exists.
    pub fn contains_node(&self, id: &str) -> (r: bool)
        ensures
            r == has_node(self@, id@),
    {
        find_node_str(&self.nodes, id).is_some()
    }

    /// Node ids in declaration order.
    pub fn node_order(&self) -> (r: Vec<String>)
        ensures
            crate::text::string_views(r@) == node_ids(self@.nodes),
    {
        let mut r: Vec<String> = Vec::new();
        let mut i: usize = 0;
        while i < self.nodes.len()
            invariant
                i <= self.nodes.len(),
                r@.len() == i,
                forall|k: int| #![trigger r@[k]] 0 <= k < i ==> r@[k]@ == self.nodes@[k].id@,
            decreases self.nodes.len() - i,
        {
            let k = crate::text::string_chars(&self.nodes[i].id);
            r.push(crate::text::chars_to_string(&k));
            i += 1;
        }
        assert(crate::text::string_views(r@) =~= node_ids(self@.nodes));
        r
    }
}

/// Sets the enclosing subgraph of the `i`-th node.
pub fn set_node_subgraph(nodes: &mut Vec<NodeOf<Vec<char>>>, i: usize, sg: usize)
    requires
        i < old(nodes)@.len(),
    ensures
        final(nodes)@.len() == old(nodes)@.len(),
        deep(final(nodes)@) == deep(old(nodes)@).update(i as int, NodeV { subgraph: Some(sg), ..old(nodes)@[i as int]@ }),
{
    let mut n = nodes.remove(i);
    n.subgraph = Some(sg);
    nodes.insert(i, n);
    assert(deep(nodes@) =~= deep(old(nodes)@).update(i as int, NodeV { subgraph: Some(sg), ..old(nodes)@[i as int]@ }));
}

/// Appends a node id to the `i`-th subgraph.
pub fn push_subgraph_node(subs: &mut Vec<SubgraphOf<Vec<char>>>, i: usize, id: Vec<char>)
    requires
        i < old(subs)@.len(),
    ensures
        final(subs)@.len() == old(subs)@.len(),
        deep(final(subs)@) == deep(old(subs)@).update(
            i as int,
            SubgraphV { nodes: old(subs)@[i as int]@.nodes.push(id@), ..old(subs)@[i as int]@ },
        ),
{
    let ghost iv = id@;
    let mut g = subs.remove(i);
    let ghost g0 = g@;
    g.nodes.push(id);
    assert(g@.nodes =~= g0.nodes.push(iv));
    subs.insert(i, g);
    assert(deep(subs@) =~= deep(old(subs)@).update(
        i as int,
        SubgraphV { nodes: old(subs)@[i as int]@.nodes.push(iv), ..old(subs)@[i as int]@ },
    ));
}

/// Appends a subgraph.
pub fn push_subgraph(a: &mut AstOf<Vec<char>>, g: SubgraphOf<Vec<char>>)
    ensures
        final(a)@ == (AstV { subgraphs: old(a)@.subgraphs.push(g@), ..old(a)@ }),
{
    let ghost gv = g@;
    a.subgraphs.push(g);
    proof {
        lemma_deep_push(old(a).subgraphs@, a.subgraphs@.last());
    }
    assert(a@ =~= AstV { subgraphs: old(a)@.subgraphs.push(gv), ..old(a)@ });
}

/// An optional text, copied.
pub fn copy_opt(o: &Option<Vec<char>>) -> (r: Option<Vec<char>>)
    ensures
        opt_text(r) == opt_text(*o),
        crate::diagram::opt_view(r) == crate::diagram::opt_view(*o),
{
    match o {
        Some(t) => Some(crate::text::copy_chars(t)),
        None => None,
    }
}

/// A style, copied.
pub fn copy_style(s: &NodeStyleOf<Vec<char>>) -> (r: NodeStyleOf<Vec<char>>)
    ensures
        r@ == s@,
{
    NodeStyleOf {
        fill: copy_opt(&s.fill),
        stroke: copy_opt(&s.stroke),
        stroke_width: copy_opt(&s.stroke_width),
        color: copy_opt(&s.color),
    }
}

/// Replaces the style of the `i`-th node.
pub fn set_node_style(nodes: &mut Vec<NodeOf<Vec<char>>>, i: usize, style: NodeStyleOf<Vec<char>>)
    requires
        i < old(nodes)@.len(),
    ensures
        final(nodes)@.len() == old(nodes)@.len(),
        deep(final(nodes)@) == deep(old(nodes)@).update(i as int, NodeV { style: style@, ..old(nodes)@[i as int]@ }),
{
    let ghost sv = style@;
    let mut n = nodes.remove(i);
    n.style = style;
    nodes.insert(i, n);
    assert(deep(nodes@) =~= deep(old(nodes)@).update(i as int, NodeV { style: sv, ..old(nodes)@[i as int]@ }));
}

/// Replaces the link of the `i`-th node.
pub fn set_node_link(nodes: &mut Vec<NodeOf<Vec<char>>>, i: usize, url: Vec<char>, target: Vec<char>)
    requires
        i < old(nodes)@.len(),
    ensures
        final(nodes)@.len() == old(nodes)@.len(),
        deep(final(nodes)@) == deep(old(nodes)@).update(i as int, NodeV { link: Some((url@, target@)), ..old(nodes)@[i as int]@ }),
{
    let ghost uv = url@;
    let ghost tv = target@;
    let mut n = nodes.remove(i);
    n.link = Some(crate::diagram::NodeLinkOf { url, target });
    nodes.insert(i, n);
    assert(deep(nodes@) =~= deep(old(nodes)@).update(i as int, NodeV { link: Some((uv, tv)), ..old(nodes)@[i as int]@ }));
}

/// Sets the direction of the `i`-th subgraph.
pub fn set_subgraph_direction(subs: &mut Vec<SubgraphOf<Vec<char>>>, i: usize, d: Direction)
    requires
        i < old(subs)@.len(),
    ensures
        final(subs)@.len() == old(subs)@.len(),
        deep(final(subs)@) == deep(old(subs)@).update(i as int, SubgraphV { direction: Some(d), ..old(subs)@[i as int]@ }),
{
    let mut g = subs.remove(i);
    g.direction = Some(d);
    subs.insert(i, g);
    assert(deep(subs@) =~= deep(old(subs)@).update(i as int, SubgraphV { direction: Some(d), ..old(subs)@[i as int]@ }));
}

/// Sets the line style of the `i`-th edge.
pub fn set_edge_style(edges: &mut Vec<EdgeOf<Vec<char>>>, i: usize, st: crate::diagram::EdgeStyle)
    requires
        i < old(edges)@.len(),
    ensures
        final(edges)@.len() == old(edges)@.len(),
        deep(final(edges)@) == deep(old(edges)@).update(i as int, EdgeV { style: st, ..old(edges)@[i as int]@ }),
{
    let mut e = edges.remove(i);
    e.style = st;
    edges.insert(i, e);
    assert(deep(edges@) =~= deep(old(edges)@).update(i as int, EdgeV { style: st, ..old(edges)@[i as int]@ }));
}

} // verus!
