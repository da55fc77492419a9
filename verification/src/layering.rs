//! Assigning nodes to ranks (layers) by a walk from the sources: a node's rank is
//! one more than the highest rank among its predecessors.

use vstd::prelude::*;
use crate::diagram::{Text, EdgeV, EdgeOf, DiagramAst, NodeV, deep};
use crate::text::{views, string_chars, chars_to_string, chars_eq, copy_chars, string_views, str_chars};
use crate::model::{
    lookup, insert, push_under, first_index, lemma_first_index, lemma_insert_lookup, keys, find_keyed,
    tl_view, tl_get, tl_push, node_ids,
};

verus! {

// ---------------------------------------------------------------------------
// Model
// ---------------------------------------------------------------------------

/// Predecessor (`forward == false`) or successor lists over the first `n` edges,
/// counting only edges between two distinct known nodes.
pub open spec fn known_neighbours(ids: Seq<Text>, edges: Seq<EdgeV>, forward: bool, n: int) -> Seq<(Text, Seq<Text>)>
    decreases n,
{
    if n <= 0 || n > edges.len() {
        seq![]
    } else {
        let m = known_neighbours(ids, edges, forward, n - 1);
        let e = edges[n - 1];
        if ids.contains(e.from) && ids.contains(e.to) && e.from != e.to {
            if forward { push_under(m, e.from, e.to) } else { push_under(m, e.to, e.from) }
        } else {
            m
        }
    }
}

/// The list stored under `id`, empty when there is none.
pub open spec fn list_of(m: Seq<(Text, Seq<Text>)>, id: Text) -> Seq<Text> {
    match lookup(m, id) {
        Some(l) => l,
        None => seq![],
    }
}

/// Nodes among the first `n` without a predecessor, in declaration order.
pub open spec fn sources(ids: Seq<Text>, preds: Seq<(Text, Seq<Text>)>, n: int) -> Seq<Text>
    decreases n,
{
    if n <= 0 || n > ids.len() {
        seq![]
    } else if lookup(preds, ids[n - 1]) is None {
        sources(ids, preds, n - 1).push(ids[n - 1])
    } else {
        sources(ids, preds, n - 1)
    }
}

/// Rank 0 given to the first `n` of `start`.
pub open spec fn zero_ranks(start: Seq<Text>, n: int) -> Seq<(Text, int)>
    decreases n,
{
    if n <= 0 || n > start.len() {
        seq![]
    } else {
        insert(zero_ranks(start, n - 1), start[n - 1], 0)
    }
}

/// State of the walk: ranks so far, the queue, the nodes done, and how many of
/// the queued entries were there at the last node done.
pub struct Walk {
    pub rank: Seq<(Text, int)>,
    pub queue: Seq<Text>,
    pub processed: Seq<Text>,
    pub pending: nat,
}

/// Every node of `ps` has a rank.
pub open spec fn all_ranked(rank: Seq<(Text, int)>, ps: Seq<Text>) -> bool {
    forall|i: int| 0 <= i < ps.len() ==> lookup(rank, #[trigger] ps[i]) is Some
}

/// Highest rank among the ranked nodes of `ps` (the first `n`), 0 when none.
pub open spec fn max_rank(rank: Seq<(Text, int)>, ps: Seq<Text>, n: int) -> int
    decreases n,
{
    if n <= 0 || n > ps.len() {
        0
    } else {
        let m = max_rank(rank, ps, n - 1);
        match lookup(rank, ps[n - 1]) {
            Some(r) => if r > m { r } else { m },
            None => m,
        }
    }
}

/// Successors of a node just done, in order: an unranked one is queued, a
/// ranked one is raised to `rx + 1` when that is higher.
pub open spec fn visit(rank: Seq<(Text, int)>, queue: Seq<Text>, rx: int, ss: Seq<Text>) -> (Seq<(Text, int)>, Seq<Text>)
    decreases ss.len(),
{
    if ss.len() == 0 {
        (rank, queue)
    } else {
        let (r, q) = visit(rank, queue, rx, ss.drop_last());
        match lookup(r, ss.last()) {
            None => (r, q.push(ss.last())),
            Some(cur) => if rx + 1 > cur { (insert(r, ss.last(), rx + 1), q) } else { (r, q) },
        }
    }
}

/// One turn of the walk: the front node is skipped when done, sent to the back
/// while a predecessor lacks a rank (unless it has one itself), else done.
pub open spec fn walk_step(w: Walk, preds: Seq<(Text, Seq<Text>)>, succs: Seq<(Text, Seq<Text>)>) -> Walk {
    let x = w.queue[0];
    let q = w.queue.skip(1);
    let pending = (w.pending - 1) as nat;
    if w.processed.contains(x) {
        Walk { queue: q, pending, ..w }
    } else {
        let ps = list_of(preds, x);
        if !all_ranked(w.rank, ps) && lookup(w.rank, x) is None {
            Walk { queue: q.push(x), pending, ..w }
        } else {
            let r1 = if lookup(w.rank, x) is None { insert(w.rank, x, max_rank(w.rank, ps, ps.len() as int) + 1) } else { w.rank };
            let (r2, q2) = visit(r1, q, lookup(r1, x)->0, list_of(succs, x));
            Walk { rank: r2, queue: q2, processed: w.processed.push(x), pending: q2.len() }
        }
    }
}

/// What keeps the walk finite: the nodes done are distinct known nodes, queued
/// nodes are known, successors are known.
pub open spec fn walk_ok(w: Walk, ids: Seq<Text>, succs: Seq<(Text, Seq<Text>)>) -> bool {
    &&& w.processed.no_duplicates()
    &&& forall|i: int| 0 <= i < w.processed.len() ==> ids.contains(#[trigger] w.processed[i])
    &&& forall|i: int| 0 <= i < w.queue.len() ==> ids.contains(#[trigger] w.queue[i])
    &&& w.pending <= w.queue.len()
    &&& forall|k: int, j: int| 0 <= k < succs.len() && 0 <= j < succs[k].1.len() ==> ids.contains(#[trigger] succs[k].1[j])
}

proof fn lemma_done_bound(processed: Seq<Text>, ids: Seq<Text>)
    requires
        processed.no_duplicates(),
        forall|i: int| 0 <= i < processed.len() ==> ids.contains(#[trigger] processed[i]),
    ensures
        processed.len() <= ids.len(),
{
    processed.unique_seq_to_set();
    ids.lemma_cardinality_of_set();
    vstd::seq_lib::seq_to_set_is_finite(ids);
    assert(processed.to_set().subset_of(ids.to_set()));
    vstd::set_lib::lemma_len_subset(processed.to_set(), ids.to_set());
}

proof fn lemma_visit_known(rank: Seq<(Text, int)>, queue: Seq<Text>, rx: int, ss: Seq<Text>, ids: Seq<Text>)
    requires
        forall|i: int| 0 <= i < queue.len() ==> ids.contains(#[trigger] queue[i]),
        forall|i: int| 0 <= i < ss.len() ==> ids.contains(#[trigger] ss[i]),
    ensures
        forall|i: int| 0 <= i < visit(rank, queue, rx, ss).1.len() ==> ids.contains(#[trigger] visit(rank, queue, rx, ss).1[i]),
        visit(rank, queue, rx, ss).1.len() >= queue.len(),
    decreases ss.len(),
{
    if ss.len() > 0 {
        lemma_visit_known(rank, queue, rx, ss.drop_last(), ids);
        let (r, q) = visit(rank, queue, rx, ss.drop_last());
        assert(ids.contains(ss[ss.len() - 1]));
    }
}

proof fn lemma_list_known(m: Seq<(Text, Seq<Text>)>, id: Text, ids: Seq<Text>)
    requires
        forall|k: int, j: int| 0 <= k < m.len() && 0 <= j < m[k].1.len() ==> ids.contains(#[trigger] m[k].1[j]),
    ensures
        forall|i: int| 0 <= i < list_of(m, id).len() ==> ids.contains(#[trigger] list_of(m, id)[i]),
{
    let ks = m.map_values(|p: (Text, Seq<Text>)| p.0);
    lemma_first_index(ks, id);
    match first_index(ks, id) {
        Some(j) => {
            assert forall|i: int| 0 <= i < list_of(m, id).len() implies ids.contains(#[trigger] list_of(m, id)[i]) by {
                assert(m[j].1[i] == list_of(m, id)[i]);
            }
        },
        None => {},
    }
}

/// A turn keeps the walk well formed and, unless it has stalled, makes progress:
/// one more node done, or a shorter queue, or one fewer old entry.
pub proof fn lemma_walk_step(w: Walk, ids: Seq<Text>, preds: Seq<(Text, Seq<Text>)>, succs: Seq<(Text, Seq<Text>)>)
    requires
        walk_ok(w, ids, succs),
        w.pending > 0,
    ensures
        walk_ok(walk_step(w, preds, succs), ids, succs),
        w.processed.len() <= ids.len(),
        ({
            let v = walk_step(w, preds, succs);
            ||| v.processed.len() == w.processed.len() + 1 && v.processed.len() <= ids.len()
            ||| v.processed.len() == w.processed.len() && v.queue.len() < w.queue.len()
            ||| v.processed.len() == w.processed.len() && v.queue.len() == w.queue.len() && v.pending < w.pending
        }),
{
    lemma_done_bound(w.processed, ids);
    let x = w.queue[0];
    let q = w.queue.skip(1);
    assert(ids.contains(x));
    assert forall|i: int| 0 <= i < q.len() implies ids.contains(#[trigger] q[i]) by {
        assert(q[i] == w.queue[i + 1]);
    }
    let v = walk_step(w, preds, succs);
    if w.processed.contains(x) {
    } else {
        let ps = list_of(preds, x);
        if !all_ranked(w.rank, ps) && lookup(w.rank, x) is None {
            assert forall|i: int| 0 <= i < v.queue.len() implies ids.contains(#[trigger] v.queue[i]) by {
                if i < q.len() {
                    assert(v.queue[i] == q[i]);
                }
            }
        } else {
            let r1 = if lookup(w.rank, x) is None { insert(w.rank, x, max_rank(w.rank, ps, ps.len() as int) + 1) } else { w.rank };
            lemma_list_known(succs, x, ids);
            lemma_visit_known(r1, q, lookup(r1, x)->0, list_of(succs, x), ids);
            let p2 = w.processed.push(x);
            assert forall|i: int, j: int| 0 <= i < p2.len() && 0 <= j < p2.len() && i != j implies p2[i] != p2[j] by {
                if i == w.processed.len() as int {
                    assert(w.processed[j] == p2[j]);
                } else if j == w.processed.len() as int {
                    assert(w.processed[i] == p2[i]);
                }
            }
            assert forall|i: int| 0 <= i < p2.len() implies ids.contains(#[trigger] p2[i]) by {
                if i < w.processed.len() {
                    assert(p2[i] == w.processed[i]);
                }
            }
            lemma_done_bound(p2, ids);
        }
    }
}

/// The walk from `w` until it ends: with an empty queue, or stalled with every
/// queued node still waiting on a predecessor that no turn can rank.
pub open spec fn walk(w: Walk, ids: Seq<Text>, preds: Seq<(Text, Seq<Text>)>, succs: Seq<(Text, Seq<Text>)>) -> Walk
    decreases ids.len() - w.processed.len(), w.queue.len(), w.pending,
{
    if w.pending == 0 || !walk_ok(w, ids, succs) {
        w
    } else {
        proof {
            lemma_walk_step(w, ids, preds, succs);
        }
        walk(walk_step(w, preds, succs), ids, preds, succs)
    }
}


/// The walk's first state: the sources, ranked 0 and queued; with none, the
/// first node.
pub open spec fn walk_start(ids: Seq<Text>, preds: Seq<(Text, Seq<Text>)>) -> Walk {
    let src = sources(ids, preds, ids.len() as int);
    let start = if src.len() == 0 && ids.len() > 0 { seq![ids[0]] } else { src };
    Walk { rank: zero_ranks(start, start.len() as int), queue: start, processed: seq![], pending: start.len() }
}

/// Each node's rank after the walk; a node it never reached takes its index.
pub open spec fn final_ranks(ids: Seq<Text>, rank: Seq<(Text, int)>) -> Seq<int> {
    Seq::new(ids.len(), |i: int| match lookup(rank, ids[i]) { Some(r) => r, None => i })
}

/// Where `v` goes in the increasing sequence `l`: before the first larger value.
pub open spec fn level_pos(l: Seq<int>, v: int, i: int) -> int
    decreases l.len() - i,
{
    if i < 0 || i >= l.len() {
        l.len() as int
    } else if v < l[i] {
        i
    } else {
        level_pos(l, v, i + 1)
    }
}

/// The distinct values among the first `n` of `vals`, increasing.
pub open spec fn levels(vals: Seq<int>, n: int) -> Seq<int>
    decreases n,
{
    if n <= 0 || n > vals.len() {
        seq![]
    } else {
        let l = levels(vals, n - 1);
        if l.contains(vals[n - 1]) { l } else { l.insert(level_pos(l, vals[n - 1], 0), vals[n - 1]) }
    }
}

/// The nodes among the first `n` whose value is `v`, in order.
pub open spec fn members(ids: Seq<Text>, vals: Seq<int>, v: int, n: int) -> Seq<Text>
    decreases n,
{
    if n <= 0 || n > ids.len() {
        seq![]
    } else if vals[n - 1] == v {
        members(ids, vals, v, n - 1).push(ids[n - 1])
    } else {
        members(ids, vals, v, n - 1)
    }
}

/// Index of the first occurrence of `v` in `l`, looking from `i` on.
pub open spec fn level_index(l: Seq<int>, v: int, i: int) -> int
    decreases l.len() - i,
{
    if i < 0 || i >= l.len() {
        l.len() as int
    } else if l[i] == v {
        i
    } else {
        level_index(l, v, i + 1)
    }
}

/// The ranks of the nodes `ids` (distinct, in declaration order) under `edges`:
/// the nodes of each rank in declaration order, lowest rank first with no empty
/// rank, and each node with the index of its rank.
pub open spec fn layering(ids: Seq<Text>, edges: Seq<EdgeV>) -> (Seq<Seq<Text>>, Seq<(Text, int)>) {
    let preds = known_neighbours(ids, edges, false, edges.len() as int);
    let succs = known_neighbours(ids, edges, true, edges.len() as int);
    let w = walk(walk_start(ids, preds), ids, preds, succs);
    let fr = final_ranks(ids, w.rank);
    let lv = levels(fr, fr.len() as int);
    (
        Seq::new(lv.len(), |k: int| members(ids, fr, lv[k], ids.len() as int)),
        Seq::new(ids.len(), |i: int| (ids[i], level_index(lv, fr[i], 0))),
    )
}


// ---------------------------------------------------------------------------
// Bounds on ranks
// ---------------------------------------------------------------------------

/// Every rank lies in `0..=b`.
pub open spec fn ranks_within(rank: Seq<(Text, int)>, b: int) -> bool {
    forall|i: int| 0 <= i < rank.len() ==> 0 <= (#[trigger] rank[i]).1 <= b
}

proof fn lemma_lookup_within(rank: Seq<(Text, int)>, b: int, k: Text)
    requires
        ranks_within(rank, b),
    ensures
        lookup(rank, k) matches Some(r) ==> 0 <= r <= b,
{
    lemma_first_index(rank.map_values(|p: (Text, int)| p.0), k);
}

proof fn lemma_insert_within(rank: Seq<(Text, int)>, b: int, k: Text, v: int)
    requires
        ranks_within(rank, b),
        0 <= v <= b,
    ensures
        ranks_within(insert(rank, k, v), b),
{
    lemma_first_index(rank.map_values(|p: (Text, int)| p.0), k);
}

proof fn lemma_within_grow(rank: Seq<(Text, int)>, b: int, c: int)
    requires
        ranks_within(rank, b),
        b <= c,
    ensures
        ranks_within(rank, c),
{
}

proof fn lemma_max_rank_within(rank: Seq<(Text, int)>, b: int, ps: Seq<Text>, n: int)
    requires
        ranks_within(rank, b),
        b >= 0,
    ensures
        0 <= max_rank(rank, ps, n) <= b,
    decreases n,
{
    if n > 0 && n <= ps.len() {
        lemma_max_rank_within(rank, b, ps, n - 1);
        lemma_lookup_within(rank, b, ps[n - 1]);
    }
}

proof fn lemma_visit_within(rank: Seq<(Text, int)>, queue: Seq<Text>, rx: int, ss: Seq<Text>, b: int)
    requires
        ranks_within(rank, b),
        0 <= rx + 1 <= b,
    ensures
        ranks_within(visit(rank, queue, rx, ss).0, b),
    decreases ss.len(),
{
    if ss.len() > 0 {
        lemma_visit_within(rank, queue, rx, ss.drop_last(), b);
        let (r, q) = visit(rank, queue, rx, ss.drop_last());
        lemma_insert_within(r, b, ss.last(), rx + 1);
    }
}

proof fn lemma_step_within(w: Walk, preds: Seq<(Text, Seq<Text>)>, succs: Seq<(Text, Seq<Text>)>)
    requires
        ranks_within(w.rank, 2 * w.processed.len() as int),
        w.queue.len() > 0,
    ensures
        ranks_within(walk_step(w, preds, succs).rank, 2 * walk_step(w, preds, succs).processed.len() as int),
{
    let x = w.queue[0];
    let b: int = 2 * w.processed.len() as int;
    if !w.processed.contains(x) {
        let ps = list_of(preds, x);
        if !all_ranked(w.rank, ps) && lookup(w.rank, x) is None {
        } else {
            lemma_max_rank_within(w.rank, b, ps, ps.len() as int);
            let r1 = if lookup(w.rank, x) is None { insert(w.rank, x, max_rank(w.rank, ps, ps.len() as int) + 1) } else { w.rank };
            lemma_within_grow(w.rank, b, b + 2);
            if lookup(w.rank, x) is None {
                lemma_insert_within(w.rank, b + 2, x, max_rank(w.rank, ps, ps.len() as int) + 1);
                lemma_insert_lookup(w.rank, x, max_rank(w.rank, ps, ps.len() as int) + 1, x);
            }
            lemma_lookup_within(r1, b + 2, x);
            lemma_lookup_within(w.rank, b, x);
            lemma_visit_within(r1, w.queue.skip(1), lookup(r1, x)->0, list_of(succs, x), b + 2);
        }
    }
}


// ---------------------------------------------------------------------------
// The walk, executed
// ---------------------------------------------------------------------------

/// Ranks by characters and value.
spec fn rview(v: Seq<(Vec<char>, u128)>) -> Seq<(Text, int)> {
    v.map_values(|p: (Vec<char>, u128)| (p.0@, p.1 as int))
}

struct WalkX {
    rank: Vec<(Vec<char>, u128)>,
    queue: Vec<Vec<char>>,
    processed: Vec<Vec<char>>,
    pending: usize,
}

impl View for WalkX {
    type V = Walk;

    closed spec fn view(&self) -> Walk {
        Walk { rank: rview(self.rank@), queue: views(self.queue@), processed: views(self.processed@), pending: self.pending as nat }
    }
}

/// Whether `x` occurs in `v`.
fn contains_text(v: &Vec<Vec<char>>, x: &Vec<char>) -> (r: bool)
    ensures
        r == views(v@).contains(x@),
{
    assert(keys(v@) =~= views(v@));
    proof {
        lemma_first_index(views(v@), x@);
    }
    match find_keyed(v, x) {
        Some(j) => {
            assert(views(v@)[j as int] == x@);
            true
        },
        None => false,
    }
}

/// The rank stored under `k`.
fn rank_get(m: &Vec<(Vec<char>, u128)>, k: &Vec<char>) -> (r: Option<u128>)
    ensures
        match r {
            Some(v) => lookup(rview(m@), k@) == Some(v as int),
            None => lookup(rview(m@), k@) is None,
        },
{
    assert(rview(m@).map_values(|p: (Text, int)| p.0) =~= keys(m@));
    match find_keyed(m, k) {
        Some(j) => Some(m[j].1),
        None => None,
    }
}

/// `HashMap::insert` on the ranks.
fn rank_set(m: &mut Vec<(Vec<char>, u128)>, k: &Vec<char>, v: u128)
    ensures
        rview(final(m)@) == insert(rview(old(m)@), k@, v as int),
{
    assert(rview(old(m)@).map_values(|p: (Text, int)| p.0) =~= keys(old(m)@));
    let ghost kv = k@;
    match find_keyed(m, k) {
        Some(j) => {
            m.set(j, (copy_chars(k), v));
            assert(rview(m@) =~= rview(old(m)@).update(j as int, (kv, v as int)));
        },
        None => {
            m.push((copy_chars(k), v));
            assert(rview(m@) =~= rview(old(m)@).push((kv, v as int)));
        },
    }
}

/// Predecessor or successor lists.
fn known_neighbours_exec(ids: &Vec<Vec<char>>, edges: &Vec<EdgeOf<String>>, forward: bool) -> (r: Vec<(Vec<char>, Vec<Vec<char>>)>)
    ensures
        tl_view(r@) == known_neighbours(views(ids@), deep(edges@), forward, edges@.len() as int),
{
    let mut m: Vec<(Vec<char>, Vec<Vec<char>>)> = Vec::new();
    assert(tl_view(m@) =~= Seq::empty());
    let mut i: usize = 0;
    while i < edges.len()
        invariant
            i <= edges@.len(),
            tl_view(m@) == known_neighbours(views(ids@), deep(edges@), forward, i as int),
        decreases edges@.len() - i,
    {
        let from = string_chars(&edges[i].from);
        let to = string_chars(&edges[i].to);
        assert(deep(edges@)[i as int] == edges@[i as int]@);
        if contains_text(ids, &from) && contains_text(ids, &to) && !chars_eq(&from, &to) {
            if forward {
                tl_push(&mut m, from, to);
            } else {
                tl_push(&mut m, to, from);
            }
        }
        i += 1;
    }
    m
}

/// The list stored under `id`.
fn list_of_exec(m: &Vec<(Vec<char>, Vec<Vec<char>>)>, id: &Vec<char>) -> (r: Vec<Vec<char>>)
    ensures
        views(r@) == list_of(tl_view(m@), id@),
{
    match tl_get(m, id) {
        Some(l) => l,
        None => {
            let e: Vec<Vec<char>> = Vec::new();
            assert(views(e@) =~= Seq::<Text>::empty());
            e
        },
    }
}

/// Whether every node of `ps` is ranked.
fn all_ranked_exec(rank: &Vec<(Vec<char>, u128)>, ps: &Vec<Vec<char>>) -> (r: bool)
    ensures
        r == all_ranked(rview(rank@), views(ps@)),
{
    let mut i: usize = 0;
    while i < ps.len()
        invariant
            i <= ps@.len(),
            forall|j: int| 0 <= j < i ==> lookup(rview(rank@), #[trigger] views(ps@)[j]) is Some,
        decreases ps@.len() - i,
    {
        assert(views(ps@)[i as int] == ps@[i as int]@);
        if rank_get(rank, &ps[i]).is_none() {
            return false;
        }
        i += 1;
    }
    true
}

/// Highest rank among the ranked nodes of `ps`.
fn max_rank_exec(rank: &Vec<(Vec<char>, u128)>, ps: &Vec<Vec<char>>) -> (r: u128)
    ensures
        r as int == max_rank(rview(rank@), views(ps@), ps@.len() as int),
{
    let mut m: u128 = 0;
    let mut i: usize = 0;
    while i < ps.len()
        invariant
            i <= ps@.len(),
            m as int == max_rank(rview(rank@), views(ps@), i as int),
        decreases ps@.len() - i,
    {
        assert(views(ps@)[i as int] == ps@[i as int]@);
        match rank_get(rank, &ps[i]) {
            Some(r) => {
                if r > m {
                    m = r;
                }
            },
            None => {},
        }
        i += 1;
    }
    m
}

/// Visits the successors of a node just done.
fn visit_exec(rank: &mut Vec<(Vec<char>, u128)>, queue: &mut Vec<Vec<char>>, rx: u128, ss: &Vec<Vec<char>>, b: Ghost<int>)
    requires
        ranks_within(rview(old(rank)@), b@),
        0 <= rx + 1 <= b@,
        b@ < u128::MAX,
    ensures
        (rview(final(rank)@), views(final(queue)@)) == visit(rview(old(rank)@), views(old(queue)@), rx as int, views(ss@)),
{
    let mut i: usize = 0;
    while i < ss.len()
        invariant
            i <= ss@.len(),
            0 <= rx + 1 <= b@,
            b@ < u128::MAX,
            (rview(rank@), views(queue@)) == visit(rview(old(rank)@), views(old(queue)@), rx as int, views(ss@).take(i as int)),
            ranks_within(rview(rank@), b@),
        decreases ss@.len() - i,
    {
        assert(views(ss@).take(i + 1).drop_last() =~= views(ss@).take(i as int));
        assert(views(ss@).take(i + 1).last() == ss@[i as int]@);
        match rank_get(rank, &ss[i]) {
            None => {
                let ghost q0 = queue@;
                queue.push(copy_chars(&ss[i]));
                proof {
                    crate::text::lemma_views_push(q0, queue@.last());
                }
            },
            Some(cur) => {
                if rx + 1 > cur {
                    proof {
                        lemma_insert_within(rview(rank@), b@, ss@[i as int]@, rx + 1);
                    }
                    rank_set(rank, &ss[i], rx + 1);
                }
            },
        }
        i += 1;
    }
    assert(views(ss@).take(ss@.len() as int) =~= views(ss@));
}

/// One turn of the walk.
fn walk_step_exec(
    w: &mut WalkX,
    preds: &Vec<(Vec<char>, Vec<Vec<char>>)>,
    succs: &Vec<(Vec<char>, Vec<Vec<char>>)>,
    ids: Ghost<Seq<Text>>,
)
    requires
        walk_ok(old(w)@, ids@, tl_view(succs@)),
        old(w)@.pending > 0,
        ranks_within(old(w)@.rank, 2 * old(w)@.processed.len() as int),
        ids@.len() <= usize::MAX,
    ensures
        final(w)@ == walk_step(old(w)@, tl_view(preds@), tl_view(succs@)),
{
    proof {
        lemma_walk_step(w@, ids@, tl_view(preds@), tl_view(succs@));
    }
    let ghost w0 = w@;
    let x = w.queue.remove(0);
    assert(views(w.queue@) =~= w0.queue.skip(1));
    assert(x@ == w0.queue[0]);
    let pending = w.pending - 1;
    if contains_text(&w.processed, &x) {
        w.pending = pending;
        return;
    }
    let ps = list_of_exec(preds, &x);
    let known = rank_get(&w.rank, &x);
    if !all_ranked_exec(&w.rank, &ps) && known.is_none() {
        let ghost q0 = w.queue@;
        w.queue.push(x);
        proof {
            crate::text::lemma_views_push(q0, w.queue@.last());
        }
        w.pending = pending;
        return;
    }
    let ghost b: int = 2 * w0.processed.len() as int;
    proof {
        lemma_done_bound(w0.processed, ids@);
        lemma_lookup_within(w0.rank, b, x@);
        lemma_max_rank_within(w0.rank, b, views(ps@), ps@.len() as int);
    }
    let rx: u128 = match known {
        Some(r) => r,
        None => {
            let m = max_rank_exec(&w.rank, &ps);
            rank_set(&mut w.rank, &x, m + 1);
            proof {
                lemma_insert_lookup(w0.rank, x@, m + 1, x@);
            }
            m + 1
        },
    };
    proof {
        lemma_within_grow(w0.rank, b, b + 2);
        if known is None {
            lemma_insert_within(w0.rank, b + 2, x@, rx as int);
        }
    }
    let ss = list_of_exec(succs, &x);
    visit_exec(&mut w.rank, &mut w.queue, rx, &ss, Ghost(b + 2));
    let ghost p0 = w.processed@;
    w.processed.push(x);
    proof {
        crate::text::lemma_views_push(p0, w.processed@.last());
    }
    w.pending = w.queue.len();
}


proof fn lemma_known_neighbours(ids: Seq<Text>, edges: Seq<EdgeV>, forward: bool, n: int)
    ensures
        forall|k: int, j: int| 0 <= k < known_neighbours(ids, edges, forward, n).len()
            && 0 <= j < known_neighbours(ids, edges, forward, n)[k].1.len()
            ==> ids.contains(#[trigger] known_neighbours(ids, edges, forward, n)[k].1[j]),
    decreases n,
{
    if n > 0 && n <= edges.len() {
        lemma_known_neighbours(ids, edges, forward, n - 1);
        let m = known_neighbours(ids, edges, forward, n - 1);
        let e = edges[n - 1];
        if ids.contains(e.from) && ids.contains(e.to) && e.from != e.to {
            let (k0, v) = if forward { (e.from, e.to) } else { (e.to, e.from) };
            let ks = m.map_values(|p: (Text, Seq<Text>)| p.0);
            lemma_first_index(ks, k0);
            let m2 = push_under(m, k0, v);
            assert forall|k: int, j: int| 0 <= k < m2.len() && 0 <= j < m2[k].1.len() implies ids.contains(#[trigger] m2[k].1[j]) by {
                match first_index(ks, k0) {
                    Some(a) => {
                        if k == a && j == m[a].1.len() {
                        } else if k == a {
                            assert(m2[k].1[j] == m[k].1[j]);
                        } else {
                            assert(m2[k] == m[k]);
                        }
                    },
                    None => {
                        if k < m.len() {
                            assert(m2[k] == m[k]);
                        }
                    },
                }
            }
        }
    }
}

proof fn lemma_sources_known(ids: Seq<Text>, preds: Seq<(Text, Seq<Text>)>, n: int)
    ensures
        forall|i: int| 0 <= i < sources(ids, preds, n).len() ==> ids.contains(#[trigger] sources(ids, preds, n)[i]),
    decreases n,
{
    if n > 0 && n <= ids.len() {
        lemma_sources_known(ids, preds, n - 1);
        let s0 = sources(ids, preds, n - 1);
        if lookup(preds, ids[n - 1]) is None {
            assert forall|i: int| 0 <= i < s0.push(ids[n - 1]).len() implies ids.contains(#[trigger] s0.push(ids[n - 1])[i]) by {
                if i < s0.len() {
                    assert(s0.push(ids[n - 1])[i] == s0[i]);
                } else {
                    assert(ids[n - 1] == ids[n - 1]);
                }
            }
        }
    }
}

proof fn lemma_zero_ranks(start: Seq<Text>, n: int)
    ensures
        ranks_within(zero_ranks(start, n), 0),
    decreases n,
{
    if n > 0 && n <= start.len() {
        lemma_zero_ranks(start, n - 1);
        lemma_insert_within(zero_ranks(start, n - 1), 0, start[n - 1], 0);
    }
}

/// The nodes among `ids` without a predecessor.
fn sources_exec(ids: &Vec<Vec<char>>, preds: &Vec<(Vec<char>, Vec<Vec<char>>)>) -> (r: Vec<Vec<char>>)
    ensures
        views(r@) == sources(views(ids@), tl_view(preds@), ids@.len() as int),
{
    let mut r: Vec<Vec<char>> = Vec::new();
    assert(views(r@) =~= Seq::<Text>::empty());
    let mut i: usize = 0;
    while i < ids.len()
        invariant
            i <= ids@.len(),
            views(r@) == sources(views(ids@), tl_view(preds@), i as int),
        decreases ids@.len() - i,
    {
        assert(views(ids@)[i as int] == ids@[i as int]@);
        if tl_get(preds, &ids[i]).is_none() {
            let ghost r0 = r@;
            r.push(copy_chars(&ids[i]));
            proof {
                crate::text::lemma_views_push(r0, r@.last());
            }
        }
        i += 1;
    }
    r
}

/// The walk, run to its end.
fn run_walk(ids: &Vec<Vec<char>>, preds: &Vec<(Vec<char>, Vec<Vec<char>>)>, succs: &Vec<(Vec<char>, Vec<Vec<char>>)>) -> (r: Vec<(Vec<char>, u128)>)
    requires
        forall|k: int, j: int| 0 <= k < tl_view(succs@).len() && 0 <= j < tl_view(succs@)[k].1.len()
            ==> views(ids@).contains(#[trigger] tl_view(succs@)[k].1[j]),
    ensures
        rview(r@) == walk(walk_start(views(ids@), tl_view(preds@)), views(ids@), tl_view(preds@), tl_view(succs@)).rank,
{
    let ghost iv = views(ids@);
    let ghost pv = tl_view(preds@);
    let ghost sv = tl_view(succs@);
    let src = sources_exec(ids, preds);
    proof {
        lemma_sources_known(iv, pv, iv.len() as int);
    }
    let start = if src.len() == 0 && ids.len() > 0 {
        let mut v: Vec<Vec<char>> = Vec::new();
        v.push(copy_chars(&ids[0]));
        assert(views(v@) =~= seq![iv[0]]);
        v
    } else {
        src
    };
    let mut rank: Vec<(Vec<char>, u128)> = Vec::new();
    assert(rview(rank@) =~= Seq::empty());
    let mut i: usize = 0;
    while i < start.len()
        invariant
            i <= start@.len(),
            rview(rank@) == zero_ranks(views(start@), i as int),
        decreases start@.len() - i,
    {
        assert(views(start@)[i as int] == start@[i as int]@);
        rank_set(&mut rank, &start[i], 0);
        i += 1;
    }
    let n = start.len();
    let mut w = WalkX { rank, queue: start, processed: Vec::new(), pending: n };
    assert(views(w.processed@) =~= Seq::<Text>::empty());
    let ghost w0 = w@;
    assert(w0 == walk_start(iv, pv));
    let nid = ids.len();
    assert(iv.len() == nid);
    proof {
        lemma_zero_ranks(w0.queue, w0.queue.len() as int);
        assert forall|i: int| 0 <= i < w0.queue.len() implies iv.contains(#[trigger] w0.queue[i]) by {
            if src@.len() == 0 && ids@.len() > 0 {
                assert(w0.queue[i] == iv[0]);
            }
        }
    }
    while w.pending > 0
        invariant
            iv == views(ids@),
            pv == tl_view(preds@),
            sv == tl_view(succs@),
            iv.len() <= usize::MAX,
            walk_ok(w@, iv, sv),
            ranks_within(w@.rank, 2 * w@.processed.len() as int),
            walk(w@, iv, pv, sv) == walk(w0, iv, pv, sv),
        decreases iv.len() - w@.processed.len(), w@.queue.len(), w@.pending,
    {
        let ghost before = w@;
        proof {
            lemma_walk_step(before, iv, pv, sv);
            lemma_step_within(before, pv, sv);
        }
        walk_step_exec(&mut w, preds, succs, Ghost(iv));
    }
    w.rank
}


// ---------------------------------------------------------------------------
// Ranks out of the walk
// ---------------------------------------------------------------------------

/// Values held as numbers.
spec fn nums(v: Seq<u128>) -> Seq<int> {
    v.map_values(|x: u128| x as int)
}

proof fn lemma_level_pos(l: Seq<int>, v: int, i: int)
    requires
        0 <= i <= l.len(),
    ensures
        i <= level_pos(l, v, i) <= l.len(),
    decreases l.len() - i,
{
    if i < l.len() && !(v < l[i]) {
        lemma_level_pos(l, v, i + 1);
    }
}

proof fn lemma_level_index(l: Seq<int>, v: int, i: int)
    requires
        0 <= i <= l.len(),
    ensures
        i <= level_index(l, v, i) <= l.len(),
    decreases l.len() - i,
{
    if i < l.len() && l[i] != v {
        lemma_level_index(l, v, i + 1);
    }
}

proof fn lemma_levels_len(vals: Seq<int>, n: int)
    requires
        0 <= n <= vals.len(),
    ensures
        levels(vals, n).len() <= n,
    decreases n,
{
    if n > 0 {
        lemma_levels_len(vals, n - 1);
        lemma_level_pos(levels(vals, n - 1), vals[n - 1], 0);
    }
}

/// Each node's final rank.
fn final_ranks_exec(ids: &Vec<Vec<char>>, rank: &Vec<(Vec<char>, u128)>) -> (r: Vec<u128>)
    ensures
        nums(r@) == final_ranks(views(ids@), rview(rank@)),
{
    let mut r: Vec<u128> = Vec::new();
    let mut i: usize = 0;
    while i < ids.len()
        invariant
            i <= ids@.len(),
            r@.len() == i,
            forall|j: int| 0 <= j < i ==> #[trigger] nums(r@)[j] == final_ranks(views(ids@), rview(rank@))[j],
        decreases ids@.len() - i,
    {
        assert(views(ids@)[i as int] == ids@[i as int]@);
        let v = match rank_get(rank, &ids[i]) {
            Some(x) => x,
            None => i as u128,
        };
        let ghost r0 = r@;
        r.push(v);
        assert(nums(r@) =~= nums(r0).push(v as int));
        i += 1;
    }
    assert(nums(r@) =~= final_ranks(views(ids@), rview(rank@)));
    r
}

/// The distinct values of `vals`, increasing.
fn levels_exec(vals: &Vec<u128>) -> (r: Vec<u128>)
    ensures
        nums(r@) == levels(nums(vals@), vals@.len() as int),
{
    let mut l: Vec<u128> = Vec::new();
    assert(nums(l@) =~= Seq::<int>::empty());
    let mut i: usize = 0;
    while i < vals.len()
        invariant
            i <= vals@.len(),
            nums(l@) == levels(nums(vals@), i as int),
        decreases vals@.len() - i,
    {
        let v = vals[i];
        assert(nums(vals@)[i as int] == v as int);
        let mut found = false;
        let mut k: usize = 0;
        while k < l.len()
            invariant
                k <= l@.len(),
                found == (exists|j: int| 0 <= j < k && nums(l@)[j] == v as int),
            decreases l@.len() - k,
        {
            assert(nums(l@)[k as int] == l@[k as int] as int);
            if l[k] == v {
                found = true;
            }
            k += 1;
        }
        assert(found == nums(l@).contains(v as int));
        if !found {
            let ghost lv = nums(l@);
            proof {
                lemma_level_pos(lv, v as int, 0);
            }
            let mut p: usize = 0;
            while p < l.len() && !(v < l[p])
                invariant
                    p <= l@.len(),
                    lv == nums(l@),
                    level_pos(lv, v as int, 0) == level_pos(lv, v as int, p as int),
                decreases l@.len() - p,
            {
                assert(lv[p as int] == l@[p as int] as int);
                p += 1;
            }
            if p < l.len() {
                assert(lv[p as int] == l@[p as int] as int);
            }
            l.insert(p, v);
            assert(nums(l@) =~= lv.insert(p as int, v as int));
        }
        i += 1;
    }
    l
}

/// The nodes whose value is `v`, in order.
fn members_exec(ids: &Vec<Vec<char>>, vals: &Vec<u128>, v: u128) -> (r: Vec<String>)
    requires
        vals@.len() == ids@.len(),
    ensures
        string_views(r@) == members(views(ids@), nums(vals@), v as int, ids@.len() as int),
{
    let mut r: Vec<String> = Vec::new();
    assert(string_views(r@) =~= Seq::<Text>::empty());
    let mut i: usize = 0;
    while i < ids.len()
        invariant
            i <= ids@.len(),
            vals@.len() == ids@.len(),
            string_views(r@) == members(views(ids@), nums(vals@), v as int, i as int),
        decreases ids@.len() - i,
    {
        assert(views(ids@)[i as int] == ids@[i as int]@);
        assert(nums(vals@)[i as int] == vals@[i as int] as int);
        if vals[i] == v {
            let ghost r0 = r@;
            let t = chars_to_string(&ids[i]);
            r.push(t);
            assert(string_views(r@) =~= string_views(r0).push(t@));
        }
        i += 1;
    }
    r
}

/// Index of `v` in `l`.
fn level_index_exec(l: &Vec<u128>, v: u128) -> (r: usize)
    ensures
        r as int == level_index(nums(l@), v as int, 0),
{
    proof {
        lemma_level_index(nums(l@), v as int, 0);
    }
    let mut i: usize = 0;
    while i < l.len()
        invariant
            i <= l@.len(),
            level_index(nums(l@), v as int, 0) == level_index(nums(l@), v as int, i as int),
        decreases l@.len() - i,
    {
        assert(nums(l@)[i as int] == l@[i as int] as int);
        if l[i] == v {
            return i;
        }
        i += 1;
    }
    i
}

/// Entries by characters and number.
pub open spec fn entry_views(v: Seq<(String, usize)>) -> Seq<(Text, int)> {
    v.map_values(|p: (String, usize)| (p.0@, p.1 as int))
}

/// The rank index of each node, in declaration order.
pub struct RankMap {
    pub entries: Vec<(String, usize)>,
}

impl View for RankMap {
    type V = Seq<(Text, int)>;

    open spec fn view(&self) -> Seq<(Text, int)> {
        entry_views(self.entries@)
    }
}

impl RankMap {
    /// The rank index of `id`.
    pub fn get(&self, id: &str) -> (r: Option<usize>)
        ensures
            match lookup(self@, id@) {
                Some(k) => r == Some(k as usize) && k == r->0 as int,
                None => r is None,
            },
    {
        let key = str_chars(id);
        let ghost ks = self@.map_values(|p: (Text, int)| p.0);
        proof {
            lemma_first_index(ks, id@);
        }
        let mut i: usize = 0;
        while i < self.entries.len()
            invariant
                i <= self.entries@.len(),
                ks == self@.map_values(|p: (Text, int)| p.0),
                key@ == id@,
                first_index(ks, id@) == crate::model::first_index_from(ks, id@, i as int),
            decreases self.entries@.len() - i,
        {
            let c = string_chars(&self.entries[i].0);
            assert(ks[i as int] == self.entries@[i as int].0@);
            if chars_eq(&c, &key) {
                return Some(self.entries[i].1);
            }
            i += 1;
        }
        None
    }

    /// Number of nodes.
    pub fn len(&self) -> (r: usize)
        ensures
            r == self@.len(),
    {
        self.entries.len()
    }

    /// Whether there is no node.
    pub fn is_empty(&self) -> (r: bool)
        ensures
            r == (self@.len() == 0),
    {
        self.entries.len() == 0
    }
}

/// Assigns the nodes of a diagram to ranks by a walk from the nodes without a
/// predecessor, taken in declaration order: a node is ranked, one above the
/// highest of its predecessors, once they all are; a node already ranked that
/// a later node points to is raised above it. With no such node the walk starts
/// from the first node. Edges to unknown nodes and self-loops are ignored. A node
/// the walk never ranks (one waiting on a predecessor in a cycle) takes its
/// index. Empty ranks are dropped; the map gives each node's rank index.
pub fn assign_ranks(ast: &DiagramAst) -> (r: (Vec<Vec<String>>, RankMap))
    ensures
        crate::ranking::rank_views(r.0@) == layering(node_ids(ast@.nodes), ast@.edges).0,
        r.1@ == layering(node_ids(ast@.nodes), ast@.edges).1,
{
    let mut ids: Vec<Vec<char>> = Vec::new();
    let mut i: usize = 0;
    while i < ast.nodes.len()
        invariant
            i <= ast.nodes@.len(),
            ids@.len() == i,
            forall|j: int| 0 <= j < i ==> #[trigger] views(ids@)[j] == node_ids(ast@.nodes)[j],
        decreases ast.nodes@.len() - i,
    {
        let ghost v0 = ids@;
        let t = string_chars(&ast.nodes[i].id);
        ids.push(t);
        assert(views(ids@) =~= views(v0).push(t@));
        assert(node_ids(ast@.nodes)[i as int] == ast.nodes@[i as int].id@);
        i += 1;
    }
    assert(views(ids@) =~= node_ids(ast@.nodes));
    let preds = known_neighbours_exec(&ids, &ast.edges, false);
    let succs = known_neighbours_exec(&ids, &ast.edges, true);
    proof {
        lemma_known_neighbours(views(ids@), deep(ast.edges@), true, ast.edges@.len() as int);
    }
    let rank = run_walk(&ids, &preds, &succs);
    let fr = final_ranks_exec(&ids, &rank);
    let lv = levels_exec(&fr);
    let ghost frv = nums(fr@);
    let ghost lvv = nums(lv@);
    proof {
        lemma_levels_len(frv, frv.len() as int);
    }
    let mut groups: Vec<Vec<String>> = Vec::new();
    let mut k: usize = 0;
    while k < lv.len()
        invariant
            k <= lv@.len(),
            fr@.len() == ids@.len(),
            frv == nums(fr@),
            lvv == nums(lv@),
            groups@.len() == k,
            forall|j: int| 0 <= j < k ==> #[trigger] crate::ranking::rank_views(groups@)[j] == members(views(ids@), frv, lvv[j], ids@.len() as int),
        decreases lv@.len() - k,
    {
        assert(lvv[k as int] == lv@[k as int] as int);
        let g = members_exec(&ids, &fr, lv[k]);
        let ghost g0 = groups@;
        let ghost gv = string_views(g@);
        groups.push(g);
        assert(crate::ranking::rank_views(groups@) =~= crate::ranking::rank_views(g0).push(gv));
        k += 1;
    }
    let mut entries: Vec<(String, usize)> = Vec::new();
    let mut i: usize = 0;
    while i < ids.len()
        invariant
            i <= ids@.len(),
            fr@.len() == ids@.len(),
            frv == nums(fr@),
            lvv == nums(lv@),
            entries@.len() == i,
            forall|j: int| 0 <= j < i ==> #[trigger] entry_views(entries@)[j]
                == (views(ids@)[j], level_index(lvv, frv[j], 0)),
        decreases ids@.len() - i,
    {
        assert(frv[i as int] == fr@[i as int] as int);
        assert(views(ids@)[i as int] == ids@[i as int]@);
        let idx = level_index_exec(&lv, fr[i]);
        let ghost e0 = entries@;
        let t = chars_to_string(&ids[i]);
        entries.push((t, idx));
        assert(entry_views(entries@)
            =~= entry_views(e0).push((t@, idx as int)));
        i += 1;
    }
    let map = RankMap { entries };
    assert(crate::ranking::rank_views(groups@) =~= layering(node_ids(ast@.nodes), ast@.edges).0);
    assert(map@ =~= layering(node_ids(ast@.nodes), ast@.edges).1);
    (groups, map)
}


// ---------------------------------------------------------------------------
// Laws
// ---------------------------------------------------------------------------

proof fn lemma_levels_hold(vals: Seq<int>, n: int)
    requires
        0 <= n <= vals.len(),
    ensures
        forall|j: int| 0 <= j < n ==> levels(vals, n).contains(#[trigger] vals[j]),
        forall|k: int| 0 <= k < levels(vals, n).len() ==> exists|j: int| 0 <= j < n && vals[j] == #[trigger] levels(vals, n)[k],
    decreases n,
{
    if n > 0 {
        lemma_levels_hold(vals, n - 1);
        let l = levels(vals, n - 1);
        let v = vals[n - 1];
        if !l.contains(v) {
            let p = level_pos(l, v, 0);
            lemma_level_pos(l, v, 0);
            let l2 = l.insert(p, v);
            assert forall|j: int| 0 <= j < n implies l2.contains(#[trigger] vals[j]) by {
                if j == n - 1 {
                    assert(l2[p] == v);
                } else {
                    assert(l.contains(vals[j]));
                    let k = choose|k: int| 0 <= k < l.len() && l[k] == vals[j];
                    if k < p {
                        assert(l2[k] == l[k]);
                    } else {
                        assert(l2[k + 1] == l[k]);
                    }
                }
            }
            assert forall|k: int| 0 <= k < l2.len() implies exists|j: int| 0 <= j < n && vals[j] == #[trigger] l2[k] by {
                if k < p {
                    assert(l2[k] == l[k]);
                    let j = choose|j: int| 0 <= j < n - 1 && vals[j] == l[k];
                    assert(vals[j] == l2[k]);
                } else if k == p {
                    assert(vals[n - 1] == l2[k]);
                } else {
                    assert(l2[k] == l[k - 1]);
                    let j = choose|j: int| 0 <= j < n - 1 && vals[j] == l[k - 1];
                    assert(vals[j] == l2[k]);
                }
            }
        }
    }
}

proof fn lemma_level_index_found(l: Seq<int>, v: int, i: int)
    requires
        0 <= i <= l.len(),
        exists|k: int| i <= k < l.len() && l[k] == v,
    ensures
        i <= level_index(l, v, i) < l.len(),
        l[level_index(l, v, i)] == v,
    decreases l.len() - i,
{
    if l[i] != v {
        lemma_level_index_found(l, v, i + 1);
    }
}

proof fn lemma_members_hold(ids: Seq<Text>, vals: Seq<int>, v: int, n: int, j: int)
    requires
        0 <= j < n <= ids.len(),
        vals[j] == v,
    ensures
        members(ids, vals, v, n).contains(ids[j]),
    decreases n,
{
    if j < n - 1 {
        lemma_members_hold(ids, vals, v, n - 1, j);
        let m = members(ids, vals, v, n - 1);
        let k = choose|k: int| 0 <= k < m.len() && m[k] == ids[j];
        if vals[n - 1] == v {
            assert(m.push(ids[n - 1])[k] == ids[j]);
        }
    } else {
        let m = members(ids, vals, v, n - 1);
        assert(m.push(ids[n - 1])[m.len() as int] == ids[j]);
    }
}

/// Law: the ranks split the nodes. No rank is empty, the map lists every node
/// in order, and each node stands in the rank the map gives it.
pub proof fn law_ranks_split_nodes(ids: Seq<Text>, edges: Seq<EdgeV>)
    ensures
        ({
            let (groups, map) = layering(ids, edges);
            &&& map.len() == ids.len()
            &&& forall|k: int| 0 <= k < groups.len() ==> (#[trigger] groups[k]).len() > 0
            &&& forall|i: int| 0 <= i < ids.len() ==> (#[trigger] map[i]).0 == ids[i] && 0 <= map[i].1 < groups.len()
                && groups[map[i].1].contains(ids[i])
        }),
{
    let preds = known_neighbours(ids, edges, false, edges.len() as int);
    let succs = known_neighbours(ids, edges, true, edges.len() as int);
    let w = walk(walk_start(ids, preds), ids, preds, succs);
    let fr = final_ranks(ids, w.rank);
    let lv = levels(fr, fr.len() as int);
    let (groups, map) = layering(ids, edges);
    lemma_levels_hold(fr, fr.len() as int);
    assert forall|k: int| 0 <= k < groups.len() implies (#[trigger] groups[k]).len() > 0 by {
        let j = choose|j: int| 0 <= j < fr.len() && fr[j] == lv[k];
        lemma_members_hold(ids, fr, lv[k], ids.len() as int, j);
    }
    assert forall|i: int| 0 <= i < ids.len() implies (#[trigger] map[i]).0 == ids[i] && 0 <= map[i].1 < groups.len()
        && groups[map[i].1].contains(ids[i]) by {
        assert(lv.contains(fr[i]));
        lemma_level_index_found(lv, fr[i], 0);
        lemma_members_hold(ids, fr, fr[i], ids.len() as int, i);
    }
}

proof fn lemma_members_exact(ids: Seq<Text>, vals: Seq<int>, v: int, n: int)
    requires
        ids.no_duplicates(),
        0 <= n <= ids.len(),
    ensures
        forall|a: int| 0 <= a < members(ids, vals, v, n).len() ==> exists|i: int| 0 <= i < n
            && ids[i] == #[trigger] members(ids, vals, v, n)[a] && vals[i] == v,
        forall|a: int, b: int, i: int, j: int|
            0 <= a < b < members(ids, vals, v, n).len() && 0 <= i < ids.len() && 0 <= j < ids.len()
            && #[trigger] members(ids, vals, v, n)[a] == #[trigger] ids[i]
            && #[trigger] members(ids, vals, v, n)[b] == #[trigger] ids[j] ==> i < j,
    decreases n,
{
    if n > 0 {
        lemma_members_exact(ids, vals, v, n - 1);
        let m0 = members(ids, vals, v, n - 1);
        let m = members(ids, vals, v, n);
        if vals[n - 1] == v {
            assert(m == m0.push(ids[n - 1]));
            assert forall|a: int| 0 <= a < m.len() implies exists|i: int| 0 <= i < n
                && ids[i] == #[trigger] m[a] && vals[i] == v by {
                if a < m0.len() {
                    let i = choose|i: int| 0 <= i < n - 1 && ids[i] == m0[a] && vals[i] == v;
                    assert(m[a] == m0[a]);
                    assert(ids[i] == m[a]);
                } else {
                    assert(ids[n - 1] == m[a]);
                }
            }
            assert forall|a: int, b: int, i: int, j: int|
                0 <= a < b < m.len() && 0 <= i < ids.len() && 0 <= j < ids.len()
                && #[trigger] m[a] == #[trigger] ids[i] && #[trigger] m[b] == #[trigger] ids[j] implies i < j by {
                if b < m0.len() {
                    assert(m0[a] == ids[i] && m0[b] == ids[j]);
                } else {
                    assert(ids[j] == ids[n - 1]);
                    assert(j == n - 1);
                    let i2 = choose|i2: int| 0 <= i2 < n - 1 && ids[i2] == m0[a] && vals[i2] == v;
                    assert(m0[a] == m[a]);
                    assert(ids[i2] == ids[i]);
                    assert(i2 == i);
                }
            }
        } else {
            assert(m == m0);
        }
    }
}

/// Law: with distinct ids the ranks partition the nodes. Each node stands in
/// the one rank that the map gives it and in no other, every entry of a rank is
/// a node of that rank, and each rank keeps the nodes in declaration order.
pub proof fn law_ranks_partition_nodes(ids: Seq<Text>, edges: Seq<EdgeV>)
    requires
        ids.no_duplicates(),
    ensures
        ({
            let (groups, map) = layering(ids, edges);
            &&& forall|i: int, k: int| 0 <= i < ids.len() && 0 <= k < groups.len() ==>
                    (#[trigger] groups[k].contains(ids[i]) <==> #[trigger] map[i].1 == k)
            &&& forall|k: int, a: int| 0 <= k < groups.len() && 0 <= a < groups[k].len() ==>
                    exists|i: int| 0 <= i < ids.len() && ids[i] == #[trigger] groups[k][a] && map[i].1 == k
            &&& forall|k: int, a: int, b: int, i: int, j: int|
                    0 <= k < groups.len() && 0 <= a < b < groups[k].len() && 0 <= i < ids.len() && 0 <= j < ids.len()
                    && #[trigger] groups[k][a] == #[trigger] ids[i] && #[trigger] groups[k][b] == #[trigger] ids[j]
                    ==> i < j
        }),
{
    let preds = known_neighbours(ids, edges, false, edges.len() as int);
    let succs = known_neighbours(ids, edges, true, edges.len() as int);
    let w = walk(walk_start(ids, preds), ids, preds, succs);
    let fr = final_ranks(ids, w.rank);
    let lv = levels(fr, fr.len() as int);
    let (groups, map) = layering(ids, edges);
    let n = ids.len() as int;
    lemma_levels_hold(fr, fr.len() as int);
    lemma_levels_increasing(fr, fr.len() as int);
    assert forall|k: int| 0 <= k < groups.len() implies #[trigger] groups[k] == members(ids, fr, lv[k], n) by {}
    assert forall|i: int, k: int| 0 <= i < ids.len() && 0 <= k < groups.len() implies
        (#[trigger] groups[k].contains(ids[i]) <==> #[trigger] map[i].1 == k) by {
        lemma_members_exact(ids, fr, lv[k], n);
        assert(lv.contains(fr[i]));
        lemma_level_index_found(lv, fr[i], 0);
        let x = level_index(lv, fr[i], 0);
        assert(map[i].1 == x);
        if groups[k].contains(ids[i]) {
            let a = choose|a: int| 0 <= a < groups[k].len() && groups[k][a] == ids[i];
            let i2 = choose|i2: int| 0 <= i2 < n && ids[i2] == members(ids, fr, lv[k], n)[a] && fr[i2] == lv[k];
            assert(ids[i2] == ids[i]);
            assert(i2 == i);
            if x < k {
                assert(lv[x] < lv[k]);
            } else if x > k {
                assert(lv[k] < lv[x]);
            }
        }
        if map[i].1 == k {
            lemma_members_hold(ids, fr, fr[i], n, i);
        }
    }
    assert forall|k: int, a: int| 0 <= k < groups.len() && 0 <= a < groups[k].len() implies
        exists|i: int| 0 <= i < ids.len() && ids[i] == #[trigger] groups[k][a] && map[i].1 == k by {
        lemma_members_exact(ids, fr, lv[k], n);
        let i = choose|i: int| 0 <= i < n && ids[i] == members(ids, fr, lv[k], n)[a] && fr[i] == lv[k];
        assert(groups[k].contains(ids[i]));
        assert(map[i].1 == k);
    }
    assert forall|k: int, a: int, b: int, i: int, j: int|
        0 <= k < groups.len() && 0 <= a < b < groups[k].len() && 0 <= i < ids.len() && 0 <= j < ids.len()
        && #[trigger] groups[k][a] == #[trigger] ids[i] && #[trigger] groups[k][b] == #[trigger] ids[j]
        implies i < j by {
        lemma_members_exact(ids, fr, lv[k], n);
        assert(members(ids, fr, lv[k], n)[a] == ids[i]);
        assert(members(ids, fr, lv[k], n)[b] == ids[j]);
    }
}


// ---------------------------------------------------------------------------
// Longest paths on acyclic graphs
// ---------------------------------------------------------------------------

/// Edge `i` joins the distinct known nodes `u` and `v`, from `u` to `v`.
pub open spec fn edge_at(ids: Seq<Text>, edges: Seq<EdgeV>, i: int, u: Text, v: Text) -> bool {
    0 <= i < edges.len() && edges[i].from == u && edges[i].to == v && ids.contains(u) && ids.contains(v) && u != v
}

/// Some edge joins the distinct known nodes `u` and `v`, from `u` to `v`.
pub open spec fn linked(ids: Seq<Text>, edges: Seq<EdgeV>, u: Text, v: Text) -> bool {
    exists|i: int| edge_at(ids, edges, i, u, v)
}

proof fn lemma_push_under_lookup(m: Seq<(Text, Seq<Text>)>, k: Text, v: Text, k2: Text)
    ensures
        lookup(push_under(m, k, v), k) == Some(list_of(m, k).push(v)),
        k2 != k ==> lookup(push_under(m, k, v), k2) == lookup(m, k2),
{
    let ks = m.map_values(|p: (Text, Seq<Text>)| p.0);
    lemma_first_index(ks, k);
    assert(push_under(m, k, v) == insert(m, k, list_of(m, k).push(v)));
    lemma_insert_lookup(m, k, list_of(m, k).push(v), k2);
}

/// What the neighbour lists hold: `b` is listed under `a` exactly when an
/// edge among the first `n` joins them (from `a` to `b` forward, from `b` to
/// `a` backward), and a node with an entry has a nonempty list.
proof fn lemma_neighbour_lists(ids: Seq<Text>, edges: Seq<EdgeV>, forward: bool, n: int, a: Text, b: Text)
    requires
        0 <= n <= edges.len(),
    ensures
        list_of(known_neighbours(ids, edges, forward, n), a).contains(b) <==> exists|i: int| 0 <= i < n
            && (if forward { edge_at(ids, edges, i, a, b) } else { edge_at(ids, edges, i, b, a) }),
        lookup(known_neighbours(ids, edges, forward, n), a) is Some ==> list_of(known_neighbours(ids, edges, forward, n), a).len() > 0,
    decreases n,
{
    if n > 0 {
        lemma_neighbour_lists(ids, edges, forward, n - 1, a, b);
        let m = known_neighbours(ids, edges, forward, n - 1);
        let e = edges[n - 1];
        let ok = ids.contains(e.from) && ids.contains(e.to) && e.from != e.to;
        let old_has = exists|i: int| 0 <= i < n - 1
            && (if forward { edge_at(ids, edges, i, a, b) } else { edge_at(ids, edges, i, b, a) });
        let new_has = exists|i: int| 0 <= i < n
            && (if forward { edge_at(ids, edges, i, a, b) } else { edge_at(ids, edges, i, b, a) });
        let last = if forward { edge_at(ids, edges, n - 1, a, b) } else { edge_at(ids, edges, n - 1, b, a) };
        assert(new_has <==> (old_has || last)) by {
            if new_has {
                let i = choose|i: int| 0 <= i < n
                    && (if forward { edge_at(ids, edges, i, a, b) } else { edge_at(ids, edges, i, b, a) });
                if i < n - 1 {
                    assert(old_has);
                }
            }
            if old_has {
                let i = choose|i: int| 0 <= i < n - 1
                    && (if forward { edge_at(ids, edges, i, a, b) } else { edge_at(ids, edges, i, b, a) });
                assert(0 <= i < n);
            }
            if last {
                assert(0 <= n - 1 < n);
            }
        }
        if ok {
            let (k0, v0) = if forward { (e.from, e.to) } else { (e.to, e.from) };
            lemma_push_under_lookup(m, k0, v0, a);
            if a == k0 {
                assert(list_of(push_under(m, k0, v0), a) == list_of(m, a).push(v0));
                assert(list_of(m, a).push(v0).contains(b) <==> (list_of(m, a).contains(b) || b == v0)) by {
                    if list_of(m, a).push(v0).contains(b) {
                        let j = choose|j: int| 0 <= j < list_of(m, a).push(v0).len() && list_of(m, a).push(v0)[j] == b;
                        if j < list_of(m, a).len() {
                            assert(list_of(m, a)[j] == b);
                        }
                    }
                    if list_of(m, a).contains(b) {
                        let j = choose|j: int| 0 <= j < list_of(m, a).len() && list_of(m, a)[j] == b;
                        assert(list_of(m, a).push(v0)[j] == b);
                    }
                    if b == v0 {
                        assert(list_of(m, a).push(v0)[list_of(m, a).len() as int] == b);
                    }
                }
            }
        }
    }
}

/// Facts about the neighbour lists of a graph: predecessors and successors
/// mirror each other, a listed node is known, and a node has an entry only
/// with someone listed.
pub open spec fn lists_mirror(ids: Seq<Text>, preds: Seq<(Text, Seq<Text>)>, succs: Seq<(Text, Seq<Text>)>) -> bool {
    &&& forall|u: Text, v: Text| #[trigger] list_of(preds, v).contains(u) <==> #[trigger] list_of(succs, u).contains(v)
    &&& forall|u: Text, v: Text| #[trigger] list_of(preds, v).contains(u) ==> ids.contains(u) && ids.contains(v) && u != v
    &&& forall|v: Text| #[trigger] lookup(preds, v) is Some ==> list_of(preds, v).len() > 0
}

proof fn lemma_lists_mirror(ids: Seq<Text>, edges: Seq<EdgeV>)
    ensures
        lists_mirror(ids, known_neighbours(ids, edges, false, edges.len() as int), known_neighbours(ids, edges, true, edges.len() as int)),
{
    let n = edges.len() as int;
    let preds = known_neighbours(ids, edges, false, n);
    let succs = known_neighbours(ids, edges, true, n);
    assert forall|u: Text, v: Text| #[trigger] list_of(preds, v).contains(u) <==> #[trigger] list_of(succs, u).contains(v) by {
        lemma_neighbour_lists(ids, edges, false, n, v, u);
        lemma_neighbour_lists(ids, edges, true, n, u, v);
    }
    assert forall|u: Text, v: Text| #[trigger] list_of(preds, v).contains(u) implies ids.contains(u) && ids.contains(v) && u != v by {
        lemma_neighbour_lists(ids, edges, false, n, v, u);
    }
    assert forall|v: Text| #[trigger] lookup(preds, v) is Some implies list_of(preds, v).len() > 0 by {
        lemma_neighbour_lists(ids, edges, false, n, v, v);
    }
}


/// A node without an entry among the predecessors.
pub open spec fn is_source(preds: Seq<(Text, Seq<Text>)>, v: Text) -> bool {
    lookup(preds, v) is None
}

/// The rank of a ranked node.
pub open spec fn rank_of(rank: Seq<(Text, int)>, v: Text) -> int {
    lookup(rank, v)->0
}

/// What the walk keeps on an acyclic graph: a ranked node is done, or a source
/// at rank 0; a node done has all its predecessors ranked and the rank one
/// above the highest of them (0 for a source); every source is ranked 0; a
/// node not done that is a source, or has a predecessor done, is queued; and
/// the entries queued since the last node done all wait on a predecessor.
pub open spec fn dag_walk_inv(w: Walk, ids: Seq<Text>, preds: Seq<(Text, Seq<Text>)>) -> bool {
    &&& forall|k: Text| #[trigger] lookup(w.rank, k) is Some ==> ids.contains(k)
            && (w.processed.contains(k) || (is_source(preds, k) && rank_of(w.rank, k) == 0))
    &&& forall|k: Text| #[trigger] w.processed.contains(k) ==> lookup(w.rank, k) is Some
            && all_ranked(w.rank, list_of(preds, k))
            && rank_of(w.rank, k) == (if is_source(preds, k) { 0 } else { max_rank(w.rank, list_of(preds, k), list_of(preds, k).len() as int) + 1 })
    &&& forall|v: Text| ids.contains(v) && #[trigger] is_source(preds, v) ==> lookup(w.rank, v) == Some(0int)
    &&& forall|v: Text| ids.contains(v) && !w.processed.contains(v)
            && (is_source(preds, v) || exists|p: Text| w.processed.contains(p) && #[trigger] list_of(preds, v).contains(p))
            ==> #[trigger] w.queue.contains(v)
    &&& forall|i: int| w.pending <= i < w.queue.len() ==> !w.processed.contains(#[trigger] w.queue[i])
            && !all_ranked(w.rank, list_of(preds, w.queue[i])) && lookup(w.rank, w.queue[i]) is None
}

proof fn lemma_max_rank_agree(r1: Seq<(Text, int)>, r2: Seq<(Text, int)>, ps: Seq<Text>, n: int)
    requires
        0 <= n <= ps.len(),
        forall|i: int| 0 <= i < n ==> lookup(r1, #[trigger] ps[i]) == lookup(r2, ps[i]),
    ensures
        max_rank(r1, ps, n) == max_rank(r2, ps, n),
    decreases n,
{
    if n > 0 {
        lemma_max_rank_agree(r1, r2, ps, n - 1);
    }
}

proof fn lemma_max_rank_bounds(rank: Seq<(Text, int)>, ps: Seq<Text>, n: int)
    requires
        0 <= n <= ps.len(),
    ensures
        max_rank(rank, ps, n) >= 0,
        forall|i: int| 0 <= i < n && lookup(rank, #[trigger] ps[i]) is Some ==> rank_of(rank, ps[i]) <= max_rank(rank, ps, n),
        max_rank(rank, ps, n) > 0 ==> exists|i: int| 0 <= i < n && lookup(rank, #[trigger] ps[i]) == Some(max_rank(rank, ps, n)),
    decreases n,
{
    if n > 0 {
        lemma_max_rank_bounds(rank, ps, n - 1);
        let m = max_rank(rank, ps, n - 1);
        if max_rank(rank, ps, n) > 0 && max_rank(rank, ps, n) == m {
            let i = choose|i: int| 0 <= i < n - 1 && lookup(rank, #[trigger] ps[i]) == Some(m);
            assert(0 <= i < n);
        }
        if lookup(rank, ps[n - 1]) is Some && max_rank(rank, ps, n) != m {
            assert(lookup(rank, ps[n - 1]) == Some(max_rank(rank, ps, n)));
        }
    }
}

/// Visiting successors that are all ranked no lower than `rx + 1` changes no
/// rank and queues exactly the unranked ones.
proof fn lemma_visit_no_raise(rank: Seq<(Text, int)>, queue: Seq<Text>, rx: int, ss: Seq<Text>)
    requires
        forall|i: int| 0 <= i < ss.len() && lookup(rank, #[trigger] ss[i]) is Some ==> rx + 1 <= rank_of(rank, ss[i]),
    ensures
        visit(rank, queue, rx, ss).0 == rank,
        forall|v: Text| #[trigger] visit(rank, queue, rx, ss).1.contains(v) <== queue.contains(v) || (ss.contains(v) && lookup(rank, v) is None),
    decreases ss.len(),
{
    if ss.len() > 0 {
        lemma_visit_no_raise(rank, queue, rx, ss.drop_last());
        let (r, q) = visit(rank, queue, rx, ss.drop_last());
        let x = ss.last();
        assert forall|v: Text| queue.contains(v) || (ss.contains(v) && lookup(rank, v) is None) implies #[trigger] visit(rank, queue, rx, ss).1.contains(v) by {
            if queue.contains(v) {
                assert(q.contains(v));
                if lookup(r, x) is None {
                    let j = choose|j: int| 0 <= j < q.len() && q[j] == v;
                    assert(q.push(x)[j] == v);
                }
            } else {
                let j = choose|j: int| 0 <= j < ss.len() && ss[j] == v;
                if j < ss.len() - 1 {
                    assert(ss.drop_last()[j] == v);
                    assert(q.contains(v));
                    if lookup(r, x) is None {
                        let a = choose|a: int| 0 <= a < q.len() && q[a] == v;
                        assert(q.push(x)[a] == v);
                    }
                } else {
                    assert(q.push(x)[q.len() as int] == v);
                }
            }
        }
    }
}


proof fn lemma_all_ranked_grow(r1: Seq<(Text, int)>, r2: Seq<(Text, int)>, ps: Seq<Text>)
    requires
        all_ranked(r1, ps),
        forall|k: Text| lookup(r1, k) is Some ==> #[trigger] lookup(r2, k) == lookup(r1, k),
    ensures
        all_ranked(r2, ps),
        max_rank(r1, ps, ps.len() as int) == max_rank(r2, ps, ps.len() as int),
{
    assert forall|i: int| 0 <= i < ps.len() implies lookup(r2, #[trigger] ps[i]) is Some by {
        assert(lookup(r1, ps[i]) is Some);
    }
    assert forall|i: int| 0 <= i < ps.len() implies lookup(r1, #[trigger] ps[i]) == lookup(r2, ps[i]) by {
        assert(lookup(r1, ps[i]) is Some);
    }
    lemma_max_rank_agree(r1, r2, ps, ps.len() as int);
}

/// A turn of the walk keeps `dag_walk_inv` on an acyclic graph.
proof fn lemma_dag_step(w: Walk, ids: Seq<Text>, preds: Seq<(Text, Seq<Text>)>, succs: Seq<(Text, Seq<Text>)>, t: spec_fn(Text) -> nat)
    requires
        dag_walk_inv(w, ids, preds),
        walk_ok(w, ids, succs),
        w.pending > 0,
        lists_mirror(ids, preds, succs),
        forall|u: Text, v: Text| #[trigger] list_of(preds, v).contains(u) ==> t(u) < t(v),
    ensures
        dag_walk_inv(walk_step(w, preds, succs), ids, preds),
{
    let x = w.queue[0];
    let q = w.queue.skip(1);
    let v2 = walk_step(w, preds, succs);
    assert(w.queue.contains(x));
    assert(ids.contains(x));
    assert forall|v: Text| #[trigger] w.queue.contains(v) && v != x implies q.contains(v) by {
        let j = choose|j: int| 0 <= j < w.queue.len() && w.queue[j] == v;
        assert(j != 0);
        assert(q[j - 1] == v);
    }
    if w.processed.contains(x) {
        assert forall|v: Text| ids.contains(v) && !v2.processed.contains(v)
            && (is_source(preds, v) || exists|p: Text| v2.processed.contains(p) && #[trigger] list_of(preds, v).contains(p))
            implies #[trigger] v2.queue.contains(v) by {
            assert(w.queue.contains(v));
        }
        assert forall|i: int| v2.pending <= i < v2.queue.len() implies !v2.processed.contains(#[trigger] v2.queue[i])
            && !all_ranked(v2.rank, list_of(preds, v2.queue[i])) && lookup(v2.rank, v2.queue[i]) is None by {
            assert(v2.queue[i] == w.queue[i + 1]);
        }
    } else {
        let ps = list_of(preds, x);
        if !all_ranked(w.rank, ps) && lookup(w.rank, x) is None {
            assert forall|v: Text| ids.contains(v) && !v2.processed.contains(v)
                && (is_source(preds, v) || exists|p: Text| v2.processed.contains(p) && #[trigger] list_of(preds, v).contains(p))
                implies #[trigger] v2.queue.contains(v) by {
                assert(w.queue.contains(v));
                if v == x {
                    assert(v2.queue[q.len() as int] == x);
                } else {
                    let j = choose|j: int| 0 <= j < q.len() && q[j] == v;
                    assert(v2.queue[j] == v);
                }
            }
            assert forall|i: int| v2.pending <= i < v2.queue.len() implies !v2.processed.contains(#[trigger] v2.queue[i])
                && !all_ranked(v2.rank, list_of(preds, v2.queue[i])) && lookup(v2.rank, v2.queue[i]) is None by {
                if i < q.len() {
                    assert(v2.queue[i] == w.queue[i + 1]);
                } else {
                    assert(v2.queue[i] == x);
                }
            }
        } else {
            let ranked_before = lookup(w.rank, x) is Some;
            if ranked_before {
                assert(is_source(preds, x) && rank_of(w.rank, x) == 0);
            } else {
                assert(!is_source(preds, x));
            }
            assert(is_source(preds, x) ==> ps.len() == 0);
            assert(all_ranked(w.rank, ps));
            let r1 = if lookup(w.rank, x) is None { insert(w.rank, x, max_rank(w.rank, ps, ps.len() as int) + 1) } else { w.rank };
            lemma_insert_lookup(w.rank, x, max_rank(w.rank, ps, ps.len() as int) + 1, x);
            assert forall|k: Text| lookup(w.rank, k) is Some implies #[trigger] lookup(r1, k) == lookup(w.rank, k) by {
                if !ranked_before {
                    lemma_insert_lookup(w.rank, x, max_rank(w.rank, ps, ps.len() as int) + 1, k);
                }
            }
            assert forall|k: Text| #[trigger] lookup(r1, k) is Some implies (lookup(w.rank, k) is Some || k == x) by {
                if !ranked_before {
                    lemma_insert_lookup(w.rank, x, max_rank(w.rank, ps, ps.len() as int) + 1, k);
                }
            }
            let rx = lookup(r1, x)->0;
            let ss = list_of(succs, x);
            assert forall|i: int| 0 <= i < ss.len() && lookup(r1, #[trigger] ss[i]) is Some implies rx + 1 <= rank_of(r1, ss[i]) by {
                let sv = ss[i];
                assert(ss.contains(sv));
                assert(list_of(preds, sv).contains(x));
                assert(t(x) < t(sv));
                assert(lookup(w.rank, sv) is Some);
                assert(lookup(r1, sv) == lookup(w.rank, sv));
                assert(list_of(preds, sv).len() > 0);
                assert(!is_source(preds, sv));
                assert(w.processed.contains(sv));
                let pl = list_of(preds, sv);
                let j = choose|j: int| 0 <= j < pl.len() && pl[j] == x;
                assert(lookup(w.rank, pl[j]) is Some);
                assert(ranked_before);
                lemma_max_rank_bounds(w.rank, pl, pl.len() as int);
            }
            lemma_visit_no_raise(r1, q, rx, ss);
            let (r2, q2) = visit(r1, q, rx, ss);
            assert(v2.rank == r1);
            assert(v2.queue == q2);
            assert(v2.processed == w.processed.push(x));
            assert forall|k: Text| #[trigger] v2.processed.contains(k) <==> (w.processed.contains(k) || k == x) by {
                if v2.processed.contains(k) {
                    let j = choose|j: int| 0 <= j < v2.processed.len() && v2.processed[j] == k;
                    if j < w.processed.len() {
                        assert(w.processed[j] == k);
                    }
                }
                if w.processed.contains(k) {
                    let j = choose|j: int| 0 <= j < w.processed.len() && w.processed[j] == k;
                    assert(v2.processed[j] == k);
                }
                if k == x {
                    assert(v2.processed[w.processed.len() as int] == k);
                }
            }
            // ranked nodes
            assert forall|k: Text| #[trigger] lookup(v2.rank, k) is Some implies ids.contains(k)
                && (v2.processed.contains(k) || (is_source(preds, k) && rank_of(v2.rank, k) == 0)) by {
                if k != x {
                    assert(lookup(w.rank, k) is Some);
                }
            }
            // nodes done
            assert forall|k: Text| #[trigger] v2.processed.contains(k) implies lookup(v2.rank, k) is Some
                && all_ranked(v2.rank, list_of(preds, k))
                && rank_of(v2.rank, k) == (if is_source(preds, k) { 0 } else { max_rank(v2.rank, list_of(preds, k), list_of(preds, k).len() as int) + 1 }) by {
                if k == x {
                    lemma_all_ranked_grow(w.rank, r1, ps);
                } else {
                    assert(w.processed.contains(k));
                    lemma_all_ranked_grow(w.rank, r1, list_of(preds, k));
                }
            }
            // sources
            assert forall|v: Text| ids.contains(v) && #[trigger] is_source(preds, v) implies lookup(v2.rank, v) == Some(0int) by {
                assert(lookup(w.rank, v) == Some(0int));
            }
            // enabled nodes are queued
            assert forall|v: Text| ids.contains(v) && !v2.processed.contains(v)
                && (is_source(preds, v) || exists|p: Text| v2.processed.contains(p) && #[trigger] list_of(preds, v).contains(p))
                implies #[trigger] v2.queue.contains(v) by {
                assert(v != x);
                if is_source(preds, v) || exists|p: Text| w.processed.contains(p) && #[trigger] list_of(preds, v).contains(p) {
                    assert(w.queue.contains(v));
                    assert(q.contains(v));
                } else {
                    let p = choose|p: Text| v2.processed.contains(p) && #[trigger] list_of(preds, v).contains(p);
                    assert(p == x);
                    assert(ss.contains(v));
                    if lookup(r1, v) is Some {
                        assert(lookup(w.rank, v) is Some);
                        assert(list_of(preds, v).len() > 0 || !is_source(preds, v));
                        assert(false);
                    }
                }
            }
        }
    }
}


/// Runs the walk to its end on an acyclic graph, keeping `dag_walk_inv`.
proof fn lemma_dag_walk(w: Walk, ids: Seq<Text>, preds: Seq<(Text, Seq<Text>)>, succs: Seq<(Text, Seq<Text>)>, t: spec_fn(Text) -> nat)
    requires
        dag_walk_inv(w, ids, preds),
        walk_ok(w, ids, succs),
        lists_mirror(ids, preds, succs),
        forall|u: Text, v: Text| #[trigger] list_of(preds, v).contains(u) ==> t(u) < t(v),
    ensures
        dag_walk_inv(walk(w, ids, preds, succs), ids, preds),
        walk_ok(walk(w, ids, preds, succs), ids, succs),
        walk(w, ids, preds, succs).pending == 0,
    decreases ids.len() - w.processed.len(), w.queue.len(), w.pending,
{
    if w.pending > 0 {
        lemma_walk_step(w, ids, preds, succs);
        lemma_dag_step(w, ids, preds, succs, t);
        lemma_dag_walk(walk_step(w, preds, succs), ids, preds, succs, t);
    }
}

/// Below a node not done there is a node not done whose predecessors are all done.
proof fn lemma_ready_below(processed: Seq<Text>, ids: Seq<Text>, preds: Seq<(Text, Seq<Text>)>, succs: Seq<(Text, Seq<Text>)>, t: spec_fn(Text) -> nat, u: Text)
    requires
        ids.contains(u),
        !processed.contains(u),
        lists_mirror(ids, preds, succs),
        forall|a: Text, b: Text| #[trigger] list_of(preds, b).contains(a) ==> t(a) < t(b),
    ensures
        exists|v: Text| ids.contains(v) && !processed.contains(v)
            && forall|p: Text| #[trigger] list_of(preds, v).contains(p) ==> processed.contains(p),
    decreases t(u),
{
    if exists|p: Text| #[trigger] list_of(preds, u).contains(p) && !processed.contains(p) {
        let p = choose|p: Text| #[trigger] list_of(preds, u).contains(p) && !processed.contains(p);
        lemma_ready_below(processed, ids, preds, succs, t, p);
    } else {
        assert(forall|p: Text| #[trigger] list_of(preds, u).contains(p) ==> processed.contains(p));
    }
}

/// When the walk ends on an acyclic graph, every node is done.
proof fn lemma_dag_all_done(w: Walk, ids: Seq<Text>, preds: Seq<(Text, Seq<Text>)>, succs: Seq<(Text, Seq<Text>)>, t: spec_fn(Text) -> nat)
    requires
        dag_walk_inv(w, ids, preds),
        w.pending == 0,
        lists_mirror(ids, preds, succs),
        forall|u: Text, v: Text| #[trigger] list_of(preds, v).contains(u) ==> t(u) < t(v),
    ensures
        forall|v: Text| ids.contains(v) ==> #[trigger] w.processed.contains(v),
{
    assert forall|u: Text| ids.contains(u) implies #[trigger] w.processed.contains(u) by {
        if !w.processed.contains(u) {
            lemma_ready_below(w.processed, ids, preds, succs, t, u);
            let v = choose|v: Text| ids.contains(v) && !w.processed.contains(v)
                && forall|p: Text| #[trigger] list_of(preds, v).contains(p) ==> w.processed.contains(p);
            let pl = list_of(preds, v);
            if !is_source(preds, v) {
                assert(pl.len() > 0);
                assert(pl.contains(pl[0]));
                assert(w.processed.contains(pl[0]));
            }
            assert(w.queue.contains(v));
            let i = choose|i: int| 0 <= i < w.queue.len() && w.queue[i] == v;
            assert(!all_ranked(w.rank, pl));
            assert forall|j: int| 0 <= j < pl.len() implies lookup(w.rank, #[trigger] pl[j]) is Some by {
                assert(pl.contains(pl[j]));
                assert(w.processed.contains(pl[j]));
            }
        }
    }
}

proof fn lemma_sources_hold(ids: Seq<Text>, preds: Seq<(Text, Seq<Text>)>, n: int, k: Text)
    requires
        0 <= n <= ids.len(),
    ensures
        sources(ids, preds, n).contains(k) <==> (is_source(preds, k) && exists|i: int| 0 <= i < n && ids[i] == k),
    decreases n,
{
    if n > 0 {
        lemma_sources_hold(ids, preds, n - 1, k);
        let s0 = sources(ids, preds, n - 1);
        if is_source(preds, ids[n - 1]) {
            let s1 = s0.push(ids[n - 1]);
            if s1.contains(k) {
                let j = choose|j: int| 0 <= j < s1.len() && s1[j] == k;
                if j < s0.len() {
                    assert(s0[j] == k);
                } else {
                    assert(ids[n - 1] == k);
                }
            }
            if s0.contains(k) {
                let j = choose|j: int| 0 <= j < s0.len() && s0[j] == k;
                assert(s0.push(ids[n - 1])[j] == k);
            }
            if k == ids[n - 1] {
                assert(s0.push(ids[n - 1])[s0.len() as int] == k);
            }
        }
        if exists|i: int| 0 <= i < n && ids[i] == k {
            let i = choose|i: int| 0 <= i < n && ids[i] == k;
            if i < n - 1 {
                assert(exists|i2: int| 0 <= i2 < n - 1 && ids[i2] == k);
            }
        }
        if exists|i: int| 0 <= i < n - 1 && ids[i] == k {
            let i = choose|i: int| 0 <= i < n - 1 && ids[i] == k;
            assert(0 <= i < n);
        }
    }
}

proof fn lemma_zero_ranks_lookup(start: Seq<Text>, n: int, k: Text)
    requires
        0 <= n <= start.len(),
    ensures
        lookup(zero_ranks(start, n), k) == (if exists|i: int| 0 <= i < n && start[i] == k { Some(0int) } else { None }),
    decreases n,
{
    if n > 0 {
        lemma_zero_ranks_lookup(start, n - 1, k);
        lemma_insert_lookup(zero_ranks(start, n - 1), start[n - 1], 0int, k);
        if exists|i: int| 0 <= i < n - 1 && start[i] == k {
            let i = choose|i: int| 0 <= i < n - 1 && start[i] == k;
            assert(0 <= i < n);
        }
        if k == start[n - 1] {
            assert(exists|i: int| 0 <= i < n && start[i] == k);
        }
        if exists|i: int| 0 <= i < n && start[i] == k {
            let i = choose|i: int| 0 <= i < n && start[i] == k;
            if i < n - 1 {
                assert(exists|i2: int| 0 <= i2 < n - 1 && start[i2] == k);
            }
        }
    }
}

/// On an acyclic graph the walk starts from the sources, well formed.
proof fn lemma_dag_start(ids: Seq<Text>, edges: Seq<EdgeV>, t: spec_fn(Text) -> nat)
    requires
        forall|u: Text, v: Text| linked(ids, edges, u, v) ==> t(u) < t(v),
    ensures
        ({
            let preds = known_neighbours(ids, edges, false, edges.len() as int);
            let succs = known_neighbours(ids, edges, true, edges.len() as int);
            &&& lists_mirror(ids, preds, succs)
            &&& forall|u: Text, v: Text| #[trigger] list_of(preds, v).contains(u) ==> t(u) < t(v)
            &&& dag_walk_inv(walk_start(ids, preds), ids, preds)
            &&& walk_ok(walk_start(ids, preds), ids, succs)
        }),
{
    let n = edges.len() as int;
    let preds = known_neighbours(ids, edges, false, n);
    let succs = known_neighbours(ids, edges, true, n);
    lemma_lists_mirror(ids, edges);
    assert forall|u: Text, v: Text| #[trigger] list_of(preds, v).contains(u) implies t(u) < t(v) by {
        lemma_neighbour_lists(ids, edges, false, n, v, u);
        let i = choose|i: int| 0 <= i < n && edge_at(ids, edges, i, u, v);
        assert(linked(ids, edges, u, v));
    }
    let src = sources(ids, preds, ids.len() as int);
    if ids.len() > 0 {
        let w0 = Walk { rank: seq![], queue: seq![], processed: seq![], pending: 0 };
        assert(ids.contains(ids[0]));
        lemma_ready_below(w0.processed, ids, preds, succs, t, ids[0]);
        let v = choose|v: Text| ids.contains(v) && !w0.processed.contains(v)
            && forall|p: Text| #[trigger] list_of(preds, v).contains(p) ==> w0.processed.contains(p);
        if !is_source(preds, v) {
            assert(list_of(preds, v).len() > 0);
            assert(list_of(preds, v).contains(list_of(preds, v)[0]));
        }
        let j = choose|j: int| 0 <= j < ids.len() && ids[j] == v;
        lemma_sources_hold(ids, preds, ids.len() as int, v);
        assert(src.contains(v));
    }
    let w = walk_start(ids, preds);
    assert(w.queue == src);
    assert forall|k: Text| #[trigger] lookup(w.rank, k) is Some implies ids.contains(k)
        && (w.processed.contains(k) || (is_source(preds, k) && rank_of(w.rank, k) == 0)) by {
        lemma_zero_ranks_lookup(src, src.len() as int, k);
        let i = choose|i: int| 0 <= i < src.len() && src[i] == k;
        assert(src.contains(k));
        lemma_sources_hold(ids, preds, ids.len() as int, k);
    }
    assert forall|v: Text| ids.contains(v) && #[trigger] is_source(preds, v) implies lookup(w.rank, v) == Some(0int) by {
        lemma_sources_hold(ids, preds, ids.len() as int, v);
        let i = choose|i: int| 0 <= i < src.len() && src[i] == v;
        lemma_zero_ranks_lookup(src, src.len() as int, v);
    }
    assert forall|v: Text| ids.contains(v) && !w.processed.contains(v)
        && (is_source(preds, v) || exists|p: Text| w.processed.contains(p) && #[trigger] list_of(preds, v).contains(p))
        implies #[trigger] w.queue.contains(v) by {
        lemma_sources_hold(ids, preds, ids.len() as int, v);
    }
    lemma_sources_known(ids, preds, ids.len() as int);
    lemma_known_neighbours(ids, edges, true, n);
}


/// Strictly increasing.
pub open spec fn increasing(l: Seq<int>) -> bool {
    forall|a: int, b: int| 0 <= a < b < l.len() ==> l[a] < l[b]
}

proof fn lemma_level_pos_split(l: Seq<int>, v: int, i: int)
    requires
        0 <= i <= l.len(),
        increasing(l),
    ensures
        forall|k: int| i <= k < level_pos(l, v, i) ==> l[k] <= v,
        level_pos(l, v, i) < l.len() ==> v < l[level_pos(l, v, i)],
    decreases l.len() - i,
{
    lemma_level_pos(l, v, i);
    if i < l.len() && !(v < l[i]) {
        lemma_level_pos_split(l, v, i + 1);
    }
}

proof fn lemma_levels_increasing(vals: Seq<int>, n: int)
    requires
        0 <= n <= vals.len(),
    ensures
        increasing(levels(vals, n)),
    decreases n,
{
    if n > 0 {
        lemma_levels_increasing(vals, n - 1);
        let l = levels(vals, n - 1);
        let v = vals[n - 1];
        if !l.contains(v) {
            let p = level_pos(l, v, 0);
            lemma_level_pos(l, v, 0);
            lemma_level_pos_split(l, v, 0);
            let l2 = l.insert(p, v);
            assert forall|a: int, b: int| 0 <= a < b < l2.len() implies l2[a] < l2[b] by {
                if a < p {
                    assert(l2[a] == l[a]);
                    assert(l[a] != v);
                    if b < p {
                        assert(l2[b] == l[b]);
                    } else if b > p {
                        assert(l2[b] == l[b - 1]);
                        if b - 1 >= p {
                            assert(v < l[p]);
                        }
                    }
                } else if a == p {
                    assert(l2[b] == l[b - 1]);
                    assert(v < l[p]);
                } else {
                    assert(l2[a] == l[a - 1]);
                    assert(l2[b] == l[b - 1]);
                }
            }
        }
    }
}

proof fn lemma_iota(l: Seq<int>, k: int)
    requires
        increasing(l),
        0 <= k < l.len(),
        forall|a: int| 0 <= a < l.len() ==> l[a] >= 0,
        l.contains(0),
        forall|a: int| 0 <= a < l.len() && #[trigger] l[a] > 0 ==> l.contains(l[a] - 1),
    ensures
        l[k] == k,
    decreases k,
{
    if k == 0 {
        let a = choose|a: int| 0 <= a < l.len() && l[a] == 0;
        if a > 0 {
            assert(l[0] < l[a]);
        }
    } else {
        lemma_iota(l, k - 1);
        assert(l[k - 1] < l[k]);
        if l[k] > k {
            let a = choose|a: int| 0 <= a < l.len() && l[a] == l[k] - 1;
            if a <= k - 1 {
                if a < k - 1 {
                    assert(l[a] < l[k - 1]);
                }
            } else if a >= k {
                if a > k {
                    assert(l[k] < l[a]);
                }
            }
        }
    }
}

/// With values that start at 0 and skip no number, compacting the values
/// keeps each one.
proof fn lemma_levels_identity(vals: Seq<int>)
    requires
        forall|j: int| 0 <= j < vals.len() ==> vals[j] >= 0,
        vals.len() > 0 ==> vals.contains(0),
        forall|j: int| 0 <= j < vals.len() && #[trigger] vals[j] > 0 ==> vals.contains(vals[j] - 1),
    ensures
        forall|j: int| 0 <= j < vals.len() ==> level_index(levels(vals, vals.len() as int), #[trigger] vals[j], 0) == vals[j],
{
    let n = vals.len() as int;
    let l = levels(vals, n);
    lemma_levels_hold(vals, n);
    lemma_levels_increasing(vals, n);
    if n > 0 {
        assert forall|a: int| 0 <= a < l.len() implies l[a] >= 0 by {
            let j = choose|j: int| 0 <= j < n && vals[j] == l[a];
        }
        let z = choose|j: int| 0 <= j < n && vals[j] == 0;
        assert(l.contains(vals[z]));
        assert forall|a: int| 0 <= a < l.len() && #[trigger] l[a] > 0 implies l.contains(l[a] - 1) by {
            let j = choose|j: int| 0 <= j < n && vals[j] == l[a];
            let j2 = choose|j2: int| 0 <= j2 < n && vals[j2] == vals[j] - 1;
            assert(l.contains(vals[j2]));
        }
        assert forall|j: int| 0 <= j < n implies level_index(l, #[trigger] vals[j], 0) == vals[j] by {
            assert(l.contains(vals[j]));
            lemma_level_index_found(l, vals[j], 0);
            let x = level_index(l, vals[j], 0);
            lemma_iota(l, x);
        }
    }
}

/// Law: on an acyclic graph of distinct nodes (`t` numbers the nodes so that
/// every edge goes up), ranks follow the longest path from the sources: a node
/// with no predecessor has rank 0, every edge leads to a higher rank, and a
/// node with predecessors stands one above one of them, so one above the
/// highest.
pub proof fn law_longest_path_ranks(ids: Seq<Text>, edges: Seq<EdgeV>, t: spec_fn(Text) -> nat)
    requires
        ids.no_duplicates(),
        forall|u: Text, v: Text| linked(ids, edges, u, v) ==> t(u) < t(v),
    ensures
        ({
            let map = layering(ids, edges).1;
            &&& forall|i: int| 0 <= i < ids.len() && (forall|j: int| 0 <= j < ids.len() ==> !linked(ids, edges, ids[j], ids[i]))
                    ==> #[trigger] map[i].1 == 0
            &&& forall|i: int, j: int| 0 <= i < ids.len() && 0 <= j < ids.len() && linked(ids, edges, ids[j], ids[i])
                    ==> #[trigger] map[j].1 < #[trigger] map[i].1
            &&& forall|i: int| 0 <= i < ids.len() && (exists|j: int| 0 <= j < ids.len() && linked(ids, edges, ids[j], ids[i]))
                    ==> exists|j: int| 0 <= j < ids.len() && linked(ids, edges, ids[j], ids[i]) && #[trigger] map[i].1 == map[j].1 + 1
        }),
{
    let n = edges.len() as int;
    let preds = known_neighbours(ids, edges, false, n);
    let succs = known_neighbours(ids, edges, true, n);
    lemma_dag_start(ids, edges, t);
    let w = walk(walk_start(ids, preds), ids, preds, succs);
    lemma_dag_walk(walk_start(ids, preds), ids, preds, succs, t);
    lemma_dag_all_done(w, ids, preds, succs, t);
    let fr = final_ranks(ids, w.rank);
    let map = layering(ids, edges).1;
    // every node is ranked; its rank is its final rank
    assert forall|i: int| 0 <= i < ids.len() implies lookup(w.rank, #[trigger] ids[i]) is Some && fr[i] == rank_of(w.rank, ids[i]) by {
        assert(ids.contains(ids[i]));
        assert(w.processed.contains(ids[i]));
    }
    // predecessors in the lists are exactly the linked nodes
    assert forall|u: Text, v: Text| #[trigger] list_of(preds, v).contains(u) <==> linked(ids, edges, u, v) by {
        lemma_neighbour_lists(ids, edges, false, n, v, u);
        if linked(ids, edges, u, v) {
            let i = choose|i: int| edge_at(ids, edges, i, u, v);
            assert(0 <= i < n);
        }
    }
    // ranks are nonnegative
    assert forall|i: int| 0 <= i < ids.len() implies fr[i] >= 0 by {
        let v = ids[i];
        assert(ids.contains(v));
        assert(w.processed.contains(v));
        lemma_max_rank_bounds(w.rank, list_of(preds, v), list_of(preds, v).len() as int);
    }
    // a node with predecessors stands one above one of them, above all of them
    assert forall|i: int| 0 <= i < ids.len() && !is_source(preds, #[trigger] ids[i]) implies
        (exists|j: int| 0 <= j < ids.len() && linked(ids, edges, ids[j], ids[i]) && fr[i] == fr[j] + 1)
        && (forall|j: int| 0 <= j < ids.len() && linked(ids, edges, ids[j], ids[i]) ==> fr[j] < fr[i]) by {
        let v = ids[i];
        let pl = list_of(preds, v);
        assert(ids.contains(v));
        assert(w.processed.contains(v));
        lemma_max_rank_bounds(w.rank, pl, pl.len() as int);
        let m = max_rank(w.rank, pl, pl.len() as int);
        assert(pl.len() > 0);
        let a: int = if m > 0 {
            choose|a: int| 0 <= a < pl.len() && lookup(w.rank, #[trigger] pl[a]) == Some(m)
        } else {
            0
        };
        assert(pl.contains(pl[a]));
        assert(lookup(w.rank, pl[a]) is Some);
        let p = pl[a];
        assert(ids.contains(p));
        let jp = choose|jp: int| 0 <= jp < ids.len() && ids[jp] == p;
        assert(fr[jp] >= 0);
        assert(rank_of(w.rank, p) <= m);
        assert(fr[i] == fr[jp] + 1);
        assert forall|j: int| 0 <= j < ids.len() && linked(ids, edges, ids[j], ids[i]) implies fr[j] < fr[i] by {
            assert(pl.contains(ids[j]));
            let b = choose|b: int| 0 <= b < pl.len() && pl[b] == ids[j];
            assert(lookup(w.rank, pl[b]) is Some);
        }
    }
    // a node without predecessors is a source, ranked 0
    assert forall|i: int| 0 <= i < ids.len() && (forall|j: int| 0 <= j < ids.len() ==> !linked(ids, edges, ids[j], ids[i]))
        implies is_source(preds, #[trigger] ids[i]) && fr[i] == 0 by {
        let v = ids[i];
        if !is_source(preds, v) {
            let pl = list_of(preds, v);
            assert(pl.len() > 0);
            assert(pl.contains(pl[0]));
            assert(linked(ids, edges, pl[0], v));
            assert(ids.contains(pl[0]));
            let j = choose|j: int| 0 <= j < ids.len() && ids[j] == pl[0];
            assert(!linked(ids, edges, ids[j], ids[i]));
        }
        assert(ids.contains(v));
    }
    // the ranks start at 0 and skip no number, so compacting keeps them
    if ids.len() > 0 {
        assert(ids.contains(ids[0]));
        lemma_ready_below(seq![], ids, preds, succs, t, ids[0]);
        let v = choose|v: Text| ids.contains(v) && !seq![].contains(v)
            && forall|p: Text| #[trigger] list_of(preds, v).contains(p) ==> seq![].contains(p);
        let j = choose|j: int| 0 <= j < ids.len() && ids[j] == v;
        if !is_source(preds, v) {
            assert(list_of(preds, v).contains(list_of(preds, v)[0]));
        }
        assert(fr[j] == 0);
        assert(fr.contains(0));
    }
    assert forall|i: int| 0 <= i < fr.len() && #[trigger] fr[i] > 0 implies fr.contains(fr[i] - 1) by {
        if is_source(preds, ids[i]) {
            assert(ids.contains(ids[i]));
        } else {
            let j = choose|j: int| 0 <= j < ids.len() && linked(ids, edges, ids[j], ids[i]) && fr[i] == fr[j] + 1;
            assert(fr[j] == fr[i] - 1);
        }
    }
    lemma_levels_identity(fr);
    assert forall|i: int| 0 <= i < ids.len() implies #[trigger] map[i].1 == fr[i] by {
        assert(map[i].1 == level_index(levels(fr, fr.len() as int), fr[i], 0));
    }
    assert forall|i: int, j: int| 0 <= i < ids.len() && 0 <= j < ids.len() && linked(ids, edges, ids[j], ids[i])
        implies #[trigger] map[j].1 < #[trigger] map[i].1 by {
        assert(list_of(preds, ids[i]).contains(ids[j]));
        assert(!is_source(preds, ids[i]));
        assert(map[i].1 == fr[i]);
        assert(map[j].1 == fr[j]);
    }
    assert forall|i: int| 0 <= i < ids.len() && (exists|j: int| 0 <= j < ids.len() && linked(ids, edges, ids[j], ids[i]))
        implies exists|j: int| 0 <= j < ids.len() && linked(ids, edges, ids[j], ids[i]) && #[trigger] map[i].1 == map[j].1 + 1 by {
        let j0 = choose|j: int| 0 <= j < ids.len() && linked(ids, edges, ids[j], ids[i]);
        assert(list_of(preds, ids[i]).contains(ids[j0]));
        assert(!is_source(preds, ids[i]));
        let j = choose|j: int| 0 <= j < ids.len() && linked(ids, edges, ids[j], ids[i]) && fr[i] == fr[j] + 1;
        assert(map[i].1 == fr[i]);
        assert(map[j].1 == fr[j]);
    }
    assert forall|i: int| 0 <= i < ids.len() && (forall|j: int| 0 <= j < ids.len() ==> !linked(ids, edges, ids[j], ids[i]))
        implies #[trigger] map[i].1 == 0 by {
        assert(map[i].1 == fr[i]);
    }
}

} // verus!
