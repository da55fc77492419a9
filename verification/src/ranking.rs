//! Ordering the nodes within their ranks by the barycenter heuristic.
//!
//! A node's barycenter is the mean position of its neighbours in the adjacent
//! rank. Means are compared exactly, as fractions.

use vstd::prelude::*;
use std::collections::HashMap;
use crate::text::{views, string_chars, chars_to_string, chars_eq, copy_chars, copy_lines, string_views};
use crate::diagram::{Text, DiagramEdge, EdgeV, SubgraphV, Subgraph, DiagramAst, deep, text_views};
use crate::model::{first_index, first_index_from, lemma_first_index, lookup, push_under, tl_view, tl_get, tl_push, keys};

verus! {

// ---------------------------------------------------------------------------
// Model
// ---------------------------------------------------------------------------

/// Index of the last occurrence of `id` in `rank` (the position a map built
/// from the rank keeps), looking at the first `n` entries.
pub open spec fn last_index_upto(rank: Seq<Text>, id: Text, n: int) -> Option<int>
    decreases n,
{
    if n <= 0 || n > rank.len() {
        None
    } else if rank[n - 1] == id {
        Some(n - 1)
    } else {
        last_index_upto(rank, id, n - 1)
    }
}

/// Index of the last occurrence of `id` in `rank`.
pub open spec fn last_index(rank: Seq<Text>, id: Text) -> Option<int> {
    last_index_upto(rank, id, rank.len() as int)
}

/// Neighbour lists of the first `n` edges, self-loops left out: under each edge's
/// target its source (`forward == false`), or under its source its target.
pub open spec fn neighbours_upto(edges: Seq<EdgeV>, forward: bool, n: int) -> Seq<(Text, Seq<Text>)>
    decreases n,
{
    if n <= 0 || n > edges.len() {
        seq![]
    } else {
        let m = neighbours_upto(edges, forward, n - 1);
        let e = edges[n - 1];
        if e.from == e.to {
            m
        } else if forward {
            push_under(m, e.from, e.to)
        } else {
            push_under(m, e.to, e.from)
        }
    }
}

/// Neighbour lists of all edges.
pub open spec fn neighbours(edges: Seq<EdgeV>, forward: bool) -> Seq<(Text, Seq<Text>)> {
    neighbours_upto(edges, forward, edges.len() as int)
}

/// Sum and number of the positions in `pos` of those of the first `n` of `ns`
/// that occur there.
pub open spec fn position_sum(ns: Seq<Text>, pos: Seq<Text>, n: int) -> (int, int)
    decreases n,
{
    if n <= 0 || n > ns.len() {
        (0, 0)
    } else {
        let (s, c) = position_sum(ns, pos, n - 1);
        match last_index(pos, ns[n - 1]) {
            Some(p) => (s + p, c + 1),
            None => (s, c),
        }
    }
}

/// Barycenter of `id`, as (numerator, denominator): the mean position of its
/// neighbours in `pos`, or, with none there, its own (first) index in `rank`.
pub open spec fn barycenter(rank: Seq<Text>, nbrs: Seq<(Text, Seq<Text>)>, pos: Seq<Text>, id: Text) -> (int, int) {
    let own = match first_index(rank, id) {
        Some(j) => j,
        None => 0,
    };
    match lookup(nbrs, id) {
        Some(ns) => {
            let (s, c) = position_sum(ns, pos, ns.len() as int);
            if c == 0 { (own, 1) } else { (s, c) }
        },
        None => (own, 1),
    }
}

/// `a < b` for fractions with positive denominators.
pub open spec fn frac_lt(a: (int, int), b: (int, int)) -> bool {
    a.0 * b.1 < b.0 * a.1
}

/// Where an element with key `k` goes in `sorted`: before the first element
/// with a larger key.
pub open spec fn insert_at(sorted: Seq<(Text, (int, int))>, k: (int, int), i: int) -> int
    decreases sorted.len() - i,
{
    if i < 0 || i >= sorted.len() {
        sorted.len() as int
    } else if frac_lt(k, sorted[i].1) {
        i
    } else {
        insert_at(sorted, k, i + 1)
    }
}

/// Stable sort by key of the first `n` elements (insertion order kept among
/// equal keys).
pub open spec fn stable_sort(s: Seq<(Text, (int, int))>, n: int) -> Seq<(Text, (int, int))>
    decreases n,
{
    if n <= 0 || n > s.len() {
        seq![]
    } else {
        let sorted = stable_sort(s, n - 1);
        let j = insert_at(sorted, s[n - 1].1, 0);
        sorted.insert(j, s[n - 1])
    }
}

/// The elements of keyed pairs.
pub open spec fn firsts(s: Seq<(Text, (int, int))>) -> Seq<Text> {
    s.map_values(|x: (Text, (int, int))| x.0)
}

/// A rank reordered by the barycenters of its nodes against the rank `pos`.
pub open spec fn sort_rank(rank: Seq<Text>, nbrs: Seq<(Text, Seq<Text>)>, pos: Seq<Text>) -> Seq<Text> {
    if rank.len() <= 1 {
        rank
    } else {
        let keyed = Seq::new(rank.len(), |i: int| (rank[i], barycenter(rank, nbrs, pos, rank[i])));
        firsts(stable_sort(keyed, rank.len() as int))
    }
}

/// A top-down pass: every rank but the first sorted against the rank above it,
/// as it stood when the pass began.
pub open spec fn down_pass(ranks: Seq<Seq<Text>>, preds: Seq<(Text, Seq<Text>)>) -> Seq<Seq<Text>> {
    Seq::new(ranks.len(), |i: int| if i == 0 { ranks[i] } else { sort_rank(ranks[i], preds, ranks[i - 1]) })
}

/// A bottom-up pass: every rank but the last sorted against the rank below it,
/// as it stood when the pass began.
pub open spec fn up_pass(ranks: Seq<Seq<Text>>, succs: Seq<(Text, Seq<Text>)>) -> Seq<Seq<Text>> {
    Seq::new(ranks.len(), |i: int| if i + 1 == ranks.len() { ranks[i] } else { sort_rank(ranks[i], succs, ranks[i + 1]) })
}

/// The ranks after `n` passes, alternating top-down and bottom-up.
pub open spec fn passes_done(ranks: Seq<Seq<Text>>, edges: Seq<EdgeV>, n: int) -> Seq<Seq<Text>>
    decreases n,
{
    if n <= 0 {
        ranks
    } else {
        let r = passes_done(ranks, edges, n - 1);
        if (n - 1) % 2 == 0 {
            down_pass(r, neighbours(edges, false))
        } else {
            up_pass(r, neighbours(edges, true))
        }
    }
}

/// The ranks `order_nodes` leaves: unchanged when there is at most one.
pub open spec fn ordered_ranks(ranks: Seq<Seq<Text>>, edges: Seq<EdgeV>, passes: nat) -> Seq<Seq<Text>> {
    if ranks.len() <= 1 {
        ranks
    } else {
        passes_done(ranks, edges, passes as int)
    }
}


// ---------------------------------------------------------------------------
// Ordering
// ---------------------------------------------------------------------------

/// Each rank by the characters of its node ids.
pub open spec fn rank_views(v: Seq<Vec<String>>) -> Seq<Seq<Text>> {
    v.map_values(|r: Vec<String>| string_views(r@))
}

/// Ranks held as character vectors.
spec fn nested_views(v: Seq<Vec<Vec<char>>>) -> Seq<Seq<Text>> {
    v.map_values(|r: Vec<Vec<char>>| views(r@))
}

/// Keys of an element under sort, by value.
spec fn kview(v: Seq<(Vec<char>, (u128, u128))>) -> Seq<(Text, (int, int))> {
    v.map_values(|x: (Vec<char>, (u128, u128))| (x.0@, (x.1.0 as int, x.1.1 as int)))
}

/// Keys whose parts fit: a denominator below 2^64, a numerator below 2^128.
spec fn key_ok(k: (int, int)) -> bool {
    1 <= k.1 < 0x1_0000_0000_0000_0000 && 0 <= k.0 < 0x1_0000_0000_0000_0000_0000_0000_0000_0000
}

proof fn lemma_last_index_upto(rank: Seq<Text>, id: Text, n: int)
    requires
        0 <= n <= rank.len(),
    ensures
        last_index_upto(rank, id, n) matches Some(p) ==> 0 <= p < n,
    decreases n,
{
    if n > 0 && rank[n - 1] != id {
        lemma_last_index_upto(rank, id, n - 1);
    }
}

/// Index of the last occurrence of `id` in `rank`.
pub fn last_index_exec(rank: &Vec<Vec<char>>, id: &Vec<char>) -> (r: Option<usize>)
    ensures
        match r {
            Some(p) => last_index(views(rank@), id@) == Some(p as int) && p < rank@.len(),
            None => last_index(views(rank@), id@) is None,
        },
{
    let mut n = rank.len();
    while n > 0
        invariant
            n <= rank@.len(),
            last_index(views(rank@), id@) == last_index_upto(views(rank@), id@, n as int),
        decreases n,
    {
        assert(views(rank@)[n - 1] == rank@[n - 1]@);
        if chars_eq(&rank[n - 1], id) {
            return Some(n - 1);
        }
        n -= 1;
    }
    None
}

/// Neighbour lists of the edges.
fn neighbours_exec(edges: &[DiagramEdge], forward: bool) -> (r: Vec<(Vec<char>, Vec<Vec<char>>)>)
    ensures
        tl_view(r@) == neighbours(deep(edges@), forward),
{
    let mut m: Vec<(Vec<char>, Vec<Vec<char>>)> = Vec::new();
    assert(tl_view(m@) =~= Seq::empty());
    let mut i: usize = 0;
    while i < edges.len()
        invariant
            i <= edges@.len(),
            tl_view(m@) == neighbours_upto(deep(edges@), forward, i as int),
        decreases edges@.len() - i,
    {
        let from = string_chars(&edges[i].from);
        let to = string_chars(&edges[i].to);
        assert(deep(edges@)[i as int] == edges@[i as int]@);
        if !chars_eq(&from, &to) {
            if forward {
                tl_push(&mut m, from, to);
            } else {
                tl_push(&mut m, to, from);
            }
        }
        i += 1;
    }
    m
}

/// Sum and number of the positions of `ns` found in `pos`.
fn position_sum_exec(ns: &Vec<Vec<char>>, pos: &Vec<Vec<char>>) -> (r: (u128, u128))
    ensures
        (r.0 as int, r.1 as int) == position_sum(views(ns@), views(pos@), ns@.len() as int),
        r.1 <= ns@.len(),
        r.0 <= ns@.len() * 0xFFFF_FFFF_FFFF_FFFF,
{
    let mut s: u128 = 0;
    let mut c: u128 = 0;
    let mut i: usize = 0;
    while i < ns.len()
        invariant
            i <= ns@.len(),
            (s as int, c as int) == position_sum(views(ns@), views(pos@), i as int),
            c <= i,
            s <= i * 0xFFFF_FFFF_FFFF_FFFF,
        decreases ns@.len() - i,
    {
        assert(views(ns@)[i as int] == ns@[i as int]@);
        match last_index_exec(pos, &ns[i]) {
            Some(p) => {
                assert(s + p <= (i + 1) * 0xFFFF_FFFF_FFFF_FFFF <= 0xFFFF_FFFF_FFFF_FFFF * 0xFFFF_FFFF_FFFF_FFFF) by (nonlinear_arith)
                    requires
                        s <= i * 0xFFFF_FFFF_FFFF_FFFF,
                        p <= 0xFFFF_FFFF_FFFF_FFFF,
                        i + 1 <= 0xFFFF_FFFF_FFFF_FFFF,
                ;
                s = s + p as u128;
                c = c + 1;
            },
            None => {},
        }
        assert(s <= (i + 1) * 0xFFFF_FFFF_FFFF_FFFF) by (nonlinear_arith)
            requires
                s <= i * 0xFFFF_FFFF_FFFF_FFFF + 0xFFFF_FFFF_FFFF_FFFF,
        ;
        i += 1;
    }
    (s, c)
}

/// Barycenter of `id` against `pos`.
fn barycenter_exec(rank: &Vec<Vec<char>>, nbrs: &Vec<(Vec<char>, Vec<Vec<char>>)>, pos: &Vec<Vec<char>>, id: &Vec<char>) -> (r: (u128, u128))
    ensures
        (r.0 as int, r.1 as int) == barycenter(views(rank@), tl_view(nbrs@), views(pos@), id@),
        key_ok((r.0 as int, r.1 as int)),
{
    proof {
        lemma_first_index(views(rank@), id@);
    }
    let own: u128 = match crate::model::find_keyed(rank, id) {
        Some(j) => j as u128,
        None => 0,
    };
    assert(keys(rank@) =~= views(rank@));
    match tl_get(nbrs, id) {
        Some(ns) => {
            let (s, c) = position_sum_exec(&ns, pos);
            assert(s <= 0xFFFF_FFFF_FFFF_FFFF * 0xFFFF_FFFF_FFFF_FFFF) by (nonlinear_arith)
                requires
                    s <= ns@.len() * 0xFFFF_FFFF_FFFF_FFFF,
                    ns@.len() <= 0xFFFF_FFFF_FFFF_FFFF,
            ;
            if c == 0 { (own, 1) } else { (s, c) }
        },
        None => (own, 1),
    }
}

/// Comparing fractions by whole parts, then by remainders.
proof fn lemma_frac_parts(a0: int, a1: int, b0: int, b1: int, qa: int, ra: int, qb: int, rb: int)
    by (nonlinear_arith)
    requires
        a1 >= 1,
        b1 >= 1,
        a0 == qa * a1 + ra,
        b0 == qb * b1 + rb,
        0 <= ra < a1,
        0 <= rb < b1,
    ensures
        (a0 * b1 < b0 * a1) == (qa < qb || (qa == qb && ra * b1 < rb * a1)),
{
    if qa < qb {
        assert(a0 * b1 == qa * a1 * b1 + ra * b1);
        assert(ra * b1 < a1 * b1);
        assert((qa + 1) * a1 * b1 <= qb * a1 * b1);
        assert(b0 * a1 == qb * b1 * a1 + rb * a1);
    } else if qa > qb {
        assert(b0 * a1 == qb * b1 * a1 + rb * a1);
        assert(rb * a1 < a1 * b1);
        assert((qb + 1) * a1 * b1 <= qa * a1 * b1);
        assert(a0 * b1 == qa * a1 * b1 + ra * b1);
    } else {
        assert(a0 * b1 == qa * a1 * b1 + ra * b1);
        assert(b0 * a1 == qb * b1 * a1 + rb * a1);
    }
}

/// `a < b` for fractions.
fn frac_lt_exec(a: (u128, u128), b: (u128, u128)) -> (r: bool)
    requires
        key_ok((a.0 as int, a.1 as int)),
        key_ok((b.0 as int, b.1 as int)),
    ensures
        r == frac_lt((a.0 as int, a.1 as int), (b.0 as int, b.1 as int)),
{
    let qa = a.0 / a.1;
    let ra = a.0 % a.1;
    let qb = b.0 / b.1;
    let rb = b.0 % b.1;
    proof {
        vstd::arithmetic::div_mod::lemma_fundamental_div_mod(a.0 as int, a.1 as int);
        vstd::arithmetic::div_mod::lemma_fundamental_div_mod(b.0 as int, b.1 as int);
        lemma_frac_parts(a.0 as int, a.1 as int, b.0 as int, b.1 as int, qa as int, ra as int, qb as int, rb as int);
    }
    if qa != qb {
        qa < qb
    } else {
        assert(ra * b.1 < 0xFFFF_FFFF_FFFF_FFFF * 0xFFFF_FFFF_FFFF_FFFF) by (nonlinear_arith)
            requires
                ra < a.1,
                a.1 < 0x1_0000_0000_0000_0000,
                b.1 < 0x1_0000_0000_0000_0000,
        ;
        assert(rb * a.1 < 0xFFFF_FFFF_FFFF_FFFF * 0xFFFF_FFFF_FFFF_FFFF) by (nonlinear_arith)
            requires
                rb < b.1,
                a.1 < 0x1_0000_0000_0000_0000,
                b.1 < 0x1_0000_0000_0000_0000,
        ;
        ra * b.1 < rb * a.1
    }
}

proof fn lemma_insert_at(sorted: Seq<(Text, (int, int))>, k: (int, int), i: int)
    requires
        0 <= i <= sorted.len(),
    ensures
        i <= insert_at(sorted, k, i) <= sorted.len(),
    decreases sorted.len() - i,
{
    if i < sorted.len() && !frac_lt(k, sorted[i].1) {
        lemma_insert_at(sorted, k, i + 1);
    }
}

/// Where an element with key `k` goes.
fn insert_at_exec(sorted: &Vec<(Vec<char>, (u128, u128))>, k: (u128, u128)) -> (r: usize)
    requires
        key_ok((k.0 as int, k.1 as int)),
        forall|j: int| 0 <= j < sorted@.len() ==> key_ok(#[trigger] kview(sorted@)[j].1),
    ensures
        r as int == insert_at(kview(sorted@), (k.0 as int, k.1 as int), 0),
        r <= sorted@.len(),
{
    proof {
        lemma_insert_at(kview(sorted@), (k.0 as int, k.1 as int), 0);
    }
    let mut i: usize = 0;
    while i < sorted.len()
        invariant
            i <= sorted@.len(),
            key_ok((k.0 as int, k.1 as int)),
            forall|j: int| 0 <= j < sorted@.len() ==> key_ok(#[trigger] kview(sorted@)[j].1),
            insert_at(kview(sorted@), (k.0 as int, k.1 as int), 0) == insert_at(kview(sorted@), (k.0 as int, k.1 as int), i as int),
        decreases sorted@.len() - i,
    {
        assert(kview(sorted@)[i as int].1 == (sorted@[i as int].1.0 as int, sorted@[i as int].1.1 as int));
        if frac_lt_exec(k, sorted[i].1) {
            return i;
        }
        i += 1;
    }
    i
}

/// Stable sort by key.
fn stable_sort_exec(s: &Vec<(Vec<char>, (u128, u128))>) -> (r: Vec<(Vec<char>, (u128, u128))>)
    requires
        forall|j: int| 0 <= j < s@.len() ==> key_ok(#[trigger] kview(s@)[j].1),
    ensures
        kview(r@) == stable_sort(kview(s@), s@.len() as int),
        r@.len() == s@.len(),
{
    let mut sorted: Vec<(Vec<char>, (u128, u128))> = Vec::new();
    assert(kview(sorted@) =~= Seq::empty());
    let mut i: usize = 0;
    while i < s.len()
        invariant
            i <= s@.len(),
            forall|j: int| 0 <= j < s@.len() ==> key_ok(#[trigger] kview(s@)[j].1),
            kview(sorted@) == stable_sort(kview(s@), i as int),
            sorted@.len() == i,
            forall|j: int| 0 <= j < sorted@.len() ==> key_ok(#[trigger] kview(sorted@)[j].1),
        decreases s@.len() - i,
    {
        let k = s[i].1;
        assert(kview(s@)[i as int].1 == (k.0 as int, k.1 as int));
        let j = insert_at_exec(&sorted, k);
        let ghost before = sorted@;
        let item = (copy_chars(&s[i].0), k);
        sorted.insert(j, item);
        assert(kview(sorted@) =~= kview(before).insert(j as int, kview(s@)[i as int]));
        assert forall|x: int| 0 <= x < sorted@.len() implies key_ok(#[trigger] kview(sorted@)[x].1) by {
            if x < j {
                assert(kview(sorted@)[x] == kview(before)[x]);
            } else if x > j {
                assert(kview(sorted@)[x] == kview(before)[x - 1]);
            }
        }
        i += 1;
    }
    sorted
}

/// A rank reordered by barycenters against `pos`.
fn sort_rank_exec(rank: &Vec<Vec<char>>, nbrs: &Vec<(Vec<char>, Vec<Vec<char>>)>, pos: &Vec<Vec<char>>) -> (r: Vec<Vec<char>>)
    ensures
        views(r@) == sort_rank(views(rank@), tl_view(nbrs@), views(pos@)),
        r@.len() == rank@.len(),
{
    if rank.len() <= 1 {
        let r = copy_lines(rank);
        assert(r@.len() == views(r@).len() && rank@.len() == views(rank@).len());
        return r;
    }
    let ghost rv = views(rank@);
    let ghost target = Seq::new(rank@.len(), |i: int| (rv[i], barycenter(rv, tl_view(nbrs@), views(pos@), rv[i])));
    let mut keyed: Vec<(Vec<char>, (u128, u128))> = Vec::new();
    let mut i: usize = 0;
    while i < rank.len()
        invariant
            i <= rank@.len(),
            rv == views(rank@),
            target.len() == rank@.len(),
            forall|x: int| 0 <= x < rank@.len() ==> #[trigger] target[x] == (rv[x], barycenter(rv, tl_view(nbrs@), views(pos@), rv[x])),
            keyed@.len() == i,
            forall|x: int| 0 <= x < i ==> #[trigger] kview(keyed@)[x] == target[x],
            forall|x: int| 0 <= x < keyed@.len() ==> key_ok(#[trigger] kview(keyed@)[x].1),
        decreases rank@.len() - i,
    {
        assert(rv[i as int] == rank@[i as int]@);
        let k = barycenter_exec(rank, nbrs, pos, &rank[i]);
        let ghost prev = keyed@;
        let item = (copy_chars(&rank[i]), k);
        keyed.push(item);
        assert(kview(keyed@) =~= kview(prev).push(kview(keyed@)[i as int]));
        i += 1;
    }
    assert(kview(keyed@) =~= target);
    let sorted = stable_sort_exec(&keyed);
    let mut out: Vec<Vec<char>> = Vec::new();
    let mut j: usize = 0;
    while j < sorted.len()
        invariant
            j <= sorted@.len(),
            out@.len() == j,
            forall|x: int| 0 <= x < j ==> #[trigger] views(out@)[x] == kview(sorted@)[x].0,
        decreases sorted@.len() - j,
    {
        let ghost prev = out@;
        let t = copy_chars(&sorted[j].0);
        out.push(t);
        assert(views(out@) =~= views(prev).push(t@));
        j += 1;
    }
    assert(views(out@) =~= firsts(kview(sorted@)));
    out
}

/// One pass over all ranks, each sorted against its neighbour rank as it stood
/// when the pass began: the rank above (`down`) or below.
fn pass_exec(cur: &Vec<Vec<Vec<char>>>, nbrs: &Vec<(Vec<char>, Vec<Vec<char>>)>, down: bool) -> (r: Vec<Vec<Vec<char>>>)
    ensures
        nested_views(r@) == if down { down_pass(nested_views(cur@), tl_view(nbrs@)) } else { up_pass(nested_views(cur@), tl_view(nbrs@)) },
        r@.len() == cur@.len(),
        forall|x: int| 0 <= x < r@.len() ==> (#[trigger] r@[x])@.len() == cur@[x]@.len(),
{
    let ghost cv = nested_views(cur@);
    let ghost target = if down { down_pass(cv, tl_view(nbrs@)) } else { up_pass(cv, tl_view(nbrs@)) };
    let n = cur.len();
    let mut out: Vec<Vec<Vec<char>>> = Vec::new();
    let mut i: usize = 0;
    while i < n
        invariant
            n == cur@.len(),
            i <= n,
            cv == nested_views(cur@),
            target == (if down { down_pass(cv, tl_view(nbrs@)) } else { up_pass(cv, tl_view(nbrs@)) }),
            out@.len() == i,
            forall|x: int| 0 <= x < i ==> #[trigger] nested_views(out@)[x] == target[x],
            forall|x: int| 0 <= x < i ==> (#[trigger] out@[x])@.len() == cur@[x]@.len(),
        decreases n - i,
    {
        assert(cv[i as int] == views(cur@[i as int]@));
        let r = if down {
            if i == 0 {
                let c = copy_lines(&cur[i]);
                assert(c@.len() == views(c@).len() && cur@[i as int]@.len() == views(cur@[i as int]@).len());
                c
            } else {
                assert(cv[i - 1] == views(cur@[i - 1]@));
                sort_rank_exec(&cur[i], nbrs, &cur[i - 1])
            }
        } else {
            if i + 1 == n {
                let c = copy_lines(&cur[i]);
                assert(c@.len() == views(c@).len() && cur@[i as int]@.len() == views(cur@[i as int]@).len());
                c
            } else {
                assert(cv[i + 1] == views(cur@[i + 1]@));
                sort_rank_exec(&cur[i], nbrs, &cur[i + 1])
            }
        };
        let ghost prev = out@;
        let ghost rv = r@;
        out.push(r);
        assert(nested_views(out@) =~= nested_views(prev).push(views(rv)));
        i += 1;
    }
    assert(nested_views(out@) =~= target);
    out
}

/// Orders the nodes within their ranks by the barycenter heuristic, `passes`
/// times, alternating top-down (against the rank above, through the edges'
/// sources) and bottom-up (against the rank below, through their targets).
/// Self-loops are ignored; a node with no placed neighbour keeps its index as
/// its barycenter; nodes with equal barycenters keep their order. `rank_map`
/// is not consulted.
pub fn order_nodes(ranks: &mut Vec<Vec<String>>, edges: &[DiagramEdge], passes: usize, rank_map: &HashMap<String, usize>)
    ensures
        rank_views(final(ranks)@) == ordered_ranks(rank_views(old(ranks)@), deep(edges@), passes as nat),
{
    if ranks.len() <= 1 {
        return;
    }
    let preds = neighbours_exec(edges, false);
    let succs = neighbours_exec(edges, true);
    let mut cur: Vec<Vec<Vec<char>>> = Vec::new();
    let mut i: usize = 0;
    while i < ranks.len()
        invariant
            i <= ranks@.len(),
            ranks@ == old(ranks)@,
            cur@.len() == i,
            forall|x: int| 0 <= x < i ==> #[trigger] nested_views(cur@)[x] == rank_views(ranks@)[x],
            forall|x: int| 0 <= x < i ==> (#[trigger] cur@[x])@.len() == ranks@[x]@.len(),
        decreases ranks@.len() - i,
    {
        let mut row: Vec<Vec<char>> = Vec::new();
        let mut j: usize = 0;
        while j < ranks[i].len()
            invariant
                i < ranks@.len(),
                j <= ranks@[i as int]@.len(),
                row@.len() == j,
                forall|x: int| 0 <= x < j ==> #[trigger] views(row@)[x] == ranks@[i as int]@[x]@,
            decreases ranks@[i as int]@.len() - j,
        {
            let ghost prev = row@;
            let t = string_chars(&ranks[i][j]);
            row.push(t);
            assert(views(row@) =~= views(prev).push(t@));
            j += 1;
        }
        assert(views(row@) =~= string_views(ranks@[i as int]@));
        let ghost prev = cur@;
        let ghost rv = row@;
        cur.push(row);
        assert(nested_views(cur@) =~= nested_views(prev).push(views(rv)));
        i += 1;
    }
    assert(nested_views(cur@) =~= rank_views(old(ranks)@));
    let ghost r0 = rank_views(old(ranks)@);
    let mut k: usize = 0;
    while k < passes
        invariant
            k <= passes,
            tl_view(preds@) == neighbours(deep(edges@), false),
            tl_view(succs@) == neighbours(deep(edges@), true),
            nested_views(cur@) == passes_done(r0, deep(edges@), k as int),
        decreases passes - k,
    {
        if k % 2 == 0 {
            cur = pass_exec(&cur, &preds, true);
        } else {
            cur = pass_exec(&cur, &succs, false);
        }
        k += 1;
    }
    let mut out: Vec<Vec<String>> = Vec::new();
    let mut i: usize = 0;
    while i < cur.len()
        invariant
            i <= cur@.len(),
            out@.len() == i,
            forall|x: int| 0 <= x < i ==> #[trigger] rank_views(out@)[x] == nested_views(cur@)[x],
        decreases cur@.len() - i,
    {
        let mut row: Vec<String> = Vec::new();
        let mut j: usize = 0;
        while j < cur[i].len()
            invariant
                i < cur@.len(),
                j <= cur@[i as int]@.len(),
                row@.len() == j,
                forall|x: int| 0 <= x < j ==> #[trigger] string_views(row@)[x] == cur@[i as int]@[x]@,
            decreases cur@[i as int]@.len() - j,
        {
            let ghost prev = row@;
            let t = chars_to_string(&cur[i][j]);
            row.push(t);
            assert(string_views(row@) =~= string_views(prev).push(t@));
            j += 1;
        }
        assert(string_views(row@) =~= views(cur@[i as int]@));
        let ghost prev = out@;
        let ghost rv = row@;
        out.push(row);
        assert(rank_views(out@) =~= rank_views(prev).push(string_views(rv)));
        i += 1;
    }
    assert(rank_views(out@) =~= nested_views(cur@));
    *ranks = out;
}


// ---------------------------------------------------------------------------
// Grouping by subgraph
// ---------------------------------------------------------------------------

/// Index of the first subgraph, from `i` on, that lists `id` (the smallest such
/// index); `usize::MAX` when none does.
pub open spec fn subgraph_key_from(sgs: Seq<SubgraphV>, id: Text, i: int) -> int
    decreases sgs.len() - i,
{
    if i < 0 || i >= sgs.len() {
        usize::MAX as int
    } else if sgs[i].nodes.contains(id) {
        i
    } else {
        subgraph_key_from(sgs, id, i + 1)
    }
}

/// A rank stably sorted by the subgraph key of its nodes: members of one
/// subgraph side by side, nodes of no subgraph last.
pub open spec fn group_rank(rank: Seq<Text>, sgs: Seq<SubgraphV>) -> Seq<Text> {
    let keyed = Seq::new(rank.len(), |i: int| (rank[i], (subgraph_key_from(sgs, rank[i], 0), 1int)));
    firsts(stable_sort(keyed, rank.len() as int))
}

/// Every rank grouped by subgraph; nothing changes when there are no subgraphs.
pub open spec fn grouped_ranks(ranks: Seq<Seq<Text>>, sgs: Seq<SubgraphV>) -> Seq<Seq<Text>> {
    if sgs.len() == 0 {
        ranks
    } else {
        ranks.map_values(|r: Seq<Text>| group_rank(r, sgs))
    }
}

fn lists_id(list: &Vec<String>, id: &Vec<char>) -> (r: bool)
    ensures
        r == text_views(list@).contains(id@),
{
    let mut i: usize = 0;
    while i < list.len()
        invariant
            i <= list@.len(),
            forall|k: int| 0 <= k < i ==> (#[trigger] text_views(list@)[k]) != id@,
        decreases list@.len() - i,
    {
        let t = string_chars(&list[i]);
        if chars_eq(&t, id) {
            assert(text_views(list@)[i as int] == id@);
            return true;
        }
        i += 1;
    }
    false
}

fn subgraph_key_exec(sgs: &Vec<Subgraph>, id: &Vec<char>) -> (r: usize)
    ensures
        r as int == subgraph_key_from(deep(sgs@), id@, 0),
{
    let ghost d = deep(sgs@);
    let mut i: usize = 0;
    while i < sgs.len()
        invariant
            i <= sgs@.len(),
            d == deep(sgs@),
            subgraph_key_from(d, id@, 0) == subgraph_key_from(d, id@, i as int),
        decreases sgs@.len() - i,
    {
        assert(d[i as int].nodes == text_views(sgs@[i as int].nodes@));
        if lists_id(&sgs[i].nodes, id) {
            return i;
        }
        i += 1;
    }
    usize::MAX
}

fn group_rank_exec(rank: &Vec<String>, sgs: &Vec<Subgraph>) -> (r: Vec<String>)
    ensures
        string_views(r@) == group_rank(string_views(rank@), deep(sgs@)),
{
    let ghost rv = string_views(rank@);
    let ghost keyed = Seq::new(rv.len(), |i: int| (rv[i], (subgraph_key_from(deep(sgs@), rv[i], 0), 1int)));
    let mut items: Vec<(Vec<char>, (u128, u128))> = Vec::new();
    let mut i: usize = 0;
    while i < rank.len()
        invariant
            i <= rank@.len(),
            rv == string_views(rank@),
            keyed == Seq::new(rv.len(), |i: int| (rv[i], (subgraph_key_from(deep(sgs@), rv[i], 0), 1int))),
            kview(items@) == keyed.take(i as int),
            forall|j: int| 0 <= j < items@.len() ==> key_ok(#[trigger] kview(items@)[j].1),
        decreases rank@.len() - i,
    {
        let t = string_chars(&rank[i]);
        let k = subgraph_key_exec(sgs, &t);
        let ghost before = items@;
        items.push((t, (k as u128, 1u128)));
        assert(kview(items@) =~= kview(before).push(kview(items@)[i as int]));
        assert(kview(items@) =~= keyed.take(i + 1));
        i += 1;
    }
    assert(keyed.take(rank@.len() as int) =~= keyed);
    let sorted = stable_sort_exec(&items);
    let mut out: Vec<String> = Vec::new();
    let mut j: usize = 0;
    while j < sorted.len()
        invariant
            j <= sorted@.len(),
            out@.len() == j,
            forall|x: int| 0 <= x < j ==> #[trigger] string_views(out@)[x] == kview(sorted@)[x].0,
        decreases sorted@.len() - j,
    {
        let s = chars_to_string(&sorted[j].0);
        let ghost before = out@;
        out.push(s);
        assert(string_views(out@) =~= string_views(before).push(s@));
        j += 1;
    }
    assert(string_views(out@) =~= firsts(kview(sorted@)));
    out
}

/// Within each rank, places the members of one subgraph side by side: a stable
/// sort by the smallest index of a subgraph that lists the node, nodes of no
/// subgraph last. With no subgraphs the ranks stay as they are.
pub fn group_ranks_by_subgraph(ranks: &mut Vec<Vec<String>>, ast: &DiagramAst)
    ensures
        rank_views(final(ranks)@) == grouped_ranks(rank_views(old(ranks)@), ast@.subgraphs),
{
    if ast.subgraphs.len() == 0 {
        return;
    }
    let mut out: Vec<Vec<String>> = Vec::new();
    let mut i: usize = 0;
    while i < ranks.len()
        invariant
            i <= ranks@.len(),
            ranks@ == old(ranks)@,
            ast.subgraphs@.len() > 0,
            out@.len() == i,
            forall|x: int| 0 <= x < i ==> #[trigger] rank_views(out@)[x] == group_rank(rank_views(ranks@)[x], ast@.subgraphs),
        decreases ranks@.len() - i,
    {
        let g = group_rank_exec(&ranks[i], &ast.subgraphs);
        let ghost before = out@;
        out.push(g);
        assert(rank_views(out@) =~= rank_views(before).push(string_views(g@)));
        i += 1;
    }
    assert(rank_views(out@) =~= grouped_ranks(rank_views(old(ranks)@), ast@.subgraphs));
    *ranks = out;
}

// ---------------------------------------------------------------------------
// Laws
// ---------------------------------------------------------------------------

proof fn lemma_stable_sort_permutes(s: Seq<(Text, (int, int))>, n: int)
    requires
        0 <= n <= s.len(),
    ensures
        stable_sort(s, n).len() == n,
        firsts(stable_sort(s, n)).to_multiset() == firsts(s.take(n)).to_multiset(),
    decreases n,
{
    if n > 0 {
        lemma_stable_sort_permutes(s, n - 1);
        let sorted = stable_sort(s, n - 1);
        let j = insert_at(sorted, s[n - 1].1, 0);
        lemma_insert_at(sorted, s[n - 1].1, 0);
        assert(firsts(sorted.insert(j, s[n - 1])) =~= firsts(sorted).insert(j, s[n - 1].0));
        vstd::seq_lib::to_multiset_insert(firsts(sorted), j, s[n - 1].0);
        assert(firsts(s.take(n)) =~= firsts(s.take(n - 1)).push(s[n - 1].0));
        vstd::seq_lib::to_multiset_build(firsts(s.take(n - 1)), s[n - 1].0);
    } else {
        assert(firsts(s.take(0)) =~= Seq::<Text>::empty());
        assert(firsts(stable_sort(s, 0)) =~= Seq::<Text>::empty());
    }
}

proof fn lemma_sort_rank_permutes(rank: Seq<Text>, nbrs: Seq<(Text, Seq<Text>)>, pos: Seq<Text>)
    ensures
        sort_rank(rank, nbrs, pos).to_multiset() == rank.to_multiset(),
        sort_rank(rank, nbrs, pos).len() == rank.len(),
{
    if rank.len() > 1 {
        let keyed = Seq::new(rank.len(), |i: int| (rank[i], barycenter(rank, nbrs, pos, rank[i])));
        lemma_stable_sort_permutes(keyed, rank.len() as int);
        assert(firsts(keyed.take(rank.len() as int)) =~= rank);
    }
}

proof fn lemma_passes_permute(ranks: Seq<Seq<Text>>, edges: Seq<EdgeV>, n: int)
    requires
        n >= 0,
    ensures
        passes_done(ranks, edges, n).len() == ranks.len(),
        forall|i: int| 0 <= i < ranks.len() ==> (#[trigger] passes_done(ranks, edges, n)[i]).to_multiset() == ranks[i].to_multiset(),
    decreases n,
{
    if n > 0 {
        lemma_passes_permute(ranks, edges, n - 1);
        let r = passes_done(ranks, edges, n - 1);
        let nx = passes_done(ranks, edges, n);
        assert forall|i: int| 0 <= i < ranks.len() implies (#[trigger] nx[i]).to_multiset() == ranks[i].to_multiset() by {
            assert(r[i].to_multiset() == ranks[i].to_multiset());
            if (n - 1) % 2 == 0 {
                if i > 0 {
                    lemma_sort_rank_permutes(r[i], neighbours(edges, false), r[i - 1]);
                }
            } else {
                if i + 1 < ranks.len() {
                    lemma_sort_rank_permutes(r[i], neighbours(edges, true), r[i + 1]);
                }
            }
        }
    }
}

/// Law: ordering only rearranges each rank. There are as many ranks as before,
/// and every rank holds the same nodes, each as many times as before; with at
/// most one rank, or no pass, nothing moves.
pub proof fn law_ordering_permutes_ranks(ranks: Seq<Seq<Text>>, edges: Seq<EdgeV>, passes: nat)
    ensures
        ordered_ranks(ranks, edges, passes).len() == ranks.len(),
        forall|i: int| 0 <= i < ranks.len() ==> (#[trigger] ordered_ranks(ranks, edges, passes)[i]).to_multiset() == ranks[i].to_multiset(),
        (ranks.len() <= 1 || passes == 0) ==> ordered_ranks(ranks, edges, passes) == ranks,
{
    if ranks.len() > 1 {
        lemma_passes_permute(ranks, edges, passes as int);
    }
}

/// Law: grouping by subgraph only rearranges each rank.
pub proof fn law_grouping_permutes_ranks(ranks: Seq<Seq<Text>>, sgs: Seq<SubgraphV>)
    ensures
        grouped_ranks(ranks, sgs).len() == ranks.len(),
        forall|i: int| 0 <= i < ranks.len() ==> (#[trigger] grouped_ranks(ranks, sgs)[i]).to_multiset() == ranks[i].to_multiset(),
{
    assert forall|i: int| 0 <= i < ranks.len() implies (#[trigger] grouped_ranks(ranks, sgs)[i]).to_multiset() == ranks[i].to_multiset() by {
        if sgs.len() > 0 {
            let rank = ranks[i];
            let keyed = Seq::new(rank.len(), |j: int| (rank[j], (subgraph_key_from(sgs, rank[j], 0), 1int)));
            lemma_stable_sort_permutes(keyed, rank.len() as int);
            assert(firsts(keyed.take(rank.len() as int)) =~= rank);
        }
    }
}

} // verus!
