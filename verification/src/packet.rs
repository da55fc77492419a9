//! `packet` sources: bit-range fields, chained left to right in the order given.

use vstd::prelude::*;
use crate::text::{
    trim, trim_chars, starts_with, starts_with_exec, lit, lines, lines_exec, lowercase,
    lowercase_exec, split_once, split_once_exec, decimal, decimal_usize, views, str_chars,
    copy_chars, append_chars,
};
use crate::diagram::{
    Text, NodeShape, EdgeStyle, Direction, DiagramKind, AstOf, EdgeOf, DiagramAst, AstV, EdgeV,
};
use crate::model::{
    store_node, plain_node, empty_ast, plain_node_exec, store_node_exec, empty_ast_exec,
    push_edge, opt_text, unique_ids, lemma_store_node_unique, node_ids,
};
use crate::er::{unquote, unquote_exec};
use crate::error::CoreError;
use crate::convert::conv_ast;

verus! {

/// Parser state: the model and the last field.
pub struct PacketSt {
    pub ast: AstV,
    pub last: Option<Text>,
}

/// Id of the field added after `n` nodes.
pub open spec fn field_id(n: nat) -> Text {
    "pkt_"@ + decimal(n)
}

/// The plain edge between two consecutive fields.
pub open spec fn chain_edge(from: Text, to: Text) -> EdgeV {
    EdgeV {
        from,
        to,
        label: None,
        start_label: None,
        end_label: None,
        directed: false,
        arrow_start: None,
        arrow_end: None,
        start_decoration: None,
        end_decoration: None,
        style: EdgeStyle::Solid,
    }
}

/// The text of the field that a line declares. `range : label` with a
/// non-empty range declares `range`, followed by a line break and the label
/// where the label is not empty. Blank lines, `%%` comments, the `packet`
/// header and `title` lines declare none, nor does a line without `:`.
pub open spec fn field_text(raw: Text) -> Option<Text> {
    let line = trim(raw);
    if line.len() == 0 || starts_with(line, "%%"@) || starts_with(lowercase(line), "packet"@)
        || starts_with(lowercase(line), "title"@) {
        None
    } else {
        match split_once(line, ":"@) {
            None => None,
            Some((r, l)) => {
                let range = trim(r);
                let label = unquote(l);
                if range.len() == 0 {
                    None
                } else {
                    Some(if label.len() == 0 { range } else { range + "\n"@ + label })
                }
            },
        }
    }
}

/// The texts of the fields that the first `n` lines declare, in order.
pub open spec fn field_texts(ls: Seq<Text>, n: int) -> Seq<Text>
    decreases n,
{
    if n <= 0 {
        seq![]
    } else {
        match field_text(ls[n - 1]) {
            Some(t) => field_texts(ls, n - 1).push(t),
            None => field_texts(ls, n - 1),
        }
    }
}

/// One line: a field line adds its field, chained to the one before.
pub open spec fn packet_step(st: PacketSt, raw: Text) -> PacketSt {
    match field_text(raw) {
        None => st,
        Some(text) => {
            let id = field_id(st.ast.nodes.len());
            let a = store_node(st.ast, plain_node(id, text, NodeShape::Rectangle));
            let a2 = match st.last {
                Some(prev) => AstV { edges: a.edges.push(chain_edge(prev, id)), ..a },
                None => a,
            };
            PacketSt { ast: a2, last: Some(id) }
        },
    }
}

/// State after the first `n` lines.
pub open spec fn packet_run(ls: Seq<Text>, n: int) -> PacketSt
    decreases n,
{
    if n <= 0 {
        PacketSt { ast: AstV { direction: Direction::LeftToRight, ..empty_ast(DiagramKind::Packet) }, last: None }
    } else {
        packet_step(packet_run(ls, n - 1), ls[n - 1])
    }
}

/// The model a packet diagram source describes.
pub open spec fn packet_model(s: Seq<char>) -> AstV {
    packet_run(lines(s), lines(s).len() as int).ast
}

/// Parser state.
struct PacketParser {
    ast: AstOf<Vec<char>>,
    last: Option<Vec<char>>,
}

impl View for PacketParser {
    type V = PacketSt;

    closed spec fn view(&self) -> PacketSt {
        PacketSt { ast: self.ast@, last: opt_text(self.last) }
    }
}

fn packet_step_exec(p: &mut PacketParser, raw: &Vec<char>)
    ensures
        final(p)@ == packet_step(old(p)@, raw@),
{
    let line = trim_chars(raw);
    if line.len() == 0 || starts_with_exec(&line, &lit("%%")) || starts_with_exec(&lowercase_exec(&line), &lit("packet"))
        || starts_with_exec(&lowercase_exec(&line), &lit("title")) {
        return;
    }
    match split_once_exec(&line, &lit(":")) {
        None => {},
        Some((r, l)) => {
            let range = trim_chars(&r);
            let label = unquote_exec(&l);
            if range.len() == 0 {
                return;
            }
            let mut id = lit("pkt_");
            append_chars(&mut id, &decimal_usize(p.ast.nodes.len()));
            assert(p@.ast.nodes.len() == p.ast.nodes@.len());
            let text = if label.len() == 0 {
                copy_chars(&range)
            } else {
                let mut t = copy_chars(&range);
                append_chars(&mut t, &lit("\n"));
                append_chars(&mut t, &label);
                t
            };
            store_node_exec(&mut p.ast, plain_node_exec(copy_chars(&id), text, NodeShape::Rectangle));
            match &p.last {
                Some(prev) => {
                    let e = EdgeOf {
                        from: copy_chars(prev),
                        to: copy_chars(&id),
                        label: None,
                        start_label: None,
                        end_label: None,
                        directed: false,
                        arrow_start: None,
                        arrow_end: None,
                        start_decoration: None,
                        end_decoration: None,
                        style: EdgeStyle::Solid,
                    };
                    push_edge(&mut p.ast, e);
                },
                None => {},
            }
            p.last = Some(id);
        },
    }
}

/// Parses a packet diagram. Every source is accepted.
pub fn parse_packet(input: &str) -> (r: Result<DiagramAst, CoreError>)
    ensures
        r matches Ok(a) && a@ == packet_model(input@),
{
    let s = str_chars(input);
    let ls = lines_exec(&s);
    let mut ast = empty_ast_exec(DiagramKind::Packet);
    ast.direction = Direction::LeftToRight;
    let mut p = PacketParser { ast, last: None };
    let mut i: usize = 0;
    while i < ls.len()
        invariant
            i <= ls@.len(),
            views(ls@) == lines(s@),
            s@ == input@,
            p@ == packet_run(views(ls@), i as int),
        decreases ls@.len() - i,
    {
        assert(views(ls@)[i as int] == ls@[i as int]@);
        packet_step_exec(&mut p, &ls[i]);
        i += 1;
    }
    Ok(conv_ast(&p.ast))
}


// ---------------------------------------------------------------------------
// Distinct fields
// ---------------------------------------------------------------------------

proof fn lemma_packet_run_unique(ls: Seq<Text>, n: int)
    ensures
        unique_ids(packet_run(ls, n).ast.nodes),
        packet_run(ls, n).ast.kind == DiagramKind::Packet,
    decreases n,
{
    if n > 0 {
        lemma_packet_run_unique(ls, n - 1);
        let st = packet_run(ls, n - 1);
        match field_text(ls[n - 1]) {
            Some(text) => {
                let id = field_id(st.ast.nodes.len());
                lemma_store_node_unique(st.ast, plain_node(id, text, NodeShape::Rectangle));
            },
            None => {},
        }
    }
}

/// The fields of a parsed packet diagram have distinct ids.
pub proof fn lemma_packet_model_unique(s: Seq<char>)
    ensures
        unique_ids(packet_model(s).nodes),
        packet_model(s).kind == DiagramKind::Packet,
{
    lemma_packet_run_unique(lines(s), lines(s).len() as int);
}


proof fn lemma_decimal_len(n: nat)
    ensures
        decimal(n).len() >= 1,
        n >= 10 ==> decimal(n).len() >= 2,
    decreases n,
{
    if n >= 10 {
        lemma_decimal_len(n / 10);
    }
}

proof fn lemma_digit_injective(x: nat, y: nat)
    requires
        x < 10,
        y < 10,
        crate::text::digit_char(x) == crate::text::digit_char(y),
    ensures
        x == y,
{
}

proof fn lemma_decimal_injective(a: nat, b: nat)
    requires
        decimal(a) == decimal(b),
    ensures
        a == b,
    decreases a,
{
    lemma_decimal_len(a);
    lemma_decimal_len(b);
    if a < 10 && b < 10 {
        assert(decimal(a) == seq![crate::text::digit_char(a)]);
        assert(decimal(b) == seq![crate::text::digit_char(b)]);
        let ca = crate::text::digit_char(a);
        let cb = crate::text::digit_char(b);
        assert(seq![ca][0] == ca);
        assert(seq![cb][0] == cb);
        assert(ca == cb);
        lemma_digit_injective(a, b);
    } else if a >= 10 && b >= 10 {
        let da = decimal(a);
        let db = decimal(b);
        assert(da.drop_last() =~= decimal(a / 10));
        assert(db.drop_last() =~= decimal(b / 10));
        assert(da == decimal(a / 10).push(crate::text::digit_char(a % 10)));
        assert(db == decimal(b / 10).push(crate::text::digit_char(b % 10)));
        assert(da.last() == db.last());
        lemma_digit_injective(a % 10, b % 10);
        lemma_decimal_injective(a / 10, b / 10);
    } else {
        assert(decimal(a).len() != decimal(b).len());
    }
}

proof fn lemma_field_ids_distinct(a: nat, b: nat)
    requires
        a != b,
    ensures
        field_id(a) != field_id(b),
{
    if field_id(a) == field_id(b) {
        reveal_strlit("pkt_");
        assert(field_id(a).skip(4) =~= decimal(a));
        assert(field_id(b).skip(4) =~= decimal(b));
        lemma_decimal_injective(a, b);
    }
}

/// The shape of a packet model after some lines: fields `pkt_0`, `pkt_1`, ...
/// in order, each joined to the next by a plain edge, the last one remembered.
pub open spec fn packet_chained(st: PacketSt) -> bool {
    let a = st.ast;
    let k = a.nodes.len();
    &&& a.kind == DiagramKind::Packet
    &&& a.direction == Direction::LeftToRight
    &&& forall|i: int| 0 <= i < k ==> (#[trigger] a.nodes[i]).id == field_id(i as nat)
    &&& a.edges.len() == (if k == 0 { 0 } else { k - 1 })
    &&& forall|i: int| 0 <= i < a.edges.len() ==> #[trigger] a.edges[i] == chain_edge(field_id(i as nat), field_id((i + 1) as nat))
    &&& st.last == (if k == 0 { None } else { Some(field_id((k - 1) as nat)) })
}

proof fn lemma_packet_run_chained(ls: Seq<Text>, n: int)
    requires
        0 <= n <= ls.len(),
    ensures
        packet_chained(packet_run(ls, n)),
    decreases n,
{
    if n > 0 {
        lemma_packet_run_chained(ls, n - 1);
        let st = packet_run(ls, n - 1);
        let line = trim(ls[n - 1]);
        let k = st.ast.nodes.len();
        let id = field_id(k);
        assert forall|i: int| 0 <= i < k implies node_ids(st.ast.nodes)[i] != id by {
            assert(node_ids(st.ast.nodes)[i] == st.ast.nodes[i].id);
            lemma_field_ids_distinct(i as nat, k);
        }
        crate::model::lemma_first_index(node_ids(st.ast.nodes), id);
        let st2 = packet_run(ls, n);
        if st2 != st {
            assert(st2.ast.nodes.len() == k + 1);
            assert(st2.ast.nodes[k as int].id == id);
            assert forall|i: int| 0 <= i < k + 1 implies (#[trigger] st2.ast.nodes[i]).id == field_id(i as nat) by {
                if i < k {
                    assert(st2.ast.nodes[i] == st.ast.nodes[i]);
                }
            }
            assert forall|i: int| 0 <= i < st2.ast.edges.len() implies #[trigger] st2.ast.edges[i] == chain_edge(field_id(i as nat), field_id((i + 1) as nat)) by {
                if i < st.ast.edges.len() {
                    assert(st2.ast.edges[i] == st.ast.edges[i]);
                }
            }
        }
    }
}

/// Law: a packet diagram is a chain. Its fields are `pkt_0`, `pkt_1`, ... in
/// the order the lines give them, laid out left to right, and each is joined
/// to the next by one plain undirected edge.
pub proof fn law_packet_chain(s: Seq<char>)
    ensures
        ({
            let a = packet_model(s);
            let k = a.nodes.len();
            &&& a.kind == DiagramKind::Packet
            &&& a.direction == Direction::LeftToRight
            &&& forall|i: int| 0 <= i < k ==> (#[trigger] a.nodes[i]).id == field_id(i as nat)
            &&& a.edges.len() == (if k == 0 { 0 } else { k - 1 })
            &&& forall|i: int| 0 <= i < a.edges.len() ==> #[trigger] a.edges[i] == chain_edge(field_id(i as nat), field_id((i + 1) as nat))
            &&& forall|i: int| 0 <= i < a.edges.len() ==> !(#[trigger] a.edges[i]).directed
        }),
{
    lemma_packet_run_chained(lines(s), lines(s).len() as int);
}


proof fn lemma_packet_run_fields(ls: Seq<Text>, n: int)
    requires
        0 <= n <= ls.len(),
    ensures
        packet_run(ls, n).ast.nodes.len() == field_texts(ls, n).len(),
        forall|i: int| 0 <= i < field_texts(ls, n).len() ==> #[trigger] packet_run(ls, n).ast.nodes[i]
            == plain_node(field_id(i as nat), field_texts(ls, n)[i], NodeShape::Rectangle),
    decreases n,
{
    if n > 0 {
        lemma_packet_run_fields(ls, n - 1);
        lemma_packet_run_chained(ls, n - 1);
        let st = packet_run(ls, n - 1);
        let k = st.ast.nodes.len();
        let id = field_id(k);
        match field_text(ls[n - 1]) {
            Some(text) => {
                assert forall|i: int| 0 <= i < k implies node_ids(st.ast.nodes)[i] != id by {
                    assert(node_ids(st.ast.nodes)[i] == st.ast.nodes[i].id);
                    lemma_field_ids_distinct(i as nat, k);
                }
                crate::model::lemma_first_index(node_ids(st.ast.nodes), id);
                let st2 = packet_run(ls, n);
                assert(st2.ast.nodes == st.ast.nodes.push(plain_node(id, text, NodeShape::Rectangle)));
                assert(field_texts(ls, n) == field_texts(ls, n - 1).push(text));
                assert forall|i: int| 0 <= i < field_texts(ls, n).len() implies #[trigger] st2.ast.nodes[i]
                    == plain_node(field_id(i as nat), field_texts(ls, n)[i], NodeShape::Rectangle) by {
                    if i < k {
                        assert(st2.ast.nodes[i] == st.ast.nodes[i]);
                    }
                }
            },
            None => {},
        }
    }
}

/// Law: a packet diagram has one field per field line, in order. With `n`
/// lines of the form `range : label` (non-empty range), the model holds exactly
/// `n` nodes, the `i`-th being `pkt_i` with that line's text as a plain rectangle.
pub proof fn law_packet_fields(s: Seq<char>)
    ensures
        ({
            let a = packet_model(s);
            let f = field_texts(lines(s), lines(s).len() as int);
            &&& a.nodes.len() == f.len()
            &&& forall|i: int| 0 <= i < f.len() ==> #[trigger] a.nodes[i]
                    == plain_node(field_id(i as nat), f[i], NodeShape::Rectangle)
        }),
{
    lemma_packet_run_fields(lines(s), lines(s).len() as int);
}

} // verus!
