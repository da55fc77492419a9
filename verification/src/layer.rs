//! Render layers of a diagram and their stacking order.

use vstd::prelude::*;

verus! {

/// Layer kind, from back to front.
#[derive(Debug, Clone, Copy, PartialEq, Eq, Hash, Structural)]
pub enum LayerKind {
    Background,
    Subgraphs,
    Edges,
    Nodes,
    Labels,
    Title,
    Annotations,
}

/// Default stacking index of a layer kind.
pub open spec fn z_index_of(k: LayerKind) -> u32 {
    match k {
        LayerKind::Background => 0,
        LayerKind::Subgraphs => 1,
        LayerKind::Edges => 2,
        LayerKind::Nodes => 3,
        LayerKind::Labels => 4,
        LayerKind::Title => 5,
        LayerKind::Annotations => 6,
    }
}

/// The standard layers, back to front.
pub open spec fn standard_kinds() -> Seq<LayerKind> {
    seq![
        LayerKind::Background,
        LayerKind::Subgraphs,
        LayerKind::Edges,
        LayerKind::Nodes,
        LayerKind::Labels,
        LayerKind::Title,
        LayerKind::Annotations,
    ]
}

impl LayerKind {
    /// Default stacking index.
    pub fn default_z_index(&self) -> (r: u32)
        ensures
            r == z_index_of(*self),
    {
        match self {
            LayerKind::Background => 0,
            LayerKind::Subgraphs => 1,
            LayerKind::Edges => 2,
            LayerKind::Nodes => 3,
            LayerKind::Labels => 4,
            LayerKind::Title => 5,
            LayerKind::Annotations => 6,
        }
    }

    /// All standard layers, back to front.
    pub fn all_standard_kinds() -> (r: Vec<Self>)
        ensures
            r@ == standard_kinds(),
    {
        let mut v: Vec<LayerKind> = Vec::new();
        v.push(LayerKind::Background);
        v.push(LayerKind::Subgraphs);
        v.push(LayerKind::Edges);
        v.push(LayerKind::Nodes);
        v.push(LayerKind::Labels);
        v.push(LayerKind::Title);
        v.push(LayerKind::Annotations);
        assert(v@ =~= standard_kinds());
        v
    }
}

/// The standard layers are listed in stacking order: each one's default index is its
/// position, so every kind occurs once and later layers are drawn above earlier ones.
pub proof fn lemma_standard_kinds_in_z_order()
    ensures
        standard_kinds().len() == 7,
        forall|i: int| 0 <= i < 7 ==> z_index_of(#[trigger] standard_kinds()[i]) == i,
        forall|k: LayerKind| standard_kinds().contains(k),
{
    assert forall|k: LayerKind| standard_kinds().contains(k) by {
        let i: int = z_index_of(k) as int;
        assert(standard_kinds()[i] == k);
    }
}

} // verus!
