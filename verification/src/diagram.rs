//! The diagram model: what every parser produces and the layout consumes.
//!
//! Text fields are generic over their carrier `T`: the public types hold `String`,
//! the parsers build the same structures over `Vec<char>` and convert at the end.
//! Both are viewed as `Seq<char>`, so one abstract model (`AstV`) describes both.

use vstd::prelude::*;


verus! {

/// Diagram type.
#[derive(Debug, Clone, Copy, PartialEq, Eq, Hash, Structural)]
pub enum DiagramKind {
    Flowchart,
    Sequence,
    Class,
    State,
    Er,
    Pie,
    Mindmap,
    Journey,
    Timeline,
    Gantt,
    Requirement,
    GitGraph,
    C4,
    Sankey,
    Quadrant,
    Block,
    Packet,
    Kanban,
    Architecture,
    Radar,
    Treemap,
    XYChart,
}

/// Flow direction.
#[derive(Debug, Clone, Copy, PartialEq, Eq, Hash, Structural)]
pub enum Direction {
    TopDown,
    BottomUp,
    LeftToRight,
    RightToLeft,
}

impl Default for Direction {
    fn default() -> (r: Self)
        ensures
            r == Direction::TopDown,
    {
        Direction::TopDown
    }
}

/// Node shape.
#[derive(Debug, Clone, Copy, PartialEq, Eq, Hash, Structural)]
pub enum NodeShape {
    Rectangle,
    RoundRect,
    Stadium,
    Circle,
    DoubleCircle,
    Diamond,
    Hexagon,
    Cylinder,
    Subroutine,
    Parallelogram,
    Trapezoid,
    Asymmetric,
}

impl Default for NodeShape {
    fn default() -> (r: Self)
        ensures
            r == NodeShape::RoundRect,
    {
        NodeShape::RoundRect
    }
}

/// Edge arrowhead.
#[derive(Debug, Clone, Copy, PartialEq, Eq, Hash, Structural)]
pub enum EdgeArrowhead {
    Arrow,
    OpenTriangle,
    Circle,
    Cross,
    Diamond,
}

/// Edge end decoration.
#[derive(Debug, Clone, Copy, PartialEq, Eq, Hash, Structural)]
pub enum EdgeDecoration {
    Circle,
    Cross,
}

/// Edge line style.
#[derive(Debug, Clone, Copy, PartialEq, Eq, Hash, Structural)]
pub enum EdgeStyle {
    Solid,
    Dashed,
    Dotted,
    Thick,
}

impl Default for EdgeStyle {
    fn default() -> (r: Self)
        ensures
            r == EdgeStyle::Solid,
    {
        EdgeStyle::Solid
    }
}

/// Per-node style override. `stroke_width` keeps the declared number as text
/// (the `px` suffix removed); it is only set when that text is a number.
#[derive(Debug, Clone)]
pub struct NodeStyleOf<T> {
    pub fill: Option<T>,
    pub stroke: Option<T>,
    pub stroke_width: Option<T>,
    pub color: Option<T>,
}

/// Node hyperlink.
#[derive(Debug, Clone)]
pub struct NodeLinkOf<T> {
    pub url: T,
    pub target: T,
}

/// Diagram node.
#[derive(Debug, Clone)]
pub struct NodeOf<T> {
    pub id: T,
    pub label: T,
    pub shape: NodeShape,
    pub style: NodeStyleOf<T>,
    pub link: Option<NodeLinkOf<T>>,
    pub subgraph: Option<usize>,
}

/// Diagram edge.
#[derive(Debug, Clone)]
pub struct EdgeOf<T> {
    pub from: T,
    pub to: T,
    pub label: Option<T>,
    pub start_label: Option<T>,
    pub end_label: Option<T>,
    pub directed: bool,
    pub arrow_start: Option<EdgeArrowhead>,
    pub arrow_end: Option<EdgeArrowhead>,
    pub start_decoration: Option<EdgeDecoration>,
    pub end_decoration: Option<EdgeDecoration>,
    pub style: EdgeStyle,
}

/// Subgraph (group of nodes).
#[derive(Debug, Clone)]
pub struct SubgraphOf<T> {
    pub id: T,
    pub label: T,
    pub direction: Option<Direction>,
    pub nodes: Vec<T>,
    pub style: NodeStyleOf<T>,
}

/// Activation bar of a sequence participant.
#[derive(Debug, Clone)]
pub struct SequenceActivationOf<T> {
    pub participant_id: T,
    pub start_step: usize,
    pub end_step: Option<usize>,
    pub depth: usize,
}

/// Placement of a sequence note.
#[derive(Debug, Clone)]
pub enum NotePositionOf<T> {
    LeftOf(T),
    RightOf(T),
    Over(Vec<T>),
}

/// Sequence note.
#[derive(Debug, Clone)]
pub struct SequenceNoteOf<T> {
    pub text: T,
    pub position: NotePositionOf<T>,
    pub step: usize,
}

/// Background rectangle of a sequence diagram.
#[derive(Debug, Clone)]
pub struct SequenceRectOf<T> {
    pub color: T,
    pub start_step: usize,
    pub end_step: usize,
}

/// Control block kind of a sequence diagram.
#[derive(Debug, Clone, Copy, PartialEq, Eq, Structural)]
pub enum ControlBlockKind {
    Loop,
    Alt,
    Opt,
    Par,
    Critical,
    Break,
}

/// Control block of a sequence diagram.
#[derive(Debug, Clone)]
pub struct SequenceControlBlockOf<T> {
    pub kind: ControlBlockKind,
    pub label: T,
    pub start_step: usize,
    pub end_step: usize,
    pub groups: Vec<(T, usize)>,
}

/// Sequence-specific data. `aliases` maps alias to participant id and
/// `is_actor` maps participant id to its kind; each key occurs once.
#[derive(Debug, Clone)]
pub struct SequenceMetaOf<T> {
    pub participant_order: Vec<T>,
    pub aliases: Vec<(T, T)>,
    pub is_actor: Vec<(T, bool)>,
    pub activations: Vec<SequenceActivationOf<T>>,
    pub notes: Vec<SequenceNoteOf<T>>,
    pub rects: Vec<SequenceRectOf<T>>,
    pub control_blocks: Vec<SequenceControlBlockOf<T>>,
    pub autonumber: bool,
    pub message_counter: usize,
    pub total_steps: usize,
}

/// The diagram model. `nodes` lists the nodes in declaration order; node ids are unique.
#[derive(Debug, Clone)]
pub struct AstOf<T> {
    pub kind: DiagramKind,
    pub direction: Direction,
    pub nodes: Vec<NodeOf<T>>,
    pub edges: Vec<EdgeOf<T>>,
    pub subgraphs: Vec<SubgraphOf<T>>,
    pub title: Option<T>,
    pub sequence_meta: Option<SequenceMetaOf<T>>,
}

pub type NodeStyle = NodeStyleOf<String>;
pub type NodeLink = NodeLinkOf<String>;
pub type DiagramNode = NodeOf<String>;
pub type DiagramEdge = EdgeOf<String>;
pub type Subgraph = SubgraphOf<String>;
pub type SequenceActivation = SequenceActivationOf<String>;
pub type NotePosition = NotePositionOf<String>;
pub type SequenceNote = SequenceNoteOf<String>;
pub type SequenceRect = SequenceRectOf<String>;
pub type SequenceControlBlock = SequenceControlBlockOf<String>;
pub type SequenceMeta = SequenceMetaOf<String>;
pub type DiagramAst = AstOf<String>;

// ---------------------------------------------------------------------------
// Abstract model
// ---------------------------------------------------------------------------

pub type Text = Seq<char>;

pub struct StyleV {
    pub fill: Option<Text>,
    pub stroke: Option<Text>,
    pub stroke_width: Option<Text>,
    pub color: Option<Text>,
}

pub struct NodeV {
    pub id: Text,
    pub label: Text,
    pub shape: NodeShape,
    pub style: StyleV,
    pub link: Option<(Text, Text)>,
    pub subgraph: Option<usize>,
}

pub struct EdgeV {
    pub from: Text,
    pub to: Text,
    pub label: Option<Text>,
    pub start_label: Option<Text>,
    pub end_label: Option<Text>,
    pub directed: bool,
    pub arrow_start: Option<EdgeArrowhead>,
    pub arrow_end: Option<EdgeArrowhead>,
    pub start_decoration: Option<EdgeDecoration>,
    pub end_decoration: Option<EdgeDecoration>,
    pub style: EdgeStyle,
}

pub struct SubgraphV {
    pub id: Text,
    pub label: Text,
    pub direction: Option<Direction>,
    pub nodes: Seq<Text>,
    pub style: StyleV,
}

pub struct ActivationV {
    pub participant_id: Text,
    pub start_step: usize,
    pub end_step: Option<usize>,
    pub depth: usize,
}

pub enum NotePosV {
    LeftOf(Text),
    RightOf(Text),
    Over(Seq<Text>),
}

pub struct NoteV {
    pub text: Text,
    pub position: NotePosV,
    pub step: usize,
}

pub struct RectV {
    pub color: Text,
    pub start_step: usize,
    pub end_step: usize,
}

pub struct BlockV {
    pub kind: ControlBlockKind,
    pub label: Text,
    pub start_step: usize,
    pub end_step: usize,
    pub groups: Seq<(Text, usize)>,
}

pub struct MetaV {
    pub participant_order: Seq<Text>,
    pub aliases: Seq<(Text, Text)>,
    pub is_actor: Seq<(Text, bool)>,
    pub activations: Seq<ActivationV>,
    pub notes: Seq<NoteV>,
    pub rects: Seq<RectV>,
    pub control_blocks: Seq<BlockV>,
    pub autonumber: bool,
    pub message_counter: usize,
    pub total_steps: usize,
}

pub struct AstV {
    pub kind: DiagramKind,
    pub direction: Direction,
    pub nodes: Seq<NodeV>,
    pub edges: Seq<EdgeV>,
    pub subgraphs: Seq<SubgraphV>,
    pub title: Option<Text>,
    pub sequence_meta: Option<MetaV>,
}

pub open spec fn opt_view<T: View<V = Seq<char>>>(o: Option<T>) -> Option<Text> {
    match o {
        Some(t) => Some(t@),
        None => None,
    }
}

pub open spec fn text_views<T: View<V = Seq<char>>>(v: Seq<T>) -> Seq<Text> {
    v.map_values(|t: T| t@)
}

impl<T: View<V = Seq<char>>> View for NodeStyleOf<T> {
    type V = StyleV;

    open spec fn view(&self) -> StyleV {
        StyleV {
            fill: opt_view(self.fill),
            stroke: opt_view(self.stroke),
            stroke_width: opt_view(self.stroke_width),
            color: opt_view(self.color),
        }
    }
}

impl<T: View<V = Seq<char>>> View for NodeOf<T> {
    type V = NodeV;

    open spec fn view(&self) -> NodeV {
        NodeV {
            id: self.id@,
            label: self.label@,
            shape: self.shape,
            style: self.style@,
            link: match self.link {
                Some(l) => Some((l.url@, l.target@)),
                None => None,
            },
            subgraph: self.subgraph,
        }
    }
}

impl<T: View<V = Seq<char>>> View for EdgeOf<T> {
    type V = EdgeV;

    open spec fn view(&self) -> EdgeV {
        EdgeV {
            from: self.from@,
            to: self.to@,
            label: opt_view(self.label),
            start_label: opt_view(self.start_label),
            end_label: opt_view(self.end_label),
            directed: self.directed,
            arrow_start: self.arrow_start,
            arrow_end: self.arrow_end,
            start_decoration: self.start_decoration,
            end_decoration: self.end_decoration,
            style: self.style,
        }
    }
}

impl<T: View<V = Seq<char>>> View for SubgraphOf<T> {
    type V = SubgraphV;

    open spec fn view(&self) -> SubgraphV {
        SubgraphV {
            id: self.id@,
            label: self.label@,
            direction: self.direction,
            nodes: text_views(self.nodes@),
            style: self.style@,
        }
    }
}

impl<T: View<V = Seq<char>>> View for SequenceActivationOf<T> {
    type V = ActivationV;

    open spec fn view(&self) -> ActivationV {
        ActivationV {
            participant_id: self.participant_id@,
            start_step: self.start_step,
            end_step: self.end_step,
            depth: self.depth,
        }
    }
}

impl<T: View<V = Seq<char>>> View for SequenceNoteOf<T> {
    type V = NoteV;

    open spec fn view(&self) -> NoteV {
        NoteV {
            text: self.text@,
            position: match self.position {
                NotePositionOf::LeftOf(t) => NotePosV::LeftOf(t@),
                NotePositionOf::RightOf(t) => NotePosV::RightOf(t@),
                NotePositionOf::Over(v) => NotePosV::Over(text_views(v@)),
            },
            step: self.step,
        }
    }
}

impl<T: View<V = Seq<char>>> View for SequenceRectOf<T> {
    type V = RectV;

    open spec fn view(&self) -> RectV {
        RectV { color: self.color@, start_step: self.start_step, end_step: self.end_step }
    }
}

pub open spec fn group_views<T: View<V = Seq<char>>>(v: Seq<(T, usize)>) -> Seq<(Text, usize)> {
    v.map_values(|g: (T, usize)| (g.0@, g.1))
}

impl<T: View<V = Seq<char>>> View for SequenceControlBlockOf<T> {
    type V = BlockV;

    open spec fn view(&self) -> BlockV {
        BlockV {
            kind: self.kind,
            label: self.label@,
            start_step: self.start_step,
            end_step: self.end_step,
            groups: group_views(self.groups@),
        }
    }
}

pub open spec fn pair_views<T: View<V = Seq<char>>>(v: Seq<(T, T)>) -> Seq<(Text, Text)> {
    v.map_values(|g: (T, T)| (g.0@, g.1@))
}

pub open spec fn flag_views<T: View<V = Seq<char>>>(v: Seq<(T, bool)>) -> Seq<(Text, bool)> {
    v.map_values(|g: (T, bool)| (g.0@, g.1))
}

pub open spec fn deep<A: View>(v: Seq<A>) -> Seq<A::V> {
    v.map_values(|a: A| a@)
}

impl<T: View<V = Seq<char>>> View for SequenceMetaOf<T> {
    type V = MetaV;

    open spec fn view(&self) -> MetaV {
        MetaV {
            participant_order: text_views(self.participant_order@),
            aliases: pair_views(self.aliases@),
            is_actor: flag_views(self.is_actor@),
            activations: deep(self.activations@),
            notes: deep(self.notes@),
            rects: deep(self.rects@),
            control_blocks: deep(self.control_blocks@),
            autonumber: self.autonumber,
            message_counter: self.message_counter,
            total_steps: self.total_steps,
        }
    }
}

impl<T: View<V = Seq<char>>> View for AstOf<T> {
    type V = AstV;

    open spec fn view(&self) -> AstV {
        AstV {
            kind: self.kind,
            direction: self.direction,
            nodes: deep(self.nodes@),
            edges: deep(self.edges@),
            subgraphs: deep(self.subgraphs@),
            title: opt_view(self.title),
            sequence_meta: match self.sequence_meta {
                Some(m) => Some(m@),
                None => None,
            },
        }
    }
}

} // verus!
