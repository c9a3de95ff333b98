//! Relations as `oxdraw` edges: the edge a relation is laid out as, and the
//! identifier under which `oxdraw` reports its route.
use vstd::prelude::*;
use crate::model::{Relation, RelationType};
use crate::text::push_char;
use oxdraw::{Edge, EdgeArrowDirection, EdgeKind};

verus! {

/// The line style of an `oxdraw` edge.
#[derive(Clone, Copy, PartialEq, Eq, Debug, Structural)]
pub enum EdgeStyle {
    Solid,
    Dashed,
    Thick,
    Invisible,
}

/// The arrow heads of an `oxdraw` edge.
#[derive(Clone, Copy, PartialEq, Eq, Debug, Structural)]
pub enum ArrowDirection {
    Forward,
    Backward,
    Both,
    Unmarked,
}

/// An `oxdraw` edge without a label.
pub struct EdgeSpec {
    pub from: String,
    pub to: String,
    pub kind: EdgeStyle,
    pub arrow: ArrowDirection,
}

/// The style and arrows a relation type is laid out with.
pub open spec fn edge_shape(kind: RelationType) -> (EdgeStyle, ArrowDirection) {
    match kind {
        RelationType::Directional => (EdgeStyle::Solid, ArrowDirection::Forward),
        RelationType::Bidirectional => (EdgeStyle::Solid, ArrowDirection::Both),
        RelationType::Compositional => (EdgeStyle::Thick, ArrowDirection::Forward),
        RelationType::Cluster => (EdgeStyle::Dashed, ArrowDirection::Unmarked),
    }
}

/// The edge a relation is laid out as.
pub fn relation_to_oxdraw_edge(relation: &Relation) -> (e: EdgeSpec)
    ensures
        e.from@ == seq![relation.from],
        e.to@ == seq![relation.to],
        (e.kind, e.arrow) == edge_shape(relation.kind),
{
    let (kind, arrow) = match relation.kind {
        RelationType::Directional => (EdgeStyle::Solid, ArrowDirection::Forward),
        RelationType::Bidirectional => (EdgeStyle::Solid, ArrowDirection::Both),
        RelationType::Compositional => (EdgeStyle::Thick, ArrowDirection::Forward),
        RelationType::Cluster => (EdgeStyle::Dashed, ArrowDirection::Unmarked),
    };
    let mut from = String::new();
    push_char(&mut from, relation.from);
    let mut to = String::new();
    push_char(&mut to, relation.to);
    EdgeSpec { from, to, kind, arrow }
}

/// The connector `oxdraw` writes between the ends of an edge
/// (`EdgeKind::connector`).
pub open spec fn connector(kind: EdgeStyle, arrow: ArrowDirection) -> Seq<char> {
    match kind {
        EdgeStyle::Invisible => "~~~"@,
        EdgeStyle::Thick => if arrow == ArrowDirection::Unmarked {
            "==="@
        } else {
            "==>"@
        },
        EdgeStyle::Dashed => "-.->"@,
        EdgeStyle::Solid => if arrow == ArrowDirection::Unmarked {
            "---"@
        } else {
            "-->"@
        },
    }
}

/// The identifier `oxdraw` reports an edge's route under. The body converts
/// the edge to an `oxdraw::Edge` without a label and calls
/// `oxdraw::edge_identifier`; the contract claims what that function's
/// source (oxdraw 0.2.1) formats: `from`, the connector of the edge's kind
/// and arrows (`EdgeKind::connector`), and `to`, separated by spaces.
#[verifier::external_body]
pub(crate) fn edge_identifier(edge: &EdgeSpec) -> (id: String)
    ensures
        id@ == edge.from@ + " "@ + connector(edge.kind, edge.arrow) + " "@ + edge.to@,
{
    let kind = match edge.kind {
        EdgeStyle::Solid => EdgeKind::Solid,
        EdgeStyle::Dashed => EdgeKind::Dashed,
        EdgeStyle::Thick => EdgeKind::Thick,
        EdgeStyle::Invisible => EdgeKind::Invisible,
    };
    let arrow = match edge.arrow {
        ArrowDirection::Forward => EdgeArrowDirection::Forward,
        ArrowDirection::Backward => EdgeArrowDirection::Backward,
        ArrowDirection::Both => EdgeArrowDirection::Both,
        ArrowDirection::Unmarked => EdgeArrowDirection::None,
    };
    oxdraw::edge_identifier(&Edge { from: edge.from.clone(), to: edge.to.clone(), label: None, kind, arrow })
}

/// The identifier of the route a relation is drawn along.
pub fn relation_route_id(relation: &Relation) -> (id: String)
    ensures
        id@ == seq![relation.from] + " "@ + connector(
            edge_shape(relation.kind).0,
            edge_shape(relation.kind).1,
        ) + " "@ + seq![relation.to],
{
    let edge = relation_to_oxdraw_edge(relation);
    edge_identifier(&edge)
}

} // verus!
