//! The nodes and edges of the constraint graph.

use crate::ir::{Constant, ConstantView, Place, PlaceView};
use vstd::prelude::*;

verus! {

/// What a node of the constraint graph stands for.
#[derive(Debug, PartialEq, Eq, Hash)]
pub enum ConstraintNode {
    /// The storage behind a place.
    Alloc(Place),
    /// The value that a place holds.
    Place(Place),
    /// A literal.
    Constant(Constant),
    /// What a literal points to, at any depth.
    ConstantDeref(Constant),
    /// The allocation made by building an aggregate from a place.
    Construct(Place),
    /// What a call that is not analysed returns; the place is its first
    /// place argument.
    FunctionRet(Place),
    /// The place has been handed to a call that is not analysed.
    ParameterInto(Place),
    /// The place has gone through a conversion between a raw pointer and a
    /// smart pointer.
    SmartPointer(Place),
}

/// A `ConstraintNode` as a mathematical value. The graph holds one node for
/// each such value.
pub enum NodeView {
    Alloc(PlaceView),
    Place(PlaceView),
    Constant(ConstantView),
    ConstantDeref(ConstantView),
    Construct(PlaceView),
    FunctionRet(PlaceView),
    ParameterInto(PlaceView),
    SmartPointer(PlaceView),
}

impl View for ConstraintNode {
    type V = NodeView;

    open spec fn view(&self) -> NodeView {
        match self {
            ConstraintNode::Alloc(p) => NodeView::Alloc(p@),
            ConstraintNode::Place(p) => NodeView::Place(p@),
            ConstraintNode::Constant(c) => NodeView::Constant(c@),
            ConstraintNode::ConstantDeref(c) => NodeView::ConstantDeref(c@),
            ConstraintNode::Construct(p) => NodeView::Construct(p@),
            ConstraintNode::FunctionRet(p) => NodeView::FunctionRet(p@),
            ConstraintNode::ParameterInto(p) => NodeView::ParameterInto(p@),
            ConstraintNode::SmartPointer(p) => NodeView::SmartPointer(p@),
        }
    }
}

impl NodeView {
    /// The place of an `Alloc` or `Place` node.
    pub open spec fn storage(self) -> Option<PlaceView> {
        match self {
            NodeView::Alloc(p) => Some(p),
            NodeView::Place(p) => Some(p),
            _ => None,
        }
    }
}

impl Clone for ConstraintNode {
    fn clone(&self) -> (r: Self)
        ensures
            r@ == self@,
    {
        match self {
            ConstraintNode::Alloc(p) => ConstraintNode::Alloc(p.clone()),
            ConstraintNode::Place(p) => ConstraintNode::Place(p.clone()),
            ConstraintNode::Constant(c) => ConstraintNode::Constant(c.clone()),
            ConstraintNode::ConstantDeref(c) => ConstraintNode::ConstantDeref(c.clone()),
            ConstraintNode::Construct(p) => ConstraintNode::Construct(p.clone()),
            ConstraintNode::FunctionRet(p) => ConstraintNode::FunctionRet(p.clone()),
            ConstraintNode::ParameterInto(p) => ConstraintNode::ParameterInto(p.clone()),
            ConstraintNode::SmartPointer(p) => ConstraintNode::SmartPointer(p.clone()),
        }
    }
}

impl ConstraintNode {
    /// Whether `self` and `other` are the same node.
    pub fn same(&self, other: &ConstraintNode) -> (r: bool)
        ensures
            r == (self@ == other@),
    {
        match (self, other) {
            (ConstraintNode::Alloc(a), ConstraintNode::Alloc(b)) => a.same(b),
            (ConstraintNode::Place(a), ConstraintNode::Place(b)) => a.same(b),
            (ConstraintNode::Constant(a), ConstraintNode::Constant(b)) => a.same(b),
            (ConstraintNode::ConstantDeref(a), ConstraintNode::ConstantDeref(b)) => a.same(b),
            (ConstraintNode::Construct(a), ConstraintNode::Construct(b)) => a.same(b),
            (ConstraintNode::FunctionRet(a), ConstraintNode::FunctionRet(b)) => a.same(b),
            (ConstraintNode::ParameterInto(a), ConstraintNode::ParameterInto(b)) => a.same(b),
            (ConstraintNode::SmartPointer(a), ConstraintNode::SmartPointer(b)) => a.same(b),
            _ => false,
        }
    }

    /// The place of an `Alloc` or `Place` node.
    pub fn storage(&self) -> (r: Option<&Place>)
        ensures
            match r {
                Some(p) => self@.storage() == Some(p@),
                None => self@.storage().is_none(),
            },
    {
        match self {
            ConstraintNode::Alloc(p) => Some(p),
            ConstraintNode::Place(p) => Some(p),
            _ => None,
        }
    }
}

/// How the source of an edge constrains its target.
#[derive(Copy, Clone, Debug, PartialEq, Eq, Hash, Structural)]
pub enum ConstraintEdge {
    /// The target takes the address of the source: the target points to the
    /// source.
    Address,
    /// The target is assigned the source: the target points to whatever the
    /// source points to.
    Copy,
    /// The target is assigned what the source points to.
    Load,
    /// What the target points to is assigned the source.
    Store,
    /// The target is a second handle on what the source is a handle on, as
    /// after cloning a reference-counted pointer or reading a raw pointer.
    AliasCopy,
}

/// An edge of the constraint graph, its ends given by node number.
#[derive(Copy, Clone, Debug, PartialEq, Eq, Hash, Structural)]
pub struct Edge {
    pub source: usize,
    pub target: usize,
    pub kind: ConstraintEdge,
}

} // verus!
