//! Collecting the constraints of a function body into a constraint graph.

use crate::ir::{
    BasicBlock, Body, Callee, Constant, ConstantView, Operand, Place, PlaceView, ProjectionElem,
    Rvalue, Statement, Terminator,
};
use crate::ownership::{
    atomic_operate_pattern, is_addr, is_arc_or_rc_clone, is_atomic_operate, is_get_unchecked,
    is_null, is_ptr_operate, is_smart_pointers, regex_match, spec_is_arc_or_rc_clone,
    spec_is_ptr_operate,
};
use crate::pointsto::graph::{ConstraintGraph, GraphView};
use crate::pointsto::node::{ConstraintEdge, ConstraintNode, NodeView};
use crate::text::{is_suffix, occurs_in};
use vstd::prelude::*;

verus! {

/// How one side of an assignment reaches memory.
#[derive(Debug, PartialEq, Eq)]
pub enum AccessPattern {
    /// The address of the place is taken.
    Ref(Place),
    /// The place is a pointer, and what it points to is accessed.
    Indirect(Place),
    /// The place itself is accessed.
    Direct(Place),
    /// A literal.
    Constant(Constant),
    /// An aggregate is built, with the place as its first field.
    Initialize(Place),
}

/// An `AccessPattern` as a mathematical value.
pub enum PatternView {
    Ref(PlaceView),
    Indirect(PlaceView),
    Direct(PlaceView),
    Constant(ConstantView),
    Initialize(PlaceView),
}

impl View for AccessPattern {
    type V = PatternView;

    open spec fn view(&self) -> PatternView {
        match self {
            AccessPattern::Ref(p) => PatternView::Ref(p@),
            AccessPattern::Indirect(p) => PatternView::Indirect(p@),
            AccessPattern::Direct(p) => PatternView::Direct(p@),
            AccessPattern::Constant(c) => PatternView::Constant(c@),
            AccessPattern::Initialize(p) => PatternView::Initialize(p@),
        }
    }
}

impl PlaceView {
    /// The path begins with a dereference.
    pub open spec fn is_deref(self) -> bool {
        self.projection.len() > 0 && self.projection[0] == ProjectionElem::Deref
    }

    /// The place without the first step of its path.
    pub open spec fn behind_first(self) -> PlaceView {
        PlaceView {
            local: self.local,
            projection: self.projection.subrange(1, self.projection.len() as int),
        }
    }
}

/// How an access to `place` reaches memory: through the pointer that is
/// left when a leading dereference is taken away, or directly.
pub open spec fn place_pattern(place: PlaceView) -> PatternView {
    if place.is_deref() {
        PatternView::Indirect(place.behind_first())
    } else {
        PatternView::Direct(place)
    }
}

/// How an operand reaches memory.
pub open spec fn operand_pattern(operand: Operand) -> PatternView {
    match operand {
        Operand::Copy(p) => place_pattern(p@),
        Operand::Move(p) => place_pattern(p@),
        Operand::Constant(c) => PatternView::Constant(c@),
    }
}

/// How the right-hand side of an assignment reaches memory; `None` for a
/// right-hand side that moves no pointer.
pub open spec fn rvalue_pattern(rvalue: Rvalue) -> Option<PatternView> {
    match rvalue {
        Rvalue::Use(op) => Some(operand_pattern(op)),
        Rvalue::Repeat(op) => Some(operand_pattern(op)),
        Rvalue::Cast(op) => Some(operand_pattern(op)),
        Rvalue::Ref(p) => Some(PatternView::Ref(p@)),
        Rvalue::AddressOf(p) => Some(PatternView::Ref(p@)),
        Rvalue::CopyForDeref(p) => Some(PatternView::Ref(p@)),
        Rvalue::Aggregate(ops) => if ops@.len() != 0 {
            match ops@[0].spec_place() {
                Some(p) => Some(PatternView::Initialize(p@)),
                None => None,
            }
        } else {
            None
        },
        Rvalue::Other => None,
    }
}

/// The graph `g` with the constraints of the assignment of `rhs` to `lhs`.
pub open spec fn assignment_constraints(
    g: GraphView,
    lhs: PatternView,
    rhs: Option<PatternView>,
) -> GraphView {
    match (lhs, rhs) {
        (PatternView::Direct(l), Some(PatternView::Ref(r))) => if r.is_deref() {
            // `l = &*c` is `c = *c` and `l = c`.
            let c = r.behind_first();
            g.with_constraint(NodeView::Place(c), NodeView::Place(c), ConstraintEdge::Load)
                .with_constraint(NodeView::Place(l), NodeView::Place(c), ConstraintEdge::Copy)
        } else {
            g.with_constraint(NodeView::Place(l), NodeView::Place(r), ConstraintEdge::Address)
        },
        (PatternView::Direct(l), Some(PatternView::Direct(r))) => g.with_constraint(
            NodeView::Place(l),
            NodeView::Place(r),
            ConstraintEdge::Copy,
        ),
        (PatternView::Direct(l), Some(PatternView::Constant(c))) => g.with_constraint(
            NodeView::Place(l),
            NodeView::Constant(c),
            ConstraintEdge::Copy,
        ),
        (PatternView::Direct(l), Some(PatternView::Indirect(r))) => g.with_constraint(
            NodeView::Place(l),
            NodeView::Place(r),
            ConstraintEdge::Load,
        ),
        (PatternView::Indirect(l), Some(PatternView::Direct(r))) => g.with_constraint(
            NodeView::Place(l),
            NodeView::Place(r),
            ConstraintEdge::Store,
        ),
        (PatternView::Indirect(l), Some(PatternView::Constant(c))) => g.with_constraint(
            NodeView::Place(l),
            NodeView::Constant(c),
            ConstraintEdge::Store,
        ),
        (PatternView::Direct(l), Some(PatternView::Initialize(r))) => g.with_constraint(
            NodeView::Place(l),
            NodeView::Construct(r),
            ConstraintEdge::Address,
        ),
        (PatternView::Indirect(l), Some(PatternView::Initialize(r))) => g.with_constraint(
            NodeView::Place(l),
            NodeView::Construct(r),
            ConstraintEdge::Address,
        ),
        _ => g,
    }
}

/// What a call does to the points-to sets, decided by the name of the
/// function called.
#[derive(Copy, Clone, Debug, PartialEq, Eq, Structural)]
pub enum CallEffect {
    /// The result is a copy of the first argument: indexing without a
    /// bounds check, operations of atomic types, the address of a pointer,
    /// pointer arithmetic and reads through raw pointers.
    ForwardFirst,
    /// The first argument goes through a conversion between a raw pointer
    /// and a smart pointer.
    SmartPointer,
    /// Nothing is known of the function: the result is marked as returned
    /// by it, and the first place among the arguments as handed to it.
    Opaque,
    /// The call moves no pointer: the clone of an `Arc` or `Rc` with more
    /// than its one argument, and the test for null.
    Nothing,
}

/// The treatment of calls of one function.
#[derive(Copy, Clone, Debug, PartialEq, Eq, Structural)]
pub struct CallPolicy {
    /// With a place as its only argument, the call makes its result a
    /// second handle on what the argument is a handle on, and nothing else
    /// is recorded of it: the clone of an `Arc` or `Rc`, pointer arithmetic
    /// and reads through raw pointers, and the address of a pointer.
    pub alias: bool,
    /// What is recorded of every other call of the function. With a place
    /// as its only argument the result is a copy of that argument besides.
    pub effect: CallEffect,
}

/// The policy for calls of `callee`.
pub open spec fn spec_call_policy(callee: Callee) -> CallPolicy {
    let path = callee.path@;
    CallPolicy {
        alias: spec_is_arc_or_rc_clone(callee) || spec_is_ptr_operate(path) || is_suffix(
            "addr"@,
            path,
        ),
        effect: if occurs_in("get_unchecked"@, path) || regex_match(
            atomic_operate_pattern(),
            path,
        ) == Some(true) || is_suffix("addr"@, path) || spec_is_ptr_operate(path) {
            CallEffect::ForwardFirst
        } else if is_suffix("from_raw"@, path) || is_suffix("into_raw"@, path) {
            CallEffect::SmartPointer
        } else if !spec_is_arc_or_rc_clone(callee) && !is_suffix("is_null"@, path) {
            CallEffect::Opaque
        } else {
            CallEffect::Nothing
        },
    }
}

/// The policy for calls of `callee`.
pub fn call_policy(callee: &Callee) -> (r: CallPolicy)
    ensures
        r == spec_call_policy(*callee),
{
    let path = callee.path.as_str();
    let clone = is_arc_or_rc_clone(callee);
    let ptr = is_ptr_operate(path);
    let addr = is_addr(path);
    let effect = if is_get_unchecked(path) || is_atomic_operate(path) || addr || ptr {
        CallEffect::ForwardFirst
    } else if is_smart_pointers(path) {
        CallEffect::SmartPointer
    } else if !clone && !is_null(path) {
        CallEffect::Opaque
    } else {
        CallEffect::Nothing
    };
    CallPolicy { alias: clone || ptr || addr, effect }
}

/// The first of `args`, from `from` on, that is a place.
pub open spec fn first_place(args: Seq<Operand>, from: int) -> Option<Place>
    decreases args.len() - from,
{
    if from < 0 || from >= args.len() {
        None
    } else {
        match args[from].spec_place() {
            Some(p) => Some(p),
            None => first_place(args, from + 1),
        }
    }
}

/// The graph `g` with the marks of a call of which nothing is known: the
/// result `dest` is what the call returned, and `arg` was handed to it.
pub open spec fn opaque_call_constraints(g: GraphView, arg: PlaceView, dest: PlaceView) -> GraphView {
    g.with_constraint(NodeView::Place(dest), NodeView::FunctionRet(arg), ConstraintEdge::Address)
        .with_constraint(
        NodeView::Place(arg),
        NodeView::ParameterInto(dest),
        ConstraintEdge::Address,
    )
}

/// The graph `g` with what the effect of a call records.
pub open spec fn effect_constraints(
    g: GraphView,
    effect: CallEffect,
    args: Seq<Operand>,
    dest: PlaceView,
) -> GraphView {
    match effect {
        CallEffect::ForwardFirst => if args.len() > 0 && args[0].spec_place().is_some() {
            g.with_constraint(
                NodeView::Place(dest),
                NodeView::Place(args[0].spec_place().unwrap()@),
                ConstraintEdge::Copy,
            )
        } else {
            g
        },
        CallEffect::SmartPointer => if args.len() > 0 && args[0].spec_place().is_some() {
            g.with_constraint(
                NodeView::Place(args[0].spec_place().unwrap()@),
                NodeView::SmartPointer(dest),
                ConstraintEdge::Address,
            )
        } else {
            g
        },
        CallEffect::Opaque => match first_place(args, 0) {
            Some(p) => opaque_call_constraints(g, p@, dest),
            None => g,
        },
        CallEffect::Nothing => g,
    }
}

/// The graph `g` with the constraints of a call.
pub open spec fn call_constraints(
    g: GraphView,
    func: Option<Callee>,
    args: Seq<Operand>,
    dest: PlaceView,
) -> GraphView {
    let single = args.len() == 1 && args[0].spec_place().is_some();
    if single && func.is_some() && spec_call_policy(func.unwrap()).alias {
        let arg = args[0].spec_place().unwrap()@;
        g.with_constraint(NodeView::Place(dest), NodeView::Place(arg), ConstraintEdge::Copy)
            .with_constraint(NodeView::Place(dest), NodeView::Place(arg), ConstraintEdge::AliasCopy)
    } else {
        let g1 = if single {
            g.with_constraint(
                NodeView::Place(dest),
                NodeView::Place(args[0].spec_place().unwrap()@),
                ConstraintEdge::Copy,
            )
        } else {
            g
        };
        match func {
            Some(f) => effect_constraints(g1, spec_call_policy(f).effect, args, dest),
            None => g1,
        }
    }
}

/// The graph `g` with the constraints of a statement.
pub open spec fn statement_constraints(g: GraphView, statement: Statement) -> GraphView {
    match statement {
        Statement::Assign(place, rvalue) => assignment_constraints(
            g,
            place_pattern(place@),
            rvalue_pattern(rvalue),
        ),
        Statement::Other => g,
    }
}

/// The graph `g` with the constraints of a terminator.
pub open spec fn terminator_constraints(g: GraphView, terminator: Terminator) -> GraphView {
    match terminator {
        Terminator::Call { func, args, destination, span } => call_constraints(
            g,
            func,
            args@,
            destination@,
        ),
        Terminator::Other => g,
    }
}

/// The graph `g` with the constraints of the first `n` of `statements`, one
/// after the other.
pub open spec fn statements_constraints(
    g: GraphView,
    statements: Seq<Statement>,
    n: nat,
) -> GraphView
    decreases n,
{
    if n == 0 {
        g
    } else {
        statement_constraints(
            statements_constraints(g, statements, (n - 1) as nat),
            statements[n - 1],
        )
    }
}

/// The graph `g` with the constraints of a block: of its statements, then
/// of its terminator.
pub open spec fn block_constraints(g: GraphView, block: BasicBlock) -> GraphView {
    terminator_constraints(
        statements_constraints(g, block.statements@, block.statements@.len()),
        block.terminator,
    )
}

/// The graph `g` with the constraints of the first `n` of `blocks`.
pub open spec fn blocks_constraints(g: GraphView, blocks: Seq<BasicBlock>, n: nat) -> GraphView
    decreases n,
{
    if n == 0 {
        g
    } else {
        block_constraints(blocks_constraints(g, blocks, (n - 1) as nat), blocks[n - 1])
    }
}

/// The constraints of all statements and calls of a body, block by block.
pub open spec fn body_constraints(body: Body) -> GraphView {
    blocks_constraints(
        GraphView { nodes: Seq::empty(), edges: Seq::empty() },
        body.blocks@,
        body.blocks@.len(),
    )
}

/// The edge copies the longer of two places with the same local into the
/// one whose path begins its path.
pub open spec fn is_partial_copy(g: GraphView, source: int, target: int) -> bool {
    &&& 0 <= source < g.nodes.len()
    &&& 0 <= target < g.nodes.len()
    &&& source != target
    &&& g.nodes[source] is Place
    &&& g.nodes[target] is Place
    &&& g.nodes[target]->Place_0.is_prefix_of(g.nodes[source]->Place_0)
}

/// `closed` is `g` with a copy edge from the longer place to the shorter
/// one for every two places of `g` of which one begins the other, and
/// nothing else.
pub open spec fn is_partial_copy_closure(g: GraphView, closed: GraphView) -> bool {
    &&& closed.nodes == g.nodes
    &&& g.edges.len() <= closed.edges.len()
    &&& closed.edges.subrange(0, g.edges.len() as int) == g.edges
    &&& forall|k: int|
        g.edges.len() <= k < closed.edges.len() ==> (#[trigger] closed.edges[k]).kind
            == ConstraintEdge::Copy && is_partial_copy(
            g,
            closed.edges[k].source as int,
            closed.edges[k].target as int,
        )
    &&& forall|s: int, t: int| #[trigger]
        is_partial_copy(g, s, t) ==> closed.has_edge(s, t, ConstraintEdge::Copy)
}

/// The graph `g` with the copy edge between the nodes `i` and `j`, where
/// both are places and one begins the other: from the longer place to the
/// shorter one, unless the edge is there.
pub open spec fn with_partial_copy(g: GraphView, i: int, j: int) -> GraphView {
    if g.nodes[i] is Place && g.nodes[j] is Place {
        if g.nodes[j]->Place_0.is_prefix_of(g.nodes[i]->Place_0) {
            g.with_new_edge(i, j, ConstraintEdge::Copy)
        } else if g.nodes[i]->Place_0.is_prefix_of(g.nodes[j]->Place_0) {
            g.with_new_edge(j, i, ConstraintEdge::Copy)
        } else {
            g
        }
    } else {
        g
    }
}

/// The graph `g` with the copy edges between the node `i` and the nodes
/// behind it with a number under `upto`.
pub open spec fn with_partial_copies_of_node(g: GraphView, i: int, upto: int) -> GraphView
    decreases upto - i,
{
    if upto <= i + 1 {
        g
    } else {
        with_partial_copy(with_partial_copies_of_node(g, i, upto - 1), i, upto - 1)
    }
}

/// The graph `g` with the copy edges between each of the first `n` nodes
/// and the nodes behind it.
pub open spec fn with_partial_copies_upto(g: GraphView, n: nat) -> GraphView
    decreases n,
{
    if n == 0 {
        g
    } else {
        with_partial_copies_of_node(
            with_partial_copies_upto(g, (n - 1) as nat),
            n - 1,
            g.nodes.len() as int,
        )
    }
}

/// The graph `g` with a copy edge from the longer place to the shorter one
/// for every two places of which one begins the other, node by node.
pub open spec fn with_partial_copies(g: GraphView) -> GraphView {
    with_partial_copies_upto(g, g.nodes.len())
}

/// Walks a function body and records its constraints.
pub struct ConstraintGraphCollector<'a> {
    body: &'a Body,
    graph: ConstraintGraph,
}

impl<'a> ConstraintGraphCollector<'a> {
    /// The graph collected so far.
    pub closed spec fn graph(&self) -> GraphView {
        self.graph@
    }

    /// The body that is being walked.
    pub closed spec fn body(&self) -> Body {
        *self.body
    }

    /// A collector for `body`, with an empty graph.
    pub fn new(body: &'a Body) -> (r: Self)
        ensures
            r.body() == *body,
            r.graph().nodes.len() == 0,
            r.graph().edges.len() == 0,
            r.graph().wf(),
    {
        ConstraintGraphCollector { body, graph: ConstraintGraph::new() }
    }

    /// How an access to `place` reaches memory.
    pub fn process_place(place: &Place) -> (r: AccessPattern)
        ensures
            r@ == place_pattern(place@),
    {
        if place.projection.len() > 0 && place.projection[0] == ProjectionElem::Deref {
            AccessPattern::Indirect(place.skip_steps(1))
        } else {
            AccessPattern::Direct(place.clone())
        }
    }

    fn process_operand(operand: &Operand) -> (r: AccessPattern)
        ensures
            r@ == operand_pattern(*operand),
    {
        match operand {
            Operand::Copy(p) => Self::process_place(p),
            Operand::Move(p) => Self::process_place(p),
            Operand::Constant(c) => AccessPattern::Constant(c.clone()),
        }
    }

    /// How the right-hand side of an assignment reaches memory.
    pub fn process_rvalue(rvalue: &Rvalue) -> (r: Option<AccessPattern>)
        ensures
            match r {
                Some(p) => rvalue_pattern(*rvalue) == Some(p@),
                None => rvalue_pattern(*rvalue).is_none(),
            },
    {
        match rvalue {
            Rvalue::Use(op) => Some(Self::process_operand(op)),
            Rvalue::Repeat(op) => Some(Self::process_operand(op)),
            Rvalue::Cast(op) => Some(Self::process_operand(op)),
            Rvalue::Ref(p) => Some(AccessPattern::Ref(p.clone())),
            Rvalue::AddressOf(p) => Some(AccessPattern::Ref(p.clone())),
            Rvalue::CopyForDeref(p) => Some(AccessPattern::Ref(p.clone())),
            Rvalue::Aggregate(ops) => {
                if ops.len() != 0 {
                    match ops[0].place() {
                        Some(p) => Some(AccessPattern::Initialize(p.clone())),
                        None => None,
                    }
                } else {
                    None
                }
            },
            Rvalue::Other => None,
        }
    }

    /// Records the constraints of the assignment `place = rvalue`.
    pub fn process_assignment(&mut self, place: &Place, rvalue: &Rvalue)
        requires
            old(self).graph().wf(),
        ensures
            final(self).graph() == assignment_constraints(
                old(self).graph(),
                place_pattern(place@),
                rvalue_pattern(*rvalue),
            ),
            final(self).graph().wf(),
            final(self).body() == old(self).body(),
    {
        let lhs_pattern = Self::process_place(place);
        let rhs_pattern = Self::process_rvalue(rvalue);
        match (lhs_pattern, rhs_pattern) {
            (AccessPattern::Direct(lhs), Some(AccessPattern::Ref(rhs))) => {
                if rhs.projection.len() > 0 && rhs.projection[0] == ProjectionElem::Deref {
                    let pointer = rhs.skip_steps(1);
                    self.graph.add_load(&pointer, &pointer);
                    self.graph.add_copy(&lhs, &pointer);
                } else {
                    self.graph.add_address(&lhs, &rhs);
                }
            },
            (AccessPattern::Direct(lhs), Some(AccessPattern::Direct(rhs))) => {
                self.graph.add_copy(&lhs, &rhs);
            },
            (AccessPattern::Direct(lhs), Some(AccessPattern::Constant(rhs))) => {
                self.graph.add_copy_constant(&lhs, &rhs);
            },
            (AccessPattern::Direct(lhs), Some(AccessPattern::Indirect(rhs))) => {
                self.graph.add_load(&lhs, &rhs);
            },
            (AccessPattern::Indirect(lhs), Some(AccessPattern::Direct(rhs))) => {
                self.graph.add_store(&lhs, &rhs);
            },
            (AccessPattern::Indirect(lhs), Some(AccessPattern::Constant(rhs))) => {
                self.graph.add_store_constant(&lhs, &rhs);
            },
            (AccessPattern::Direct(lhs), Some(AccessPattern::Initialize(rhs))) => {
                self.graph.add_initialize_copy(&lhs, &rhs);
            },
            (AccessPattern::Indirect(lhs), Some(AccessPattern::Initialize(rhs))) => {
                self.graph.add_initialize_store(&lhs, &rhs);
            },
            _ => {},
        }
    }

    /// The result of a call is a copy of its argument.
    pub fn process_call_arg_dest(&mut self, arg: &Place, dest: &Place)
        requires
            old(self).graph().wf(),
        ensures
            final(self).graph() == old(self).graph().with_constraint(
                NodeView::Place(dest@),
                NodeView::Place(arg@),
                ConstraintEdge::Copy,
            ),
            final(self).graph().wf(),
            final(self).body() == old(self).body(),
    {
        self.graph.add_copy(dest, arg);
    }

    /// Marks the result `dest` as returned by a call of which nothing is
    /// known, and `arg` as handed to that call.
    pub fn process_complix_func_ret(&mut self, arg: &Place, dest: &Place)
        requires
            old(self).graph().wf(),
        ensures
            final(self).graph() == opaque_call_constraints(old(self).graph(), arg@, dest@),
            final(self).graph().wf(),
            final(self).body() == old(self).body(),
    {
        self.graph.add_func_ret(dest, arg);
        self.graph.add_parameter_into(arg, dest);
    }

    /// Marks `arg` as having gone through a conversion between a raw
    /// pointer and a smart pointer, of which `dest` is the result.
    pub fn process_smart_pointer(&mut self, arg: &Place, dest: &Place)
        requires
            old(self).graph().wf(),
        ensures
            final(self).graph() == old(self).graph().with_constraint(
                NodeView::Place(arg@),
                NodeView::SmartPointer(dest@),
                ConstraintEdge::Address,
            ),
            final(self).graph().wf(),
            final(self).body() == old(self).body(),
    {
        self.graph.add_smart_pointer(arg, dest);
    }

    /// The result `dest` of a call is a copy of `arg` and a second handle on
    /// what `arg` is a handle on.
    pub fn process_alias_copy(&mut self, arg: &Place, dest: &Place)
        requires
            old(self).graph().wf(),
        ensures
            final(self).graph() == old(self).graph().with_constraint(
                NodeView::Place(dest@),
                NodeView::Place(arg@),
                ConstraintEdge::Copy,
            ).with_constraint(
                NodeView::Place(dest@),
                NodeView::Place(arg@),
                ConstraintEdge::AliasCopy,
            ),
            final(self).graph().wf(),
            final(self).body() == old(self).body(),
    {
        self.graph.add_copy(dest, arg);
        self.graph.add_alias_copy(dest, arg);
    }

    /// Records the constraints of a statement.
    pub fn visit_statement(&mut self, statement: &Statement)
        requires
            old(self).graph().wf(),
        ensures
            final(self).graph() == statement_constraints(old(self).graph(), *statement),
            final(self).graph().wf(),
            final(self).body() == old(self).body(),
    {
        match statement {
            Statement::Assign(place, rvalue) => {
                self.process_assignment(place, rvalue);
            },
            Statement::Other => {},
        }
    }

    fn apply_effect(&mut self, effect: CallEffect, args: &Vec<Operand>, dest: &Place)
        requires
            old(self).graph().wf(),
        ensures
            final(self).graph() == effect_constraints(old(self).graph(), effect, args@, dest@),
            final(self).graph().wf(),
            final(self).body() == old(self).body(),
    {
        match effect {
            CallEffect::ForwardFirst => {
                if args.len() > 0 {
                    match args[0].place() {
                        Some(arg) => {
                            self.process_call_arg_dest(arg, dest);
                        },
                        None => {},
                    }
                }
            },
            CallEffect::SmartPointer => {
                if args.len() > 0 {
                    match args[0].place() {
                        Some(arg) => {
                            self.process_smart_pointer(arg, dest);
                        },
                        None => {},
                    }
                }
            },
            CallEffect::Opaque => {
                let mut i: usize = 0;
                while i < args.len()
                    invariant
                        i <= args.len(),
                        effect == CallEffect::Opaque,
                        first_place(args@, 0) == first_place(args@, i as int),
                        self.graph() == old(self).graph(),
                        self.graph().wf(),
                        self.body() == old(self).body(),
                    decreases args.len() - i,
                {
                    match args[i].place() {
                        Some(arg) => {
                            assert(first_place(args@, i as int) == Some(*arg));
                            self.process_complix_func_ret(arg, dest);
                            return ;
                        },
                        None => {},
                    }
                    i += 1;
                }
            },
            CallEffect::Nothing => {},
        }
    }

    /// Records the constraints of a terminator: those of a call, by the
    /// policy for the function called.
    pub fn visit_terminator(&mut self, terminator: &Terminator)
        requires
            old(self).graph().wf(),
        ensures
            final(self).graph() == terminator_constraints(old(self).graph(), *terminator),
            final(self).graph().wf(),
            final(self).body() == old(self).body(),
    {
        match terminator {
            Terminator::Call { func, args, destination, span } => {
                if args.len() == 1 {
                    match args[0].place() {
                        Some(arg) => {
                            match func {
                                Some(callee) => {
                                    if call_policy(callee).alias {
                                        self.process_alias_copy(arg, destination);
                                        return ;
                                    }
                                },
                                None => {},
                            }
                            self.process_call_arg_dest(arg, destination);
                        },
                        None => {},
                    }
                }
                match func {
                    Some(callee) => {
                        let policy = call_policy(callee);
                        self.apply_effect(policy.effect, args, destination);
                    },
                    None => {},
                }
            },
            Terminator::Other => {},
        }
    }

    /// Records the constraints of every block of the body.
    pub fn visit_body(&mut self)
        requires
            old(self).graph().wf(),
        ensures
            final(self).graph() == blocks_constraints(
                old(self).graph(),
                old(self).body().blocks@,
                old(self).body().blocks@.len(),
            ),
            final(self).graph().wf(),
            final(self).body() == old(self).body(),
    {
        let body = self.body;
        let mut b: usize = 0;
        while b < body.blocks.len()
            invariant
                b <= body.blocks.len(),
                *body == old(self).body(),
                self.body() == old(self).body(),
                self.graph().wf(),
                self.graph() == blocks_constraints(old(self).graph(), body.blocks@, b as nat),
            decreases body.blocks.len() - b,
        {
            let block = &body.blocks[b];
            let ghost start = self.graph();
            let mut s: usize = 0;
            while s < block.statements.len()
                invariant
                    s <= block.statements.len(),
                    self.body() == old(self).body(),
                    self.graph().wf(),
                    self.graph() == statements_constraints(start, block.statements@, s as nat),
                decreases block.statements.len() - s,
            {
                self.visit_statement(&block.statements[s]);
                s += 1;
            }
            self.visit_terminator(&block.terminator);
            b += 1;
        }
    }

    /// Adds a copy edge from the longer place to the shorter one for every
    /// two places of the graph of which one begins the other: what is
    /// written into a part of a place is taken to reach the place as well.
    pub fn add_partial_copy(&mut self)
        requires
            old(self).graph().wf(),
        ensures
            final(self).graph() == with_partial_copies(old(self).graph()),
            is_partial_copy_closure(old(self).graph(), final(self).graph()),
            final(self).graph().wf(),
            final(self).body() == old(self).body(),
    {
        let n = self.graph.node_count();
        let ghost g0 = self.graph();
        let mut i: usize = 0;
        assert(self.graph().edges.subrange(0, g0.edges.len() as int) =~= g0.edges);
        while i < n
            invariant
                i <= n,
                n == g0.nodes.len(),
                g0 == old(self).graph(),
                g0.wf(),
                self.body() == old(self).body(),
                self.graph().wf(),
                self.graph() == with_partial_copies_upto(g0, i as nat),
                self.graph().nodes == g0.nodes,
                g0.edges.len() <= self.graph().edges.len(),
                self.graph().edges.subrange(0, g0.edges.len() as int) == g0.edges,
                forall|k: int|
                    g0.edges.len() <= k < self.graph().edges.len() ==> (
                    #[trigger] self.graph().edges[k]).kind == ConstraintEdge::Copy
                        && is_partial_copy(
                        g0,
                        self.graph().edges[k].source as int,
                        self.graph().edges[k].target as int,
                    ),
                forall|s: int, t: int| #[trigger]
                    is_partial_copy(g0, s, t) && (s < i || t < i) ==> self.graph().has_edge(
                        s,
                        t,
                        ConstraintEdge::Copy,
                    ),
            decreases n - i,
        {
            let ghost row_start = self.graph();
            let mut j: usize = i + 1;
            while j < n
                invariant
                    i < j <= n,
                    n == g0.nodes.len(),
                    g0 == old(self).graph(),
                    g0.wf(),
                    self.body() == old(self).body(),
                    self.graph().wf(),
                    row_start == with_partial_copies_upto(g0, i as nat),
                    self.graph() == with_partial_copies_of_node(row_start, i as int, j as int),
                    self.graph().nodes == g0.nodes,
                    g0.edges.len() <= self.graph().edges.len(),
                    self.graph().edges.subrange(0, g0.edges.len() as int) == g0.edges,
                    forall|k: int|
                        g0.edges.len() <= k < self.graph().edges.len() ==> (
                        #[trigger] self.graph().edges[k]).kind == ConstraintEdge::Copy
                            && is_partial_copy(
                            g0,
                            self.graph().edges[k].source as int,
                            self.graph().edges[k].target as int,
                        ),
                    forall|s: int, t: int| #[trigger]
                        is_partial_copy(g0, s, t) && (s < i || t < i || (s == i && t < j) || (t
                            == i && s < j)) ==> self.graph().has_edge(s, t, ConstraintEdge::Copy),
                decreases n - j,
            {
                let ghost before = self.graph();
                let mut edge: Option<(usize, usize)> = None;
                match (self.graph.node(i), self.graph.node(j)) {
                    (ConstraintNode::Place(first), ConstraintNode::Place(second)) => {
                        if second.is_prefix_of(first) {
                            edge = Some((i, j));
                        } else if first.is_prefix_of(second) {
                            edge = Some((j, i));
                        }
                    },
                    _ => {},
                }
                proof {
                    assert(g0.nodes[i as int] != g0.nodes[j as int]);
                    if is_partial_copy(g0, i as int, j as int) {
                        assert(edge == Some((i, j)));
                    }
                    if is_partial_copy(g0, j as int, i as int) {
                        let a = g0.nodes[i as int]->Place_0;
                        let b = g0.nodes[j as int]->Place_0;
                        if b.is_prefix_of(a) {
                            assert(a.projection.len() == b.projection.len());
                            assert(a.projection =~= b.projection);
                            assert(false);
                        }
                        assert(edge == Some((j, i)));
                    }
                }
                match edge {
                    Some((source, target)) => {
                        let added = self.graph.insert_edge(source, target, ConstraintEdge::Copy);
                        proof {
                            let now = self.graph();
                            crate::pointsto::solution::lemma_with_edge(
                                before,
                                source as int,
                                target as int,
                                ConstraintEdge::Copy,
                            );
                            assert(now == with_partial_copy(before, i as int, j as int));
                            if added {
                                assert(now.edges.subrange(0, g0.edges.len() as int)
                                    =~= before.edges.subrange(0, g0.edges.len() as int));
                                assert forall|k: int|
                                    g0.edges.len() <= k < now.edges.len() implies (
                                #[trigger] now.edges[k]).kind == ConstraintEdge::Copy
                                    && is_partial_copy(
                                    g0,
                                    now.edges[k].source as int,
                                    now.edges[k].target as int,
                                ) by {
                                    if k < before.edges.len() {
                                        assert(now.edges[k] == before.edges[k]);
                                    }
                                }
                            }
                        }
                    },
                    None => {
                        assert(self.graph() == with_partial_copy(before, i as int, j as int));
                    },
                }
                j += 1;
            }
            i += 1;
        }
    }

    /// Closes the graph under partial copies and hands it out.
    pub fn finish(self) -> (r: ConstraintGraph)
        requires
            self.graph().wf(),
        ensures
            r@ == with_partial_copies(self.graph()),
            is_partial_copy_closure(self.graph(), r@),
            r@.wf(),
    {
        let mut this = self;
        this.add_partial_copy();
        this.graph
    }
}

} // verus!
