//! Finding the atomic operations of a program and what each of them
//! accesses.

use crate::callgraph::{
    callsite_locations, direct_locations, CallGraph, Instance, InstanceId, Location, Program,
};
use crate::ir::{BasicBlock, Operand, Place, PlaceView, Rvalue, Statement, Terminator};
use crate::ir::Local;
use crate::ordering::AtomicOrd;
use crate::text::{contains, ends_with, is_suffix, occurs_in};
use vstd::prelude::*;

verus! {

/// The kind of an atomic operation.
#[derive(Copy, Clone, Debug, PartialEq, Eq, Hash, Structural)]
pub enum AtomicInstructions {
    CompareExchange,
    Load,
    Store,
    ReadModifyWrite,
}

/// The path ends with the name of an operation that reads, modifies and
/// writes in one step.
pub open spec fn is_read_modify_write(path: Seq<char>) -> bool {
    is_suffix("swap"@, path) || is_suffix("fetch_add"@, path) || is_suffix("fetch_sub"@, path)
        || is_suffix("fetch_and"@, path) || is_suffix("fetch_or"@, path) || is_suffix(
        "fetch_xor"@,
        path,
    ) || is_suffix("fetch_max"@, path) || is_suffix("compare_and_swap"@, path)
}

/// The kind of the atomic operation with this path, by the end of the path;
/// `None` where the path does not end with the name of an operation.
pub open spec fn operation_named(path: Seq<char>) -> Option<AtomicInstructions> {
    if is_suffix("compare_exchange"@, path) || is_suffix("compare_exchange_weak"@, path)
        || is_suffix("fetch_update"@, path) {
        Some(AtomicInstructions::CompareExchange)
    } else if is_suffix("load"@, path) {
        Some(AtomicInstructions::Load)
    } else if is_suffix("store"@, path) {
        Some(AtomicInstructions::Store)
    } else if is_read_modify_write(path) {
        Some(AtomicInstructions::ReadModifyWrite)
    } else {
        None
    }
}

/// The kind of the atomic operation with the path `path`.
pub fn operation_of(path: &str) -> (r: Option<AtomicInstructions>)
    ensures
        r == operation_named(path@),
{
    if ends_with(path, "compare_exchange") || ends_with(path, "compare_exchange_weak")
        || ends_with(path, "fetch_update") {
        Some(AtomicInstructions::CompareExchange)
    } else if ends_with(path, "load") {
        Some(AtomicInstructions::Load)
    } else if ends_with(path, "store") {
        Some(AtomicInstructions::Store)
    } else if ends_with(path, "swap") || ends_with(path, "fetch_add") || ends_with(
        path,
        "fetch_sub",
    ) || ends_with(path, "fetch_and") || ends_with(path, "fetch_or") || ends_with(
        path,
        "fetch_xor",
    ) || ends_with(path, "fetch_max") || ends_with(path, "compare_and_swap") {
        Some(AtomicInstructions::ReadModifyWrite)
    } else {
        None
    }
}

impl AtomicInstructions {
    /// The kind of the atomic operation that `instance` is, by the end of
    /// its path.
    pub fn from_instance(instance: &Instance) -> (r: Option<Self>)
        ensures
            r == operation_named(instance.path@),
    {
        operation_of(instance.path.as_str())
    }
}

/// The ordering that a literal printed as `text` names, by the end of the
/// text.
pub open spec fn ordering_named(text: Seq<char>) -> Option<AtomicOrd> {
    if is_suffix("Relaxed"@, text) {
        Some(AtomicOrd::Relaxed)
    } else if is_suffix("Acquire"@, text) {
        Some(AtomicOrd::Acquire)
    } else if is_suffix("Release"@, text) {
        Some(AtomicOrd::Release)
    } else if is_suffix("AcqRel"@, text) {
        Some(AtomicOrd::AcqRel)
    } else if is_suffix("SeqCst"@, text) {
        Some(AtomicOrd::SeqCst)
    } else {
        None
    }
}

/// The ordering that the statement assigns to `local` as a literal.
pub open spec fn statement_ordering(statement: Statement, local: Local) -> Option<AtomicOrd> {
    match statement {
        Statement::Assign(place, Rvalue::Use(Operand::Constant(c))) => if place.local == local {
            ordering_named(c.text@)
        } else {
            None
        },
        _ => None,
    }
}

/// The ordering that the first of the statements from `from` on that
/// assigns an ordering to `local` assigns.
pub open spec fn block_ordering(statements: Seq<Statement>, local: Local, from: int) -> Option<
    AtomicOrd,
>
    decreases statements.len() - from,
{
    if from < 0 || from >= statements.len() {
        None
    } else {
        match statement_ordering(statements[from], local) {
            Some(o) => Some(o),
            None => block_ordering(statements, local, from + 1),
        }
    }
}

impl AtomicOrd {
    /// The ordering that is handed to an atomic operation in the local of
    /// `place`: the one named by the first literal that the block assigns
    /// to that local. `None` where the block assigns no such literal, which
    /// is the case where the ordering is not fixed in the source text.
    pub fn from_ordering(block: &BasicBlock, place: &Place) -> (r: Option<AtomicOrd>)
        ensures
            r == block_ordering(block.statements@, place.local, 0),
    {
        let mut i: usize = 0;
        while i < block.statements.len()
            invariant
                i <= block.statements.len(),
                block_ordering(block.statements@, place.local, 0) == block_ordering(
                    block.statements@,
                    place.local,
                    i as int,
                ),
            decreases block.statements.len() - i,
        {
            match &block.statements[i] {
                Statement::Assign(assigned, Rvalue::Use(Operand::Constant(c))) => {
                    if assigned.local == place.local {
                        let text = c.text.as_str();
                        if ends_with(text, "Relaxed") {
                            return Some(AtomicOrd::Relaxed);
                        } else if ends_with(text, "Acquire") {
                            return Some(AtomicOrd::Acquire);
                        } else if ends_with(text, "Release") {
                            return Some(AtomicOrd::Release);
                        } else if ends_with(text, "AcqRel") {
                            return Some(AtomicOrd::AcqRel);
                        } else if ends_with(text, "SeqCst") {
                            return Some(AtomicOrd::SeqCst);
                        }
                    }
                },
                _ => {},
            }
            i += 1;
        }
        None
    }
}

/// One atomic operation of the program, as it was found at a call.
#[derive(Debug, PartialEq, Eq)]
pub struct AtomicInfo {
    /// The atomic variable: the first argument of the call.
    pub atomic_place: Option<Place>,
    /// What the operation reads into or writes from: the result of the call
    /// for operations that read, then the value written for operations that
    /// write.
    pub atomic_value: Vec<Place>,
    pub atomic_operate: Option<AtomicInstructions>,
    /// The function that makes the call.
    pub caller_instance: InstanceId,
    /// The orderings that the call names, in the order of its arguments.
    pub ordering: Vec<AtomicOrd>,
    /// Where in the source text the call stands.
    pub source_info: String,
}

/// An `AtomicInfo` as a mathematical value.
pub struct AtomicInfoView {
    pub atomic_place: Option<PlaceView>,
    pub atomic_value: Seq<PlaceView>,
    pub atomic_operate: Option<AtomicInstructions>,
    pub caller_instance: InstanceId,
    pub ordering: Seq<AtomicOrd>,
    pub source_info: Seq<char>,
}

/// The views of the places of `places`.
pub open spec fn place_views(places: Seq<Place>) -> Seq<PlaceView> {
    places.map_values(|p: Place| p@)
}

impl View for AtomicInfo {
    type V = AtomicInfoView;

    open spec fn view(&self) -> AtomicInfoView {
        AtomicInfoView {
            atomic_place: match self.atomic_place {
                Some(p) => Some(p@),
                None => None,
            },
            atomic_value: place_views(self.atomic_value@),
            atomic_operate: self.atomic_operate,
            caller_instance: self.caller_instance,
            ordering: self.ordering@,
            source_info: self.source_info@,
        }
    }
}

/// A copy of `places`.
pub fn clone_places(places: &Vec<Place>) -> (r: Vec<Place>)
    ensures
        place_views(r@) == place_views(places@),
{
    let mut r: Vec<Place> = Vec::new();
    let mut i: usize = 0;
    while i < places.len()
        invariant
            i <= places.len(),
            r@.len() == i,
            forall|k: int| 0 <= k < i ==> (#[trigger] r@[k])@ == places@[k]@,
        decreases places.len() - i,
    {
        r.push(places[i].clone());
        i += 1;
    }
    assert(place_views(r@) =~= place_views(places@));
    r
}

/// Whether two lists hold the same places in the same order.
pub fn same_places(a: &Vec<Place>, b: &Vec<Place>) -> (r: bool)
    ensures
        r == (place_views(a@) == place_views(b@)),
{
    if a.len() != b.len() {
        assert(place_views(a@).len() != place_views(b@).len());
        return false;
    }
    let mut i: usize = 0;
    while i < a.len()
        invariant
            i <= a.len(),
            a.len() == b.len(),
            forall|k: int| 0 <= k < i ==> (#[trigger] a@[k])@ == b@[k]@,
        decreases a.len() - i,
    {
        if !a[i].same(&b[i]) {
            assert(place_views(a@)[i as int] != place_views(b@)[i as int]);
            return false;
        }
        i += 1;
    }
    assert(place_views(a@) =~= place_views(b@));
    true
}

/// Whether two lists hold the same orderings in the same order.
pub fn same_orderings(a: &Vec<AtomicOrd>, b: &Vec<AtomicOrd>) -> (r: bool)
    ensures
        r == (a@ == b@),
{
    if a.len() != b.len() {
        return false;
    }
    let mut i: usize = 0;
    while i < a.len()
        invariant
            i <= a.len(),
            a.len() == b.len(),
            forall|k: int| 0 <= k < i ==> a@[k] == b@[k],
        decreases a.len() - i,
    {
        if a[i] != b[i] {
            return false;
        }
        i += 1;
    }
    assert(a@ =~= b@);
    true
}

impl Clone for AtomicInfo {
    fn clone(&self) -> (r: Self)
        ensures
            r@ == self@,
    {
        let atomic_place = match &self.atomic_place {
            Some(p) => Some(p.clone()),
            None => None,
        };
        let mut ordering: Vec<AtomicOrd> = Vec::new();
        let mut i: usize = 0;
        while i < self.ordering.len()
            invariant
                i <= self.ordering.len(),
                ordering@ == self.ordering@.take(i as int),
            decreases self.ordering.len() - i,
        {
            ordering.push(self.ordering[i]);
            assert(ordering@ =~= self.ordering@.take(i + 1));
            i += 1;
        }
        assert(self.ordering@.take(self.ordering@.len() as int) =~= self.ordering@);
        AtomicInfo {
            atomic_place,
            atomic_value: clone_places(&self.atomic_value),
            atomic_operate: self.atomic_operate,
            caller_instance: self.caller_instance,
            ordering,
            source_info: self.source_info.clone(),
        }
    }
}

impl AtomicInfo {
    /// An atomic operation with these properties.
    pub fn new(
        atomic_place: Option<Place>,
        atomic_value: Vec<Place>,
        atomic_operate: Option<AtomicInstructions>,
        caller_instance: InstanceId,
        ordering: Vec<AtomicOrd>,
        source_info: String,
    ) -> (r: Self)
        ensures
            r.atomic_place == atomic_place,
            r.atomic_value == atomic_value,
            r.atomic_operate == atomic_operate,
            r.caller_instance == caller_instance,
            r.ordering == ordering,
            r.source_info == source_info,
    {
        AtomicInfo {
            atomic_place,
            atomic_value,
            atomic_operate,
            caller_instance,
            ordering,
            source_info,
        }
    }

    /// Whether `self` and `other` describe the same operation.
    pub fn same(&self, other: &AtomicInfo) -> (r: bool)
        ensures
            r == (self@ == other@),
    {
        let places = match &self.atomic_place {
            Some(a) => match &other.atomic_place {
                Some(b) => a.same(b),
                None => false,
            },
            None => other.atomic_place.is_none(),
        };
        let kinds = match self.atomic_operate {
            Some(a) => match other.atomic_operate {
                Some(b) => a == b,
                None => false,
            },
            None => other.atomic_operate.is_none(),
        };
        places && kinds && self.caller_instance == other.caller_instance && same_places(
            &self.atomic_value,
            &other.atomic_value,
        ) && same_orderings(&self.ordering, &other.ordering) && self.source_info
            == other.source_info
    }
}

/// Which arguments of an atomic operation say what: whether the result of
/// the call is a value of the operation, which argument is written, and
/// which arguments hold the orderings.
#[derive(Copy, Clone, Debug, PartialEq, Eq, Structural)]
pub struct CallShape {
    pub reads: bool,
    pub written: Option<usize>,
    pub ordering: usize,
    pub failure_ordering: Option<usize>,
}

/// The arguments of an operation with this kind and this path.
pub open spec fn spec_call_shape(operate: AtomicInstructions, path: Seq<char>) -> CallShape {
    match operate {
        AtomicInstructions::CompareExchange => CallShape {
            reads: true,
            written: Some(2),
            ordering: 3,
            failure_ordering: Some(4),
        },
        AtomicInstructions::Load => CallShape {
            reads: true,
            written: None,
            ordering: 1,
            failure_ordering: None,
        },
        AtomicInstructions::Store => CallShape {
            reads: false,
            written: Some(1),
            ordering: 2,
            failure_ordering: None,
        },
        AtomicInstructions::ReadModifyWrite => if is_suffix("compare_and_swap"@, path) {
            CallShape { reads: true, written: Some(2), ordering: 3, failure_ordering: None }
        } else {
            CallShape { reads: true, written: Some(1), ordering: 2, failure_ordering: None }
        },
    }
}

/// The arguments of an operation with this kind and this path.
pub fn call_shape(operate: AtomicInstructions, path: &str) -> (r: CallShape)
    ensures
        r == spec_call_shape(operate, path@),
{
    match operate {
        AtomicInstructions::CompareExchange => CallShape {
            reads: true,
            written: Some(2),
            ordering: 3,
            failure_ordering: Some(4),
        },
        AtomicInstructions::Load => CallShape {
            reads: true,
            written: None,
            ordering: 1,
            failure_ordering: None,
        },
        AtomicInstructions::Store => CallShape {
            reads: false,
            written: Some(1),
            ordering: 2,
            failure_ordering: None,
        },
        AtomicInstructions::ReadModifyWrite => {
            if ends_with(path, "compare_and_swap") {
                CallShape { reads: true, written: Some(2), ordering: 3, failure_ordering: None }
            } else {
                CallShape { reads: true, written: Some(1), ordering: 2, failure_ordering: None }
            }
        },
    }
}

/// The place that argument `i` of a call reads.
pub open spec fn arg_place(args: Seq<Operand>, i: int) -> Option<Place> {
    if 0 <= i < args.len() {
        args[i].spec_place()
    } else {
        None
    }
}

/// The ordering that argument `i` of the call at the end of `block` holds,
/// where it can be read off the block.
pub open spec fn arg_ordering(block: BasicBlock, args: Seq<Operand>, i: int) -> Seq<AtomicOrd> {
    match arg_place(args, i) {
        Some(p) => match block_ordering(block.statements@, p.local, 0) {
            Some(o) => seq![o],
            None => Seq::empty(),
        },
        None => Seq::empty(),
    }
}

/// The number of orderings that a call with this shape names.
pub open spec fn named_orderings(shape: CallShape) -> nat {
    match shape.failure_ordering {
        Some(_) => 2,
        None => 1,
    }
}

/// The orderings of a call with this shape that can be read off the block,
/// in the order of the arguments.
pub open spec fn call_orderings(block: BasicBlock, args: Seq<Operand>, shape: CallShape) -> Seq<
    AtomicOrd,
> {
    arg_ordering(block, args, shape.ordering as int) + match shape.failure_ordering {
        Some(i) => arg_ordering(block, args, i as int),
        None => Seq::empty(),
    }
}

/// The values of a call with this shape: its result where it reads, then
/// the place it writes from.
pub open spec fn call_values(args: Seq<Operand>, destination: Place, shape: CallShape) -> Seq<
    PlaceView,
> {
    (if shape.reads {
        seq![destination@]
    } else {
        Seq::empty()
    }) + match shape.written {
        Some(i) => match arg_place(args, i as int) {
            Some(p) => seq![p@],
            None => Seq::empty(),
        },
        None => Seq::empty(),
    }
}

/// What is recorded of the call of the atomic operation `path` at the end
/// of `block`, made by `caller`. Nothing is recorded where the block does
/// not end in a call, where the call stands in the source of a dependency,
/// where the path is not that of an atomic operation, and where one of the
/// orderings that the call names cannot be read off the block.
pub open spec fn call_info(path: Seq<char>, block: BasicBlock, caller: InstanceId) -> Option<
    AtomicInfoView,
> {
    match block.terminator {
        Terminator::Call { func, args, destination, span } => {
            if occurs_in(".cargo"@, span@) {
                None
            } else {
                match operation_named(path) {
                    Some(operate) => {
                        let shape = spec_call_shape(operate, path);
                        let ordering = call_orderings(block, args@, shape);
                        if ordering.len() != named_orderings(shape) {
                            None
                        } else {
                            Some(
                                AtomicInfoView {
                                    atomic_place: match arg_place(args@, 0) {
                                        Some(p) => Some(p@),
                                        None => None,
                                    },
                                    atomic_value: call_values(args@, destination, shape),
                                    atomic_operate: Some(operate),
                                    caller_instance: caller,
                                    ordering,
                                    source_info: span@,
                                },
                            )
                        }
                    },
                    None => None,
                }
            }
        },
        Terminator::Other => None,
    }
}

fn read_arg_ordering(block: &BasicBlock, args: &Vec<Operand>, i: usize, out: &mut Vec<AtomicOrd>)
    ensures
        final(out)@ == old(out)@ + arg_ordering(*block, args@, i as int),
{
    if i < args.len() {
        match args[i].place() {
            Some(p) => {
                match AtomicOrd::from_ordering(block, p) {
                    Some(o) => {
                        out.push(o);
                        assert(out@ =~= old(out)@ + seq![o]);
                        return ;
                    },
                    None => {},
                }
            },
            None => {},
        }
    }
    assert(out@ =~= old(out)@ + Seq::<AtomicOrd>::empty());
}

/// Reads off the block what is recorded of the call of the atomic operation
/// `path` at its end.
pub fn read_call(path: &str, block: &BasicBlock, caller: InstanceId) -> (r: Option<AtomicInfo>)
    ensures
        match r {
            Some(info) => call_info(path@, *block, caller) == Some(info@),
            None => call_info(path@, *block, caller).is_none(),
        },
{
    match &block.terminator {
        Terminator::Call { func, args, destination, span } => {
            if contains(span.as_str(), ".cargo") {
                return None;
            }
            let operate = match operation_of(path) {
                Some(operate) => operate,
                None => {
                    return None;
                },
            };
            let shape = call_shape(operate, path);
            let mut ordering: Vec<AtomicOrd> = Vec::new();
            read_arg_ordering(block, args, shape.ordering, &mut ordering);
            match shape.failure_ordering {
                Some(i) => {
                    read_arg_ordering(block, args, i, &mut ordering);
                },
                None => {
                    assert(ordering@ =~= ordering@ + Seq::<AtomicOrd>::empty());
                },
            }
            assert(ordering@ =~= call_orderings(*block, args@, shape));
            let named: usize = match shape.failure_ordering {
                Some(_) => 2,
                None => 1,
            };
            if ordering.len() != named {
                return None;
            }
            let atomic_place = if args.len() > 0 {
                match args[0].place() {
                    Some(p) => Some(p.clone()),
                    None => None,
                }
            } else {
                None
            };
            let mut values: Vec<Place> = Vec::new();
            if shape.reads {
                values.push(destination.clone());
            }
            match shape.written {
                Some(i) => {
                    if i < args.len() {
                        match args[i].place() {
                            Some(p) => {
                                values.push(p.clone());
                            },
                            None => {},
                        }
                    }
                },
                None => {},
            }
            assert(place_views(values@) =~= call_values(args@, *destination, shape));
            Some(
                AtomicInfo::new(
                    atomic_place,
                    values,
                    Some(operate),
                    caller,
                    ordering,
                    span.clone(),
                ),
            )
        },
        Terminator::Other => None,
    }
}

/// The views of the operations of `infos`.
pub open spec fn info_views(infos: Seq<AtomicInfo>) -> Seq<AtomicInfoView> {
    infos.map_values(|i: AtomicInfo| i@)
}

/// What is recorded of the call of the atomic operation `path` that
/// `caller` makes at `location`.
pub open spec fn site_info(
    path: Seq<char>,
    program: Program,
    callgraph: CallGraph,
    caller: InstanceId,
    location: Location,
) -> Option<AtomicInfoView> {
    let body = program.functions[callgraph.nodes[caller as int].spec_instance().def_id as int].body;
    if location.block < body.blocks.len() {
        call_info(path, body.blocks[location.block as int], caller)
    } else {
        None
    }
}

/// What is recorded of the calls that `caller` makes at the first `n` of
/// `locations`.
pub open spec fn sites_infos(
    path: Seq<char>,
    program: Program,
    callgraph: CallGraph,
    caller: InstanceId,
    locations: Seq<Location>,
    n: nat,
) -> Seq<AtomicInfoView>
    decreases n,
{
    if n == 0 {
        Seq::empty()
    } else {
        sites_infos(path, program, callgraph, caller, locations, (n - 1) as nat) + match site_info(
            path,
            program,
            callgraph,
            caller,
            locations[n - 1],
        ) {
            Some(info) => seq![info],
            None => Seq::empty(),
        }
    }
}

/// What is recorded of the calls of the function `target` along the edge
/// `e` of the call graph: of the calls of that edge where it leads to
/// `target`, and nothing where it leads elsewhere.
pub open spec fn edge_infos(
    path: Seq<char>,
    program: Program,
    callgraph: CallGraph,
    target: InstanceId,
    e: int,
) -> Seq<AtomicInfoView> {
    let edge = callgraph.edges[e];
    if edge.target == target {
        let locations = direct_locations(edge.callsites@);
        sites_infos(path, program, callgraph, edge.source, locations, locations.len())
    } else {
        Seq::empty()
    }
}

/// What is recorded of the calls of the function `target` along the first
/// `n` edges of the call graph.
pub open spec fn callers_infos(
    path: Seq<char>,
    program: Program,
    callgraph: CallGraph,
    target: InstanceId,
    n: nat,
) -> Seq<AtomicInfoView>
    decreases n,
{
    if n == 0 {
        Seq::empty()
    } else {
        callers_infos(path, program, callgraph, target, (n - 1) as nat) + edge_infos(
            path,
            program,
            callgraph,
            target,
            n - 1,
        )
    }
}

/// Collects the calls of one atomic operation.
pub struct AtomicCollector<'a> {
    pub tcx: &'a Program,
    pub instance_id: InstanceId,
    pub instance: &'a Instance,
    pub atomics: Vec<AtomicInfo>,
}

impl<'a> AtomicCollector<'a> {
    /// The program in which the calls are looked for.
    pub open spec fn program(&self) -> Program {
        *self.tcx
    }

    /// The atomic operation, by its number in the call graph.
    pub open spec fn instance_id(&self) -> InstanceId {
        self.instance_id
    }

    /// The atomic operation.
    pub open spec fn instance(&self) -> Instance {
        *self.instance
    }

    /// A collector for the calls of `instance`, which is the node
    /// `instance_id` of the call graph.
    pub fn new(tcx: &'a Program, instance_id: InstanceId, instance: &'a Instance) -> (r: Self)
        ensures
            r.program() == *tcx,
            r.instance_id() == instance_id,
            r.instance() == *instance,
            r.atomics@.len() == 0,
    {
        AtomicCollector { tcx, instance_id, instance, atomics: Vec::new() }
    }

    /// Records every call of the operation that names its orderings in the
    /// source text of the program itself, caller by caller in the order of
    /// the edges of the call graph, and call by call.
    pub fn analyze(&mut self, callgraph: &CallGraph)
        requires
            callgraph.consistent(old(self).program()),
        ensures
            final(self).program() == old(self).program(),
            final(self).instance_id() == old(self).instance_id(),
            final(self).instance() == old(self).instance(),
            info_views(final(self).atomics@) == info_views(old(self).atomics@) + callers_infos(
                old(self).instance().path@,
                old(self).program(),
                *callgraph,
                old(self).instance_id(),
                callgraph.edges@.len(),
            ),
    {
        let ghost path = self.instance.path@;
        let ghost start = info_views(self.atomics@);
        let target = self.instance_id;
        let mut e: usize = 0;
        proof {
            assert(info_views(self.atomics@) =~= start + Seq::<AtomicInfoView>::empty());
        }
        while e < callgraph.edges.len()
            invariant
                e <= callgraph.edges.len(),
                callgraph.consistent(*self.tcx),
                self.tcx == old(self).tcx,
                self.instance == old(self).instance,
                self.instance_id == target,
                target == old(self).instance_id,
                path == self.instance.path@,
                info_views(self.atomics@) == start + callers_infos(
                    path,
                    *self.tcx,
                    *callgraph,
                    target,
                    e as nat,
                ),
            decreases callgraph.edges.len() - e,
        {
            let ghost done = callers_infos(path, *self.tcx, *callgraph, target, e as nat);
            let edge = &callgraph.edges[e];
            if edge.target == target {
                let caller = edge.source;
                proof {
                    callgraph.lemma_callsites_of_edge(e as int);
                }
                match callsite_locations(callgraph, caller, target) {
                    Some(locations) => {
                        let node = callgraph.index_to_instance(caller).unwrap();
                        let function = &self.tcx.functions[node.instance().def_id];
                        let mut i: usize = 0;
                        proof {
                            assert(info_views(self.atomics@) =~= start + done + Seq::<
                                AtomicInfoView,
                            >::empty());
                        }
                        while i < locations.len()
                            invariant
                                i <= locations.len(),
                                e < callgraph.edges.len(),
                                callgraph.consistent(*self.tcx),
                                self.tcx == old(self).tcx,
                                self.instance == old(self).instance,
                                self.instance_id == target,
                                target == old(self).instance_id,
                                path == self.instance.path@,
                                caller < callgraph.nodes.len(),
                                *node == callgraph.nodes[caller as int],
                                *function == self.tcx.functions[node.spec_instance().def_id as int],
                                info_views(self.atomics@) == start + done + sites_infos(
                                    path,
                                    *self.tcx,
                                    *callgraph,
                                    caller,
                                    locations@,
                                    i as nat,
                                ),
                            decreases locations.len() - i,
                        {
                            let location = locations[i];
                            let ghost sofar = sites_infos(
                                path,
                                *self.tcx,
                                *callgraph,
                                caller,
                                locations@,
                                i as nat,
                            );
                            let ghost before = self.atomics@;
                            let mut found: Option<AtomicInfo> = None;
                            if location.block < function.body.blocks.len() {
                                found =
                                read_call(
                                    self.instance.path.as_str(),
                                    &function.body.blocks[location.block],
                                    caller,
                                );
                            }
                            match found {
                                Some(info) => {
                                    let ghost view = info@;
                                    self.atomics.push(info);
                                    proof {
                                        assert(info_views(self.atomics@) =~= info_views(
                                            before,
                                        ).push(view));
                                        assert(info_views(self.atomics@) =~= start + done + (sofar
                                            + seq![view]));
                                    }
                                },
                                None => {
                                    proof {
                                        assert(info_views(self.atomics@) =~= start + done + (sofar
                                            + Seq::<AtomicInfoView>::empty()));
                                    }
                                },
                            }
                            i += 1;
                        }
                        proof {
                            assert(info_views(self.atomics@) =~= start + (done + edge_infos(
                                path,
                                *self.tcx,
                                *callgraph,
                                target,
                                e as int,
                            )));
                        }
                    },
                    None => {
                        proof {
                            assert(info_views(self.atomics@) =~= start + (done + Seq::<
                                AtomicInfoView,
                            >::empty()));
                        }
                    },
                }
            } else {
                proof {
                    assert(info_views(self.atomics@) =~= start + (done + Seq::<
                        AtomicInfoView,
                    >::empty()));
                }
            }
            e += 1;
        }
    }
}

} // verus!
