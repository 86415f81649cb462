//! Finding the atomic operations among the functions of the call graph.

use crate::callgraph::{CallGraph, InstanceId};
use crate::ownership::{group_texts, regex_captures, regex_groups};
use vstd::prelude::*;

verus! {

/// The family of an atomic operation.
#[derive(Debug, PartialEq, Eq)]
pub enum AtomicFamily {
    /// An operation of `AtomicPtr`, with the type pointed to where the path
    /// names it.
    Pointer(Option<String>),
    /// An operation of any other atomic type.
    Generic,
}

/// An `AtomicFamily` as a mathematical value.
pub enum FamilyView {
    Pointer(Option<Seq<char>>),
    Generic,
}

impl View for AtomicFamily {
    type V = FamilyView;

    open spec fn view(&self) -> FamilyView {
        match self {
            AtomicFamily::Pointer(Some(t)) => FamilyView::Pointer(Some(t@)),
            AtomicFamily::Pointer(None) => FamilyView::Pointer(None),
            AtomicFamily::Generic => FamilyView::Generic,
        }
    }
}

/// The pattern of the paths of the atomic operations that the detector
/// looks at. Its third group matches `AtomicPtr`, its fifth the type
/// pointed to, and its sixth the name of any other atomic type.
pub open spec fn atomic_path_pattern() -> Seq<char> {
    r"^(std|core)::sync::atomic::((AtomicPtr)(::<(.*?)>)?|(Atomic[A-Za-z]+)(::<(.*?)>)?)(::)?(load|store|swap|compare_exchange(_weak)?|fetch_(and|add|sub|or|update|max|xor)|compare_and_swap)"@
}

/// The group with number `i` of a match took part in it.
pub open spec fn group_matched(groups: Seq<Option<Seq<char>>>, i: int) -> bool {
    0 <= i < groups.len() && groups[i].is_some()
}

/// The family that the groups of a match of the pattern show.
pub open spec fn spec_family(groups: Option<Seq<Option<Seq<char>>>>) -> Option<FamilyView> {
    match groups {
        Some(g) => if group_matched(g, 3) {
            Some(
                FamilyView::Pointer(
                    if group_matched(g, 5) {
                        g[5]
                    } else {
                        None
                    },
                ),
            )
        } else if group_matched(g, 6) {
            Some(FamilyView::Generic)
        } else {
            None
        },
        None => None,
    }
}

/// The family that the groups of a match of the pattern show.
pub fn atomic_family(groups: &Option<Vec<Option<String>>>) -> (r: Option<AtomicFamily>)
    ensures
        match r {
            Some(f) => spec_family(group_texts(*groups)) == Some(f@),
            None => spec_family(group_texts(*groups)).is_none(),
        },
{
    match groups {
        Some(g) => {
            if g.len() > 3 && g[3].is_some() {
                let pointee = if g.len() > 5 {
                    match &g[5] {
                        Some(t) => Some(t.clone()),
                        None => None,
                    }
                } else {
                    None
                };
                Some(AtomicFamily::Pointer(pointee))
            } else if g.len() > 6 && g[6].is_some() {
                Some(AtomicFamily::Generic)
            } else {
                None
            }
        },
        None => None,
    }
}

/// The family of the function with the path `path`.
pub open spec fn family_of_path(path: Seq<char>) -> Option<FamilyView> {
    spec_family(regex_groups(atomic_path_pattern(), path))
}

/// The family of the function with the path `path`.
pub fn family_of(path: &str) -> (r: Option<AtomicFamily>)
    ensures
        match r {
            Some(f) => family_of_path(path@) == Some(f@),
            None => family_of_path(path@).is_none(),
        },
{
    let groups = regex_captures(
        r"^(std|core)::sync::atomic::((AtomicPtr)(::<(.*?)>)?|(Atomic[A-Za-z]+)(::<(.*?)>)?)(::)?(load|store|swap|compare_exchange(_weak)?|fetch_(and|add|sub|or|update|max|xor)|compare_and_swap)",
        path,
    );
    atomic_family(&groups)
}

/// The operations of `AtomicPtr` on pointers to one type.
pub type PointerGroup = (String, Vec<InstanceId>);

/// A `PointerGroup` as a mathematical value.
pub type PointerGroupView = (Seq<char>, Seq<InstanceId>);

/// The view of a group.
pub open spec fn group_view(g: PointerGroup) -> PointerGroupView {
    (g.0@, g.1@)
}

/// The views of the groups of `groups`.
pub open spec fn group_views(groups: Seq<PointerGroup>) -> Seq<PointerGroupView> {
    groups.map_values(|g: PointerGroup| group_view(g))
}

/// The place of the first group for the type `pointee`, from `from` on.
pub open spec fn group_index(groups: Seq<PointerGroupView>, pointee: Seq<char>, from: int) -> Option<
    int,
>
    decreases groups.len() - from,
{
    if from < 0 || from >= groups.len() {
        None
    } else if groups[from].0 == pointee {
        Some(from)
    } else {
        group_index(groups, pointee, from + 1)
    }
}

/// `groups` with the operation `id` added to the group for `pointee`,
/// which is made the last group where there is none.
pub open spec fn with_operation(
    groups: Seq<PointerGroupView>,
    pointee: Seq<char>,
    id: InstanceId,
) -> Seq<PointerGroupView> {
    match group_index(groups, pointee, 0) {
        Some(i) => groups.update(i, (pointee, groups[i].1.push(id))),
        None => groups.push((pointee, seq![id])),
    }
}

/// Adds the operation `id` to the group for `pointee`.
pub fn add_operation(groups: &mut Vec<PointerGroup>, pointee: &String, id: InstanceId)
    ensures
        group_views(final(groups)@) == with_operation(group_views(old(groups)@), pointee@, id),
{
    let ghost before = group_views(groups@);
    let mut i: usize = 0;
    while i < groups.len()
        invariant
            i <= groups.len(),
            groups@ == old(groups)@,
            before == group_views(groups@),
            group_index(before, pointee@, 0) == group_index(before, pointee@, i as int),
        decreases groups.len() - i,
    {
        if groups[i].0 == *pointee {
            let ghost members = groups@[i as int].1@;
            groups[i].1.push(id);
            proof {
                assert(before[i as int].0 == pointee@);
                assert(group_views(groups@) =~= before.update(
                    i as int,
                    (pointee@, members.push(id)),
                ));
            }
            return ;
        }
        i += 1;
    }
    let mut members: Vec<InstanceId> = Vec::new();
    members.push(id);
    groups.push((pointee.clone(), members));
    proof {
        assert(group_views(groups@) =~= before.push((pointee@, seq![id])));
    }
}

/// The atomic operations among the functions of a call graph.
pub struct AtomicOperations {
    /// The operations of atomic types other than `AtomicPtr`.
    pub atomics: Vec<InstanceId>,
    /// The operations of `AtomicPtr`, by the type pointed to.
    pub pointers: Vec<PointerGroup>,
    /// The type pointed to that was named last.
    pub pointee: String,
}

/// An `AtomicOperations` as a mathematical value.
pub struct AtomicOperationsView {
    pub atomics: Seq<InstanceId>,
    pub pointers: Seq<PointerGroupView>,
    pub pointee: Seq<char>,
}

impl View for AtomicOperations {
    type V = AtomicOperationsView;

    open spec fn view(&self) -> AtomicOperationsView {
        AtomicOperationsView {
            atomics: self.atomics@,
            pointers: group_views(self.pointers@),
            pointee: self.pointee@,
        }
    }
}

/// The atomic operations among the first `n` nodes of the call graph. An
/// operation of `AtomicPtr` whose path does not name the type pointed to
/// goes into the group of the type that was named last.
pub open spec fn operations_among(callgraph: CallGraph, n: nat) -> AtomicOperationsView
    decreases n,
{
    if n == 0 {
        AtomicOperationsView {
            atomics: Seq::empty(),
            pointers: Seq::empty(),
            pointee: Seq::empty(),
        }
    } else {
        let found = operations_among(callgraph, (n - 1) as nat);
        let id = (n - 1) as usize;
        match family_of_path(callgraph.nodes[n - 1].spec_instance().path@) {
            Some(FamilyView::Pointer(named)) => {
                let pointee = match named {
                    Some(t) => t,
                    None => found.pointee,
                };
                AtomicOperationsView {
                    atomics: found.atomics,
                    pointers: with_operation(found.pointers, pointee, id),
                    pointee,
                }
            },
            Some(FamilyView::Generic) => AtomicOperationsView {
                atomics: found.atomics.push(id),
                pointers: found.pointers,
                pointee: found.pointee,
            },
            None => found,
        }
    }
}

/// The atomic operations among the functions of the call graph.
pub fn find_operations(callgraph: &CallGraph) -> (r: AtomicOperations)
    ensures
        r@ == operations_among(*callgraph, callgraph.nodes@.len()),
{
    let mut r = AtomicOperations {
        atomics: Vec::new(),
        pointers: Vec::new(),
        pointee: String::new(),
    };
    assert(group_views(r.pointers@) =~= Seq::<PointerGroupView>::empty());
    let mut i: usize = 0;
    while i < callgraph.nodes.len()
        invariant
            i <= callgraph.nodes.len(),
            r@ == operations_among(*callgraph, i as nat),
        decreases callgraph.nodes.len() - i,
    {
        let path = callgraph.nodes[i].instance().path.as_str();
        match family_of(path) {
            Some(AtomicFamily::Pointer(named)) => {
                match named {
                    Some(t) => {
                        r.pointee = t;
                    },
                    None => {},
                }
                let pointee = r.pointee.clone();
                add_operation(&mut r.pointers, &pointee, i);
            },
            Some(AtomicFamily::Generic) => {
                r.atomics.push(i);
            },
            None => {},
        }
        i += 1;
    }
    r
}

} // verus!
