//! The program representation that the analyses read: function bodies made
//! of basic blocks, the places they assign, and the calls between them.

use vstd::prelude::*;

verus! {

/// A local variable of a function body, by its number. Local 0 holds the
/// return value, the parameters follow, then the variables and temporaries.
pub type Local = usize;

/// One step from a place to a part of it.
#[derive(Copy, Clone, Debug, PartialEq, Eq, Hash, Structural)]
pub enum ProjectionElem {
    /// What the place points to.
    Deref,
    /// The field with this number.
    Field(usize),
    /// The element whose index the local with this number holds.
    Index(usize),
    /// The element of an array or slice at a fixed offset, counted from the
    /// end where `from_end` is set.
    ConstantIndex { offset: usize, min_length: usize, from_end: bool },
    /// The part of an array or slice between two fixed offsets.
    Subslice { from: usize, to: usize, from_end: bool },
    /// The place taken as the variant with this number of its enum.
    Downcast(usize),
    /// The place taken at the type that an opaque type stands for.
    OpaqueCast,
}

/// A memory location: a local and the path from it to the part meant.
#[derive(Debug, PartialEq, Eq, Hash)]
pub struct Place {
    pub local: Local,
    pub projection: Vec<ProjectionElem>,
}

/// A `Place` as a mathematical value. Two places are the same location
/// exactly if their views are equal.
pub struct PlaceView {
    pub local: Local,
    pub projection: Seq<ProjectionElem>,
}

impl View for Place {
    type V = PlaceView;

    open spec fn view(&self) -> PlaceView {
        PlaceView { local: self.local, projection: self.projection@ }
    }
}

impl PlaceView {
    /// The local itself, with no projection.
    pub open spec fn of_local(local: Local) -> PlaceView {
        PlaceView { local, projection: Seq::empty() }
    }

    /// Some step of the path is not a dereference.
    pub open spec fn has_field(self) -> bool {
        exists|i: int| 0 <= i < self.projection.len() && self.projection[i] != ProjectionElem::Deref
    }

    /// The path of `self` is the beginning of the path of `other`, and the
    /// local is the same.
    pub open spec fn is_prefix_of(self, other: PlaceView) -> bool {
        self.local == other.local && self.projection.len() <= other.projection.len()
            && other.projection.subrange(0, self.projection.len() as int) == self.projection
    }
}

impl Clone for Place {
    fn clone(&self) -> (r: Self)
        ensures
            r@ == self@,
    {
        Place { local: self.local, projection: self.projection.clone() }
    }
}

/// Whether two paths hold the same steps.
pub fn same_projection(a: &Vec<ProjectionElem>, b: &Vec<ProjectionElem>) -> (r: bool)
    ensures
        r == (a@ == b@),
{
    if a.len() != b.len() {
        return false;
    }
    let mut i: usize = 0;
    while i < a.len()
        invariant
            i <= a.len(),
            a.len() == b.len(),
            forall|k: int| 0 <= k < i ==> a@[k] == b@[k],
        decreases a.len() - i,
    {
        if a[i] != b[i] {
            return false;
        }
        i += 1;
    }
    assert(a@ =~= b@);
    true
}

impl Place {
    /// The place that is the local itself.
    pub fn from_local(local: Local) -> (r: Place)
        ensures
            r@ == PlaceView::of_local(local),
    {
        Place { local, projection: Vec::new() }
    }

    /// Whether `self` and `other` are the same location.
    pub fn same(&self, other: &Place) -> (r: bool)
        ensures
            r == (self@ == other@),
    {
        self.local == other.local && same_projection(&self.projection, &other.projection)
    }

    /// Whether some step of the path is not a dereference.
    pub fn has_field(&self) -> (r: bool)
        ensures
            r == self@.has_field(),
    {
        let mut i: usize = 0;
        while i < self.projection.len()
            invariant
                i <= self.projection.len(),
                forall|k: int| 0 <= k < i ==> self.projection@[k] == ProjectionElem::Deref,
            decreases self.projection.len() - i,
        {
            if self.projection[i] != ProjectionElem::Deref {
                return true;
            }
            i += 1;
        }
        false
    }

    /// Whether the path of `self` begins the path of `other`, on the same
    /// local.
    pub fn is_prefix_of(&self, other: &Place) -> (r: bool)
        ensures
            r == self@.is_prefix_of(other@),
    {
        if self.local != other.local || self.projection.len() > other.projection.len() {
            return false;
        }
        let mut i: usize = 0;
        while i < self.projection.len()
            invariant
                i <= self.projection.len(),
                self.projection.len() <= other.projection.len(),
                forall|k: int| 0 <= k < i ==> self.projection@[k] == other.projection@[k],
            decreases self.projection.len() - i,
        {
            if self.projection[i] != other.projection[i] {
                assert(other.projection@.subrange(0, self.projection.len() as int)[i as int]
                    == other.projection@[i as int]);
                return false;
            }
            i += 1;
        }
        assert(other.projection@.subrange(0, self.projection.len() as int) =~= self.projection@);
        true
    }

    /// The place without the first `n` steps of its path.
    pub fn skip_steps(&self, n: usize) -> (r: Place)
        requires
            n <= self.projection.len(),
        ensures
            r@ == (PlaceView {
                local: self.local,
                projection: self.projection@.subrange(n as int, self.projection.len() as int),
            }),
    {
        let mut projection: Vec<ProjectionElem> = Vec::new();
        let mut i: usize = n;
        while i < self.projection.len()
            invariant
                n <= i <= self.projection.len(),
                projection@ == self.projection@.subrange(n as int, i as int),
            decreases self.projection.len() - i,
        {
            projection.push(self.projection[i]);
            assert(projection@ =~= self.projection@.subrange(n as int, i + 1));
            i += 1;
        }
        Place { local: self.local, projection }
    }
}

/// A literal of the program text.
#[derive(Debug, PartialEq, Eq, Hash)]
pub struct Constant {
    /// The literal as the program representation prints it.
    pub text: String,
    /// The value of the literal, printed, where it can be evaluated.
    pub value: Option<String>,
}

/// A `Constant` as a mathematical value.
pub struct ConstantView {
    pub text: Seq<char>,
    pub value: Option<Seq<char>>,
}

impl View for Constant {
    type V = ConstantView;

    open spec fn view(&self) -> ConstantView {
        ConstantView {
            text: self.text@,
            value: match self.value {
                Some(v) => Some(v@),
                None => None,
            },
        }
    }
}

impl Clone for Constant {
    fn clone(&self) -> (r: Self)
        ensures
            r@ == self@,
    {
        let value = match &self.value {
            Some(v) => Some(v.clone()),
            None => None,
        };
        Constant { text: self.text.clone(), value }
    }
}

impl Constant {
    /// Whether `self` and `other` are the same literal.
    pub fn same(&self, other: &Constant) -> (r: bool)
        ensures
            r == (self@ == other@),
    {
        if self.text != other.text {
            return false;
        }
        match &self.value {
            Some(a) => match &other.value {
                Some(b) => *a == *b,
                None => false,
            },
            None => other.value.is_none(),
        }
    }
}

/// A value that a statement or a call reads.
#[derive(Debug, PartialEq, Eq)]
pub enum Operand {
    Copy(Place),
    Move(Place),
    Constant(Constant),
}

impl Operand {
    /// The place that the operand reads, unless it is a literal.
    pub open spec fn spec_place(self) -> Option<Place> {
        match self {
            Operand::Copy(p) => Some(p),
            Operand::Move(p) => Some(p),
            Operand::Constant(_) => None,
        }
    }

    /// The place that the operand reads, unless it is a literal.
    pub fn place(&self) -> (r: Option<&Place>)
        ensures
            match r {
                Some(p) => self.spec_place() == Some(*p),
                None => self.spec_place().is_none(),
            },
    {
        match self {
            Operand::Copy(p) => Some(p),
            Operand::Move(p) => Some(p),
            Operand::Constant(_) => None,
        }
    }
}

/// The right-hand side of an assignment.
#[derive(Debug, PartialEq, Eq)]
pub enum Rvalue {
    /// The operand itself.
    Use(Operand),
    /// An array of copies of the operand.
    Repeat(Operand),
    /// The operand, cast.
    Cast(Operand),
    /// A reference to the place.
    Ref(Place),
    /// A raw pointer to the place.
    AddressOf(Place),
    /// A copy of the place, made in order to dereference it.
    CopyForDeref(Place),
    /// An aggregate built from the operands, field by field.
    Aggregate(Vec<Operand>),
    /// Anything else: arithmetic, lengths, discriminants.
    Other,
}

/// A statement of a basic block.
#[derive(Debug, PartialEq, Eq)]
pub enum Statement {
    Assign(Place, Rvalue),
    /// A statement that assigns nothing.
    Other,
}

/// The function that a call names.
#[derive(Debug, PartialEq, Eq)]
pub struct Callee {
    /// The path of the function, without its generic arguments.
    pub path: String,
    /// The path of the function with its generic arguments filled in.
    pub path_with_args: String,
    /// The generic arguments, each as it is printed.
    pub type_args: Vec<String>,
}

/// How a basic block ends.
#[derive(Debug, PartialEq, Eq)]
pub enum Terminator {
    Call {
        /// The function called, where the call names one.
        func: Option<Callee>,
        args: Vec<Operand>,
        /// Where the result goes.
        destination: Place,
        /// Where in the source text the call stands.
        span: String,
    },
    /// A branch, a return, or any other end.
    Other,
}

/// A basic block: statements and the terminator.
#[derive(Debug, PartialEq, Eq)]
pub struct BasicBlock {
    pub statements: Vec<Statement>,
    pub terminator: Terminator,
}

/// What the analyses read of the type of a local.
#[derive(Copy, Clone, Debug, PartialEq, Eq, Structural)]
pub enum LocalTy {
    /// A struct, enum or union.
    Adt,
    /// An array; `of_adt` says whether its elements are structs, enums or
    /// unions.
    Array { of_adt: bool },
    /// A slice, with `of_adt` as for arrays.
    Slice { of_adt: bool },
    /// A reference; `of_adt` says whether it refers to a struct, enum or
    /// union.
    Ref { of_adt: bool },
    /// A raw pointer, with `of_adt` as for references.
    RawPtr { of_adt: bool },
    /// Any other type.
    Other,
}

/// The body of one function.
#[derive(Debug, PartialEq, Eq)]
pub struct Body {
    /// The number of parameters. They are the locals from 1 to `arg_count`.
    pub arg_count: usize,
    /// The type of each local, by local number.
    pub local_decls: Vec<LocalTy>,
    /// The basic blocks. Block 0 is where the function starts.
    pub blocks: Vec<BasicBlock>,
}

impl Body {
    /// Whether `local` is a parameter of the function.
    pub open spec fn spec_is_parameter(self, local: Local) -> bool {
        1 <= local <= self.arg_count
    }

    /// Whether `local` is a parameter of the function.
    pub fn is_parameter(&self, local: Local) -> (r: bool)
        ensures
            r == self.spec_is_parameter(local),
    {
        1 <= local && local <= self.arg_count
    }
}

} // verus!
