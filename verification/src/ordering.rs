//! Memory orderings of atomic accesses, their strength, and the reduction of
//! a set of required orderings to the least ordering that satisfies them all.

use std::cmp::Ordering;
use vstd::prelude::*;
use vstd::std_specs::cmp::PartialOrdSpec;

verus! {

/// The memory ordering that an atomic access names.
///
/// The orderings form four rungs: `Relaxed`, then `Acquire` and `Release`
/// side by side, then `AcqRel`, then `SeqCst`. `Acquire` and `Release` are
/// different orderings of the same strength.
#[derive(Copy, Clone, Debug, PartialEq, Eq, Hash, Structural)]
pub enum AtomicOrd {
    SeqCst,
    AcqRel,
    Acquire,
    Release,
    Relaxed,
}

impl AtomicOrd {
    /// The rung of the ordering: `Relaxed` is 0, `Acquire` and `Release`
    /// share 1, `AcqRel` is 2 and `SeqCst` is 3.
    pub open spec fn strength(self) -> nat {
        match self {
            AtomicOrd::Relaxed => 0,
            AtomicOrd::Acquire => 1,
            AtomicOrd::Release => 1,
            AtomicOrd::AcqRel => 2,
            AtomicOrd::SeqCst => 3,
        }
    }

    /// `self` is strictly weaker than `other`.
    pub open spec fn weaker(self, other: AtomicOrd) -> bool {
        self.strength() < other.strength()
    }

    /// `self` and `other` stand on the same rung.
    pub open spec fn same_strength(self, other: AtomicOrd) -> bool {
        self.strength() == other.strength()
    }

    /// The rung of the ordering, computed.
    pub fn rank(&self) -> (r: u8)
        ensures
            r == self.strength(),
    {
        match self {
            AtomicOrd::Relaxed => 0,
            AtomicOrd::Acquire => 1,
            AtomicOrd::Release => 1,
            AtomicOrd::AcqRel => 2,
            AtomicOrd::SeqCst => 3,
        }
    }

    /// The name of the ordering, as it is written in source code.
    pub fn name(&self) -> (r: &'static str)
        ensures
            r@ == self.spec_name(),
    {
        match self {
            AtomicOrd::Relaxed => "Relaxed",
            AtomicOrd::Acquire => "Acquire",
            AtomicOrd::Release => "Release",
            AtomicOrd::AcqRel => "AcqRel",
            AtomicOrd::SeqCst => "SeqCst",
        }
    }

    /// The characters of the ordering's name.
    pub open spec fn spec_name(self) -> Seq<char> {
        match self {
            AtomicOrd::Relaxed => "Relaxed"@,
            AtomicOrd::Acquire => "Acquire"@,
            AtomicOrd::Release => "Release"@,
            AtomicOrd::AcqRel => "AcqRel"@,
            AtomicOrd::SeqCst => "SeqCst"@,
        }
    }
}

impl PartialOrd for AtomicOrd {
    /// Compares two orderings by strength. The result is never `None`, and
    /// it is `Equal` for `Acquire` against `Release`.
    fn partial_cmp(&self, other: &Self) -> (r: Option<Ordering>) {
        let a: u8 = self.rank();
        let b: u8 = other.rank();
        if a < b {
            Some(Ordering::Less)
        } else if a > b {
            Some(Ordering::Greater)
        } else {
            Some(Ordering::Equal)
        }
    }
}

impl vstd::std_specs::cmp::PartialOrdSpecImpl for AtomicOrd {
    open spec fn obeys_partial_cmp_spec() -> bool {
        true
    }

    open spec fn partial_cmp_spec(&self, other: &Self) -> Option<Ordering> {
        if self.strength() < other.strength() {
            Some(Ordering::Less)
        } else if self.strength() > other.strength() {
            Some(Ordering::Greater)
        } else {
            Some(Ordering::Equal)
        }
    }
}

impl Default for AtomicOrd {
    /// The strongest ordering.
    fn default() -> (r: Self)
        ensures
            r == AtomicOrd::SeqCst,
    {
        AtomicOrd::SeqCst
    }
}

/// Any two orderings are comparable, and the comparison goes by strength
/// alone.
pub proof fn lemma_comparison_is_by_strength(x: AtomicOrd, y: AtomicOrd)
    ensures
        x.partial_cmp_spec(&y) == Some(Ordering::Less) <==> x.weaker(y),
        x.partial_cmp_spec(&y) == Some(Ordering::Greater) <==> y.weaker(x),
        x.partial_cmp_spec(&y) == Some(Ordering::Equal) <==> x.same_strength(y),
{
}

/// `Relaxed` is below or beside every ordering and `SeqCst` above or beside
/// every ordering. `Acquire` and `Release` compare as equal to each other,
/// each is above `Relaxed` and each is below `AcqRel`.
pub proof fn lemma_ordering_lattice(x: AtomicOrd)
    ensures
        AtomicOrd::Relaxed.partial_cmp_spec(&x) == Some(Ordering::Less)
            || AtomicOrd::Relaxed.partial_cmp_spec(&x) == Some(Ordering::Equal),
        x.partial_cmp_spec(&AtomicOrd::SeqCst) == Some(Ordering::Less)
            || x.partial_cmp_spec(&AtomicOrd::SeqCst) == Some(Ordering::Equal),
        AtomicOrd::Acquire.partial_cmp_spec(&AtomicOrd::Release) == Some(Ordering::Equal),
        AtomicOrd::Release.partial_cmp_spec(&AtomicOrd::Acquire) == Some(Ordering::Equal),
        AtomicOrd::Acquire.partial_cmp_spec(&AtomicOrd::Relaxed) == Some(Ordering::Greater),
        AtomicOrd::Release.partial_cmp_spec(&AtomicOrd::Relaxed) == Some(Ordering::Greater),
        AtomicOrd::Acquire.partial_cmp_spec(&AtomicOrd::AcqRel) == Some(Ordering::Less),
        AtomicOrd::Release.partial_cmp_spec(&AtomicOrd::AcqRel) == Some(Ordering::Less),
        AtomicOrd::AcqRel.partial_cmp_spec(&AtomicOrd::SeqCst) == Some(Ordering::Less),
{
}

/// The comparison is transitive, and swapping its arguments swaps `Less`
/// and `Greater`.
pub proof fn lemma_comparison_is_an_order(x: AtomicOrd, y: AtomicOrd, z: AtomicOrd)
    ensures
        x.weaker(y) && y.weaker(z) ==> x.weaker(z),
        x.same_strength(y) && y.same_strength(z) ==> x.same_strength(z),
        x.weaker(y) ==> !y.weaker(x) && !x.same_strength(y),
        x.partial_cmp_spec(&y) == Some(Ordering::Less) <==> y.partial_cmp_spec(&x) == Some(
            Ordering::Greater,
        ),
{
}

/// A set of orderings, such as the orderings that an atomic access has been
/// found to require.
#[derive(Copy, Clone, Debug, PartialEq, Eq)]
pub struct OrderingSet {
    seq_cst: bool,
    acq_rel: bool,
    acquire: bool,
    release: bool,
    relaxed: bool,
}

impl View for OrderingSet {
    type V = Set<AtomicOrd>;

    closed spec fn view(&self) -> Set<AtomicOrd> {
        Set::new(|o: AtomicOrd| self.holds(o))
    }
}

impl OrderingSet {
    spec fn holds(self, o: AtomicOrd) -> bool {
        match o {
            AtomicOrd::SeqCst => self.seq_cst,
            AtomicOrd::AcqRel => self.acq_rel,
            AtomicOrd::Acquire => self.acquire,
            AtomicOrd::Release => self.release,
            AtomicOrd::Relaxed => self.relaxed,
        }
    }

    /// The empty set.
    pub fn new() -> (r: Self)
        ensures
            r@ == Set::<AtomicOrd>::empty(),
    {
        let r = OrderingSet {
            seq_cst: false,
            acq_rel: false,
            acquire: false,
            release: false,
            relaxed: false,
        };
        assert(r@ =~= Set::<AtomicOrd>::empty());
        r
    }

    /// Adds `ord` to the set. Returns whether it was new.
    pub fn insert(&mut self, ord: AtomicOrd) -> (fresh: bool)
        ensures
            final(self)@ == old(self)@.insert(ord),
            fresh == !old(self)@.contains(ord),
    {
        let was = self.contains(ord);
        match ord {
            AtomicOrd::SeqCst => {
                self.seq_cst = true;
            },
            AtomicOrd::AcqRel => {
                self.acq_rel = true;
            },
            AtomicOrd::Acquire => {
                self.acquire = true;
            },
            AtomicOrd::Release => {
                self.release = true;
            },
            AtomicOrd::Relaxed => {
                self.relaxed = true;
            },
        }
        assert(self@ =~= old(self)@.insert(ord));
        !was
    }

    /// Whether `ord` is in the set.
    pub fn contains(&self, ord: AtomicOrd) -> (r: bool)
        ensures
            r == self@.contains(ord),
    {
        match ord {
            AtomicOrd::SeqCst => self.seq_cst,
            AtomicOrd::AcqRel => self.acq_rel,
            AtomicOrd::Acquire => self.acquire,
            AtomicOrd::Release => self.release,
            AtomicOrd::Relaxed => self.relaxed,
        }
    }

    /// Whether the set holds nothing.
    pub fn is_empty(&self) -> (r: bool)
        ensures
            r == (self@ == Set::<AtomicOrd>::empty()),
    {
        let r = !self.seq_cst && !self.acq_rel && !self.acquire && !self.release && !self.relaxed;
        proof {
            if r {
                assert(self@ =~= Set::<AtomicOrd>::empty());
            } else {
                let w = if self.seq_cst {
                    AtomicOrd::SeqCst
                } else if self.acq_rel {
                    AtomicOrd::AcqRel
                } else if self.acquire {
                    AtomicOrd::Acquire
                } else if self.release {
                    AtomicOrd::Release
                } else {
                    AtomicOrd::Relaxed
                };
                assert(self@.contains(w));
            }
        }
        r
    }

    /// The orderings that are in `self` or in `other`.
    pub fn union(&self, other: &OrderingSet) -> (r: OrderingSet)
        ensures
            r@ == self@.union(other@),
    {
        let r = OrderingSet {
            seq_cst: self.seq_cst || other.seq_cst,
            acq_rel: self.acq_rel || other.acq_rel,
            acquire: self.acquire || other.acquire,
            release: self.release || other.release,
            relaxed: self.relaxed || other.relaxed,
        };
        assert(r@ =~= self@.union(other@)) by {
            assert forall|o: AtomicOrd| r@.contains(o) <==> self@.union(other@).contains(o) by {
                assert(r.holds(o) == (self.holds(o) || other.holds(o)));
            }
        }
        r
    }

    /// The set of the orderings that occur in `ords`.
    pub fn from_vec(ords: &Vec<AtomicOrd>) -> (r: Self)
        ensures
            r@ == ords@.to_set(),
    {
        let mut r = OrderingSet::new();
        let mut i: usize = 0;
        while i < ords.len()
            invariant
                i <= ords.len(),
                r@ == ords@.take(i as int).to_set(),
            decreases ords.len() - i,
        {
            let _ = r.insert(ords[i]);
            proof {
                let before = ords@.take(i as int);
                let after = ords@.take(i + 1);
                assert(after =~= before.push(ords@[i as int]));
                assert(after.to_set() =~= before.to_set().insert(ords@[i as int])) by {
                    assert forall|x: AtomicOrd|
                        after.to_set().contains(x) <==> before.to_set().insert(
                            ords@[i as int],
                        ).contains(x) by {
                        if after.contains(x) {
                            let k = choose|k: int| 0 <= k < after.len() && after[k] == x;
                            if k < i {
                                assert(before[k] == x);
                            }
                        }
                        if before.contains(x) {
                            let k = choose|k: int| 0 <= k < before.len() && before[k] == x;
                            assert(after[k] == x);
                        }
                        assert(after[i as int] == ords@[i as int]);
                    }
                }
            }
            i += 1;
        }
        assert(ords@.take(ords.len() as int) =~= ords@);
        r
    }
}

/// `x` is in `s` and nothing in `s` is stronger.
pub open spec fn is_strongest(s: Set<AtomicOrd>, x: AtomicOrd) -> bool {
    s.contains(x) && forall|y: AtomicOrd| s.contains(y) ==> y.strength() <= x.strength()
}

/// `x` alone if it is among the strongest of `s`, else nothing.
pub open spec fn strongest_or_none(s: Set<AtomicOrd>, x: AtomicOrd) -> Seq<AtomicOrd> {
    if is_strongest(s, x) {
        seq![x]
    } else {
        Seq::empty()
    }
}

/// The least ordering that satisfies every requirement in `s`: the members
/// of `s` that no other member exceeds in strength, listed from `SeqCst`
/// down to `Relaxed`, `Acquire` before `Release`.
pub open spec fn min_ordering(s: Set<AtomicOrd>) -> Seq<AtomicOrd> {
    strongest_or_none(s, AtomicOrd::SeqCst) + strongest_or_none(s, AtomicOrd::AcqRel)
        + strongest_or_none(s, AtomicOrd::Acquire) + strongest_or_none(s, AtomicOrd::Release)
        + strongest_or_none(s, AtomicOrd::Relaxed)
}

/// What `min_ordering` lists: exactly the strongest members, each once; two
/// of them only where they are `Acquire` and `Release`.
pub proof fn lemma_min_ordering_members(s: Set<AtomicOrd>)
    ensures
        forall|x: AtomicOrd| min_ordering(s).contains(x) <==> is_strongest(s, x),
        min_ordering(s).no_duplicates(),
        min_ordering(s).len() <= 2,
        min_ordering(s).len() == 0 <==> s == Set::<AtomicOrd>::empty(),
        min_ordering(s).len() == 2 <==> min_ordering(s) == seq![
            AtomicOrd::Acquire,
            AtomicOrd::Release,
        ],
{
    let m = min_ordering(s);
    let all = seq![
        AtomicOrd::SeqCst,
        AtomicOrd::AcqRel,
        AtomicOrd::Acquire,
        AtomicOrd::Release,
        AtomicOrd::Relaxed,
    ];
    assert forall|x: AtomicOrd| m.contains(x) <==> is_strongest(s, x) by {
        if is_strongest(s, x) {
            lemma_strongest_listed(s, x);
        }
        if m.contains(x) {
            let k = choose|k: int| 0 <= k < m.len() && m[k] == x;
            lemma_listed_strongest(s, k);
        }
    }
    lemma_min_ordering_shape(s);
    if s =~= Set::<AtomicOrd>::empty() {
    } else {
        let w = choose|w: AtomicOrd| s.contains(w);
        lemma_nonempty_has_strongest(s, w);
    }
}

/// The forms that `min_ordering` can take.
proof fn lemma_min_ordering_shape(s: Set<AtomicOrd>)
    ensures
        min_ordering(s) =~= Seq::<AtomicOrd>::empty() || min_ordering(s) =~= seq![
            AtomicOrd::SeqCst,
        ] || min_ordering(s) =~= seq![AtomicOrd::AcqRel] || min_ordering(s) =~= seq![
            AtomicOrd::Acquire,
        ] || min_ordering(s) =~= seq![AtomicOrd::Release] || min_ordering(s) =~= seq![
            AtomicOrd::Relaxed,
        ] || min_ordering(s) =~= seq![AtomicOrd::Acquire, AtomicOrd::Release],
        min_ordering(s).no_duplicates(),
        min_ordering(s).len() <= 2,
{
    let a = is_strongest(s, AtomicOrd::SeqCst);
    let b = is_strongest(s, AtomicOrd::AcqRel);
    let c = is_strongest(s, AtomicOrd::Acquire);
    let d = is_strongest(s, AtomicOrd::Release);
    let e = is_strongest(s, AtomicOrd::Relaxed);
    if a {
        assert(!b && !c && !d && !e);
    }
    if b {
        assert(!a && !c && !d && !e);
    }
    if c {
        assert(!a && !b && !e);
    }
    if d {
        assert(!a && !b && !e);
    }
    if e {
        assert(!a && !b && !c && !d);
    }
}

proof fn lemma_strongest_listed(s: Set<AtomicOrd>, x: AtomicOrd)
    requires
        is_strongest(s, x),
    ensures
        min_ordering(s).contains(x),
{
    lemma_min_ordering_shape(s);
    let m = min_ordering(s);
    match x {
        AtomicOrd::SeqCst => {
            assert(m[0] == x);
        },
        AtomicOrd::AcqRel => {
            assert(m[0] == x);
        },
        AtomicOrd::Acquire => {
            assert(m[0] == x);
        },
        AtomicOrd::Release => {
            if is_strongest(s, AtomicOrd::Acquire) {
                assert(m[1] == x);
            } else {
                assert(m[0] == x);
            }
        },
        AtomicOrd::Relaxed => {
            assert(m[0] == x);
        },
    }
}

proof fn lemma_listed_strongest(s: Set<AtomicOrd>, k: int)
    requires
        0 <= k < min_ordering(s).len(),
    ensures
        is_strongest(s, min_ordering(s)[k]),
{
    lemma_min_ordering_shape(s);
}

proof fn lemma_nonempty_has_strongest(s: Set<AtomicOrd>, w: AtomicOrd)
    requires
        s.contains(w),
    ensures
        min_ordering(s).len() > 0,
{
    let top = if s.contains(AtomicOrd::SeqCst) {
        AtomicOrd::SeqCst
    } else if s.contains(AtomicOrd::AcqRel) {
        AtomicOrd::AcqRel
    } else if s.contains(AtomicOrd::Acquire) {
        AtomicOrd::Acquire
    } else if s.contains(AtomicOrd::Release) {
        AtomicOrd::Release
    } else {
        AtomicOrd::Relaxed
    };
    assert(is_strongest(s, top));
    lemma_strongest_listed(s, top);
}

/// Reducing a set of requirements, and then reducing what came out, gives
/// what the first reduction gave.
pub proof fn lemma_min_ordering_idempotent(s: Set<AtomicOrd>)
    ensures
        min_ordering(min_ordering(s).to_set()) == min_ordering(s),
{
    let m = min_ordering(s);
    let t = m.to_set();
    lemma_min_ordering_members(s);
    assert forall|x: AtomicOrd| is_strongest(t, x) <==> is_strongest(s, x) by {
        if is_strongest(s, x) {
            assert(m.contains(x));
            assert forall|y: AtomicOrd| t.contains(y) implies y.strength() <= x.strength() by {
                assert(m.contains(y));
                assert(is_strongest(s, y));
            }
        }
        if is_strongest(t, x) {
            assert(m.contains(x));
        }
    }
    assert(min_ordering(t) =~= m);
}

/// Reduces the orderings that an access requires to the least ordering that
/// satisfies them all.
///
/// An empty set gives nothing. Otherwise the result is the strongest member;
/// where `Acquire` and `Release` are both strongest, both are returned,
/// `Acquire` first.
pub fn calculate_min_ordering(ord_set: &OrderingSet) -> (r: Vec<AtomicOrd>)
    ensures
        r@ == min_ordering(ord_set@),
{
    let mut r: Vec<AtomicOrd> = Vec::new();
    let ghost s = ord_set@;
    if ord_set.seq_cst {
        assert(is_strongest(s, AtomicOrd::SeqCst));
        r.push(AtomicOrd::SeqCst);
    } else if ord_set.acq_rel {
        assert(is_strongest(s, AtomicOrd::AcqRel));
        r.push(AtomicOrd::AcqRel);
    } else if ord_set.acquire || ord_set.release {
        if ord_set.acquire {
            assert(is_strongest(s, AtomicOrd::Acquire));
            r.push(AtomicOrd::Acquire);
        }
        if ord_set.release {
            assert(is_strongest(s, AtomicOrd::Release));
            r.push(AtomicOrd::Release);
        }
    } else if ord_set.relaxed {
        assert(is_strongest(s, AtomicOrd::Relaxed));
        r.push(AtomicOrd::Relaxed);
    }
    proof {
        assert(!ord_set.seq_cst ==> !s.contains(AtomicOrd::SeqCst));
        assert(!ord_set.acq_rel ==> !s.contains(AtomicOrd::AcqRel));
        assert(!ord_set.acquire ==> !s.contains(AtomicOrd::Acquire));
        assert(!ord_set.release ==> !s.contains(AtomicOrd::Release));
        assert(!ord_set.relaxed ==> !s.contains(AtomicOrd::Relaxed));
        assert(r@ =~= min_ordering(s));
    }
    r
}

} // verus!
