//! The pairs of atomic operations on the same memory whose orderings are
//! held against each other.

use crate::atomic::AtomicInstructions;
use crate::atompart::{clone_partner, partner_view, partner_views, Partner, PartnerView};
use vstd::prelude::*;

verus! {

/// What an atomic operation does to memory.
#[derive(Copy, Clone, Debug, PartialEq, Eq, Structural)]
pub enum AccessClass {
    Read,
    Write,
    ReadWrite,
}

/// What an operation of kind `operate` does to memory.
pub open spec fn class_of(operate: Option<AtomicInstructions>) -> Option<AccessClass> {
    match operate {
        Some(AtomicInstructions::Load) => Some(AccessClass::Read),
        Some(AtomicInstructions::Store) => Some(AccessClass::Write),
        Some(AtomicInstructions::CompareExchange) => Some(AccessClass::ReadWrite),
        Some(AtomicInstructions::ReadModifyWrite) => Some(AccessClass::ReadWrite),
        None => None,
    }
}

/// The operations of class `class` among the first `n` of `partners`.
pub open spec fn of_class(partners: Seq<PartnerView>, class: AccessClass, n: nat) -> Seq<
    PartnerView,
>
    decreases n,
{
    if n == 0 {
        Seq::empty()
    } else {
        of_class(partners, class, (n - 1) as nat) + if class_of(partners[n - 1].0.atomic_operate)
            == Some(class) {
            seq![partners[n - 1]]
        } else {
            Seq::empty()
        }
    }
}

/// A pair of operations: the one that reads, then the one that writes.
pub type Factor = (Partner, Partner);

/// A `Factor` as a mathematical value.
pub type FactorView = (PartnerView, PartnerView);

/// The view of a pair.
pub open spec fn factor_view(f: Factor) -> FactorView {
    (partner_view(f.0), partner_view(f.1))
}

/// The views of the pairs of `factors`.
pub open spec fn factor_views(factors: Seq<Factor>) -> Seq<FactorView> {
    factors.map_values(|f: Factor| factor_view(f))
}

/// `first` paired with the first `n` of `seconds`.
pub open spec fn paired_with(first: PartnerView, seconds: Seq<PartnerView>, n: nat) -> Seq<
    FactorView,
>
    decreases n,
{
    if n == 0 {
        Seq::empty()
    } else {
        paired_with(first, seconds, (n - 1) as nat).push((first, seconds[n - 1]))
    }
}

/// Each of the first `n` of `firsts` paired with each of `seconds`.
pub open spec fn pairs(firsts: Seq<PartnerView>, seconds: Seq<PartnerView>, n: nat) -> Seq<
    FactorView,
>
    decreases n,
{
    if n == 0 {
        Seq::empty()
    } else {
        pairs(firsts, seconds, (n - 1) as nat) + paired_with(
            firsts[n - 1],
            seconds,
            seconds.len(),
        )
    }
}

/// The pairs of the operations of a cluster: every read with every write,
/// every read with every read-write, and every read-write with every
/// read-write.
pub open spec fn spec_factors(partners: Seq<PartnerView>) -> Seq<FactorView> {
    let reads = of_class(partners, AccessClass::Read, partners.len());
    let writes = of_class(partners, AccessClass::Write, partners.len());
    let both = of_class(partners, AccessClass::ReadWrite, partners.len());
    pairs(reads, writes, reads.len()) + pairs(reads, both, reads.len()) + pairs(
        both,
        both,
        both.len(),
    )
}

/// The operations of `partners` of class `class`.
pub fn select_class(partners: &Vec<Partner>, class: AccessClass) -> (r: Vec<Partner>)
    ensures
        partner_views(r@) == of_class(partner_views(partners@), class, partners@.len()),
{
    let mut r: Vec<Partner> = Vec::new();
    let ghost views = partner_views(partners@);
    let mut i: usize = 0;
    assert(partner_views(r@) =~= Seq::<PartnerView>::empty());
    while i < partners.len()
        invariant
            i <= partners.len(),
            views == partner_views(partners@),
            partner_views(r@) == of_class(views, class, i as nat),
        decreases partners.len() - i,
    {
        let ghost sofar = partner_views(r@);
        let matches = match partners[i].0.atomic_operate {
            Some(AtomicInstructions::Load) => class == AccessClass::Read,
            Some(AtomicInstructions::Store) => class == AccessClass::Write,
            Some(AtomicInstructions::CompareExchange) => class == AccessClass::ReadWrite,
            Some(AtomicInstructions::ReadModifyWrite) => class == AccessClass::ReadWrite,
            None => false,
        };
        assert(views[i as int] == partner_view(partners@[i as int]));
        if matches {
            r.push(clone_partner(&partners[i]));
            assert(partner_views(r@) =~= sofar + seq![views[i as int]]);
        } else {
            assert(partner_views(r@) =~= sofar + Seq::<PartnerView>::empty());
        }
        i += 1;
    }
    r
}

/// Appends to `out` each of `firsts` paired with each of `seconds`.
pub fn push_pairs(firsts: &Vec<Partner>, seconds: &Vec<Partner>, out: &mut Vec<Factor>)
    ensures
        factor_views(final(out)@) == factor_views(old(out)@) + pairs(
            partner_views(firsts@),
            partner_views(seconds@),
            firsts@.len(),
        ),
{
    let ghost start = factor_views(out@);
    let ghost a = partner_views(firsts@);
    let ghost b = partner_views(seconds@);
    let mut i: usize = 0;
    assert(factor_views(out@) =~= start + Seq::<FactorView>::empty());
    while i < firsts.len()
        invariant
            i <= firsts.len(),
            a == partner_views(firsts@),
            b == partner_views(seconds@),
            factor_views(out@) == start + pairs(a, b, i as nat),
        decreases firsts.len() - i,
    {
        let ghost done = pairs(a, b, i as nat);
        let mut j: usize = 0;
        assert(factor_views(out@) =~= start + done + Seq::<FactorView>::empty());
        while j < seconds.len()
            invariant
                j <= seconds.len(),
                i < firsts.len(),
                a == partner_views(firsts@),
                b == partner_views(seconds@),
                factor_views(out@) == start + done + paired_with(a[i as int], b, j as nat),
            decreases seconds.len() - j,
        {
            let ghost row = paired_with(a[i as int], b, j as nat);
            let ghost before = factor_views(out@);
            let pair = (clone_partner(&firsts[i]), clone_partner(&seconds[j]));
            assert(a[i as int] == partner_view(firsts@[i as int]));
            assert(b[j as int] == partner_view(seconds@[j as int]));
            out.push(pair);
            assert(factor_views(out@) =~= before.push((a[i as int], b[j as int])));
            assert(factor_views(out@) =~= start + done + row.push((a[i as int], b[j as int])));
            j += 1;
        }
        assert(factor_views(out@) =~= start + (done + paired_with(a[i as int], b, b.len())));
        i += 1;
    }
}

/// The pairs of the operations of a cluster.
pub fn factors_of(atomic_infos: &Vec<Partner>) -> (r: Vec<Factor>)
    ensures
        factor_views(r@) == spec_factors(partner_views(atomic_infos@)),
{
    let reads = select_class(atomic_infos, AccessClass::Read);
    let writes = select_class(atomic_infos, AccessClass::Write);
    let both = select_class(atomic_infos, AccessClass::ReadWrite);
    let mut r: Vec<Factor> = Vec::new();
    assert(factor_views(r@) =~= Seq::<FactorView>::empty());
    push_pairs(&reads, &writes, &mut r);
    push_pairs(&reads, &both, &mut r);
    push_pairs(&both, &both, &mut r);
    proof {
        let views = partner_views(atomic_infos@);
        let rv = of_class(views, AccessClass::Read, views.len());
        let wv = of_class(views, AccessClass::Write, views.len());
        let bv = of_class(views, AccessClass::ReadWrite, views.len());
        assert(factor_views(r@) =~= pairs(rv, wv, rv.len()) + pairs(rv, bv, rv.len()) + pairs(
            bv,
            bv,
            bv.len(),
        ));
    }
    r
}

} // verus!
