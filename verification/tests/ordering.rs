use atomvchecker::ordering::{calculate_min_ordering, AtomicOrd, OrderingSet};
use std::cmp::Ordering;

const ALL: [AtomicOrd; 5] = [
    AtomicOrd::SeqCst,
    AtomicOrd::AcqRel,
    AtomicOrd::Acquire,
    AtomicOrd::Release,
    AtomicOrd::Relaxed,
];

fn set_of(ords: &[AtomicOrd]) -> OrderingSet {
    OrderingSet::from_vec(&ords.to_vec())
}

#[test]
fn relaxed_is_lowest_and_seqcst_highest() {
    for x in ALL {
        assert!(AtomicOrd::Relaxed <= x);
        assert!(x <= AtomicOrd::SeqCst);
        assert!(!(x < AtomicOrd::Relaxed));
        assert!(!(x > AtomicOrd::SeqCst));
    }
}

#[test]
fn acquire_and_release_share_a_rung() {
    assert_eq!(AtomicOrd::Acquire.partial_cmp(&AtomicOrd::Release), Some(Ordering::Equal));
    assert_eq!(AtomicOrd::Release.partial_cmp(&AtomicOrd::Acquire), Some(Ordering::Equal));
    assert_ne!(AtomicOrd::Acquire, AtomicOrd::Release);
    for x in [AtomicOrd::Acquire, AtomicOrd::Release] {
        assert_eq!(x.partial_cmp(&AtomicOrd::Relaxed), Some(Ordering::Greater));
        assert_eq!(x.partial_cmp(&AtomicOrd::AcqRel), Some(Ordering::Less));
        assert_eq!(x.partial_cmp(&AtomicOrd::SeqCst), Some(Ordering::Less));
    }
}

#[test]
fn comparison_follows_the_rungs() {
    assert_eq!(AtomicOrd::Relaxed.rank(), 0);
    assert_eq!(AtomicOrd::Acquire.rank(), 1);
    assert_eq!(AtomicOrd::Release.rank(), 1);
    assert_eq!(AtomicOrd::AcqRel.rank(), 2);
    assert_eq!(AtomicOrd::SeqCst.rank(), 3);
    for x in ALL {
        for y in ALL {
            let expected = x.rank().cmp(&y.rank());
            assert_eq!(x.partial_cmp(&y), Some(expected));
        }
    }
    assert_eq!(AtomicOrd::AcqRel.partial_cmp(&AtomicOrd::SeqCst), Some(Ordering::Less));
    assert_eq!(AtomicOrd::SeqCst.partial_cmp(&AtomicOrd::SeqCst), Some(Ordering::Equal));
}

#[test]
fn default_ordering_is_seqcst() {
    assert_eq!(AtomicOrd::default(), AtomicOrd::SeqCst);
}

#[test]
fn names_are_the_source_names() {
    assert_eq!(AtomicOrd::Relaxed.name(), "Relaxed");
    assert_eq!(AtomicOrd::Acquire.name(), "Acquire");
    assert_eq!(AtomicOrd::Release.name(), "Release");
    assert_eq!(AtomicOrd::AcqRel.name(), "AcqRel");
    assert_eq!(AtomicOrd::SeqCst.name(), "SeqCst");
}

#[test]
fn ordering_set_behaves_as_a_set() {
    let mut s = OrderingSet::new();
    assert!(s.is_empty());
    assert!(s.insert(AtomicOrd::Acquire));
    assert!(!s.insert(AtomicOrd::Acquire));
    assert!(s.contains(AtomicOrd::Acquire));
    assert!(!s.contains(AtomicOrd::Release));
    assert!(!s.is_empty());
    let t = set_of(&[AtomicOrd::Release, AtomicOrd::Release, AtomicOrd::Relaxed]);
    let u = s.union(&t);
    assert_eq!(u, set_of(&[AtomicOrd::Relaxed, AtomicOrd::Acquire, AtomicOrd::Release]));
    assert!(!u.contains(AtomicOrd::SeqCst));
}

#[test]
fn min_ordering_of_nothing_is_nothing() {
    assert_eq!(calculate_min_ordering(&OrderingSet::new()), vec![]);
}

#[test]
fn min_ordering_is_the_strongest_requirement() {
    assert_eq!(calculate_min_ordering(&set_of(&[AtomicOrd::Relaxed])), vec![AtomicOrd::Relaxed]);
    assert_eq!(
        calculate_min_ordering(&set_of(&[AtomicOrd::Relaxed, AtomicOrd::Release])),
        vec![AtomicOrd::Release]
    );
    assert_eq!(
        calculate_min_ordering(&set_of(&[AtomicOrd::Acquire, AtomicOrd::AcqRel, AtomicOrd::Relaxed])),
        vec![AtomicOrd::AcqRel]
    );
    assert_eq!(calculate_min_ordering(&set_of(&ALL)), vec![AtomicOrd::SeqCst]);
}

#[test]
fn min_ordering_keeps_acquire_and_release_together() {
    assert_eq!(
        calculate_min_ordering(&set_of(&[AtomicOrd::Release, AtomicOrd::Relaxed, AtomicOrd::Acquire])),
        vec![AtomicOrd::Acquire, AtomicOrd::Release]
    );
    assert_eq!(
        calculate_min_ordering(&set_of(&[AtomicOrd::Release, AtomicOrd::Acquire, AtomicOrd::AcqRel])),
        vec![AtomicOrd::AcqRel]
    );
}

#[test]
fn min_ordering_twice_is_min_ordering_once() {
    for mask in 0u32..32 {
        let chosen: Vec<AtomicOrd> =
            ALL.iter().enumerate().filter(|(i, _)| mask & (1 << i) != 0).map(|(_, o)| *o).collect();
        let once = calculate_min_ordering(&set_of(&chosen));
        let twice = calculate_min_ordering(&OrderingSet::from_vec(&once));
        assert_eq!(once, twice);
        assert!(once.len() <= 2);
        assert_eq!(once.is_empty(), chosen.is_empty());
    }
}
