use enum_set::{CLike, EnumSet, Iter};

#[derive(Copy, Clone, PartialEq, Debug)]
enum Foo {
    A,
    B,
    C,
}

// The `ordinal*` items mirror the trait's proof obligations; the compiled
// library keeps them as methods that nothing calls at run time.
impl CLike for Foo {
    fn ordinal(&self) -> u32 {
        *self as u32
    }

    fn ordinal_in_range(&self) {}

    fn ordinal_injective(&self, _other: &Foo) {}

    fn to_u32(&self) -> u32 {
        *self as u32
    }

    fn from_u32(v: u32) -> Foo {
        match v {
            0 => Foo::A,
            1 => Foo::B,
            2 => Foo::C,
            _ => unreachable!(),
        }
    }
}

fn collect_foo(mut it: Iter<Foo>) -> Vec<Foo> {
    let mut v = Vec::new();
    while let Some(e) = it.next() {
        v.push(e);
    }
    v
}

fn labels() -> Vec<String> {
    vec![String::from("A"), String::from("B"), String::from("C")]
}

#[test]
fn test_new() {
    let e: EnumSet<Foo> = EnumSet::new();
    assert!(e.is_empty());
}

#[test]
fn test_debug() {
    let mut e = EnumSet::new();
    assert_eq!("{}", e.render(&labels()));
    e.insert(Foo::A);
    assert_eq!("{A}", e.render(&labels()));
    e.insert(Foo::C);
    assert_eq!("{A, C}", e.render(&labels()));
}

#[test]
fn test_len() {
    let mut e = EnumSet::new();
    assert_eq!(e.len(), 0);
    e.insert(Foo::A);
    e.insert(Foo::B);
    e.insert(Foo::C);
    assert_eq!(e.len(), 3);
    e.remove(&Foo::A);
    assert_eq!(e.len(), 2);
    e.clear();
    assert_eq!(e.len(), 0);
}

#[test]
fn test_two_empties_do_not_intersect() {
    let e1: EnumSet<Foo> = EnumSet::new();
    let e2: EnumSet<Foo> = EnumSet::new();
    assert!(e1.is_disjoint(&e2));
}

#[test]
fn test_empty_does_not_intersect_with_full() {
    let e1: EnumSet<Foo> = EnumSet::new();

    let mut e2: EnumSet<Foo> = EnumSet::new();
    e2.insert(Foo::A);
    e2.insert(Foo::B);
    e2.insert(Foo::C);

    assert!(e1.is_disjoint(&e2));
}

#[test]
fn test_disjoint_intersects() {
    let mut e1: EnumSet<Foo> = EnumSet::new();
    e1.insert(Foo::A);

    let mut e2: EnumSet<Foo> = EnumSet::new();
    e2.insert(Foo::B);

    assert!(e1.is_disjoint(&e2));
}

#[test]
fn test_overlapping_intersects() {
    let mut e1: EnumSet<Foo> = EnumSet::new();
    e1.insert(Foo::A);

    let mut e2: EnumSet<Foo> = EnumSet::new();
    e2.insert(Foo::A);
    e2.insert(Foo::B);

    assert!(!e1.is_disjoint(&e2));
}

#[test]
fn test_superset() {
    let mut e1: EnumSet<Foo> = EnumSet::new();
    e1.insert(Foo::A);

    let mut e2: EnumSet<Foo> = EnumSet::new();
    e2.insert(Foo::A);
    e2.insert(Foo::B);

    let mut e3: EnumSet<Foo> = EnumSet::new();
    e3.insert(Foo::C);

    assert!(e1.is_subset(&e2));
    assert!(e2.is_superset(&e1));
    assert!(!e3.is_superset(&e2));
    assert!(!e2.is_superset(&e3));
}

#[test]
fn test_contains() {
    let mut e1: EnumSet<Foo> = EnumSet::new();
    e1.insert(Foo::A);
    assert!(e1.contains(&Foo::A));
    assert!(!e1.contains(&Foo::B));
    assert!(!e1.contains(&Foo::C));

    e1.insert(Foo::A);
    e1.insert(Foo::B);
    assert!(e1.contains(&Foo::A));
    assert!(e1.contains(&Foo::B));
    assert!(!e1.contains(&Foo::C));
}

#[test]
fn test_iterator() {
    let mut e1: EnumSet<Foo> = EnumSet::new();

    let elems: Vec<Foo> = collect_foo(e1.iter());
    assert!(elems.is_empty());

    e1.insert(Foo::A);
    let elems: Vec<_> = collect_foo(e1.iter());
    assert_eq!(vec![Foo::A], elems);

    e1.insert(Foo::C);
    let elems: Vec<_> = collect_foo(e1.iter());
    assert_eq!(vec![Foo::A, Foo::C], elems);

    e1.insert(Foo::C);
    let elems: Vec<_> = collect_foo(e1.iter());
    assert_eq!(vec![Foo::A, Foo::C], elems);

    e1.insert(Foo::B);
    let elems: Vec<_> = collect_foo(e1.iter());
    assert_eq!(vec![Foo::A, Foo::B, Foo::C], elems);
}

#[test]
fn test_clone_iterator() {
    let mut e: EnumSet<Foo> = EnumSet::new();
    e.insert(Foo::A);
    e.insert(Foo::B);
    e.insert(Foo::C);

    let mut iter1 = e.iter();
    let first_elem = iter1.next();
    assert_eq!(Some(Foo::A), first_elem);

    let iter2 = iter1.clone();
    let elems1: Vec<_> = collect_foo(iter1);
    assert_eq!(vec![Foo::B, Foo::C], elems1);

    let elems2: Vec<_> = collect_foo(iter2);
    assert_eq!(vec![Foo::B, Foo::C], elems2);
}

#[test]
fn test_operators() {
    let mut e1: EnumSet<Foo> = EnumSet::new();
    e1.insert(Foo::A);
    e1.insert(Foo::C);

    let mut e2: EnumSet<Foo> = EnumSet::new();
    e2.insert(Foo::B);
    e2.insert(Foo::C);

    let e_union = e1 | e2;
    let elems: Vec<_> = collect_foo(e_union.iter());
    assert_eq!(vec![Foo::A, Foo::B, Foo::C], elems);

    let e_intersection = e1 & e2;
    let elems: Vec<_> = collect_foo(e_intersection.iter());
    assert_eq!(vec![Foo::C], elems);

    // Another way to express intersection
    let e_intersection = e1 - (e1 - e2);
    let elems: Vec<_> = collect_foo(e_intersection.iter());
    assert_eq!(vec![Foo::C], elems);

    let e_subtract = e1 - e2;
    let elems: Vec<_> = collect_foo(e_subtract.iter());
    assert_eq!(vec![Foo::A], elems);

    // Bitwise XOR of two sets, aka symmetric difference
    let e_symmetric_diff = e1 ^ e2;
    let elems: Vec<_> = collect_foo(e_symmetric_diff.iter());
    assert_eq!(vec![Foo::A, Foo::B], elems);

    // Another way to express symmetric difference
    let e_symmetric_diff = (e1 - e2) | (e2 - e1);
    let elems: Vec<_> = collect_foo(e_symmetric_diff.iter());
    assert_eq!(vec![Foo::A, Foo::B], elems);

    // Yet another way to express symmetric difference
    let e_symmetric_diff = (e1 | e2) - (e1 & e2);
    let elems: Vec<_> = collect_foo(e_symmetric_diff.iter());
    assert_eq!(vec![Foo::A, Foo::B], elems);
}

#[test]
fn test_insert_idempotence() {
    let mut e: EnumSet<Foo> = EnumSet::new();
    assert_eq!(true, e.insert(Foo::B));
    assert_eq!(e.len(), 1);
    assert_eq!(false, e.insert(Foo::B));
    assert_eq!(e.len(), 1);
}

#[test]
fn test_set_equality() {
    let mut e1: EnumSet<Foo> = EnumSet::new();
    e1.insert(Foo::A);
    e1.insert(Foo::B);

    let mut e2: EnumSet<Foo> = EnumSet::new();
    e2.insert(Foo::B);
    e2.insert(Foo::A);

    assert!(e1 == e2);
    e2.insert(Foo::C);
    assert!(e1 != e2);
    assert!(e1 == e1.clone());
}

#[test]
fn test_mask_ordering() {
    let empty: EnumSet<Foo> = EnumSet::new();
    let mut a: EnumSet<Foo> = EnumSet::new();
    a.insert(Foo::A);
    let mut b: EnumSet<Foo> = EnumSet::new();
    b.insert(Foo::B);
    assert!(empty < a);
    assert!(a < b);
    assert!(!(a < a));
}

#[test]
fn test_default_is_empty() {
    let e: EnumSet<Foo> = EnumSet::default();
    assert!(e.is_empty());
}

#[test]
fn test_len_counts_iterated_elements() {
    let mut e: EnumSet<Foo> = EnumSet::new();
    e.insert(Foo::C);
    e.insert(Foo::A);
    let mut it = e.iter();
    assert_eq!(it.size_hint(), (2, Some(2)));
    let mut count = 0;
    while let Some(_) = it.next() {
        count += 1;
    }
    assert_eq!(count, e.len());
    assert_eq!(e.is_empty(), e.len() == 0);
}

#[test]
fn test_iteration_order_ascending() {
    let mut e: EnumSet<Foo> = EnumSet::new();
    e.insert(Foo::C);
    e.insert(Foo::A);
    e.insert(Foo::B);
    let elems = collect_foo(e.iter());
    assert_eq!(vec![Foo::A, Foo::B, Foo::C], elems);
}

#[test]
fn test_iterator_snapshot_unaffected_by_mutation() {
    let mut e: EnumSet<Foo> = EnumSet::new();
    e.insert(Foo::A);
    e.insert(Foo::B);
    let it = e.iter();
    e.clear();
    assert_eq!(vec![Foo::A, Foo::B], collect_foo(it));
}

#[test]
fn test_from_iter_and_extend() {
    let e = EnumSet::from_iter(vec![Foo::C, Foo::A, Foo::C]);
    assert_eq!(e.len(), 2);
    assert_eq!(vec![Foo::A, Foo::C], collect_foo(e.iter()));

    let mut e2: EnumSet<Foo> = EnumSet::new();
    e2.insert(Foo::B);
    e2.extend(vec![Foo::A, Foo::B]);
    assert_eq!(vec![Foo::A, Foo::B], collect_foo(e2.iter()));
}

#[test]
fn test_scenario_union_and_symmetric_difference() {
    let mut ac: EnumSet<Foo> = EnumSet::new();
    ac.insert(Foo::A);
    ac.insert(Foo::C);
    assert_eq!(ac.len(), 2);

    let mut bc: EnumSet<Foo> = EnumSet::new();
    bc.insert(Foo::B);
    bc.insert(Foo::C);

    assert_eq!(vec![Foo::A, Foo::B, Foo::C], collect_foo(ac.union(bc).iter()));
    assert_eq!(vec![Foo::A, Foo::B], collect_foo(ac.symmetric_difference(bc).iter()));
}
