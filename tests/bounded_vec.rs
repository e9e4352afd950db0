use bounded_vec::BoundedVec;

#[test]
fn try_insert_works() {
    let mut bounded: BoundedVec<u32, 4> = BoundedVec::try_from(vec![1, 2, 3]).unwrap();
    bounded.try_insert(1, 0).unwrap();
    assert_eq!(*bounded.as_vec(), vec![1, 0, 2, 3]);

    assert!(bounded.try_insert(0, 9).is_err());
    assert_eq!(*bounded.as_vec(), vec![1, 0, 2, 3]);
}

#[test]
#[should_panic(expected = "insertion index (is 9) should be <= len (is 3)")]
fn try_inert_panics_if_oob() {
    let mut bounded: BoundedVec<u32, 4> = BoundedVec::try_from(vec![1, 2, 3]).unwrap();
    bounded.try_insert(9, 0).unwrap();
}

#[test]
fn try_push_works() {
    let mut bounded: BoundedVec<u32, 4> = BoundedVec::try_from(vec![1, 2, 3]).unwrap();
    bounded.try_push(0).unwrap();
    assert_eq!(*bounded.as_vec(), vec![1, 2, 3, 0]);

    assert!(bounded.try_push(9).is_err());
}

#[test]
fn deref_coercion_works() {
    let bounded: BoundedVec<u32, 7> = BoundedVec::try_from(vec![1, 2, 3]).unwrap();
    assert_eq!(bounded.len(), 3);
    assert!(bounded.as_vec().iter().next().is_some());
    assert!(!bounded.is_empty());
}

#[test]
fn try_mutate_works() {
    let bounded: BoundedVec<u32, 7> = BoundedVec::try_from(vec![1, 2, 3, 4, 5, 6]).unwrap();
    let bounded = bounded
        .try_mutate(|mut v| {
            v.push(7);
            v
        })
        .unwrap();
    assert_eq!(bounded.len(), 7);
    assert!(bounded
        .try_mutate(|mut v| {
            v.push(8);
            v
        })
        .is_none());
}

#[test]
fn slice_indexing_works() {
    let bounded: BoundedVec<u32, 7> = BoundedVec::try_from(vec![1, 2, 3, 4, 5, 6]).unwrap();
    assert_eq!(&bounded.as_vec()[0..=2], &[1, 2, 3]);
}

#[test]
fn vec_eq_works() {
    let bounded: BoundedVec<u32, 7> = BoundedVec::try_from(vec![1, 2, 3, 4, 5, 6]).unwrap();
    assert_eq!(bounded, vec![1, 2, 3, 4, 5, 6]);
}

#[test]
fn try_from_within_bound_round_trips() {
    let bounded: BoundedVec<u32, 3> = BoundedVec::try_from(vec![5, 6, 7]).unwrap();
    assert_eq!(bounded.into_inner(), vec![5, 6, 7]);
    let empty: BoundedVec<u32, 0> = BoundedVec::try_from(vec![]).unwrap();
    assert!(empty.is_empty());
}

#[test]
fn try_from_over_bound_fails() {
    assert!(BoundedVec::<u32, 2>::try_from(vec![1, 2, 3]).is_err());
    assert!(BoundedVec::<u32, 0>::try_from(vec![1]).is_err());
}

#[test]
fn push_succeeds_exactly_bound_times() {
    let mut bounded: BoundedVec<u32, 3> = BoundedVec::default();
    for i in 0..3u32 {
        assert!(bounded.try_push(i).is_ok());
    }
    assert!(bounded.try_push(3).is_err());
    assert_eq!(bounded.len(), 3);
    assert_eq!(bounded, vec![0, 1, 2]);
}

#[test]
fn insert_into_full_fails_for_any_index() {
    let mut bounded: BoundedVec<u32, 2> = BoundedVec::try_from(vec![1, 2]).unwrap();
    assert!(bounded.try_insert(0, 9).is_err());
    assert!(bounded.try_insert(2, 9).is_err());
    assert!(bounded.try_insert(7, 9).is_err());
    assert_eq!(bounded, vec![1, 2]);
}

#[test]
fn swap_remove_and_remove() {
    let mut swapped: BoundedVec<char, 4> = BoundedVec::try_from(vec!['a', 'b', 'c', 'd']).unwrap();
    swapped.swap_remove(1);
    assert_eq!(swapped, vec!['a', 'd', 'c']);

    let mut ordered: BoundedVec<char, 4> = BoundedVec::try_from(vec!['a', 'b', 'c', 'd']).unwrap();
    ordered.remove(1);
    assert_eq!(ordered, vec!['a', 'c', 'd']);
}

#[test]
fn retain_keeps_order() {
    let mut bounded: BoundedVec<u32, 6> = BoundedVec::try_from(vec![1, 2, 3, 4, 5, 6]).unwrap();
    bounded.retain(|x| *x % 2 == 0);
    assert_eq!(bounded, vec![2, 4, 6]);
    bounded.retain(|_| false);
    assert!(bounded.is_empty());
}

#[test]
fn force_from_keeps_over_bound_elements() {
    let forced: BoundedVec<u32, 2> = BoundedVec::force_from(vec![1, 2, 3], Some("migration"));
    assert_eq!(forced.len(), 3);
    assert_eq!(forced.into_inner(), vec![1, 2, 3]);
}

#[test]
fn get_and_equality() {
    let a: BoundedVec<u32, 4> = BoundedVec::try_from(vec![1, 2]).unwrap();
    let b: BoundedVec<u32, 4> = BoundedVec::try_from(vec![1, 2]).unwrap();
    let c: BoundedVec<u32, 4> = BoundedVec::try_from(vec![2, 1]).unwrap();
    assert_eq!(*a.get(1), 2);
    assert!(a == b);
    assert!(a != c);
    assert_eq!(BoundedVec::<u32, 4>::bound(), 4);
    let cloned = a.clone();
    assert_eq!(cloned, vec![1, 2]);
}

#[test]
fn max_encoded_len_values() {
    assert_eq!(BoundedVec::<u32, 0>::max_encoded_len(4), 1);
    assert_eq!(BoundedVec::<u32, 7>::max_encoded_len(4), 1 + 28);
    assert_eq!(BoundedVec::<u32, 64>::max_encoded_len(4), 2 + 256);
    assert_eq!(BoundedVec::<u32, 16384>::max_encoded_len(1), 4 + 16384);
    assert_eq!(BoundedVec::<u8, 1073741824>::max_encoded_len(1), 5 + 1073741824);
    assert_eq!(BoundedVec::<u8, 4294967295>::max_encoded_len(usize::MAX), usize::MAX);
    assert_eq!(BoundedVec::<u8, 2>::max_encoded_len(usize::MAX - 2), usize::MAX);
}
