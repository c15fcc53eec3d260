use ipmb::util::{
    alloc_units, rand_string, range_sound, range_to_offset_size, trunc_page, vec_take, Align4,
    EndpointID,
};
use std::ops::Bound;

#[test]
fn align4_rounds_up() {
    assert_eq!(0usize.align4(), 0);
    assert_eq!(1usize.align4(), 4);
    assert_eq!(2usize.align4(), 4);
    assert_eq!(3usize.align4(), 4);
    assert_eq!(4usize.align4(), 4);
    assert_eq!(5usize.align4(), 8);
    assert_eq!(1023usize.align4(), 1024);
    assert_eq!((usize::MAX - 3).align4(), usize::MAX - 3);
    assert_eq!(7u32.align4(), 8);
    assert_eq!(8u32.align4(), 8);
    assert_eq!((u32::MAX - 4).align4(), u32::MAX - 3);
}

#[test]
fn align4_law() {
    for u in 0usize..1000 {
        let a = u.align4();
        assert_eq!(a % 4, 0);
        assert!(u <= a && a < u + 4);
        let b = (u as u32).align4();
        assert_eq!(b as usize, a);
    }
}

#[test]
fn trunc_page_cuts_to_the_page() {
    assert_eq!(trunc_page(0, 4095), 0);
    assert_eq!(trunc_page(12, 4095), 0);
    assert_eq!(trunc_page(4095, 4095), 0);
    assert_eq!(trunc_page(4096, 4095), 4096);
    assert_eq!(trunc_page(4096 + 12, 4095), 4096);
    assert_eq!(trunc_page(3 * 16384 + 5, 16383), 3 * 16384);
}

#[test]
fn range_to_offset_size_of_each_bound() {
    assert_eq!(
        range_to_offset_size(Bound::Included(2), Bound::Excluded(10)),
        (2, Some(8))
    );
    assert_eq!(
        range_to_offset_size(Bound::Included(2), Bound::Included(10)),
        (2, Some(9))
    );
    assert_eq!(
        range_to_offset_size(Bound::Excluded(2), Bound::Excluded(10)),
        (3, Some(7))
    );
    assert_eq!(range_to_offset_size(Bound::Unbounded, Bound::Excluded(10)), (0, Some(10)));
    assert_eq!(range_to_offset_size(Bound::Included(5), Bound::Unbounded), (5, None));
    assert_eq!(range_to_offset_size(Bound::Unbounded, Bound::Unbounded), (0, None));
    assert_eq!(range_to_offset_size(Bound::Included(4), Bound::Excluded(4)), (4, Some(0)));
}

#[test]
fn range_sound_tells_what_can_be_told() {
    assert!(range_sound(Bound::Included(2), Bound::Excluded(10)));
    assert!(range_sound(Bound::Included(4), Bound::Excluded(4)));
    assert!(range_sound(Bound::Included(4), Bound::Included(3)));
    assert!(!range_sound(Bound::Included(5), Bound::Excluded(4)));
    assert!(!range_sound(Bound::Included(5), Bound::Included(3)));
    assert!(!range_sound(Bound::Excluded(usize::MAX), Bound::Unbounded));
    assert!(!range_sound(Bound::Unbounded, Bound::Included(usize::MAX)));
    assert!(range_sound(Bound::Unbounded, Bound::Excluded(usize::MAX)));
}

#[test]
fn vec_take_moves_what_is_picked() {
    let mut source = vec![1, 2, 3, 4, 5, 6];
    let mut receiver = vec![0];
    vec_take(&mut source, &mut receiver, |x: &i32| x % 2 == 0);
    assert_eq!(receiver, vec![0, 2, 6, 4]);
    assert_eq!(source, vec![1, 5, 3]);

    let mut none: Vec<i32> = vec![];
    vec_take(&mut none, &mut receiver, |_: &i32| true);
    assert!(none.is_empty());
    assert_eq!(receiver.len(), 4);

    let mut all = vec![7, 8, 9];
    let mut got = vec![];
    vec_take(&mut all, &mut got, |_: &i32| true);
    assert!(all.is_empty());
    assert_eq!(got, vec![7, 9, 8]);
}

#[test]
fn endpoint_ids_are_random_and_marked() {
    let a = EndpointID::new();
    let b = EndpointID::new();
    assert_ne!(a, b);
    for id in [a, b] {
        let bytes = id.into_bytes();
        assert_eq!(bytes[6] & 0xf0, 0x40);
        assert_eq!(bytes[8] & 0xc0, 0x80);
    }
    let fixed = EndpointID::from_bytes([9; 16]);
    assert_eq!(fixed.into_bytes(), [9; 16]);
}

#[test]
fn rand_string_has_the_length_asked_for() {
    assert_eq!(rand_string(0), "");
    for length in [1usize, 16, 100] {
        let s = rand_string(length);
        assert_eq!(s.chars().count(), length);
        assert!(s.chars().all(|c| c.is_ascii_alphanumeric()));
    }
    assert_ne!(rand_string(32), rand_string(32));
}

#[test]
fn alloc_units_rounds_up() {
    assert_eq!(alloc_units(0, 8), 0);
    assert_eq!(alloc_units(1, 8), 1);
    assert_eq!(alloc_units(8, 8), 1);
    assert_eq!(alloc_units(9, 8), 2);
    assert_eq!(alloc_units(32, 4), 8);
    assert_eq!(alloc_units(33, 4), 9);
    assert_eq!(alloc_units(usize::MAX, 1), usize::MAX);
    assert_eq!(alloc_units(usize::MAX, usize::MAX), 1);
    assert_eq!(alloc_units(usize::MAX, 2), usize::MAX / 2 + 1);
}

#[test]
fn align4_of_u64() {
    assert_eq!(0u64.align4(), 0);
    assert_eq!(5u64.align4(), 8);
    assert_eq!((u32::MAX as u64).align4(), 1 << 32);
}

#[test]
fn vec_take_loses_nothing() {
    let mut source = vec![3, 1, 4, 1, 5, 9, 2, 6, 5, 3, 5];
    let mut receiver = vec![8, 8];
    let mut before: Vec<i32> = source.iter().chain(receiver.iter()).copied().collect();
    vec_take(&mut source, &mut receiver, |x: &i32| *x == 5 || *x == 1);
    assert_eq!(&receiver[..2], &[8, 8]);
    assert!(receiver[2..].iter().all(|x| *x == 5 || *x == 1));
    assert!(source.iter().all(|x| *x != 5 && *x != 1));
    let mut after: Vec<i32> = source.iter().chain(receiver.iter()).copied().collect();
    before.sort();
    after.sort();
    assert_eq!(before, after);
}
