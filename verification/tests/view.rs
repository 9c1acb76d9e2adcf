use fixed_capacity_vec::ExtendError;
use fixed_capacity_vec::AsFixedCapacityVec;
use std::iter::repeat;

#[test]
fn test_parameter_permutations_in_constructor() {
    for orig_capacity in 1..40 {
        for length in 0..40 {
            for new_capacity in 0..40 {
                let mut vec = Vec::with_capacity(orig_capacity);
                vec.resize(length, 0);
                {
                    let mut extend = vec.with_fixed_capacity(new_capacity);
                    // test that this capacity can actually be filled
                    for _ in 0..new_capacity {
                        extend.push(0);
                    }
                }
                assert_eq!(vec.len(), length + new_capacity);
                assert!(vec.capacity() >= length + new_capacity);
            }
        }
    }
}

#[test]
fn test_extend() {
    let mut vec = Vec::new();
    {
        let mut buffer = vec.with_fixed_capacity(4);
        buffer.extend(repeat(9).take(3));
    }
    assert_eq!(&vec[..], &[9, 9, 9]);
}

#[test]
fn test_extend_with_repeat_empty() {
    let mut vec: Vec<i32> = Vec::new();
    {
        let mut extend = vec.with_fixed_capacity(3);
        extend.extend_with_repeat(&[], 10);
    }
    assert_eq!(vec.len(), 0);
}

#[test]
fn push_then_copy_content() {
    let mut vec = vec![1, 2, 3, 4];
    {
        let mut extend_end = vec.with_fixed_capacity(5);
        extend_end.push(4);
        assert_eq!(extend_end.as_slice(), &[4]);
        assert_eq!(extend_end.content(), &[1, 2, 3, 4]);
        extend_end.extend_from_within(0, 4);
        assert_eq!(extend_end.as_slice(), &[4, 1, 2, 3, 4]);
        assert_eq!(extend_end.additional_cap(), 0);
    }
    assert_eq!(vec, &[1, 2, 3, 4, 4, 1, 2, 3, 4]);
}

#[test]
fn extend_from_slice_twice() {
    let mut vec = Vec::new();
    vec.push(1);
    vec.push(2);
    {
        let mut extent = vec.with_fixed_capacity(4);
        extent.extend_from_slice(&[1, 2]);
        extent.extend_from_slice(&[1, 2]);
    }
    assert_eq!(vec, &[1, 2, 1, 2, 1, 2]);
}

#[test]
fn extend_from_slice_appends_in_order() {
    let mut vec = vec![1, 2, 3, 4];
    {
        let mut extend = vec.with_fixed_capacity(4);
        extend.extend_from_slice(&[5, 6, 7, 8]);
    }
    assert_eq!(&vec[..], &[1, 2, 3, 4, 5, 6, 7, 8]);
}

#[test]
fn push_after_reserve() {
    let mut vec = vec![1, 2, 3, 4];
    vec.reserve(4);
    {
        let mut extend = vec.with_fixed_capacity(4);
        extend.push(5);
        extend.push(6);
    }
    assert_eq!(&vec[..], &[1, 2, 3, 4, 5, 6]);
}

#[test]
fn capacity_and_len_count_the_write_region_only() {
    let mut vec = vec![7u8; 10];
    let mut extend = vec.with_fixed_capacity(6);
    assert_eq!(extend.capacity(), 6);
    assert_eq!(extend.len(), 0);
    assert_eq!(extend.additional_cap(), 6);
    extend.push(1);
    extend.extend_from_slice(&[2, 3]);
    assert_eq!(extend.capacity(), 6);
    assert_eq!(extend.len(), 3);
    assert_eq!(extend.additional_cap(), 3);
    assert_eq!(extend.as_slice(), &[1, 2, 3]);
    assert_eq!(extend.content(), &[7u8; 10]);
}

#[test]
fn zero_capacity_on_empty_vector() {
    let mut vec: Vec<i32> = Vec::new();
    {
        let mut extend = vec.with_fixed_capacity(0);
        assert_eq!(extend.capacity(), 0);
        assert_eq!(extend.len(), 0);
        assert_eq!(extend.try_push(1), Err(ExtendError::CapacityExceeded));
    }
    assert_eq!(vec.len(), 0);
}

#[test]
fn filling_exactly_the_capacity_by_mixed_steps() {
    let mut vec = vec![0u16; 5];
    {
        let mut extend = vec.with_fixed_capacity(9);
        extend.push(1);
        extend.extend_from_slice(&[2, 3]);
        extend.extend_with_repeat(&[4, 5], 2);
        extend.extend_from_within(5, 7);
        assert_eq!(extend.additional_cap(), 0);
        assert_eq!(extend.len(), 9);
    }
    assert_eq!(vec.len(), 14);
    assert!(vec.capacity() >= 14);
    assert_eq!(vec, &[0, 0, 0, 0, 0, 1, 2, 3, 4, 5, 4, 5, 1, 2]);
}

#[test]
fn try_push_beyond_capacity_changes_nothing() {
    let mut vec = Vec::new();
    vec.push(1);
    {
        let mut extend = vec.with_fixed_capacity(1);
        assert_eq!(extend.try_push(0), Ok(()));
        assert_eq!(extend.try_push(1), Err(ExtendError::CapacityExceeded));
        assert_eq!(extend.as_slice(), &[0]);
    }
    assert_eq!(vec, &[1, 0]);
}

#[test]
fn try_extend_from_slice_beyond_capacity_changes_nothing() {
    let mut vec: Vec<i32> = Vec::new();
    {
        let mut extend = vec.with_fixed_capacity(2);
        assert_eq!(
            extend.try_extend_from_slice(&[1, 2, 3]),
            Err(ExtendError::CapacityExceeded)
        );
        assert_eq!(extend.len(), 0);
        assert_eq!(extend.try_extend_from_slice(&[1, 2]), Ok(()));
        assert_eq!(extend.try_extend_from_slice(&[]), Ok(()));
    }
    assert_eq!(vec, &[1, 2]);
}

#[test]
fn try_extend_stops_at_the_limit() {
    let mut vec = vec![5];
    {
        let mut extend = vec.with_fixed_capacity(2);
        let result = extend.try_extend(::std::iter::repeat(2).take(3));
        assert_eq!(result, Err(ExtendError::CapacityExceeded));
        assert_eq!(extend.as_slice(), &[2, 2]);
    }
    assert_eq!(vec, &[5, 2, 2]);
    assert_eq!(vec.len(), 3);
}

#[test]
fn try_extend_takes_all_that_fits() {
    let mut vec = vec![5];
    {
        let mut extend = vec.with_fixed_capacity(3);
        assert_eq!(extend.try_extend(vec![1, 2, 3].into_iter()), Ok(()));
        assert_eq!(extend.try_extend(Vec::new().into_iter()), Ok(()));
    }
    assert_eq!(vec, &[5, 1, 2, 3]);
}

#[test]
fn error_messages() {
    assert_eq!(ExtendError::CapacityOverflow.message(), "capacity overflow");
    assert_eq!(ExtendError::CapacityExceeded.message(), "capacity exceeded");
}
