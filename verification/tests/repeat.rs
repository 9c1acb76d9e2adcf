use fixed_capacity_vec::ExtendError;
use fixed_capacity_vec::AsFixedCapacityVec;

#[test]
fn extend_with_repeat_four_times() {
    let mut vec = Vec::new();
    {
        let mut append = vec.with_fixed_capacity(8);
        append.extend_with_repeat(&[0, 1], 4);
    }
    assert_eq!(&vec[..], &[0, 1, 0, 1, 0, 1, 0, 1]);
}

#[test]
fn extend_with_repeat_zero_times_is_a_no_op() {
    let mut vec = vec![1, 2, 3];
    {
        let mut append = vec.with_fixed_capacity(0);
        append.extend_with_repeat(&[7, 8, 9], 0);
        assert_eq!(append.len(), 0);
    }
    assert_eq!(vec, &[1, 2, 3]);
}

#[test]
fn extend_with_repeat_matches_concatenation_for_every_count() {
    let unit = [3u8, 1, 4, 1, 5];
    for n in 0..70usize {
        let mut expected = vec![9u8, 9];
        for _ in 0..n {
            expected.extend_from_slice(&unit);
        }
        let mut vec = vec![9u8, 9];
        {
            let mut append = vec.with_fixed_capacity(unit.len() * n);
            append.extend_with_repeat(&unit, n);
            assert_eq!(append.additional_cap(), 0);
        }
        assert_eq!(vec, expected);
    }
}

#[test]
fn extend_with_repeat_of_one_element() {
    let mut vec: Vec<u32> = Vec::new();
    {
        let mut append = vec.with_fixed_capacity(13);
        append.extend_with_repeat(&[6], 13);
    }
    assert_eq!(vec, vec![6u32; 13]);
}

#[test]
fn repeat_tail_doubles_what_stands_at_the_end() {
    let mut vec = vec![1, 2, 3];
    {
        let mut append = vec.with_fixed_capacity(8);
        append.repeat_tail(2, 4);
    }
    assert_eq!(vec, &[1, 2, 3, 2, 3, 2, 3, 2, 3, 2, 3]);
}

#[test]
fn repeat_tail_zero_times_appends_nothing() {
    let mut vec = vec![1, 2, 3];
    {
        let mut append = vec.with_fixed_capacity(4);
        append.repeat_tail(3, 0);
        assert_eq!(append.len(), 0);
    }
    assert_eq!(vec, &[1, 2, 3]);
}

#[test]
fn try_extend_with_repeat_reports_overflow() {
    let mut vec = Vec::new();
    {
        let mut extend = vec.with_fixed_capacity(4);
        assert_eq!(
            extend.try_extend_with_repeat(&[1, 2, 3, 4], usize::MAX),
            Err(ExtendError::CapacityOverflow)
        );
        assert_eq!(extend.len(), 0);
    }
    assert_eq!(vec.len(), 0);
}

#[test]
fn try_extend_with_repeat_reports_exceeded_capacity() {
    let mut vec = Vec::new();
    {
        let mut extend = vec.with_fixed_capacity(1);
        assert_eq!(
            extend.try_extend_with_repeat(&[1], 5),
            Err(ExtendError::CapacityExceeded)
        );
        assert_eq!(extend.len(), 0);
    }
    assert_eq!(vec.len(), 0);
}

#[test]
fn try_extend_with_repeat_appends_what_fits() {
    let mut vec = vec![0];
    {
        let mut extend = vec.with_fixed_capacity(6);
        assert_eq!(extend.try_extend_with_repeat(&[1, 2], 3), Ok(()));
        assert_eq!(
            extend.try_extend_with_repeat(&[1], 1),
            Err(ExtendError::CapacityExceeded)
        );
        assert_eq!(extend.try_extend_with_repeat(&[1], 0), Ok(()));
        assert_eq!(extend.try_extend_with_repeat(&[], usize::MAX), Ok(()));
    }
    assert_eq!(vec, &[0, 1, 2, 1, 2, 1, 2]);
}

#[test]
fn repeat_tail_matches_concatenation_for_every_count() {
    for unit in 1..6usize {
        for times in 0..40usize {
            let mut vec: Vec<u8> = (0..7u8).collect();
            let mut expected = vec.clone();
            for _ in 0..times {
                expected.extend_from_slice(&vec[7 - unit..]);
            }
            {
                let mut append = vec.with_fixed_capacity(unit * times + 1);
                append.repeat_tail(unit, times);
                assert_eq!(append.additional_cap(), 1);
            }
            assert_eq!(vec, expected);
        }
    }
}
