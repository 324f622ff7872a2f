use simd::blas::{element_count, CountError, MAX_COUNT};
use simd::split_index;

#[test]
fn split_index_is_the_largest_multiple_below() {
    assert_eq!(split_index(0, 4), 0);
    assert_eq!(split_index(3, 4), 0);
    assert_eq!(split_index(4, 4), 4);
    assert_eq!(split_index(7, 4), 4);
    assert_eq!(split_index(8, 4), 8);
    assert_eq!(split_index(13, 8), 8);
    assert_eq!(split_index(16, 8), 16);
    assert_eq!(split_index(1_048_576, 8), 1_048_576);
    assert_eq!(split_index(1_048_579, 4), 1_048_576);
    assert_eq!(split_index(5, 1), 5);
}

#[test]
fn split_index_leaves_less_than_a_chunk() {
    for width in 1..10usize {
        for len in 0..100usize {
            let s = split_index(len, width);
            assert!(s <= len);
            assert_eq!(s % width, 0);
            assert!(len - s < width);
        }
    }
}

#[test]
fn element_count_of_equal_lengths() {
    assert_eq!(element_count(0, 0), Ok(0));
    assert_eq!(element_count(8, 8), Ok(8));
    assert_eq!(element_count(1_048_576, 1_048_576), Ok(1_048_576));
    assert_eq!(element_count(MAX_COUNT, MAX_COUNT), Ok(i32::MAX));
}

#[test]
fn element_count_refuses_different_lengths() {
    assert_eq!(element_count(8, 7), Err(CountError::Mismatch));
    assert_eq!(element_count(0, 1), Err(CountError::Mismatch));
    assert_eq!(element_count(MAX_COUNT + 1, 3), Err(CountError::Mismatch));
}

#[test]
fn element_count_refuses_what_the_count_cannot_express() {
    assert_eq!(element_count(MAX_COUNT + 1, MAX_COUNT + 1), Err(CountError::TooLong));
    assert_eq!(element_count(usize::MAX, usize::MAX), Err(CountError::TooLong));
}
