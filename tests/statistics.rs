use data_analysis::stats::Statistics;

#[test]
fn mode_ties_go_to_the_lowest_value() {
    let mut vals = vec![5u16, 2, 5, 2];
    let st = Statistics::of(&mut vals);
    assert_eq!(st.mode, 2);
}

#[test]
fn median_of_even_sample_uses_upper_neighbours() {
    let mut vals = vec![4u16, 1, 3, 2];
    let st = Statistics::of(&mut vals);
    assert_eq!(st.median, 4);
}

#[test]
fn median_of_single_value() {
    let mut vals = vec![7u16];
    let st = Statistics::of(&mut vals);
    assert_eq!(st.median, 7);
    assert_eq!(st.min, 7);
    assert_eq!(st.max, 7);
    assert_eq!(st.num, 1);
}

#[test]
fn median_of_odd_sample_is_middle() {
    let mut vals = vec![9u16, 1, 5, 3, 7];
    let st = Statistics::of(&mut vals);
    assert_eq!(st.median, 5);
}

#[test]
fn median_of_two_values_uses_last() {
    let mut vals = vec![10u16, 3];
    let st = Statistics::of(&mut vals);
    assert_eq!(st.median, 10);
}

#[test]
fn single_value_has_no_deviation() {
    let mut vals = vec![7u16];
    let st = Statistics::of(&mut vals);
    assert_eq!(st.deviation_divisor(), None);
}

#[test]
fn deviation_divisor_is_count_less_one() {
    let mut vals = vec![1u16, 2, 3];
    let st = Statistics::of(&mut vals);
    assert_eq!(st.deviation_divisor(), Some(2));
}

#[test]
fn sorts_and_sums() {
    let mut vals = vec![3u16, 1, 2, 2];
    let st = Statistics::of(&mut vals);
    assert_eq!(vals, vec![1, 2, 2, 3]);
    assert_eq!(st.num, 4);
    assert_eq!(st.min, 1);
    assert_eq!(st.max, 3);
    assert_eq!(st.sum, 8);
    assert_eq!(st.sum_of_squares, 18);
    assert_eq!(st.mode, 2);
}

#[test]
fn mean_and_median_between_extremes() {
    let mut vals = vec![40u16, 3, 17, 3, 65535, 12];
    let st = Statistics::of(&mut vals);
    assert!(st.min <= st.median && st.median <= st.max);
    assert!(st.min as u128 * st.num as u128 <= st.sum);
    assert!(st.sum <= st.max as u128 * st.num as u128);
}

#[test]
fn summarising_copies_gives_same_result() {
    let sample = vec![9u16, 4, 4, 1, 30, 7, 7, 7];
    let mut a = sample.clone();
    let mut b = sample.clone();
    b.reverse();
    assert_eq!(Statistics::of(&mut a), Statistics::of(&mut b));
}

#[test]
fn empty_sample_is_degenerate() {
    let mut vals: Vec<u16> = Vec::new();
    let st = Statistics::of(&mut vals);
    assert_eq!(st.num, 0);
    assert_eq!(st.min, u16::MAX);
    assert_eq!(st.max, 0);
    assert_eq!(st.sum, 0);
    assert_eq!(st.median, 0);
    assert_eq!(st.mode, 0);
    assert_eq!(st.deviation_divisor(), None);
}

#[test]
fn largest_values_do_not_overflow() {
    let mut vals = vec![u16::MAX; 4];
    let st = Statistics::of(&mut vals);
    assert_eq!(st.sum, 4 * 65535);
    assert_eq!(st.sum_of_squares, 4 * 65535u128 * 65535);
    assert_eq!(st.median, u16::MAX);
}
