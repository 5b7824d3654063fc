use data_analysis::sparse::{get_mut_at_with_extend, set_at_with_extend, Bits};

#[test]
fn writing_past_end_extends_with_defaults() {
    let mut v: Vec<u32> = Vec::new();
    *get_mut_at_with_extend(&mut v, 3) += 5;
    assert_eq!(v, vec![0, 0, 0, 5]);
}

#[test]
fn writing_in_range_keeps_length() {
    let mut v: Vec<u32> = vec![1, 2, 3];
    *get_mut_at_with_extend(&mut v, 1) = 9;
    assert_eq!(v, vec![1, 9, 3]);
}

#[test]
fn setting_a_bit_grows_the_set() {
    let mut b = Bits::new();
    set_at_with_extend(&mut b, 4);
    assert_eq!(b.len(), 5);
    assert_eq!(b.ones(), 1);
    set_at_with_extend(&mut b, 1);
    set_at_with_extend(&mut b, 4);
    assert_eq!(b.len(), 5);
    assert_eq!(b.ones(), 2);
}

#[test]
fn new_bits_are_empty() {
    let b = Bits::new();
    assert_eq!(b.len(), 0);
    assert_eq!(b.ones(), 0);
}
