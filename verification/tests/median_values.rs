use quorum_node::context::vec_to_u64_big_endian;
use quorum_node::median::{median_string, sort_u64, u64_to_dec_string};

#[test]
fn median_even_length() {
    // average of the two middle elements
    assert_eq!(median_string(&vec![1, 2, 3, 4]), "2.5");
}

#[test]
fn median_odd_length() {
    // the middle element of the sorted vector
    assert_eq!(median_string(&vec![5, 1, 3]), "3");
}

#[test]
fn median_single() {
    assert_eq!(median_string(&vec![7]), "7");
}

#[test]
fn median_even_whole() {
    assert_eq!(median_string(&vec![2, 2]), "2.0");
}

#[test]
fn median_even_half() {
    assert_eq!(median_string(&vec![2, 1]), "1.5");
}

#[test]
fn median_largest_values() {
    // the sum of the two middle elements does not overflow the average
    assert_eq!(median_string(&vec![u64::MAX, u64::MAX]), "18446744073709551615.0");
    assert_eq!(median_string(&vec![u64::MAX - 1, u64::MAX]), "18446744073709551614.5");
}

#[test]
fn sort_is_sorted_permutation() {
    let sorted = sort_u64(&vec![5, 1, 4, 1, 3]);
    assert_eq!(sorted, vec![1, 1, 3, 4, 5]);
}

#[test]
fn decimal_strings() {
    assert_eq!(u64_to_dec_string(0), "0");
    assert_eq!(u64_to_dec_string(10), "10");
    assert_eq!(u64_to_dec_string(65535), "65535");
    assert_eq!(u64_to_dec_string(u64::MAX), "18446744073709551615");
}

#[test]
fn big_endian_input_number() {
    // bytes fill the 64-bit value from the most significant position down
    assert_eq!(vec_to_u64_big_endian(&vec![0, 0, 0, 0, 0, 0, 0, 1]), 1);
    assert_eq!(vec_to_u64_big_endian(&vec![1]), 1u64 << 56);
    assert_eq!(vec_to_u64_big_endian(&vec![]), 0);
    assert_eq!(
        vec_to_u64_big_endian(&vec![0x01, 0x02, 0x03, 0x04, 0x05, 0x06, 0x07, 0x08]),
        0x0102030405060708
    );
}
