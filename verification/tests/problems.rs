//! Tests of the standalone algorithm exercises.

use tlv::problems::{ListNode, _add_two_numbers, _length_of_longest_substring, _two_sum};

#[test]
fn add_two_numbers_test() {
    assert_eq!(
        _add_two_numbers(ListNode::from_vec(&[2, 4, 3]), ListNode::from_vec(&[5, 6, 4])),
        vec![7, 0, 8]
    );

    assert_eq!(
        _add_two_numbers(ListNode::from_vec(&[0]), ListNode::from_vec(&[0])),
        vec![0]
    );

    assert_eq!(
        _add_two_numbers(
            ListNode::from_vec(&[9, 9, 9, 9, 9, 9, 9]),
            ListNode::from_vec(&[9, 9, 9, 9])
        ),
        vec![8, 9, 9, 9, 0, 0, 0, 1]
    );
}

#[test]
fn longest_substring_without_repeating_characters_test() {
    assert_eq!(_length_of_longest_substring("abcabcbb"), 3);
    assert_eq!(_length_of_longest_substring("bbbbb"), 1);
    assert_eq!(_length_of_longest_substring("pwwkew"), 3);
}

#[test]
fn longest_substring_empty() {
    assert_eq!(_length_of_longest_substring(""), 0);
    assert_eq!(_length_of_longest_substring("abcdef"), 6);
}

#[test]
fn two_sum_test() {
    assert_eq!(&[0, 1][..], &_two_sum(&[2, 7, 11, 15], 9));
    assert_eq!(&[1, 2][..], &_two_sum(&[3, 2, 4], 6));
    assert_eq!(&[0, 1][..], &_two_sum(&[3, 3], 6));
}

#[test]
fn two_sum_picks_latest_duplicate() {
    // Two earlier positions hold the complement; the later one wins, as a
    // scan that remembers the last position of each value finds it.
    assert_eq!(&[1, 2][..], &_two_sum(&[3, 3, 4], 7));
}

#[test]
fn two_sum_without_answer() {
    assert_eq!(_two_sum(&[1, 2, 3], 100), Vec::<usize>::new());
    assert_eq!(_two_sum(&[], 0), Vec::<usize>::new());
}
