use vmm::bitmap::{set_bit, test_bit, word_count, zeroed};

#[test]
fn words_hold_sixty_four_bits() {
    assert_eq!(word_count(0), 0);
    assert_eq!(word_count(1), 1);
    assert_eq!(word_count(64), 1);
    assert_eq!(word_count(65), 2);
    assert_eq!(word_count(usize::MAX), usize::MAX / 64 + 1);
    assert_eq!(zeroed(65), vec![0, 0]);
}

#[test]
fn set_bits_read_back() {
    let mut words = zeroed(130);
    set_bit(&mut words, 0);
    set_bit(&mut words, 63);
    set_bit(&mut words, 129);
    set_bit(&mut words, 129);
    assert_eq!(words, vec![1 | 1 << 63, 0, 2]);
    for i in 0..130 {
        assert_eq!(test_bit(&words, i), [0, 63, 129].contains(&i));
    }
}
