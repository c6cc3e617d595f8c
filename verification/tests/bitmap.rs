use molecule::memory::bitmap::Bitmap;

#[test]
fn bitmap_round_trip() {
    let mut bitmap = Bitmap::new_in(200);
    for i in [0usize, 1, 63, 64, 65, 127, 128, 199, 255] {
        assert!(!bitmap.is_set(i));
        bitmap.set(i, true);
        assert!(bitmap.is_set(i));
        bitmap.set(i, false);
        assert!(!bitmap.is_set(i));
    }
}

#[test]
fn setting_a_bit_leaves_the_others() {
    let mut bitmap = Bitmap::new_in(128);
    bitmap.set(5, true);
    bitmap.set(70, true);
    for i in 0..128usize {
        assert_eq!(bitmap.is_set(i), i == 5 || i == 70);
    }
    bitmap.set(5, false);
    for i in 0..128usize {
        assert_eq!(bitmap.is_set(i), i == 70);
    }
}

#[test]
fn set_past_the_end_changes_nothing() {
    let mut bitmap = Bitmap::new_in(64);
    bitmap.set(64, true);
    bitmap.set(1000, true);
    assert_eq!(bitmap.find_first_set(), None);
}

#[test]
fn find_first_set_gives_the_lowest_set_bit() {
    let mut bitmap = Bitmap::new_in(300);
    assert_eq!(bitmap.find_first_set(), None);
    bitmap.set(299, true);
    assert_eq!(bitmap.find_first_set(), Some(299));
    bitmap.set(64, true);
    assert_eq!(bitmap.find_first_set(), Some(64));
    bitmap.set(63, true);
    assert_eq!(bitmap.find_first_set(), Some(63));
    bitmap.set(0, true);
    assert_eq!(bitmap.find_first_set(), Some(0));
    bitmap.set(0, false);
    bitmap.set(63, false);
    bitmap.set(64, false);
    assert_eq!(bitmap.find_first_set(), Some(299));
}

#[test]
fn blocks_hold_the_bits() {
    assert_eq!(Bitmap::calculate_blocks(0), 0);
    assert_eq!(Bitmap::calculate_blocks(1), 1);
    assert_eq!(Bitmap::calculate_blocks(64), 1);
    assert_eq!(Bitmap::calculate_blocks(65), 2);
    assert_eq!(Bitmap::calculate_blocks(1023), 16);
    assert_eq!(Bitmap::get_index(0), (0, 0));
    assert_eq!(Bitmap::get_index(63), (0, 63));
    assert_eq!(Bitmap::get_index(64), (1, 0));
    assert_eq!(Bitmap::get_index(200), (3, 8));
}

#[test]
fn an_empty_bitmap_has_no_bit() {
    let mut bitmap = Bitmap::empty();
    assert_eq!(bitmap.find_first_set(), None);
    bitmap.set(0, true);
    assert_eq!(bitmap.find_first_set(), None);
}
