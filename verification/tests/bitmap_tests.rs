use bit_vec::BitVec;
use sensor_station::bitmap::{
    area_pixels, bitvec_to_bitmap_string, selected_area, selected_pixels, validate_bitmap,
    PIXEL_COUNT,
};

fn bits_text(n: usize, set: &[usize]) -> String {
    (0..n).map(|i| if set.contains(&i) { '1' } else { '0' }).collect()
}

#[test]
fn validate_bitmap_accepts_768_bits() {
    let text = bits_text(768, &[0, 5, 767]);
    assert_eq!(validate_bitmap(&text), Ok(()));
    assert_eq!(validate_bitmap(&"0".repeat(768)), Ok(()));
    assert_eq!(validate_bitmap(&"1".repeat(768)), Ok(()));
}

#[test]
fn validate_bitmap_rejects_wrong_length() {
    let e = validate_bitmap(&"0".repeat(767)).unwrap_err();
    assert_eq!(e, "bitmap must be exactly 768 bits long");
    let e = validate_bitmap(&"1".repeat(769)).unwrap_err();
    assert_eq!(e, "bitmap must be exactly 768 bits long");
    let e = validate_bitmap("").unwrap_err();
    assert_eq!(e, "bitmap must be exactly 768 bits long");
}

#[test]
fn validate_bitmap_rejects_other_characters() {
    let mut text = "0".repeat(767);
    text.push('2');
    assert_eq!(
        validate_bitmap(&text).unwrap_err(),
        "bitmap must contain only '0' and '1'"
    );
    let mut text = "1".repeat(766);
    text.push('é');
    assert_eq!(text.len(), 768);
    assert_eq!(
        validate_bitmap(&text).unwrap_err(),
        "bitmap must contain only '0' and '1'"
    );
    // 768 characters but more than 768 bytes: the length is counted in bytes.
    let mut text = "0".repeat(767);
    text.push('é');
    assert_eq!(
        validate_bitmap(&text).unwrap_err(),
        "bitmap must be exactly 768 bits long"
    );
}

#[test]
fn bitmap_string_spells_each_bit() {
    let mut bv = BitVec::from_elem(10, false);
    bv.set(0, true);
    bv.set(3, true);
    bv.set(9, true);
    assert_eq!(bitvec_to_bitmap_string(&bv), "1001000001");
    assert_eq!(bitvec_to_bitmap_string(&BitVec::new()), "");
}

#[test]
fn bitmap_string_round_trips_a_valid_bitmap() {
    let text = bits_text(PIXEL_COUNT, &[1, 2, 100, 500, 767]);
    assert!(validate_bitmap(&text).is_ok());
    let bv: BitVec = text.chars().map(|c| c == '1').collect();
    assert_eq!(bitvec_to_bitmap_string(&bv), text);
}

#[test]
fn selected_pixels_reads_high_bit_first() {
    assert_eq!(selected_pixels(&[0b1000_0001, 0b0100_0000]), vec![0, 7, 9]);
    assert_eq!(selected_pixels(&[]), Vec::<usize>::new());
    assert_eq!(selected_pixels(&[0, 0]), Vec::<usize>::new());
    assert_eq!(selected_pixels(&[0xff]), (0..8).collect::<Vec<_>>());
}

#[test]
fn area_pixels_are_the_set_bits() {
    let mut bv = BitVec::from_elem(PIXEL_COUNT, false);
    for i in [0usize, 7, 8, 100, 767] {
        bv.set(i, true);
    }
    assert_eq!(area_pixels(&bv), vec![0, 7, 8, 100, 767]);
    // A length that is not a multiple of eight: padding selects nothing.
    let mut bv = BitVec::from_elem(11, false);
    bv.set(10, true);
    assert_eq!(area_pixels(&bv), vec![10]);
}

#[test]
fn selected_area_lists_the_set_bits() {
    let mut bv = BitVec::from_elem(PIXEL_COUNT, false);
    for i in [3usize, 64, 766] {
        bv.set(i, true);
    }
    assert_eq!(selected_area(&bv), Some(vec![3, 64, 766]));
    assert_eq!(selected_area(&BitVec::new()), Some(vec![]));
}
