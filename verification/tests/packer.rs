use cjk_font_atlas::{pack_bits, unpack_bits};

#[test]
fn alternating_pixels_pack_to_0x55() {
    assert_eq!(pack_bits(&[0, 255, 0, 255, 0, 255, 0, 255]), vec![0x55]);
}

#[test]
fn first_pixel_is_the_most_significant_bit() {
    assert_eq!(pack_bits(&[255, 0, 0, 0, 0, 0, 0, 0]), vec![0x80]);
    assert_eq!(pack_bits(&[0, 0, 0, 0, 0, 0, 0, 255]), vec![0x01]);
    assert_eq!(pack_bits(&[0, 0, 255, 0, 0, 0, 0, 0]), vec![0x20]);
    assert_eq!(pack_bits(&[255; 8]), vec![0xFF]);
    assert_eq!(pack_bits(&[0; 8]), vec![0x00]);
}

#[test]
fn any_sample_but_zero_is_on() {
    assert_eq!(pack_bits(&[1, 0, 128, 0, 254, 0, 0, 7]), vec![0b1010_1001]);
}

#[test]
fn groups_are_packed_in_order() {
    let samples = [255, 255, 0, 0, 0, 0, 0, 0, 0, 0, 0, 0, 0, 0, 255, 255, 255, 0, 255, 0, 255, 0, 255, 0];
    assert_eq!(pack_bits(&samples), vec![0xC0, 0x03, 0xAA]);
}

#[test]
fn trailing_pixels_short_of_a_group_are_dropped() {
    assert_eq!(pack_bits(&[]), Vec::<u8>::new());
    assert_eq!(pack_bits(&[255; 7]), Vec::<u8>::new());
    assert_eq!(pack_bits(&[255; 9]), vec![0xFF]);
    assert_eq!(pack_bits(&[255; 15]), vec![0xFF]);
    assert_eq!(pack_bits(&[255; 16]), vec![0xFF, 0xFF]);
}

#[test]
fn unpacking_gives_eight_samples_for_each_byte() {
    assert_eq!(unpack_bits(&[0x55]), vec![0, 255, 0, 255, 0, 255, 0, 255]);
    assert_eq!(
        unpack_bits(&[0x80, 0x01]),
        vec![255, 0, 0, 0, 0, 0, 0, 0, 0, 0, 0, 0, 0, 0, 0, 255]
    );
    assert_eq!(unpack_bits(&[]), Vec::<u8>::new());
}

#[test]
fn packing_what_was_unpacked_gives_the_bytes_back() {
    let bytes: Vec<u8> = (0..=255u8).collect();
    let samples = unpack_bits(&bytes);
    assert_eq!(samples.len(), 8 * 256);
    assert_eq!(pack_bits(&samples), bytes);
}

#[test]
fn unpacking_what_was_packed_gives_binary_samples_back() {
    let samples: Vec<u8> = (0..64u32).map(|i| if (i * 7) % 3 == 0 { 255 } else { 0 }).collect();
    assert_eq!(unpack_bits(&pack_bits(&samples)), samples);
}
