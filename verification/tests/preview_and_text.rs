use screenzoom::preview::{preview_png_base64, swap_red_blue};
use screenzoom::text::{decimal_string, str_eq};

#[test]
fn swapping_exchanges_blue_and_red_of_every_pixel() {
    let mut px = vec![1, 2, 3, 4, 5, 6, 7, 8];
    swap_red_blue(&mut px);
    assert_eq!(px, vec![3, 2, 1, 4, 7, 6, 5, 8]);
    swap_red_blue(&mut px);
    assert_eq!(px, vec![1, 2, 3, 4, 5, 6, 7, 8]);
    let mut partial = vec![1, 2, 3, 4, 9, 8, 7];
    swap_red_blue(&mut partial);
    assert_eq!(partial, vec![3, 2, 1, 4, 7, 8, 9]);
}

#[test]
fn preview_is_a_base64_png() {
    // One opaque blue pixel (BGRA).
    let text = preview_png_base64(1, 1, vec![255, 0, 0, 255]).unwrap();
    // Base64 of the PNG signature 89 50 4E 47 0D 0A 1A 0A.
    assert!(text.starts_with("iVBORw0KGgo"), "{text}");
    assert_eq!(text.len() % 4, 0);
}

#[test]
fn preview_of_a_mismatched_buffer_is_an_error() {
    assert!(preview_png_base64(2, 2, vec![0, 0, 0, 255]).is_err());
    assert!(preview_png_base64(0, 1, vec![]).is_err());
    // A zero side fails at the header, whatever the buffer holds.
    assert!(preview_png_base64(0, 1, vec![7]).is_err());
    assert!(preview_png_base64(3, 0, vec![1, 2]).is_err());
}

#[test]
fn numbers_are_rendered_in_decimal() {
    assert_eq!(decimal_string(0), "0");
    assert_eq!(decimal_string(9), "9");
    assert_eq!(decimal_string(10), "10");
    assert_eq!(decimal_string(340282366920938463463374607431768211455), "340282366920938463463374607431768211455");
}

#[test]
fn strings_compare_character_by_character() {
    assert!(str_eq("gradient-01", "gradient-01"));
    assert!(!str_eq("gradient-01", "gradient-02"));
    assert!(!str_eq("abc", "ab"));
    assert!(str_eq("", ""));
}
