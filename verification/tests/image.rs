use wad_sprites::image::DecodedImage;

#[test]
fn an_image_holds_one_index_for_each_pixel() {
    let image = DecodedImage::new(3, 2, vec![1, 2, 3, 4, 5, 6]).unwrap();
    assert_eq!(image.width(), 3);
    assert_eq!(image.height(), 2);
    assert_eq!(image.pixels(), &[1, 2, 3, 4, 5, 6]);
}

#[test]
fn pixels_stand_row_after_row() {
    let image = DecodedImage::new(3, 2, vec![1, 2, 3, 4, 5, 6]).unwrap();
    assert_eq!(image.pixel(0, 0), Some(1));
    assert_eq!(image.pixel(1, 0), Some(2));
    assert_eq!(image.pixel(2, 0), Some(3));
    assert_eq!(image.pixel(0, 1), Some(4));
    assert_eq!(image.pixel(1, 1), Some(5));
    assert_eq!(image.pixel(2, 1), Some(6));
    assert_eq!(image.pixel(3, 0), None);
    assert_eq!(image.pixel(0, 2), None);
    assert_eq!(image.pixel(u32::MAX, u32::MAX), None);
}

#[test]
fn a_buffer_of_the_wrong_length_is_no_image() {
    assert!(DecodedImage::new(3, 2, vec![0; 5]).is_none());
    assert!(DecodedImage::new(3, 2, vec![0; 7]).is_none());
    assert!(DecodedImage::new(0, 2, vec![0; 1]).is_none());
    assert!(DecodedImage::new(u32::MAX, u32::MAX, vec![0; 1]).is_none());
    assert!(DecodedImage::new(0, 7, Vec::new()).is_some());
    assert!(DecodedImage::new(7, 0, Vec::new()).is_some());
}
