use pixel_engine::error::EngineError;
use pixel_engine::processing::Processing;
use pixel_engine::borders::DEFAULT_THRESHOLD;
use pixel_engine::buffer::PixelBuffer;

fn with_pixels(width: u32, height: u32, bright: &[(u32, u32)]) -> PixelBuffer {
    let mut buf = PixelBuffer::new(width, height).unwrap();
    for &(x, y) in bright {
        assert!(buf.put_pixel(x, y, (200, 150, (x * 16 + y) as u8)));
    }
    buf
}

#[test]
fn default_threshold_is_forty() {
    assert_eq!(DEFAULT_THRESHOLD, 40);
}

#[test]
fn shade_of_black_looks_at_every_sample() {
    assert!(Processing::is_a_shade_of_black((40, 40, 40), 40));
    assert!(Processing::is_a_shade_of_black((0, 0, 0), 40));
    assert!(!Processing::is_a_shade_of_black((41, 0, 0), 40));
    assert!(!Processing::is_a_shade_of_black((0, 41, 0), 40));
    assert!(!Processing::is_a_shade_of_black((0, 0, 41), 40));
    assert!(Processing::is_a_shade_of_black((255, 255, 255), 255));
    assert!(!Processing::is_a_shade_of_black((1, 0, 0), 0));
}

#[test]
fn edges_of_a_block_in_the_middle() {
    let img = with_pixels(8, 7, &[(2, 3), (5, 1), (4, 5)]);
    assert_eq!(Processing::find_top_edge(&img, 40), Some(1));
    assert_eq!(Processing::find_left_edge(&img, 40), Some(2));
    assert_eq!(Processing::find_bottom_edge(&img, 40), Some(5));
    assert_eq!(Processing::find_right_edge(&img, 40), Some(5));
}

#[test]
fn edges_of_content_in_the_corners() {
    let img = with_pixels(4, 3, &[(0, 0), (3, 2)]);
    assert_eq!(Processing::find_top_edge(&img, 40), Some(0));
    assert_eq!(Processing::find_left_edge(&img, 40), Some(0));
    assert_eq!(Processing::find_bottom_edge(&img, 40), Some(2));
    assert_eq!(Processing::find_right_edge(&img, 40), Some(3));
}

#[test]
fn edges_of_a_black_image_are_missing() {
    let img = PixelBuffer::new(5, 4).unwrap();
    assert_eq!(Processing::find_top_edge(&img, 40), None);
    assert_eq!(Processing::find_left_edge(&img, 40), None);
    assert_eq!(Processing::find_bottom_edge(&img, 40), None);
    assert_eq!(Processing::find_right_edge(&img, 40), None);
}

#[test]
fn edges_depend_on_the_threshold() {
    let mut img = PixelBuffer::new(3, 3).unwrap();
    assert!(img.put_pixel(1, 1, (50, 0, 0)));
    assert_eq!(Processing::find_top_edge(&img, 49), Some(1));
    assert_eq!(Processing::find_top_edge(&img, 50), None);
    assert_eq!(Processing::find_right_edge(&img, 49), Some(1));
    assert_eq!(Processing::find_right_edge(&img, 50), None);
}

#[test]
fn remove_borders_of_a_black_image_fails() {
    let img = PixelBuffer::new(6, 6).unwrap();
    assert_eq!(Processing::remove_borders(&img).err(), Some(EngineError::AllBlackImage));
}

#[test]
fn remove_borders_of_a_dark_image_fails() {
    let img = PixelBuffer::from_raw(2, 1, vec![40, 40, 40, 39, 0, 40]).unwrap();
    assert_eq!(Processing::remove_borders(&img).err(), Some(EngineError::AllBlackImage));
}

#[test]
fn remove_borders_of_a_black_column_fails() {
    let img = PixelBuffer::new(1, 5).unwrap();
    assert_eq!(Processing::remove_borders(&img).err(), Some(EngineError::AllBlackImage));
}

#[test]
fn remove_borders_of_an_empty_image_fails() {
    let img = PixelBuffer::new(0, 0).unwrap();
    assert_eq!(Processing::remove_borders(&img).err(), Some(EngineError::AllBlackImage));
    let img = PixelBuffer::new(0, 3).unwrap();
    assert_eq!(Processing::remove_borders(&img).err(), Some(EngineError::AllBlackImage));
}

#[test]
fn remove_borders_of_a_single_bright_pixel_is_that_pixel() {
    let img = with_pixels(7, 5, &[(4, 2)]);
    let out = Processing::remove_borders(&img).unwrap();
    assert_eq!(out.dimensions(), (1, 1));
    assert_eq!(out.get_pixel(0, 0), Some((200, 150, 66)));
}

#[test]
fn remove_borders_of_a_bright_pixel_in_a_corner_is_that_pixel() {
    let img = with_pixels(3, 3, &[(0, 0)]);
    let out = Processing::remove_borders(&img).unwrap();
    assert_eq!(out.dimensions(), (1, 1));
    assert_eq!(out.get_pixel(0, 0), Some((200, 150, 0)));
    let img = with_pixels(3, 3, &[(2, 2)]);
    let out = Processing::remove_borders(&img).unwrap();
    assert_eq!(out.dimensions(), (1, 1));
    assert_eq!(out.get_pixel(0, 0), Some((200, 150, 34)));
}

#[test]
fn remove_borders_keeps_the_smallest_rectangle_with_all_content() {
    let img = with_pixels(8, 7, &[(2, 3), (5, 1), (4, 5)]);
    let out = Processing::remove_borders(&img).unwrap();
    assert_eq!(out.dimensions(), (4, 5));
    assert_eq!(out.get_pixel(0, 2), Some((200, 150, 35)));
    assert_eq!(out.get_pixel(3, 0), Some((200, 150, 81)));
    assert_eq!(out.get_pixel(2, 4), Some((200, 150, 69)));
    assert_eq!(out.get_pixel(0, 0), Some((0, 0, 0)));
}

#[test]
fn remove_borders_of_an_image_without_borders_is_the_image() {
    let img = PixelBuffer::from_raw(2, 2, vec![99; 12]).unwrap();
    let out = Processing::remove_borders(&img).unwrap();
    assert_eq!(out.dimensions(), (2, 2));
    assert_eq!(out.to_raw(), vec![99; 12]);
}

#[test]
fn remove_borders_with_threshold_uses_the_threshold() {
    let img = PixelBuffer::from_raw(3, 1, vec![10, 10, 10, 60, 60, 60, 41, 0, 0]).unwrap();
    let out = Processing::remove_borders_with_threshold(&img, 40).unwrap();
    assert_eq!(out.to_raw(), vec![60, 60, 60, 41, 0, 0]);
    let out = Processing::remove_borders_with_threshold(&img, 41).unwrap();
    assert_eq!(out.to_raw(), vec![60, 60, 60]);
    let out = Processing::remove_borders_with_threshold(&img, 9).unwrap();
    assert_eq!(out.dimensions(), (3, 1));
    assert_eq!(
        Processing::remove_borders_with_threshold(&img, 60).err(),
        Some(EngineError::AllBlackImage)
    );
}

#[test]
fn crop_to_edges_cuts_the_rectangle_between_the_edges() {
    let img = with_pixels(5, 5, &[(1, 1), (3, 2)]);
    let out = Processing::crop_to_edges(&img, Some(1), Some(1), Some(2), Some(3)).unwrap();
    assert_eq!(out.dimensions(), (3, 2));
    assert_eq!(out.get_pixel(0, 0), Some((200, 150, 17)));
    assert_eq!(out.get_pixel(2, 1), Some((200, 150, 50)));
}

#[test]
fn crop_to_edges_without_an_edge_reports_a_black_image() {
    let img = with_pixels(5, 5, &[(1, 1)]);
    let black = Some(EngineError::AllBlackImage);
    assert_eq!(Processing::crop_to_edges(&img, None, Some(1), Some(1), Some(1)).err(), black);
    assert_eq!(Processing::crop_to_edges(&img, Some(1), None, Some(1), Some(1)).err(), black);
    assert_eq!(Processing::crop_to_edges(&img, Some(1), Some(1), None, Some(1)).err(), black);
    assert_eq!(Processing::crop_to_edges(&img, Some(1), Some(1), Some(1), None).err(), black);
}

#[test]
fn crop_to_edges_with_crossed_edges_reports_a_black_image() {
    let img = with_pixels(5, 5, &[(1, 1)]);
    let black = Some(EngineError::AllBlackImage);
    assert_eq!(Processing::crop_to_edges(&img, Some(0), Some(3), Some(4), Some(2)).err(), black);
    assert_eq!(Processing::crop_to_edges(&img, Some(3), Some(0), Some(2), Some(4)).err(), black);
}

#[test]
fn crop_to_edges_outside_the_image_is_refused() {
    let img = with_pixels(5, 5, &[(1, 1)]);
    let invalid = Some(EngineError::InvalidParameter);
    assert_eq!(Processing::crop_to_edges(&img, Some(0), Some(0), Some(4), Some(5)).err(), invalid);
    assert_eq!(Processing::crop_to_edges(&img, Some(0), Some(0), Some(5), Some(4)).err(), invalid);
    assert_eq!(
        Processing::crop_to_edges(&img, Some(0), Some(0), Some(u32::MAX), Some(u32::MAX)).err(),
        invalid
    );
}
