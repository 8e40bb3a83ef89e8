use pixel_engine::buffer::PixelBuffer;

#[test]
fn new_buffer_is_black_and_has_the_requested_size() {
    let buf = PixelBuffer::new(3, 2).unwrap();
    assert_eq!(buf.dimensions(), (3, 2));
    assert_eq!(buf.width(), 3);
    assert_eq!(buf.height(), 2);
    for y in 0..2 {
        for x in 0..3 {
            assert_eq!(buf.get_pixel(x, y), Some((0, 0, 0)));
        }
    }
    assert_eq!(buf.to_raw(), vec![0u8; 18]);
}

#[test]
fn new_buffer_may_be_empty() {
    let buf = PixelBuffer::new(0, 5).unwrap();
    assert_eq!(buf.dimensions(), (0, 5));
    assert_eq!(buf.get_pixel(0, 0), None);
    assert!(buf.to_raw().is_empty());
}

#[test]
fn new_buffer_that_cannot_be_allocated_is_refused() {
    assert!(PixelBuffer::new(u32::MAX, u32::MAX).is_none());
    assert!(!PixelBuffer::size_fits(u32::MAX, u32::MAX));
    assert!(PixelBuffer::size_fits(4, 4));
    assert!(PixelBuffer::size_fits(0, u32::MAX));
}

#[test]
fn get_pixel_outside_the_buffer_is_none() {
    let buf = PixelBuffer::new(3, 2).unwrap();
    assert_eq!(buf.get_pixel(3, 0), None);
    assert_eq!(buf.get_pixel(0, 2), None);
    assert_eq!(buf.get_pixel(u32::MAX, u32::MAX), None);
}

#[test]
fn put_pixel_changes_one_pixel_only() {
    let mut buf = PixelBuffer::new(3, 2).unwrap();
    assert!(buf.put_pixel(1, 1, (9, 8, 7)));
    assert_eq!(buf.get_pixel(1, 1), Some((9, 8, 7)));
    assert_eq!(
        buf.to_raw(),
        vec![0, 0, 0, 0, 0, 0, 0, 0, 0, 0, 0, 0, 9, 8, 7, 0, 0, 0]
    );
}

#[test]
fn put_pixel_outside_the_buffer_changes_nothing() {
    let mut buf = PixelBuffer::new(3, 2).unwrap();
    assert!(!buf.put_pixel(3, 1, (9, 8, 7)));
    assert!(!buf.put_pixel(1, 2, (9, 8, 7)));
    assert_eq!(buf.to_raw(), vec![0u8; 18]);
}

#[test]
fn put_pixel_stores_the_colour_at_its_row_and_column() {
    let mut buf = PixelBuffer::new(2, 3).unwrap();
    assert!(buf.put_pixel(1, 2, (1, 2, 3)));
    assert_eq!(buf.get_pixel(1, 2), Some((1, 2, 3)));
    assert_eq!(buf.get_pixel(0, 2), Some((0, 0, 0)));
    let raw = buf.to_raw();
    assert_eq!(&raw[15..18], &[1, 2, 3]);
}

#[test]
fn from_raw_reads_three_samples_per_pixel_row_by_row() {
    let samples: Vec<u8> = (0..24).collect();
    let buf = PixelBuffer::from_raw(4, 2, samples.clone()).unwrap();
    assert_eq!(buf.dimensions(), (4, 2));
    assert_eq!(buf.get_pixel(0, 0), Some((0, 1, 2)));
    assert_eq!(buf.get_pixel(3, 0), Some((9, 10, 11)));
    assert_eq!(buf.get_pixel(0, 1), Some((12, 13, 14)));
    assert_eq!(buf.get_pixel(3, 1), Some((21, 22, 23)));
    assert_eq!(buf.to_raw(), samples);
}

#[test]
fn from_raw_refuses_a_wrong_number_of_samples() {
    assert!(PixelBuffer::from_raw(4, 2, vec![0u8; 23]).is_none());
    assert!(PixelBuffer::from_raw(4, 2, vec![0u8; 25]).is_none());
    assert!(PixelBuffer::from_raw(u32::MAX, u32::MAX, vec![0u8; 3]).is_none());
    assert!(PixelBuffer::from_raw(0, 0, Vec::new()).is_some());
}

#[test]
fn snapshot_is_an_independent_copy() {
    let mut buf = PixelBuffer::from_raw(2, 1, vec![1, 2, 3, 4, 5, 6]).unwrap();
    let copy = buf.snapshot();
    assert!(buf.put_pixel(0, 0, (0, 0, 0)));
    assert_eq!(copy.dimensions(), (2, 1));
    assert_eq!(copy.to_raw(), vec![1, 2, 3, 4, 5, 6]);
    assert_eq!(buf.to_raw(), vec![0, 0, 0, 4, 5, 6]);
}
