use pixel_engine::error::EngineError;
use pixel_engine::params::CropParams;
use pixel_engine::pipeline::apply;
use pixel_engine::pipeline::get_image_as_bytes;
use pixel_engine::pipeline::load_image_from_bytes;
use pixel_engine::pipeline::process_batch;
use pixel_engine::pipeline::process_item;
use pixel_engine::pipeline::BatchEntry;
use pixel_engine::pipeline::BatchInput;
use pixel_engine::pipeline::Operation;
use pixel_engine::buffer::OutputFormat;
use pixel_engine::buffer::PixelBuffer;

fn pattern(width: u32, height: u32) -> PixelBuffer {
    let mut buf = PixelBuffer::new(width, height).unwrap();
    for y in 0..height {
        for x in 0..width {
            assert!(buf.put_pixel(x, y, ((50 + x * 20) as u8, (60 + y * 20) as u8, (x * y + 70) as u8)));
        }
    }
    buf
}

fn png_of(buf: &PixelBuffer) -> Vec<u8> {
    get_image_as_bytes(buf, OutputFormat::Png).unwrap()
}

fn input(name: &str, bytes: Vec<u8>) -> BatchInput {
    BatchInput { name: name.to_string(), bytes }
}

#[test]
fn png_round_trip_keeps_every_pixel() {
    let buf = pattern(5, 3);
    let bytes = png_of(&buf);
    assert_eq!(&bytes[0..8], &[0x89, b'P', b'N', b'G', 0x0D, 0x0A, 0x1A, 0x0A]);
    let back = load_image_from_bytes(&bytes).unwrap();
    assert_eq!(back.dimensions(), (5, 3));
    assert_eq!(back.to_raw(), buf.to_raw());
}

#[test]
fn jpeg_round_trip_keeps_the_size() {
    let buf = pattern(9, 6);
    let bytes = get_image_as_bytes(&buf, OutputFormat::Jpeg).unwrap();
    assert_eq!(&bytes[0..2], &[0xFF, 0xD8]);
    let back = load_image_from_bytes(&bytes).unwrap();
    assert_eq!(back.dimensions(), (9, 6));
}

#[test]
fn encoding_depends_on_the_pixels() {
    assert_ne!(png_of(&pattern(4, 4)), png_of(&PixelBuffer::new(4, 4).unwrap()));
}

#[test]
fn bytes_that_are_no_image_are_a_decode_error() {
    assert_eq!(load_image_from_bytes(&[]).err(), Some(EngineError::DecodeError));
    assert_eq!(load_image_from_bytes(b"not an image").err(), Some(EngineError::DecodeError));
    let mut truncated = png_of(&pattern(4, 4));
    truncated.truncate(20);
    assert_eq!(load_image_from_bytes(&truncated).err(), Some(EngineError::DecodeError));
}

#[test]
fn image_too_large_for_the_format_is_an_encode_error() {
    let wide = PixelBuffer::new(70000, 1).unwrap();
    assert_eq!(
        get_image_as_bytes(&wide, OutputFormat::Jpeg).err(),
        Some(EngineError::EncodeError)
    );
}

#[test]
fn apply_invert_inverts() {
    let out = apply(Operation::Invert, PixelBuffer::from_raw(1, 1, vec![1, 2, 3]).unwrap());
    assert_eq!(out.unwrap().to_raw(), vec![254, 253, 252]);
}

#[test]
fn apply_crop_crops() {
    let out = apply(Operation::Crop(CropParams { x: 1, y: 1, w: 2, h: 1 }), pattern(4, 4)).unwrap();
    assert_eq!(out.dimensions(), (2, 1));
    assert_eq!(out.get_pixel(0, 0), Some((70, 80, 71)));
    assert_eq!(out.get_pixel(1, 0), Some((90, 80, 72)));
}

#[test]
fn apply_crop_to_a_size_that_cannot_exist_is_an_invalid_parameter() {
    let huge = CropParams { x: 0, y: 0, w: u32::MAX, h: u32::MAX };
    assert_eq!(
        apply(Operation::Crop(huge), pattern(4, 4)).err(),
        Some(EngineError::InvalidParameter)
    );
}

#[test]
fn apply_trim_trims_or_reports_a_black_image() {
    let mut buf = PixelBuffer::new(5, 5).unwrap();
    assert!(buf.put_pixel(2, 3, (90, 90, 90)));
    assert!(buf.put_pixel(3, 3, (80, 80, 80)));
    let out = apply(Operation::Trim, buf).unwrap();
    assert_eq!(out.to_raw(), vec![90, 90, 90, 80, 80, 80]);
    assert_eq!(
        apply(Operation::Trim, PixelBuffer::new(5, 5).unwrap()).err(),
        Some(EngineError::AllBlackImage)
    );
}

#[test]
fn apply_distort_keeps_the_size() {
    let out = apply(Operation::Distort, pattern(6, 2)).unwrap();
    assert_eq!(out.dimensions(), (6, 2));
}

#[test]
fn process_item_decodes_transforms_and_encodes() {
    let bytes = png_of(&PixelBuffer::from_raw(2, 1, vec![1, 2, 3, 4, 5, 6]).unwrap());
    let out = process_item(Operation::Invert, OutputFormat::Png, &bytes).unwrap();
    let back = load_image_from_bytes(&out).unwrap();
    assert_eq!(back.to_raw(), vec![254, 253, 252, 251, 250, 249]);
}

#[test]
fn process_item_reports_each_kind_of_failure() {
    assert_eq!(
        process_item(Operation::Invert, OutputFormat::Png, b"garbage").err(),
        Some(EngineError::DecodeError)
    );
    let black = png_of(&PixelBuffer::new(3, 3).unwrap());
    assert_eq!(
        process_item(Operation::Trim, OutputFormat::Png, &black).err(),
        Some(EngineError::AllBlackImage)
    );
    let huge = CropParams { x: 0, y: 0, w: u32::MAX, h: u32::MAX };
    assert_eq!(
        process_item(Operation::Crop(huge), OutputFormat::Png, &black).err(),
        Some(EngineError::InvalidParameter)
    );
    let wide = CropParams { x: 0, y: 0, w: 70000, h: 1 };
    assert_eq!(
        process_item(Operation::Crop(wide), OutputFormat::Jpeg, &black).err(),
        Some(EngineError::EncodeError)
    );
}

#[test]
fn batch_crop_of_two_files_gives_their_top_left_blocks() {
    let small = pattern(4, 4);
    let large = pattern(8, 8);
    let inputs = vec![input("small.png", png_of(&small)), input("large.png", png_of(&large))];
    let op = Operation::Crop(CropParams { x: 0, y: 0, w: 2, h: 2 });
    let entries = process_batch(op, OutputFormat::Png, &inputs);
    assert_eq!(entries.len(), 2);
    assert_eq!(entries[0].name, "small.png");
    assert_eq!(entries[1].name, "large.png");
    for (entry, source) in entries.iter().zip([&small, &large]) {
        let out = load_image_from_bytes(entry.outcome.as_ref().unwrap()).unwrap();
        assert_eq!(out.dimensions(), (2, 2));
        for y in 0..2 {
            for x in 0..2 {
                assert_eq!(out.get_pixel(x, y), source.get_pixel(x, y));
            }
        }
    }
}

#[test]
fn batch_records_a_failure_and_goes_on() {
    let mut bright = PixelBuffer::new(3, 3).unwrap();
    assert!(bright.put_pixel(1, 1, (250, 250, 250)));
    let inputs = vec![
        input("broken", vec![1, 2, 3]),
        input("black", png_of(&PixelBuffer::new(3, 3).unwrap())),
        input("bright", png_of(&bright)),
    ];
    let entries = process_batch(Operation::Trim, OutputFormat::Png, &inputs);
    assert_eq!(entries.len(), 3);
    assert_eq!(entries[0].name, "broken");
    assert_eq!(entries[0].outcome, Err(EngineError::DecodeError));
    assert_eq!(entries[1].name, "black");
    assert_eq!(entries[1].outcome, Err(EngineError::AllBlackImage));
    assert_eq!(entries[2].name, "bright");
    let out = load_image_from_bytes(entries[2].outcome.as_ref().unwrap()).unwrap();
    assert_eq!(out.to_raw(), vec![250, 250, 250]);
}

#[test]
fn batch_of_nothing_is_empty() {
    assert!(process_batch(Operation::Invert, OutputFormat::Png, &Vec::new()).is_empty());
}

#[test]
fn entry_becomes_a_response_or_gives_its_failure() {
    let ok = BatchEntry { name: "a".to_string(), outcome: Ok(vec![1, 2]) };
    let response = ok.to_response().ok().unwrap();
    assert_eq!(response.name, "a");
    assert_eq!(response.data, vec![1, 2]);
    let failed = BatchEntry { name: "b".to_string(), outcome: Err(EngineError::DecodeError) };
    assert_eq!(failed.to_response().err(), Some(EngineError::DecodeError));
}

#[test]
fn finish_encodes_a_result_and_passes_a_failure_on() {
    let buf = PixelBuffer::from_raw(1, 1, vec![5, 6, 7]).unwrap();
    let bytes = pixel_engine::pipeline::finish(Ok(buf), OutputFormat::Png).unwrap();
    assert_eq!(load_image_from_bytes(&bytes).unwrap().to_raw(), vec![5, 6, 7]);
    assert_eq!(
        pixel_engine::pipeline::finish(Err(EngineError::AllBlackImage), OutputFormat::Png),
        Err(EngineError::AllBlackImage)
    );
}
