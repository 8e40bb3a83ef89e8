use pixel_engine::error::EngineError;
use pixel_engine::params::field_of;
use pixel_engine::params::parse_u32;
use pixel_engine::params::CropField;
use pixel_engine::params::CropImage;
use pixel_engine::params::CropParams;
use pixel_engine::params::ImageResponse;

#[test]
fn new_crop_form_is_empty_and_not_valid() {
    let form = CropImage::new();
    assert_eq!(form.x, None);
    assert_eq!(form.y, None);
    assert_eq!(form.width, None);
    assert_eq!(form.height, None);
    assert!(!form.is_valid());
}

#[test]
fn crop_form_is_valid_only_with_all_four_fields() {
    let full = CropImage { x: Some(1), y: Some(2), width: Some(3), height: Some(4) };
    assert!(full.is_valid());
    assert!(!CropImage { x: None, ..full }.is_valid());
    assert!(!CropImage { y: None, ..full }.is_valid());
    assert!(!CropImage { width: None, ..full }.is_valid());
    assert!(!CropImage { height: None, ..full }.is_valid());
}

#[test]
fn complete_crop_form_gives_its_rectangle() {
    let full = CropImage { x: Some(1), y: Some(2), width: Some(3), height: Some(4) };
    assert_eq!(full.to_params(), Ok(CropParams { x: 1, y: 2, w: 3, h: 4 }));
}

#[test]
fn incomplete_crop_form_is_an_invalid_parameter() {
    let full = CropImage { x: Some(1), y: Some(2), width: Some(3), height: Some(4) };
    assert_eq!(CropImage::new().to_params(), Err(EngineError::InvalidParameter));
    assert_eq!(CropImage { height: None, ..full }.to_params(), Err(EngineError::InvalidParameter));
    assert_eq!(CropImage { x: None, ..full }.to_params(), Err(EngineError::InvalidParameter));
}

#[test]
fn image_response_holds_name_and_data() {
    let entry = ImageResponse::new("a.png".to_string(), vec![1, 2, 3]);
    assert_eq!(entry.name, "a.png");
    assert_eq!(entry.data, vec![1, 2, 3]);
}

#[test]
fn parse_u32_reads_decimal_numbers() {
    assert_eq!(parse_u32("0"), Ok(0));
    assert_eq!(parse_u32("7"), Ok(7));
    assert_eq!(parse_u32("42"), Ok(42));
    assert_eq!(parse_u32("1234567890"), Ok(1234567890));
    assert_eq!(parse_u32("4294967295"), Ok(u32::MAX));
    assert_eq!(parse_u32("007"), Ok(7));
    assert_eq!(parse_u32("00000000000000000000012"), Ok(12));
}

#[test]
fn parse_u32_accepts_one_leading_plus() {
    assert_eq!(parse_u32("+5"), Ok(5));
    assert_eq!(parse_u32("+4294967295"), Ok(u32::MAX));
    assert_eq!(parse_u32("++5"), Err(EngineError::InvalidParameter));
    assert_eq!(parse_u32("+"), Err(EngineError::InvalidParameter));
    assert_eq!(parse_u32("5+"), Err(EngineError::InvalidParameter));
}

#[test]
fn parse_u32_refuses_what_does_not_fit() {
    assert_eq!(parse_u32("4294967296"), Err(EngineError::InvalidParameter));
    assert_eq!(parse_u32("42949672950"), Err(EngineError::InvalidParameter));
    assert_eq!(parse_u32("99999999999999999999999999"), Err(EngineError::InvalidParameter));
}

#[test]
fn parse_u32_refuses_what_is_no_number() {
    for text in ["", " ", "abc", "-1", "-0", "1.5", "1e3", " 1", "1 ", "0x10", "1_000", "١٢"] {
        assert_eq!(parse_u32(text), Err(EngineError::InvalidParameter), "text {:?}", text);
    }
}

#[test]
fn parse_u32_agrees_with_the_standard_parser() {
    for text in ["0", "+0", "10", "+", "-", "", "4294967295", "4294967296", "12a", "a12", "00"] {
        assert_eq!(parse_u32(text).ok(), text.parse::<u32>().ok(), "text {:?}", text);
    }
}

#[test]
fn every_error_has_its_message() {
    assert_eq!(EngineError::DecodeError.message(), "image bytes could not be decoded");
    assert_eq!(
        EngineError::InvalidParameter.message(),
        "a request parameter is missing or malformed"
    );
    assert_eq!(EngineError::AllBlackImage.message(), "provided image is completely black");
    assert_eq!(EngineError::ModelUnavailable.message(), "the detection model is unavailable");
    assert_eq!(EngineError::EncodeError.message(), "image could not be encoded");
}

#[test]
fn field_of_knows_the_four_fields_of_the_crop_form() {
    assert_eq!(field_of("x"), Some(CropField::X));
    assert_eq!(field_of("y"), Some(CropField::Y));
    assert_eq!(field_of("width"), Some(CropField::Width));
    assert_eq!(field_of("height"), Some(CropField::Height));
}

#[test]
fn field_of_knows_no_other_name() {
    for name in ["", "z", "X", "w", "h", "widt", "widths", "heigh", "heights", "image", " x", "xy"] {
        assert_eq!(field_of(name), None, "name {:?}", name);
    }
}

#[test]
fn set_field_fills_the_form_field_by_field() {
    let mut form = CropImage::new();
    assert!(form.set_field("x", "1"));
    assert!(!form.is_valid());
    assert!(form.set_field("height", "40"));
    assert!(form.set_field("y", "+2"));
    assert!(!form.is_valid());
    assert!(form.set_field("width", "30"));
    assert!(form.is_valid());
    assert_eq!(form.to_params(), Ok(CropParams { x: 1, y: 2, w: 30, h: 40 }));
}

#[test]
fn set_field_ignores_other_fields() {
    let mut form = CropImage { x: Some(1), y: Some(2), width: Some(3), height: Some(4) };
    assert!(!form.set_field("image", "5"));
    assert!(!form.set_field("w", "5"));
    assert_eq!(form.to_params(), Ok(CropParams { x: 1, y: 2, w: 3, h: 4 }));
}

#[test]
fn set_field_with_a_text_that_is_no_number_empties_the_field() {
    let mut form = CropImage { x: Some(1), y: Some(2), width: Some(3), height: Some(4) };
    assert!(form.set_field("width", "wide"));
    assert_eq!(form.width, None);
    assert_eq!(form.x, Some(1));
    assert!(!form.is_valid());
    assert_eq!(form.to_params(), Err(EngineError::InvalidParameter));
}

#[test]
fn set_field_takes_the_last_value_of_a_field() {
    let mut form = CropImage::new();
    assert!(form.set_field("x", "1"));
    assert!(form.set_field("x", "7"));
    assert_eq!(form.x, Some(7));
}
