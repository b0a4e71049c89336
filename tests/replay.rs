use pixel_art_scanner::{
    parse_color, parse_coordinate, parse_i32, parse_timestamp, parse_u32, seconds_between,
    split_fields, Color, Coordinate, FieldError, ImageExpansionOffset, OnError, ParseError, Parser,
    ParserConfig, ParserImage, Record,
};

fn record(timestamp: i64, coordinate: Coordinate, pixel_color: Color) -> Record {
    Record { timestamp, user: String::from("someone"), coordinate, pixel_color }
}

fn white() -> Color {
    Color::rgb(255, 255, 255)
}

#[test]
fn parser_config_constructors() {
    let c = ParserConfig::new(false, String::from("out"), OnError::Stop, 60);
    assert!(!c.verbose);
    assert_eq!(c.output_dir, "out");
    assert_eq!(c.on_error, OnError::Stop);
    assert_eq!(c.save_interval_seconds, 60);
    let d = ParserConfig::new_default();
    assert!(d.verbose);
    assert_eq!(d.output_dir, "output/output_images");
    assert_eq!(d.on_error, OnError::Print);
    assert_eq!(d.save_interval_seconds, 10000);
}

#[test]
fn decimal_numbers() {
    assert_eq!(parse_i32(b"-12"), Some(-12));
    assert_eq!(parse_i32(b"+7"), Some(7));
    assert_eq!(parse_i32(b"0042"), Some(42));
    assert_eq!(parse_i32(b"2147483647"), Some(i32::MAX));
    assert_eq!(parse_i32(b"-2147483648"), Some(i32::MIN));
    assert_eq!(parse_i32(b"2147483648"), None);
    assert_eq!(parse_i32(b"99999999999999999999"), None);
    assert_eq!(parse_i32(b""), None);
    assert_eq!(parse_i32(b"-"), None);
    assert_eq!(parse_i32(b"1-2"), None);
    assert_eq!(parse_u32(b"4294967295"), Some(u32::MAX));
    assert_eq!(parse_u32(b"4294967296"), None);
    assert_eq!(parse_u32(b"-0"), None);
    assert_eq!(parse_u32(b"+3"), Some(3));
}

#[test]
fn coordinate_fields() {
    assert_eq!(split_fields(b"{X: -5, Y: 10}"), vec![b"-5".to_vec(), b"10".to_vec()]);
    assert_eq!(split_fields(b""), vec![Vec::<u8>::new()]);
    assert_eq!(parse_coordinate(b"{X: -5, Y: 10}"), Some(Coordinate::Point { x: -5, y: 10 }));
    assert_eq!(parse_coordinate(b"12,34"), Some(Coordinate::Point { x: 12, y: 34 }));
    assert_eq!(
        parse_coordinate(b"{X: 1, Y: 2, R: 3}"),
        Some(Coordinate::Circle { x: 1, y: 2, r: 3 })
    );
    assert_eq!(
        parse_coordinate(b"1,2,-3,4"),
        Some(Coordinate::Rectangle { x1: 1, y1: 2, x2: -3, y2: 4 })
    );
    assert_eq!(parse_coordinate(b"1,2,-3"), None);
    assert_eq!(parse_coordinate(b"7"), None);
    assert_eq!(parse_coordinate(b"1,2,3,4,5"), None);
    assert_eq!(parse_coordinate(b"1,,2"), None);
}

#[test]
fn color_fields() {
    assert_eq!(parse_color(b"#FF0080"), Some(Color::rgb(255, 0, 128)));
    assert_eq!(parse_color(b"#0a0b0c"), Some(Color::rgb(10, 11, 12)));
    assert_eq!(parse_color(b"#FFFFF"), None);
    assert_eq!(parse_color(b"#GG0000"), None);
}

#[test]
fn timestamp_field() {
    assert_eq!(parse_timestamp("2023-07-20 13:00:26.088 UTC"), Some(1_689_858_026_088));
    assert_eq!(parse_timestamp("1970-01-01 00:00:01 UTC"), Some(1000));
    assert_eq!(parse_timestamp("yesterday"), None);
}

#[test]
fn record_from_fields() {
    let r = Record::from_fields("2023-07-20 13:00:26.088 UTC", String::from("u1"), "3,4", "#000000")
        .unwrap();
    assert_eq!(r.timestamp, 1_689_858_026_088);
    assert_eq!(r.user, "u1");
    assert_eq!(r.coordinate, Coordinate::Point { x: 3, y: 4 });
    assert_eq!(r.pixel_color, Color::rgb(0, 0, 0));
    let e = Record::from_fields("bad", String::new(), "3,4", "#000000");
    assert!(matches!(e, Err(FieldError::Timestamp)));
    let e = Record::from_fields("1970-01-01 00:00:01 UTC", String::new(), "3", "#000000");
    assert!(matches!(e, Err(FieldError::Coordinate)));
    let e = Record::from_fields("1970-01-01 00:00:01 UTC", String::new(), "3,4", "000");
    assert!(matches!(e, Err(FieldError::Color)));
}

#[test]
fn shapes_cover_their_pixels() {
    let p = Coordinate::Point { x: 2, y: 3 };
    assert!(p.contains(2, 3));
    assert!(!p.contains(3, 3));
    let r = Coordinate::Rectangle { x1: -1, y1: 0, x2: 1, y2: 2 };
    assert_eq!(r.bounding_box(), (-1, 0, 1, 2));
    assert!(r.contains(-1, 2));
    assert!(!r.contains(2, 2));
    let c = Coordinate::Circle { x: 0, y: 0, r: 2 };
    assert_eq!(c.bounding_box(), (-2, -2, 2, 2));
    assert!(c.contains(2, 0));
    assert!(c.contains(1, 1));
    assert!(!c.contains(2, 1));
    assert!(!c.contains(5_000_000_000, 0));
}

#[test]
fn canvas_grows_to_the_right_and_down() {
    let mut canvas = ParserImage::new();
    assert_eq!(canvas.image().dimensions(), (0, 0));
    let red = Color::rgb(255, 0, 0);
    assert!(canvas.handle_record(&record(0, Coordinate::Point { x: 2, y: 3 }, red)));
    assert_eq!(canvas.image().dimensions(), (3, 4));
    assert_eq!(canvas.image().get_pixel(2, 3), red);
    assert_eq!(canvas.image().get_pixel(0, 0), white());
    assert_eq!(canvas.expansion_offset(), ImageExpansionOffset { left: 0, top: 0 });
}

#[test]
fn canvas_grows_to_the_left_and_up() {
    let mut canvas = ParserImage::new();
    let red = Color::rgb(255, 0, 0);
    let blue = Color::rgb(0, 0, 255);
    assert!(canvas.handle_record(&record(0, Coordinate::Point { x: 1, y: 1 }, red)));
    assert!(canvas.handle_record(&record(0, Coordinate::Point { x: -1, y: -2 }, blue)));
    assert_eq!(canvas.expansion_offset(), ImageExpansionOffset { left: 1, top: 2 });
    assert_eq!(canvas.image().dimensions(), (3, 4));
    assert_eq!(canvas.image().get_pixel(0, 0), blue);
    assert_eq!(canvas.image().get_pixel(2, 3), red);
    assert_eq!(canvas.image().get_pixel(1, 1), white());
}

#[test]
fn canvas_draws_rectangles_and_circles() {
    let mut canvas = ParserImage::new();
    let green = Color::rgb(0, 200, 0);
    let rect = Coordinate::Rectangle { x1: 0, y1: 0, x2: 2, y2: 1 };
    assert!(canvas.handle_record(&record(0, rect, green)));
    assert_eq!(canvas.image().dimensions(), (3, 2));
    for y in 0..2 {
        for x in 0..3 {
            assert_eq!(canvas.image().get_pixel(x, y), green);
        }
    }
    let black = Color::rgb(0, 0, 0);
    assert!(canvas.handle_record(&record(0, Coordinate::Circle { x: 1, y: 1, r: 1 }, black)));
    assert_eq!(canvas.image().dimensions(), (3, 3));
    let img = canvas.image();
    assert_eq!(img.get_pixel(1, 0), black);
    assert_eq!(img.get_pixel(0, 1), black);
    assert_eq!(img.get_pixel(1, 1), black);
    assert_eq!(img.get_pixel(2, 1), black);
    assert_eq!(img.get_pixel(1, 2), black);
    assert_eq!(img.get_pixel(0, 0), green);
    assert_eq!(img.get_pixel(2, 0), green);
    assert_eq!(img.get_pixel(0, 2), white());
}

#[test]
fn oversized_canvas_is_refused() {
    let mut canvas = ParserImage::new();
    let huge = Coordinate::Circle { x: 0, y: 0, r: u32::MAX };
    assert!(!canvas.handle_record(&record(0, huge, white())));
    assert_eq!(canvas.image().dimensions(), (0, 0));

    let mut parser = Parser::new(ParserConfig::new_default());
    assert_eq!(parser.handle_record(&record(0, huge, white())), Err(ParseError::CanvasTooLarge));
}

#[test]
fn elapsed_seconds_between_timestamps() {
    assert_eq!(seconds_between(1_000, 12_999), 11);
    assert_eq!(seconds_between(5_000, 5_000), 0);
    assert_eq!(seconds_between(9_000, 1_000), 0);
    assert_eq!(seconds_between(i64::MIN, i64::MAX), u32::MAX);
}

#[test]
fn snapshots_are_due_after_each_interval() {
    let config = ParserConfig::new(false, String::from("out"), OnError::Nothing, 10);
    let mut parser = Parser::new(config);
    let p = Coordinate::Point { x: 0, y: 0 };
    let t0: i64 = 1_000_000;
    assert_eq!(parser.handle_record(&record(t0, p, white())), Ok(None));
    assert_eq!(parser.handle_record(&record(t0 + 5_000, p, white())), Ok(None));
    assert_eq!(parser.handle_record(&record(t0 + 10_999, p, white())), Ok(None));
    assert_eq!(parser.handle_record(&record(t0 + 11_000, p, white())), Ok(Some(11)));
    assert_eq!(parser.handle_record(&record(t0 + 15_000, p, white())), Ok(None));
    assert_eq!(parser.handle_record(&record(t0 + 20_500, p, white())), Ok(None));
    assert_eq!(parser.handle_record(&record(t0 + 45_000, p, white())), Ok(Some(45)));
    assert_eq!(parser.handle_record(&record(t0 + 50_000, p, white())), Ok(None));
    assert_eq!(parser.handle_record(&record(t0 + 52_000, p, white())), Ok(Some(52)));
    assert_eq!(parser.parser_image().image().dimensions(), (1, 1));
    assert_eq!(parser.parser_config().save_interval_seconds, 10);
}
