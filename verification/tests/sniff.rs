use rpbres::container::ResourceHeader;
use rpbres::sniff::ResourceKind;

fn named(name: &str) -> ResourceHeader {
    ResourceHeader {
        size: 0,
        offset: 0,
        compressed_size: 0,
        name: String::from(name),
    }
}

fn bitmap_payload(width: u16, height: u16, flags: u16) -> Vec<u8> {
    let mut bytes = Vec::new();
    bytes.extend_from_slice(&width.to_le_bytes());
    bytes.extend_from_slice(&height.to_le_bytes());
    bytes.extend_from_slice(&flags.to_le_bytes());
    bytes.extend_from_slice(&[0, 0, 0]);
    bytes
}

#[test]
fn the_unnamed_resource_is_the_configuration() {
    let header = named("");
    assert_eq!(
        ResourceKind::kind_of(&header, b"anything"),
        ResourceKind::Configuration
    );
    assert_eq!(
        ResourceKind::kind_of(&header, &bitmap_payload(10, 10, 24)),
        ResourceKind::Configuration
    );
    assert_eq!(
        ResourceKind::kind_of(&header, b""),
        ResourceKind::Configuration
    );
}

#[test]
fn width_4096_is_no_bitmap() {
    let header = named("image");
    let payload = [0x00, 0x10, 0x00, 0x10, 0x18, 0x00, 0x00, 0x00, 0x00, 0x00];
    assert_eq!(
        ResourceKind::kind_of(&header, &payload),
        ResourceKind::Unknown
    );
    assert_eq!(
        ResourceKind::kind_of(&header, &bitmap_payload(4096, 10, 24)),
        ResourceKind::Unknown
    );
}

#[test]
fn width_4095_is_a_bitmap() {
    let header = named("image");
    let payload = [0xff, 0x0f, 0x00, 0x01, 0x18, 0x00, 0x00, 0x00, 0x00];
    assert_eq!(
        ResourceKind::kind_of(&header, &payload),
        ResourceKind::Bitmap {
            width: 4095,
            height: 256,
            bits_per_pixel: 24,
            transparent: false
        }
    );
}

#[test]
fn bitmap_bounds_are_strict_on_every_field() {
    let header = named("image");
    let is_bitmap = |w: u16, h: u16, f: u16| {
        matches!(
            ResourceKind::kind_of(&header, &bitmap_payload(w, h, f)),
            ResourceKind::Bitmap { .. }
        )
    };
    assert!(is_bitmap(1, 1, 1));
    assert!(is_bitmap(4095, 4095, 255));
    assert!(!is_bitmap(0, 1, 1));
    assert!(!is_bitmap(1, 0, 1));
    assert!(!is_bitmap(1, 1, 0));
    assert!(!is_bitmap(4096, 1, 1));
    assert!(!is_bitmap(1, 4096, 1));
    assert!(!is_bitmap(1, 1, 256));
    assert!(!is_bitmap(1, 1, 0x8000));
    assert!(is_bitmap(1, 1, 0x8001));
    assert!(is_bitmap(1, 1, 0x80ff));
    assert!(!is_bitmap(1, 1, 0x8100));
    assert!(!is_bitmap(0xffff, 0xffff, 0xffff));
}

#[test]
fn the_top_bit_of_the_third_field_is_the_transparency_flag() {
    let header = named("image");
    assert_eq!(
        ResourceKind::kind_of(&header, &bitmap_payload(600, 800, 0x8008)),
        ResourceKind::Bitmap {
            width: 600,
            height: 800,
            bits_per_pixel: 8,
            transparent: true
        }
    );
    assert_eq!(
        ResourceKind::kind_of(&header, &bitmap_payload(600, 800, 0x0008)),
        ResourceKind::Bitmap {
            width: 600,
            height: 800,
            bits_per_pixel: 8,
            transparent: false
        }
    );
}

#[test]
fn a_bitmap_needs_more_than_eight_bytes() {
    let header = named("image");
    let mut payload = bitmap_payload(10, 10, 24);
    assert_eq!(payload.len(), 9);
    assert!(matches!(
        ResourceKind::kind_of(&header, &payload),
        ResourceKind::Bitmap { .. }
    ));
    payload.pop();
    assert_eq!(
        ResourceKind::kind_of(&header, &payload),
        ResourceKind::Unknown
    );
}

#[test]
fn the_bitmap_check_comes_before_the_others() {
    let header = named("x");
    // `{"` is 0x227b as a width, too wide; with a first byte pair that is a
    // plausible width the bitmap check wins over everything behind it.
    let payload = b"OTTO\x01\x00\x00\x00\x00";
    assert_eq!(
        ResourceKind::kind_of(&header, payload),
        ResourceKind::OpenTypeFont
    );
    let payload = [0x00, 0x01, 0x00, 0x00, 0x01, 0x00, 0x00, 0x00, 0x00];
    assert_eq!(
        ResourceKind::kind_of(&header, &payload),
        ResourceKind::TrueTypeFont
    );
    let payload = [0x00, 0x01, 0x01, 0x00, 0x01, 0x00, 0x00, 0x00, 0x00];
    assert_eq!(
        ResourceKind::kind_of(&header, &payload),
        ResourceKind::Bitmap {
            width: 256,
            height: 1,
            bits_per_pixel: 1,
            transparent: false
        }
    );
}

#[test]
fn json_needs_more_than_two_bytes() {
    let header = named("a.json");
    assert_eq!(
        ResourceKind::kind_of(&header, b"{\"a\": 1}"),
        ResourceKind::Json
    );
    assert_eq!(ResourceKind::kind_of(&header, b"{\"}"), ResourceKind::Json);
    assert_eq!(
        ResourceKind::kind_of(&header, b"{\""),
        ResourceKind::Unknown
    );
    assert_eq!(
        ResourceKind::kind_of(&header, b"{ \"a\": 1}"),
        ResourceKind::Unknown
    );
    assert_eq!(
        ResourceKind::kind_of(&header, b"[\"a\"]"),
        ResourceKind::Unknown
    );
}

#[test]
fn fonts_need_more_than_four_bytes() {
    let header = named("font");
    assert_eq!(
        ResourceKind::kind_of(&header, b"OTTO\x00"),
        ResourceKind::OpenTypeFont
    );
    assert_eq!(
        ResourceKind::kind_of(&header, b"OTTO"),
        ResourceKind::Unknown
    );
    assert_eq!(
        ResourceKind::kind_of(&header, &[0, 1, 0, 0, 0]),
        ResourceKind::TrueTypeFont
    );
    assert_eq!(
        ResourceKind::kind_of(&header, &[0, 1, 0, 0]),
        ResourceKind::Unknown
    );
    assert_eq!(
        ResourceKind::kind_of(&header, b"OTTX\x00"),
        ResourceKind::Unknown
    );
    assert_eq!(
        ResourceKind::kind_of(&header, &[0, 1, 0, 1, 0]),
        ResourceKind::Unknown
    );
}

#[test]
fn anything_else_is_unknown() {
    let header = named("x");
    assert_eq!(ResourceKind::kind_of(&header, b""), ResourceKind::Unknown);
    assert_eq!(
        ResourceKind::kind_of(&header, b"hello"),
        ResourceKind::Unknown
    );
    assert_eq!(
        ResourceKind::kind_of(&header, &[0u8; 64]),
        ResourceKind::Unknown
    );
}

#[test]
fn the_same_input_gives_the_same_answer() {
    let header = named("x");
    let payloads: [&[u8]; 5] = [
        b"",
        b"{\"k\": 2}",
        b"OTTO\x00\x01",
        &[0x20, 0x03, 0x58, 0x02, 0x18, 0x80, 1, 2, 3, 4],
        &[0, 1, 0, 0, 0],
    ];
    for payload in payloads {
        let once = ResourceKind::kind_of(&header, payload);
        let twice = ResourceKind::kind_of(&header, payload);
        assert_eq!(once, twice);
        assert_eq!(once.to_string(), twice.to_string());
    }
}

#[test]
fn summaries_of_the_kinds() {
    assert_eq!(ResourceKind::Configuration.to_string(), "Configuration");
    assert_eq!(ResourceKind::Json.to_string(), "JSON?");
    assert_eq!(ResourceKind::OpenTypeFont.to_string(), "OpenType font?");
    assert_eq!(ResourceKind::TrueTypeFont.to_string(), "TrueType font?");
    assert_eq!(ResourceKind::Unknown.to_string(), "Unknown");
}

#[test]
fn the_summary_of_a_bitmap_gives_its_exact_numbers() {
    let kind = ResourceKind::Bitmap {
        width: 600,
        height: 800,
        bits_per_pixel: 24,
        transparent: false,
    };
    assert_eq!(kind.to_string(), "Bitmap 600 x 800 24bpp");
    let kind = ResourceKind::Bitmap {
        width: 4095,
        height: 1,
        bits_per_pixel: 8,
        transparent: true,
    };
    assert_eq!(kind.to_string(), "Bitmap 4095 x 1 8bpp *");
    let header = named("img");
    let kind = ResourceKind::kind_of(&header, &bitmap_payload(1024, 758, 0x8002));
    assert_eq!(kind.to_string(), "Bitmap 1024 x 758 2bpp *");
}
