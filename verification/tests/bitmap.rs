use rpbres::bitmap::DecodedImage;
use rpbres::error::EncodeError;

#[test]
fn two_by_two_opaque_image() {
    let data = vec![
        255, 0, 0, 255, 0, 255, 0, 255, 0, 0, 255, 255, 255, 255, 255, 255,
    ];
    let image = DecodedImage::new(2, 2, 4, data).unwrap();
    let out = image.convert().unwrap();
    assert_eq!(
        &out[..8],
        &[0x02, 0x00, 0x02, 0x00, 0x18, 0x00, 0x06, 0x00]
    );
    assert_eq!(
        &out[8..],
        &[0xff, 0x00, 0x00, 0x00, 0xff, 0x00, 0x00, 0x00, 0xff, 0xff, 0xff, 0xff]
    );
    assert_eq!(out.len(), 20);
}

#[test]
fn two_by_two_image_of_three_channels() {
    let data = vec![255, 0, 0, 0, 255, 0, 0, 0, 255, 255, 255, 255];
    let image = DecodedImage::new(2, 2, 3, data.clone()).unwrap();
    let out = image.convert().unwrap();
    assert_eq!(
        &out[..8],
        &[0x02, 0x00, 0x02, 0x00, 0x18, 0x00, 0x06, 0x00]
    );
    assert_eq!(&out[8..], &data[..]);
}

#[test]
fn width_40000_is_too_large() {
    let image = DecodedImage::new(40000, 0, 4, Vec::new()).unwrap();
    assert_eq!(
        image.convert(),
        Err(EncodeError::DimensionsTooLarge {
            width: 40000,
            height: 0
        })
    );
}

#[test]
fn height_above_32767_is_too_large() {
    let image = DecodedImage::new(0, 32768, 3, Vec::new()).unwrap();
    assert_eq!(
        image.convert(),
        Err(EncodeError::DimensionsTooLarge {
            width: 0,
            height: 32768
        })
    );
    let image = DecodedImage::new(1, 32768, 3, vec![7; 3 * 32768]).unwrap();
    assert!(image.convert().is_err());
}

#[test]
fn dimensions_of_32767_are_accepted() {
    let image = DecodedImage::new(1, 32767, 3, vec![9; 3 * 32767]).unwrap();
    let out = image.convert().unwrap();
    assert_eq!(
        &out[..8],
        &[0x01, 0x00, 0xff, 0x7f, 0x18, 0x00, 0x03, 0x00]
    );
    assert_eq!(out.len(), 8 + 3 * 32767);
    let image = DecodedImage::new(32767, 0, 3, Vec::new()).unwrap();
    let out = image.convert().unwrap();
    // 3 * 32767 = 98301 = 0x17ffd; the field holds its low sixteen bits.
    assert_eq!(out, vec![0xff, 0x7f, 0x00, 0x00, 0x18, 0x00, 0xfd, 0x7f]);
}

#[test]
fn the_scanline_field_is_three_times_the_width_while_that_fits() {
    let image = DecodedImage::new(21845, 0, 3, Vec::new()).unwrap();
    let out = image.convert().unwrap();
    assert_eq!(out, vec![0x55, 0x55, 0x00, 0x00, 0x18, 0x00, 0xff, 0xff]);
    let image = DecodedImage::new(21846, 0, 3, Vec::new()).unwrap();
    let out = image.convert().unwrap();
    assert_eq!(out, vec![0x56, 0x55, 0x00, 0x00, 0x18, 0x00, 0x02, 0x00]);
    let image = DecodedImage::new(22000, 1, 3, vec![5; 66000]).unwrap();
    let out = image.convert().unwrap();
    assert_eq!(out.len(), 8 + 66000);
    assert_eq!(&out[6..8], &[0xd0, 0x01]);
}

#[test]
fn rows_follow_each_other_from_the_top_without_padding() {
    // 3 wide, 2 high, 5 channels: channel value is 100 * row + 10 * column + channel.
    let mut data = Vec::new();
    for y in 0..2u8 {
        for x in 0..3u8 {
            for c in 0..5u8 {
                data.push(100 * y + 10 * x + c);
            }
        }
    }
    let image = DecodedImage::new(3, 2, 5, data).unwrap();
    assert_eq!(image.width(), 3);
    assert_eq!(image.height(), 2);
    let out = image.convert().unwrap();
    assert_eq!(
        out,
        vec![
            3, 0, 2, 0, 24, 0, 9, 0, //
            0, 1, 2, 10, 11, 12, 20, 21, 22, //
            100, 101, 102, 110, 111, 112, 120, 121, 122,
        ]
    );
    for y in 0..2usize {
        for x in 0..3usize {
            for c in 0..3usize {
                assert_eq!(
                    out[8 + (y * 3 + x) * 3 + c] as usize,
                    100 * y + 10 * x + c
                );
            }
        }
    }
}

#[test]
fn an_empty_image_is_a_header_alone() {
    let image = DecodedImage::new(0, 0, 4, Vec::new()).unwrap();
    assert_eq!(image.convert(), Ok(vec![0, 0, 0, 0, 24, 0, 0, 0]));
    let image = DecodedImage::new(0, 5, 3, Vec::new()).unwrap();
    assert_eq!(image.convert(), Ok(vec![0, 0, 5, 0, 24, 0, 0, 0]));
}

#[test]
fn a_wide_image_has_a_two_byte_width() {
    let image = DecodedImage::new(300, 1, 3, vec![1; 900]).unwrap();
    let out = image.convert().unwrap();
    assert_eq!(&out[..8], &[0x2c, 0x01, 0x01, 0x00, 0x18, 0x00, 0x84, 0x03]);
    assert_eq!(out.len(), 908);
}

#[test]
fn an_image_needs_three_channels_and_all_its_bytes() {
    assert!(DecodedImage::new(2, 2, 2, vec![0; 8]).is_none());
    assert!(DecodedImage::new(2, 2, 1, vec![0; 4]).is_none());
    assert!(DecodedImage::new(2, 2, 0, Vec::new()).is_none());
    assert!(DecodedImage::new(2, 2, 3, vec![0; 11]).is_none());
    assert!(DecodedImage::new(2, 2, 3, vec![0; 13]).is_none());
    assert!(DecodedImage::new(2, 2, 4, vec![0; 12]).is_none());
    assert!(DecodedImage::new(u32::MAX, u32::MAX, 255, vec![0; 16]).is_none());
    assert!(DecodedImage::new(2, 2, 3, vec![0; 12]).is_some());
    assert!(DecodedImage::new(2, 2, 255, vec![0; 1020]).is_some());
}

#[test]
fn encode_failure_message_gives_the_dimensions() {
    let e = EncodeError::DimensionsTooLarge {
        width: 40000,
        height: 12,
    };
    assert_eq!(e.message(), "Bad format: too big: 40000 x 12");
}
