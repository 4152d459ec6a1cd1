use qoiparser::{Channels, Colorspace, Decoder, Error, Pixel};

/// A 5 by 5 image that uses every opcode, with the eight bytes that end a
/// file after it.
const FIXTURE: [u8; 65] = [
    0x71, 0x6f, 0x69, 0x66, 0x00, 0x00, 0x00, 0x05, 0x00, 0x00, 0x00, 0x05, 0x04, 0x00, 0xfe, 0x0a,
    0x14, 0x1e, 0xc2, 0x7d, 0x09, 0xaf, 0x33, 0xff, 0x14, 0x23, 0x28, 0x80, 0xc1, 0xfe, 0x00, 0x00,
    0x00, 0x57, 0xc0, 0xa2, 0x84, 0x03, 0xff, 0xc8, 0x64, 0x32, 0xff, 0x77, 0x09, 0xfe, 0xcd, 0x6e,
    0x3a, 0xc2, 0x0a, 0xff, 0x00, 0x00, 0x00, 0x00, 0xc0, 0x00, 0x00, 0x00, 0x00, 0x00, 0x00, 0x00,
    0x01,
];

const FIXTURE_PIXELS: [[u8; 4]; 25] = [
    [10, 20, 30, 255],
    [10, 20, 30, 255],
    [10, 20, 30, 255],
    [10, 20, 30, 255],
    [11, 21, 29, 255],
    [10, 20, 30, 255],
    [20, 35, 40, 255],
    [20, 35, 40, 128],
    [20, 35, 40, 128],
    [20, 35, 40, 128],
    [0, 0, 0, 128],
    [255, 255, 1, 128],
    [255, 255, 1, 128],
    [1, 1, 255, 128],
    [20, 35, 40, 128],
    [200, 100, 50, 255],
    [201, 99, 51, 255],
    [10, 20, 30, 255],
    [205, 110, 58, 255],
    [205, 110, 58, 255],
    [205, 110, 58, 255],
    [205, 110, 58, 255],
    [11, 21, 29, 255],
    [0, 0, 0, 0],
    [0, 0, 0, 0],
];

fn image(width: u32, height: u32, ops: &[u8]) -> Vec<u8> {
    let mut data = vec![b'q', b'o', b'i', b'f'];
    data.extend_from_slice(&width.to_be_bytes());
    data.extend_from_slice(&height.to_be_bytes());
    data.push(4);
    data.push(0);
    data.extend_from_slice(ops);
    data
}

fn pixels(data: &[u8]) -> Vec<[u8; 4]> {
    let (_, img) = Decoder::new().decode(data).unwrap();
    img.into_iter().map(|p| p.to_bytes()).collect()
}

#[test]
fn decodes_the_fixture() {
    let (header, img) = Decoder::new().decode(&FIXTURE).unwrap();
    assert_eq!(header.width, 5);
    assert_eq!(header.height, 5);
    assert_eq!(header.channels, Channels::RGBA);
    assert_eq!(header.colorspace, Colorspace::sRGB);
    assert_eq!(img.len(), 25);
    for (i, p) in img.iter().enumerate() {
        assert_eq!(p.to_bytes(), FIXTURE_PIXELS[i]);
    }
}

#[test]
fn fixture_matches_an_independent_decoder() {
    let reference = image::load_from_memory_with_format(&FIXTURE, image::ImageFormat::Qoi)
        .unwrap()
        .into_bytes();

    let (_, img) = Decoder::new().decode(&FIXTURE).unwrap();
    let ours: Vec<u8> = img.into_iter().flat_map(|a| a.to_bytes()).collect();

    assert_eq!(ours.len(), reference.len());
    for (p1, p2) in reference.iter().zip(ours.iter()) {
        assert_eq!(p1, p2)
    }
}

#[test]
fn pixel_count_is_width_times_height() {
    for (width, height) in [(1u32, 1u32), (1, 7), (7, 1), (3, 5), (16, 16), (100, 3)] {
        // one RGBA pixel, then runs for the rest, then bytes that must not be read
        let mut ops = vec![0xff, 1, 2, 3, 4];
        let mut left = width * height - 1;
        while left > 0 {
            let run = left.min(62);
            ops.push(0xc0 | (run as u8 - 1));
            left -= run;
        }
        ops.extend_from_slice(&[0xfe, 9, 9, 9, 0xfe]);
        let (header, img) = Decoder::new().decode(&image(width, height, &ops)).unwrap();
        assert_eq!(img.len() as u64, header.width as u64 * header.height as u64);
        assert!(img.iter().all(|p| *p == Pixel::new(1, 2, 3, 4)));
    }
}

#[test]
fn zero_sized_images_have_no_pixels() {
    for (width, height) in [(0u32, 0u32), (0, 9), (9, 0)] {
        let (header, img) = Decoder::new().decode(&image(width, height, &[])).unwrap();
        assert_eq!(header.width, width);
        assert_eq!(header.height, height);
        assert!(img.is_empty());
    }
}

#[test]
fn rgb_opcode_keeps_alpha_and_fills_its_cache_slot() {
    // slot of (10, 20, 30, 255) is 73 % 64 = 9
    let got = pixels(&image(3, 1, &[0xfe, 10, 20, 30, 0xfe, 1, 1, 1, 9]));
    assert_eq!(got, vec![[10, 20, 30, 255], [1, 1, 1, 255], [10, 20, 30, 255]]);

    let got = pixels(&image(2, 1, &[0xff, 0, 0, 0, 77, 0xfe, 10, 20, 30]));
    assert_eq!(got, vec![[0, 0, 0, 77], [10, 20, 30, 77]]);
}

#[test]
fn run_opcode_repeats_the_current_pixel_and_leaves_the_cache() {
    let got = pixels(&image(3, 1, &[0b1100_0010]));
    assert_eq!(got, vec![[0, 0, 0, 255]; 3]);

    // slot of (0, 0, 0, 255) is 245 % 64 = 53: a run of it must not fill the slot
    let got = pixels(&image(4, 1, &[0b1100_0010, 53]));
    assert_eq!(got, vec![[0, 0, 0, 255], [0, 0, 0, 255], [0, 0, 0, 255], [0, 0, 0, 0]]);
}

#[test]
fn index_opcode_reads_the_slot_and_fills_the_slot_of_what_it_read() {
    // (0, 0, 8, 0) has hash 56, so it goes to slot 56 and leaves slot 0 alone.
    // Reading the untouched slot 5 gives transparent black.
    let got = pixels(&image(3, 1, &[0xff, 0, 0, 8, 0, 5, 56]));
    assert_eq!(got, vec![[0, 0, 8, 0], [0, 0, 0, 0], [0, 0, 8, 0]]);

    // (0, 0, 0, 128) has hash 1408 = 5 * 256 + 128 and sits in slot 0.
    // Reading slot 5 gives transparent black, which then takes slot 0.
    let got = pixels(&image(3, 1, &[0xff, 0, 0, 0, 128, 5, 0]));
    assert_eq!(got, vec![[0, 0, 0, 128], [0, 0, 0, 0], [0, 0, 0, 0]]);
}

#[test]
fn diff_opcode_is_relative_to_the_last_pixel() {
    let got = pixels(&image(3, 1, &[0xfe, 100, 100, 100, 0b0110_1010, 0b0111_1111]));
    assert_eq!(got, vec![[100, 100, 100, 255], [100, 100, 100, 255], [101, 101, 101, 255]]);
}

#[test]
fn luma_opcode_is_relative_to_the_last_pixel() {
    let got = pixels(&image(2, 1, &[0xfe, 10, 20, 30, 0xaf, 0x33]));
    assert_eq!(got, vec![[10, 20, 30, 255], [20, 35, 40, 255]]);
}

#[test]
fn a_run_is_cut_at_the_last_pixel() {
    let got = pixels(&image(2, 1, &[0xfe, 5, 6, 7, 0b1100_1001]));
    assert_eq!(got, vec![[5, 6, 7, 255], [5, 6, 7, 255]]);
}

#[test]
fn bytes_after_the_last_pixel_are_ignored() {
    let short = pixels(&image(1, 1, &[0xfe, 5, 6, 7]));
    let long = pixels(&image(1, 1, &[0xfe, 5, 6, 7, 0xff, 0xff, 1, 2, 3]));
    assert_eq!(short, long);
}

#[test]
fn input_that_ends_inside_the_header_is_an_io_error() {
    for len in 0..14 {
        let err = Decoder::new().decode(&FIXTURE[..len]).unwrap_err();
        assert!(matches!(err, Error::IoError(_)));
    }
    // also where the bytes that are there are wrong
    assert!(matches!(Decoder::new().decode(b"xoif"), Err(Error::IoError(_))));
    // an opcode cut short after a whole header
    let data = [b'q', b'o', b'i', b'f', 0, 0, 0, 1, 0, 0, 0, 1, 4, 0, 0xfe, 10, 20];
    assert!(matches!(Decoder::new().decode(&data), Err(Error::IoError(_))));
}

#[test]
fn a_corrupt_header_is_a_header_error() {
    let mut data = FIXTURE.to_vec();
    data[0] = b'x';
    assert!(matches!(Decoder::new().decode(&data), Err(Error::HeaderParseError(_))));

    let mut data = FIXTURE.to_vec();
    data[12] = 5;
    assert!(matches!(Decoder::new().decode(&data), Err(Error::HeaderParseError(_))));

    let mut data = FIXTURE.to_vec();
    data[13] = 2;
    assert!(matches!(Decoder::new().decode(&data), Err(Error::HeaderParseError(_))));
}

#[test]
fn opcodes_that_end_early_are_an_io_error() {
    // the 25th pixel is done with the byte at index 56
    for len in 14..56 {
        let err = Decoder::new().decode(&FIXTURE[..len]).unwrap_err();
        assert!(matches!(err, Error::IoError(_)));
    }
    assert!(Decoder::new().decode(&FIXTURE[..57]).is_ok());

    // an opcode cut in the middle
    assert!(matches!(Decoder::new().decode(&image(1, 1, &[0xfe, 1, 2])), Err(Error::IoError(_))));
    assert!(matches!(Decoder::new().decode(&image(1, 1, &[0xff, 1, 2, 3])), Err(Error::IoError(_))));
    assert!(matches!(Decoder::new().decode(&image(1, 1, &[0x80])), Err(Error::IoError(_))));
}

#[test]
fn a_decoder_starts_every_image_afresh() {
    let mut decoder = Decoder::new();
    let first = decoder.decode(&FIXTURE).unwrap().1;
    // A decode that relies on state: alpha of the start pixel, and an empty cache.
    let probe = image(2, 1, &[0xfe, 1, 2, 3, 9]);
    let got = decoder.decode(&probe).unwrap().1;
    assert_eq!(got, vec![Pixel::new(1, 2, 3, 255), Pixel::new(0, 0, 0, 0)]);
    let again = decoder.decode(&FIXTURE).unwrap().1;
    assert_eq!(first, again);

    let mut fresh = Decoder::default();
    assert_eq!(fresh.decode(&FIXTURE).unwrap().1, first);
}

#[test]
fn a_failed_decode_does_not_spoil_the_next() {
    let mut decoder = Decoder::new();
    assert!(decoder.decode(&FIXTURE[..30]).is_err());
    let (_, img) = decoder.decode(&FIXTURE).unwrap();
    for (i, p) in img.iter().enumerate() {
        assert_eq!(p.to_bytes(), FIXTURE_PIXELS[i]);
    }
}

#[test]
fn decode_errors_carry_their_messages() {
    let err = Decoder::new().decode(&FIXTURE[..13]).unwrap_err();
    assert_eq!(err.message(), "Input ended inside the header");

    let mut data = FIXTURE.to_vec();
    data[3] = b'x';
    let err = Decoder::new().decode(&data).unwrap_err();
    assert_eq!(err.message(), "Magic bytes do not read qoif");

    let err = Decoder::new().decode(&FIXTURE[..20]).unwrap_err();
    assert_eq!(err.message(), "Input ended before the last pixel");
}

#[test]
fn a_header_is_checked_even_if_the_image_is_empty() {
    let mut data = image(0, 0, &[]);
    data[12] = 7;
    assert!(matches!(Decoder::new().decode(&data), Err(Error::HeaderParseError(_))));
}

#[test]
fn the_last_pixel_written_to_a_slot_wins() {
    // (64, 0, 0, 0) has hash 192 and (0, 0, 0, 128) has hash 128: both sit in slot 0
    let got = pixels(&image(4, 1, &[0xff, 64, 0, 0, 0, 0x00, 0xff, 0, 0, 0, 128, 0x00]));
    assert_eq!(got, vec![[64, 0, 0, 0], [64, 0, 0, 0], [0, 0, 0, 128], [0, 0, 0, 128]]);
}
