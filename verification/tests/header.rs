use qoiparser::{Channels, Colorspace, Error, Header};

fn header_bytes(width: u32, height: u32, channels: u8, colorspace: u8) -> [u8; 14] {
    let w = width.to_be_bytes();
    let h = height.to_be_bytes();
    [
        b'q', b'o', b'i', b'f', w[0], w[1], w[2], w[3], h[0], h[1], h[2], h[3], channels,
        colorspace,
    ]
}

#[test]
fn test_header() {
    let width = u32::to_be_bytes(100);
    let height = u32::to_be_bytes(200);

    let data: [u8; 14] = [
        b'q',
        b'o',
        b'i',
        b'f',
        width[0],
        width[1],
        width[2],
        width[3],
        height[0],
        height[1],
        height[2],
        height[3],
        Channels::RGB.to_u8(),
        Colorspace::Linear.to_u8(),
    ];

    let good = Header {
        magic: [b'q', b'o', b'i', b'f'],
        width: 100,
        height: 200,
        channels: Channels::RGB,
        colorspace: Colorspace::Linear,
    };

    assert_eq!(good, Header::from_bytes(&data).unwrap());
}

#[test]
fn header_reads_big_endian_dimensions() {
    let data = [b'q', b'o', b'i', b'f', 0x01, 0x02, 0x03, 0x04, 0xa0, 0xb0, 0xc0, 0xd0, 4, 0];
    let header = Header::from_bytes(&data).unwrap();
    assert_eq!(header.width, 0x0102_0304);
    assert_eq!(header.height, 0xa0b0_c0d0);
    assert_eq!(header.magic, [0x71, 0x6f, 0x69, 0x66]);
    assert_eq!(header.channels, Channels::RGBA);
    assert_eq!(header.colorspace, Colorspace::sRGB);
}

#[test]
fn header_round_trip() {
    let dims = [0u32, 1, 5, 255, 256, 65_535, 65_536, 0x1234_5678, u32::MAX];
    for &width in dims.iter() {
        for &height in dims.iter() {
            for channels in [Channels::RGB, Channels::RGBA] {
                for colorspace in [Colorspace::sRGB, Colorspace::Linear] {
                    let data = header_bytes(width, height, channels.to_u8(), colorspace.to_u8());
                    let header = Header::from_bytes(&data).unwrap();
                    assert_eq!(header.width, width);
                    assert_eq!(header.height, height);
                    assert_eq!(header.channels, channels);
                    assert_eq!(header.colorspace, colorspace);
                    assert_eq!(header.magic, [b'q', b'o', b'i', b'f']);
                }
            }
        }
    }
}

#[test]
fn header_accepts_zero_dimensions() {
    let header = Header::from_bytes(&header_bytes(0, 0, 3, 0)).unwrap();
    assert_eq!(header.width, 0);
    assert_eq!(header.height, 0);
}

#[test]
fn header_rejects_each_wrong_magic_byte() {
    for i in 0..4 {
        let mut data = header_bytes(7, 9, 4, 1);
        data[i] = b'x';
        let err = Header::from_bytes(&data).unwrap_err();
        assert!(matches!(err, Error::HeaderParseError(_)));
    }
}

#[test]
fn header_rejects_unknown_channels() {
    for channels in [0u8, 1, 2, 5, 6, 255] {
        let err = Header::from_bytes(&header_bytes(7, 9, channels, 0)).unwrap_err();
        assert!(matches!(err, Error::HeaderParseError(_)));
    }
}

#[test]
fn header_rejects_unknown_colorspace() {
    for colorspace in [2u8, 3, 4, 128, 255] {
        let err = Header::from_bytes(&header_bytes(7, 9, 3, colorspace)).unwrap_err();
        assert!(matches!(err, Error::HeaderParseError(_)));
    }
}

#[test]
fn channels_from_byte() {
    assert_eq!(Channels::try_from(3u8).unwrap(), Channels::RGB);
    assert_eq!(Channels::try_from(4u8).unwrap(), Channels::RGBA);
    for value in [0u8, 1, 2, 5, 200] {
        assert!(matches!(Channels::try_from(value), Err(Error::HeaderParseError(_))));
    }
    let through_into: Result<Channels, Error> = 4u8.try_into();
    assert_eq!(through_into.unwrap(), Channels::RGBA);
}

#[test]
fn colorspace_from_byte() {
    assert_eq!(Colorspace::try_from(0u8).unwrap(), Colorspace::sRGB);
    assert_eq!(Colorspace::try_from(1u8).unwrap(), Colorspace::Linear);
    for value in [2u8, 3, 4, 200] {
        assert!(matches!(Colorspace::try_from(value), Err(Error::HeaderParseError(_))));
    }
}

#[test]
fn channel_and_colorspace_codes_and_names() {
    assert_eq!(Channels::RGB.to_u8(), 3);
    assert_eq!(Channels::RGBA.to_u8(), 4);
    assert_eq!(Colorspace::sRGB.to_u8(), 0);
    assert_eq!(Colorspace::Linear.to_u8(), 1);
    assert_eq!(Channels::RGB.name(), "RGB");
    assert_eq!(Channels::RGBA.name(), "RGBA");
    assert_eq!(Colorspace::sRGB.name(), "sRGB");
    assert_eq!(Colorspace::Linear.name(), "Linear");
}

#[test]
fn header_faults_are_named_in_the_order_they_are_checked() {
    // everything wrong at once: the magic letters are named
    let mut data = header_bytes(7, 9, 9, 9);
    data[2] = b'x';
    assert_eq!(
        Header::from_bytes(&data).unwrap_err().message(),
        "Magic bytes do not read qoif"
    );
    // channels and colorspace wrong: the channels are named
    let err = Header::from_bytes(&header_bytes(7, 9, 9, 9)).unwrap_err();
    assert_eq!(err.message(), "Unknown value for channels");
    // only the colorspace wrong
    let err = Header::from_bytes(&header_bytes(7, 9, 4, 9)).unwrap_err();
    assert_eq!(err.message(), "Unknown value for colorspace");
}

#[test]
fn error_message_is_the_text_it_carries() {
    assert_eq!(Error::HeaderParseError("a".to_string()).message(), "a");
    assert_eq!(Error::DecodingError("b".to_string()).message(), "b");
    assert_eq!(Error::IoError("c".to_string()).message(), "c");
}
