use ico_builder::{
    create_ico_frame, create_ico_frames, encode_ico_frame, Error, FilterType, IcoFrame, IconSizes,
    SourceImage,
};

fn checker(width: u32) -> Vec<u8> {
    let mut pixels = Vec::new();
    for y in 0..width {
        for x in 0..width {
            let on = (x / 4 + y / 4) % 2 == 0;
            pixels.push(if on { 200 } else { 30 });
            pixels.push((x * 3 % 256) as u8);
            pixels.push((y * 3 % 256) as u8);
            pixels.push(255);
        }
    }
    pixels
}

fn plain(path: &str, width: u32, sample: u8) -> SourceImage {
    let pixels = vec![sample; (4 * width * width) as usize];
    SourceImage::new(path.to_string(), width, width, pixels).unwrap()
}

fn decoded(frame: &IcoFrame) -> (u32, u32, Vec<u8>) {
    let image = image::load_from_memory(frame.encoded()).unwrap().into_rgba8();
    (image.width(), image.height(), image.into_raw())
}

#[test]
fn a_frame_keeps_its_size_and_payload() {
    let frame = IcoFrame::with_encoded(vec![1, 2, 3], 48).unwrap();
    assert_eq!(frame.size(), 48);
    assert_eq!(frame.encoded(), &[1, 2, 3][..]);
}

#[test]
fn frame_sizes_from_1_to_256_are_valid() {
    assert!(IcoFrame::with_encoded(Vec::new(), 1).is_ok());
    assert!(IcoFrame::with_encoded(Vec::new(), 256).is_ok());
    assert!(matches!(IcoFrame::with_encoded(Vec::new(), 0), Err(Error::Image(_))));
    assert!(matches!(IcoFrame::with_encoded(Vec::new(), 257), Err(Error::Image(_))));
    assert!(matches!(IcoFrame::with_encoded(vec![1], u32::MAX), Err(Error::Image(_))));
}

#[test]
fn an_encoded_frame_is_a_png_of_the_buffer() {
    let pixels = checker(16);
    let frame = encode_ico_frame(&pixels, 16).unwrap();
    assert_eq!(frame.size(), 16);
    assert_eq!(&frame.encoded()[..8], &[0x89, b'P', b'N', b'G', 0x0d, 0x0a, 0x1a, 0x0a][..]);
    assert_eq!(decoded(&frame), (16, 16, pixels));
}

#[test]
fn encoding_the_same_buffer_twice_gives_the_same_payload() {
    let pixels = checker(24);
    let one = encode_ico_frame(&pixels, 24).unwrap();
    let two = encode_ico_frame(&pixels, 24).unwrap();
    assert_eq!(one.encoded(), two.encoded());
}

#[test]
fn an_empty_buffer_is_not_encoded() {
    assert!(matches!(encode_ico_frame(&[], 0), Err(Error::Image(_))));
}

#[test]
fn a_buffer_that_does_not_match_the_size_is_refused() {
    assert!(matches!(encode_ico_frame(&[1, 2, 3], 16), Err(Error::Image(_))));
    assert!(matches!(encode_ico_frame(&checker(16), 15), Err(Error::Image(_))));
    assert!(matches!(encode_ico_frame(&checker(16), 17), Err(Error::Image(_))));
    assert!(matches!(encode_ico_frame(&[], 1), Err(Error::Image(_))));
    assert!(matches!(encode_ico_frame(&[0; 4], u32::MAX), Err(Error::Image(_))));
    assert!(encode_ico_frame(&[0; 4], 1).is_ok());
}

#[test]
fn a_buffer_of_a_size_that_no_frame_has_is_refused() {
    let pixels = vec![7u8; 4 * 257 * 257];
    assert!(matches!(encode_ico_frame(&pixels, 257), Err(Error::Image(_))));
    let pixels = vec![7u8; 4 * 256 * 256];
    assert_eq!(encode_ico_frame(&pixels, 256).unwrap().size(), 256);
}

#[test]
fn a_frame_is_scaled_down_to_the_requested_size() {
    let icons = vec![SourceImage::new("big.png".to_string(), 64, 64, checker(64)).unwrap()];
    let frame = create_ico_frame(&icons, 32, FilterType::Lanczos3).unwrap();
    assert_eq!(frame.size(), 32);
    let (width, height, pixels) = decoded(&frame);
    assert_eq!((width, height), (32, 32));
    assert_eq!(pixels.len(), 4 * 32 * 32);
}

#[test]
fn every_filter_scales_to_the_requested_size() {
    let icons = vec![SourceImage::new("big.png".to_string(), 40, 40, checker(40)).unwrap()];
    for filter in [
        FilterType::Nearest,
        FilterType::Triangle,
        FilterType::CatmullRom,
        FilterType::Gaussian,
        FilterType::Lanczos3,
    ] {
        let frame = create_ico_frame(&icons, 24, filter).unwrap();
        let (width, height, _) = decoded(&frame);
        assert_eq!((frame.size(), width, height), (24, 24, 24));
    }
}

#[test]
fn scaling_a_plain_image_keeps_its_color() {
    let icons = vec![plain("grey.png", 64, 120)];
    let frame = create_ico_frame(&icons, 16, FilterType::Triangle).unwrap();
    let (_, _, pixels) = decoded(&frame);
    assert_eq!(pixels, vec![120u8; 4 * 16 * 16]);
}

#[test]
fn nearest_neighbor_picks_samples_of_the_source() {
    let source = checker(8);
    let icons = vec![SourceImage::new("eight.png".to_string(), 8, 8, source.clone()).unwrap()];
    let frame = create_ico_frame(&icons, 4, FilterType::Nearest).unwrap();
    let (_, _, pixels) = decoded(&frame);
    for pixel in pixels.chunks(4) {
        assert!(source.chunks(4).any(|sample| sample == pixel));
    }
}

#[test]
fn a_frame_of_a_source_size_holds_the_source_samples() {
    let source = checker(32);
    let icons = vec![
        plain("small.png", 16, 9),
        SourceImage::new("exact.png".to_string(), 32, 32, source.clone()).unwrap(),
        plain("large.png", 64, 7),
    ];
    for filter in [FilterType::Lanczos3, FilterType::Nearest, FilterType::Gaussian] {
        let frame = create_ico_frame(&icons, 32, filter).unwrap();
        assert_eq!(decoded(&frame), (32, 32, source.clone()));
        assert_eq!(frame.encoded(), encode_ico_frame(&source, 32).unwrap().encoded());
    }
}

#[test]
fn the_frame_is_made_from_the_smallest_source_that_is_large_enough() {
    let icons = vec![plain("a.png", 32, 10), plain("b.png", 64, 20), plain("c.png", 128, 30)];
    let frame = create_ico_frame(&icons, 40, FilterType::Lanczos3).unwrap();
    let (_, _, pixels) = decoded(&frame);
    assert_eq!(pixels, vec![20u8; 4 * 40 * 40]);
}

#[test]
fn a_size_without_a_source_is_missing() {
    let icons = vec![plain("a.png", 32, 1)];
    assert!(matches!(
        create_ico_frame(&icons, 256, FilterType::Lanczos3),
        Err(Error::MissingIconSize(256))
    ));
    assert!(matches!(
        create_ico_frame(&[], 16, FilterType::Lanczos3),
        Err(Error::MissingIconSize(16))
    ));
}

#[test]
fn a_size_that_no_frame_can_have_is_refused() {
    let icons = vec![plain("a.png", 300, 1)];
    assert!(matches!(create_ico_frame(&icons, 0, FilterType::Lanczos3), Err(Error::Image(_))));
    assert!(matches!(create_ico_frame(&icons, 257, FilterType::Lanczos3), Err(Error::Image(_))));
    assert!(matches!(create_ico_frame(&icons, 300, FilterType::Nearest), Err(Error::Image(_))));
    assert!(matches!(
        create_ico_frame(&icons, 301, FilterType::Lanczos3),
        Err(Error::MissingIconSize(301))
    ));
    assert_eq!(create_ico_frame(&icons, 256, FilterType::Nearest).unwrap().size(), 256);
    assert_eq!(create_ico_frame(&icons, 1, FilterType::Nearest).unwrap().size(), 1);
}

#[test]
fn frames_come_in_the_order_of_the_sizes() {
    let icons = vec![plain("a.png", 32, 10), plain("b.png", 256, 20)];
    let sizes = IconSizes::new(&[48, 16, 256, 24]);
    let frames = create_ico_frames(&sizes, &icons, FilterType::Triangle).unwrap();
    let got: Vec<u32> = frames.iter().map(|frame| frame.size()).collect();
    assert_eq!(got, vec![48, 16, 256, 24]);
    assert_eq!(decoded(&frames[0]).2, vec![20u8; 4 * 48 * 48]);
    assert_eq!(decoded(&frames[1]).2, vec![10u8; 4 * 16 * 16]);
    assert_eq!(decoded(&frames[2]).2, vec![20u8; 4 * 256 * 256]);
    assert_eq!(decoded(&frames[3]).2, vec![10u8; 4 * 24 * 24]);
}

#[test]
fn a_size_that_occurs_twice_gets_two_frames() {
    let icons = vec![SourceImage::new("a.png".to_string(), 64, 64, checker(64)).unwrap()];
    let sizes = IconSizes::new(&[32, 32]);
    let frames = create_ico_frames(&sizes, &icons, FilterType::Lanczos3).unwrap();
    assert_eq!(frames.len(), 2);
    assert_eq!((frames[0].size(), frames[1].size()), (32, 32));
    assert_eq!(decoded(&frames[0]), decoded(&frames[1]));
}

#[test]
fn no_sizes_give_no_frames() {
    let icons = vec![plain("a.png", 32, 10)];
    let sizes = IconSizes::from(Vec::new());
    assert!(create_ico_frames(&sizes, &icons, FilterType::Lanczos3).unwrap().is_empty());
    assert!(create_ico_frames(&sizes, &[], FilterType::Lanczos3).unwrap().is_empty());
}

#[test]
fn the_first_size_that_is_refused_ends_the_work() {
    let icons = vec![plain("a.png", 32, 10)];
    let sizes = IconSizes::new(&[16, 48, 0, 256]);
    assert!(matches!(
        create_ico_frames(&sizes, &icons, FilterType::Lanczos3),
        Err(Error::MissingIconSize(48))
    ));
    let sizes = IconSizes::new(&[16, 0, 48]);
    assert!(matches!(
        create_ico_frames(&sizes, &icons, FilterType::Lanczos3),
        Err(Error::Image(_))
    ));
}
