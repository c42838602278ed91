use varde::notifications::image::{
    from_raw, target_dimensions, tight_rgba, valid_dimensions, RawImage, MAX_IMAGE_BYTES,
};
use varde::notifications::state::Thumbnail;

fn ready(image: Option<RawImage>) -> Thumbnail {
    match image {
        Some(RawImage::Ready(thumbnail)) => thumbnail,
        _ => panic!("expected an image shown at its own size"),
    }
}

fn target(image: Option<RawImage>) -> (i32, i32) {
    match image {
        Some(RawImage::Scale {
            target_width,
            target_height,
            ..
        }) => (target_width, target_height),
        Some(RawImage::Ready(thumbnail)) => (thumbnail.width, thumbnail.height),
        None => panic!("expected an accepted image"),
    }
}

#[test]
fn converts_rgb_and_rgba_to_tight_rgba() {
    let rgb = ready(from_raw(2, 1, 6, false, 8, 3, vec![1, 2, 3, 4, 5, 6]));
    assert_eq!((rgb.width, rgb.height, rgb.rowstride), (2, 1, 8));
    assert_eq!(rgb.bytes.as_ref(), &[1, 2, 3, 255, 4, 5, 6, 255]);

    let rgba = ready(from_raw(1, 1, 4, true, 8, 4, vec![1, 2, 3, 4]));
    assert_eq!(rgba.bytes.as_ref(), &[1, 2, 3, 4]);
}

#[test]
fn removes_source_row_padding() {
    let image = ready(from_raw(
        1,
        2,
        8,
        false,
        8,
        3,
        vec![1, 2, 3, 9, 9, 9, 9, 9, 4, 5, 6, 9, 9, 9, 9, 9],
    ));
    assert_eq!(image.rowstride, 4);
    assert_eq!(image.bytes.as_ref(), &[1, 2, 3, 255, 4, 5, 6, 255]);
}

#[test]
fn scales_with_aspect_ratio_and_never_upscales() {
    let wide = target(from_raw(256, 64, 768, false, 8, 3, vec![0; 256 * 64 * 3]));
    assert_eq!(wide, (128, 32));
    let tall = target(from_raw(64, 256, 192, false, 8, 3, vec![0; 64 * 256 * 3]));
    assert_eq!(tall, (32, 128));
    let small = target(from_raw(12, 7, 36, false, 8, 3, vec![0; 12 * 7 * 3]));
    assert_eq!(small, (12, 7));
}

#[test]
fn rejects_invalid_raw_metadata_and_limits() {
    let invalid = [
        (-1, 1, 4, true, 8, 4, vec![0; 4]),
        (1, 0, 4, true, 8, 4, vec![0; 4]),
        (4097, 1, 16_388, true, 8, 4, vec![]),
        (4096, 4097, 16_384, true, 8, 4, vec![]),
        (2, 1, 7, true, 8, 4, vec![0; 8]),
        (2, 1, 8, true, 16, 4, vec![0; 8]),
        (2, 1, 8, false, 8, 4, vec![0; 8]),
        (2, 1, 8, true, 8, 3, vec![0; 8]),
        (2, 2, 8, true, 8, 4, vec![0; 8]),
    ];
    for (width, height, stride, alpha, bits, channels, bytes) in invalid {
        assert!(from_raw(width, height, stride, alpha, bits, channels, bytes).is_none());
    }
    assert!(from_raw(1, 1, 4, true, 8, 4, vec![0; MAX_IMAGE_BYTES + 1]).is_none());
}

#[test]
fn scaled_images_hand_back_their_source() {
    match from_raw(300, 150, 900, false, 8, 3, vec![7; 300 * 150 * 3]) {
        Some(RawImage::Scale {
            width,
            height,
            rowstride,
            has_alpha,
            bytes,
            target_width,
            target_height,
        }) => {
            assert_eq!((width, height, rowstride, has_alpha), (300, 150, 900, false));
            assert_eq!(bytes.len(), 300 * 150 * 3);
            assert_eq!((target_width, target_height), (128, 64));
        }
        _ => panic!("expected an image to scale"),
    }
}

#[test]
fn sizes_are_bounded_and_never_collapse() {
    assert_eq!(valid_dimensions(4096, 4096), Some((4096, 4096)));
    assert_eq!(valid_dimensions(0, 5), None);
    assert_eq!(valid_dimensions(4097, 5), None);
    assert_eq!(target_dimensions(4096, 1), (128, 1));
    assert_eq!(target_dimensions(1, 4096), (1, 128));
    assert_eq!(target_dimensions(128, 128), (128, 128));
    assert_eq!(target_dimensions(129, 100), (128, 99));
}

#[test]
fn packs_readable_pixels_only() {
    let packed = tight_rgba(2, 2, 8, 4, true, 8, &[1, 2, 3, 4, 5, 6, 7, 8, 9, 10, 11, 12, 13, 14, 15, 16])
        .unwrap();
    assert_eq!(packed.bytes.len(), 16);
    assert_eq!(packed.bytes[12..], [13, 14, 15, 16]);
    let unpadded_last_row = tight_rgba(1, 2, 8, 3, false, 5, &[1, 2, 3, 0, 0, 4, 5, 6]).unwrap();
    assert_eq!(unpadded_last_row.bytes.as_ref(), &[1, 2, 3, 255, 4, 5, 6, 255]);
    assert!(tight_rgba(1, 2, 8, 3, false, 5, &[1, 2, 3, 0, 0, 4, 5]).is_none());
    assert!(tight_rgba(1, 1, 8, 4, false, 4, &[1, 2, 3, 4]).is_none());
    assert!(tight_rgba(1, 1, 8, 3, false, -3, &[1, 2, 3]).is_none());
}

#[test]
fn accepts_standard_raw_images_and_hint_aliases() {
    // Each of the hint names carries the same structure; the acceptance is
    // the same for all of them.
    for _name in ["image-data", "image_data", "icon_data"] {
        let image = ready(from_raw(2, 1, 8, true, 8, 4, vec![0; 8]));
        assert_eq!((image.width, image.height, image.rowstride), (2, 1, 8));
        assert_eq!(image.bytes.len(), 8);
    }
}

#[test]
fn rejects_invalid_or_unreasonably_large_raw_images() {
    for (width, height, rowstride, alpha, bits, channels, bytes) in [
        (2, 1, 7, true, 8, 4, vec![0; 8]),
        (2, 1, 8, true, 16, 4, vec![0; 8]),
        (2, 1, 8, false, 4, 4, vec![0; 8]),
        (2, 2, 8, true, 8, 4, vec![0; 8]),
        (20_000, 1, 80_000, true, 8, 4, vec![]),
    ] {
        assert!(from_raw(width, height, rowstride, alpha, bits, channels, bytes).is_none());
    }
}
