use xemanh::imaging::{checkerboard_pixels, format_traits, has_transparent_pixel, LoadedImage, Rot};

fn transparent_2x1() -> image::DynamicImage {
    image::DynamicImage::new_rgba8(2, 1)
}

fn opaque_2x1() -> image::DynamicImage {
    image::DynamicImage::ImageRgb8(image::RgbImage::new(2, 1))
}

#[test]
fn checkerboard_layout() {
    let p = checkerboard_pixels();
    assert_eq!(p.len(), 32 * 32 * 4);
    let px = |x: usize, y: usize| &p[(y * 32 + x) * 4..(y * 32 + x) * 4 + 4];
    assert_eq!(px(0, 0), &[42, 42, 42, 255]);
    assert_eq!(px(15, 15), &[42, 42, 42, 255]);
    assert_eq!(px(16, 0), &[28, 28, 28, 255]);
    assert_eq!(px(0, 16), &[28, 28, 28, 255]);
    assert_eq!(px(31, 31), &[42, 42, 42, 255]);
}

#[test]
fn transparent_pixel_detection() {
    assert!(!has_transparent_pixel(&vec![]));
    assert!(!has_transparent_pixel(&vec![1, 2, 3, 255, 9, 9, 9, 255]));
    assert!(has_transparent_pixel(&vec![1, 2, 3, 255, 9, 9, 9, 254]));
    // A trailing partial pixel is not looked at.
    assert!(!has_transparent_pixel(&vec![1, 2, 3, 255, 0, 0]));
}

#[test]
fn format_traits_by_extension() {
    let t = format_traits("/pics/a.JPG");
    assert!(!t.may_have_transparency);
    assert!(!t.is_gif);
    let t = format_traits("/pics/a.bmp");
    assert!(!t.may_have_transparency);
    let t = format_traits("/pics/a.Gif");
    assert!(t.may_have_transparency);
    assert!(t.is_gif);
    let t = format_traits("/pics/a.png");
    assert!(t.may_have_transparency);
    assert!(!t.is_gif);
    let t = format_traits("/pics/noext");
    assert!(t.may_have_transparency);
    assert!(!t.is_gif);
}

#[test]
fn load_sees_transparency_in_png() {
    let img: LoadedImage<u8> = LoadedImage::load(transparent_2x1(), "/p/a.png".to_string(), None);
    assert!(img.has_transparency());
    assert_eq!((img.rgba().width, img.rgba().height), (2, 1));
    assert_eq!(img.rgba().raw.len(), 8);
}

#[test]
fn load_ignores_alpha_of_jpeg() {
    let img: LoadedImage<u8> = LoadedImage::load(transparent_2x1(), "/p/a.jpeg".to_string(), None);
    assert!(!img.has_transparency());
}

#[test]
fn load_opaque_image() {
    let img: LoadedImage<u8> = LoadedImage::load(opaque_2x1(), "/p/a.png".to_string(), None);
    assert!(!img.has_transparency());
    assert_eq!(img.rgba().raw, vec![0, 0, 0, 255, 0, 0, 0, 255]);
}

#[test]
fn rotate_turns_the_image() {
    let mut img: LoadedImage<u8> = LoadedImage::load(opaque_2x1(), "/p/a.png".to_string(), None);
    img.rotate(Rot::Cw);
    assert_eq!((img.rgba().width, img.rgba().height), (1, 2));
    img.rotate(Rot::Ccw);
    assert_eq!((img.rgba().width, img.rgba().height), (2, 1));
    img.rotate(Rot::Keep);
    assert_eq!((img.rgba().width, img.rgba().height), (2, 1));
    assert!(!img.has_transparency());
}

#[test]
fn png_bytes_are_png() {
    let img: LoadedImage<u8> = LoadedImage::load(opaque_2x1(), "/p/a.png".to_string(), None);
    let bytes = img.png_bytes().expect("encodes");
    assert_eq!(&bytes[..8], &[137, 80, 78, 71, 13, 10, 26, 10]);
}

#[test]
fn animation_is_reachable() {
    let anim = xemanh::animation::ImageAnimation::from_frames(vec![1u8, 2], vec![(10, 1), (10, 1)]);
    let mut img: LoadedImage<u8> = LoadedImage::load(opaque_2x1(), "/p/a.gif".to_string(), anim);
    let a = img.animation_mut().expect("has animation");
    a.update(15_000_000);
    assert_eq!(a.current_frame, 1);
    let mut still: LoadedImage<u8> = LoadedImage::load(opaque_2x1(), "/p/a.png".to_string(), None);
    assert!(still.animation_mut().is_none());
}

#[test]
fn crop_keeps_the_rectangle() {
    let mut img: LoadedImage<u8> = LoadedImage::load(transparent_2x1(), "/p/a.png".to_string(), None);
    img.crop(1, 0, 5, 5);
    assert_eq!((img.rgba().width, img.rgba().height), (1, 1));
    assert!(img.has_transparency());
    assert_eq!(img.path(), "/p/a.png");
    assert_eq!(img.image().width(), 1);
}

fn two_pixels() -> image::DynamicImage {
    let mut img = image::RgbaImage::new(2, 1);
    img.put_pixel(0, 0, image::Rgba([1, 2, 3, 255]));
    img.put_pixel(1, 0, image::Rgba([4, 5, 6, 255]));
    image::DynamicImage::ImageRgba8(img)
}

#[test]
fn load_keeps_the_pixels() {
    let img: LoadedImage<u8> = LoadedImage::load(two_pixels(), "/p/a.png".to_string(), None);
    assert_eq!(img.rgba().raw, vec![1, 2, 3, 255, 4, 5, 6, 255]);
}

#[test]
fn rotating_moves_the_pixels() {
    let mut cw: LoadedImage<u8> = LoadedImage::load(two_pixels(), "/p/a.png".to_string(), None);
    cw.rotate(Rot::Cw);
    assert_eq!((cw.rgba().width, cw.rgba().height), (1, 2));
    assert_eq!(cw.rgba().raw, vec![1, 2, 3, 255, 4, 5, 6, 255]);
    let mut ccw: LoadedImage<u8> = LoadedImage::load(two_pixels(), "/p/a.png".to_string(), None);
    ccw.rotate(Rot::Ccw);
    assert_eq!((ccw.rgba().width, ccw.rgba().height), (1, 2));
    assert_eq!(ccw.rgba().raw, vec![4, 5, 6, 255, 1, 2, 3, 255]);
}

#[test]
fn cropping_keeps_the_rectangle_pixels() {
    let mut img: LoadedImage<u8> = LoadedImage::load(two_pixels(), "/p/a.png".to_string(), None);
    img.crop(1, 0, 1, 1);
    assert_eq!(img.rgba().raw, vec![4, 5, 6, 255]);
    let mut clipped: LoadedImage<u8> = LoadedImage::load(two_pixels(), "/p/a.png".to_string(), None);
    clipped.crop(9, 9, 3, 3);
    assert_eq!((clipped.rgba().width, clipped.rgba().height), (0, 0));
}

#[test]
fn png_failure_is_reported() {
    let img: LoadedImage<u8> = LoadedImage::load(
        image::DynamicImage::ImageRgb32F(image::Rgb32FImage::new(1, 1)),
        "/p/a.png".to_string(),
        None,
    );
    let err = img.png_bytes().expect_err("32-bit float pixels are not PNG");
    assert!(err.starts_with("Failed to encode PNG: "));
}

fn png_file_bytes() -> Vec<u8> {
    let mut bytes = Vec::new();
    two_pixels()
        .write_to(&mut std::io::Cursor::new(&mut bytes), image::ImageOutputFormat::Png)
        .expect("encodes");
    bytes
}

#[test]
fn open_bytes_decodes_by_extension() {
    let img: LoadedImage<u8> =
        LoadedImage::open_bytes(&png_file_bytes(), "/p/a.png".to_string(), None).expect("decodes");
    assert_eq!((img.rgba().width, img.rgba().height), (2, 1));
    assert_eq!(img.rgba().raw, vec![1, 2, 3, 255, 4, 5, 6, 255]);
    assert_eq!(img.path(), "/p/a.png");
    assert!(!img.has_transparency());
}

#[test]
fn open_bytes_reports_failures() {
    let err = LoadedImage::<u8>::open_bytes(b"not an image", "/p/a.png".to_string(), None)
        .err()
        .expect("does not decode");
    assert!(err.starts_with("Failed to open /p/a.png: "));
    assert!(err.len() > "Failed to open /p/a.png: ".len());
    let err = LoadedImage::<u8>::open_bytes(&png_file_bytes(), "/p/a.xyz".to_string(), None)
        .err()
        .expect("unknown extension");
    assert!(err.starts_with("Failed to open /p/a.xyz: "));
    assert_eq!(xemanh::imaging::open_failure("/x", "gone"), "Failed to open /x: gone");
}

fn gif_bytes() -> Vec<u8> {
    let mut bytes = Vec::new();
    {
        let mut enc = image::codecs::gif::GifEncoder::new(&mut bytes);
        let frames = vec![
            image::Frame::from_parts(
                image::RgbaImage::from_pixel(1, 1, image::Rgba([255, 0, 0, 255])),
                0,
                0,
                image::Delay::from_numer_denom_ms(50, 1),
            ),
            image::Frame::from_parts(
                image::RgbaImage::from_pixel(1, 1, image::Rgba([0, 0, 255, 255])),
                0,
                0,
                image::Delay::from_numer_denom_ms(200, 1),
            ),
        ];
        enc.encode_frames(frames).expect("encodes");
    }
    bytes
}

#[test]
fn gif_frames_decode_each_frame() {
    let frames = xemanh::imaging::gif_frames(&gif_bytes(), "/p/a.GIF").expect("two frames");
    assert_eq!(frames.len(), 2);
    assert_eq!(frames[0].pixels.raw, vec![255, 0, 0, 255]);
    assert_eq!(frames[1].pixels.raw, vec![0, 0, 255, 255]);
    let d0 = frames[0].delay_numer as f64 / frames[0].delay_denom as f64;
    let d1 = frames[1].delay_numer as f64 / frames[1].delay_denom as f64;
    assert_eq!((d0, d1), (50.0, 200.0));
    assert!(xemanh::imaging::gif_frames(&gif_bytes(), "/p/a.png").is_none());
    assert!(xemanh::imaging::gif_frames(b"junk", "/p/a.gif").is_none());
}
