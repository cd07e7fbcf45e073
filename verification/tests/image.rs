use oma::base64_encode;
use oma::image::{mime_for_format, parse, ImageMeta};

/// A minimal PNG header: signature and IHDR (bit depth 8, the given colour type).
fn png_header(width: u32, height: u32, color_type: u8) -> Vec<u8> {
    let mut v = vec![0x89, b'P', b'N', b'G', 0x0D, 0x0A, 0x1A, 0x0A];
    v.extend_from_slice(&13u32.to_be_bytes());
    v.extend_from_slice(b"IHDR");
    v.extend_from_slice(&width.to_be_bytes());
    v.extend_from_slice(&height.to_be_bytes());
    v.extend_from_slice(&[8, color_type, 0, 0, 0]);
    v
}

#[test]
fn test_png_metadata() {
    let meta = parse(&png_header(256, 128, 6)).unwrap();
    assert_eq!(meta.mime_type, "image/png");
    assert_eq!((meta.width, meta.height), (256, 128));
    assert_eq!(meta.channels, 4);
    assert!(meta.has_alpha);
    assert_eq!(meta.describe(), "256x128 RGBA");

    let rgb = parse(&png_header(3, 4, 2)).unwrap();
    assert_eq!((rgb.channels, rgb.has_alpha), (3, false));
    assert_eq!(rgb.color_mode(), "RGB");
    let gray = parse(&png_header(1, 1, 0)).unwrap();
    assert_eq!(gray.color_mode(), "grayscale");
}

#[test]
fn test_gif_metadata() {
    let mut gif = b"GIF89a".to_vec();
    gif.extend_from_slice(&640u16.to_le_bytes());
    gif.extend_from_slice(&480u16.to_le_bytes());
    gif.extend_from_slice(&[0xF7, 0, 0]);
    let meta = parse(&gif).unwrap();
    assert_eq!(meta.mime_type, "image/gif");
    assert_eq!((meta.width, meta.height), (640, 480));
    assert!(meta.has_alpha, "GIF89a carries a transparency extension");
}

#[test]
fn test_bmp_metadata() {
    let mut bmp = b"BM".to_vec();
    bmp.extend_from_slice(&[0; 16]);
    bmp.extend_from_slice(&64u32.to_le_bytes());
    bmp.extend_from_slice(&(-32i32).to_le_bytes());
    bmp.extend_from_slice(&[0, 0]);
    bmp.extend_from_slice(&32u16.to_le_bytes());
    let meta = parse(&bmp).unwrap();
    assert_eq!(meta.mime_type, "image/bmp");
    assert_eq!((meta.width, meta.height), (64, 32), "negative height means top-down");
    assert!(meta.has_alpha);
}

#[test]
fn test_jpeg_metadata() {
    let mut jpeg = vec![0xFF, 0xD8];
    jpeg.extend_from_slice(&[0xFF, 0xE0, 0, 16]);
    jpeg.extend_from_slice(b"JFIF\0");
    jpeg.extend_from_slice(&[0; 9]);
    jpeg.extend_from_slice(&[0xFF, 0xC0, 0, 17, 8]);
    jpeg.extend_from_slice(&480u16.to_be_bytes());
    jpeg.extend_from_slice(&640u16.to_be_bytes());
    jpeg.push(3);
    jpeg.extend_from_slice(&[0; 10]);
    let meta = parse(&jpeg).unwrap();
    assert_eq!(meta.mime_type, "image/jpeg");
    assert_eq!((meta.width, meta.height), (640, 480));
    assert!(!meta.has_alpha, "JPEG never carries an alpha channel");
}

#[test]
fn test_webp_lossless_and_unknown() {
    let mut webp = b"RIFF".to_vec();
    webp.extend_from_slice(&0u32.to_le_bytes());
    webp.extend_from_slice(b"WEBP");
    webp.extend_from_slice(b"VP8L");
    webp.extend_from_slice(&5u32.to_le_bytes());
    webp.push(0x2F);
    let packed: u32 = ((128u32 - 1) << 14) | (256 - 1);
    webp.extend_from_slice(&packed.to_le_bytes());
    let meta = parse(&webp).unwrap();
    assert_eq!(meta.mime_type, "image/webp");
    assert_eq!((meta.width, meta.height), (256, 128));

    assert!(parse(b"not an image at all").is_none());
    assert!(parse(&[]).is_none());
    assert!(parse(&png_header(1, 1, 6)[..20]).is_none(), "truncated IHDR");
    assert!(parse(&[0xFF, 0xD8, 0xFF, 0xE0, 0, 2]).is_none(), "JPEG without SOFn");
    assert!(parse(&webp[..20]).is_none(), "truncated WebP chunk");
    assert!(parse(b"II\x2A\x00\x08\x00\x00\x00\x01\x00").is_none(), "truncated TIFF IFD");
    assert!(parse(b"BM\x00\x00").is_none());
}

#[test]
fn image_test_base64_encode() {
    assert_eq!(base64_encode(b""), "");
    assert_eq!(base64_encode(b"f"), "Zg==");
    assert_eq!(base64_encode(b"fo"), "Zm8=");
    assert_eq!(base64_encode(b"foo"), "Zm9v");
    assert_eq!(base64_encode(b"foobar"), "Zm9vYmFy");
    let all: Vec<u8> = (0..=255).collect();
    assert_eq!(base64_encode(&all).len(), 344);
}

#[test]
fn base64_uses_the_whole_alphabet() {
    assert_eq!(base64_encode(&[0xFB, 0xEF, 0xBE]), "++++");
    assert_eq!(base64_encode(&[0xFF, 0xFF, 0xFF]), "////");
    assert_eq!(base64_encode(&[0x00, 0x10, 0x83]), "ABCD");
    assert_eq!(base64_encode(b"Man"), "TWFu");
    assert_eq!(base64_encode(&[0x69, 0xB7, 0x1D, 0x79, 0xF8, 0x21, 0x8A, 0x39]), "abcdefghijk=");
}

#[test]
fn little_endian_tiff_reads_the_ifd() {
    // header, IFD at 8 with two entries (width 300, height 200), then SamplesPerPixel-like word 4
    let mut tiff = b"II\x2A\x00".to_vec();
    tiff.extend_from_slice(&8u32.to_le_bytes());
    tiff.extend_from_slice(&2u16.to_le_bytes());
    tiff.extend_from_slice(&0x0100u16.to_le_bytes());
    tiff.extend_from_slice(&3u16.to_le_bytes());
    tiff.extend_from_slice(&1u32.to_le_bytes());
    tiff.extend_from_slice(&300u32.to_le_bytes());
    tiff.extend_from_slice(&0x0101u16.to_le_bytes());
    tiff.extend_from_slice(&3u16.to_le_bytes());
    tiff.extend_from_slice(&1u32.to_le_bytes());
    tiff.extend_from_slice(&200u32.to_le_bytes());
    tiff.extend_from_slice(&4u16.to_le_bytes());
    let meta = parse(&tiff).unwrap();
    assert_eq!(meta.mime_type, "image/tiff");
    assert_eq!((meta.width, meta.height, meta.channels), (300, 200, 4));
    assert!(meta.has_alpha);
    assert_eq!(meta.describe(), "300x200 RGBA");
}

#[test]
fn big_endian_tiff_without_height_is_rejected() {
    let mut tiff = b"MM\x00\x2A".to_vec();
    tiff.extend_from_slice(&8u32.to_be_bytes());
    tiff.extend_from_slice(&1u16.to_be_bytes());
    tiff.extend_from_slice(&0x0100u16.to_be_bytes());
    tiff.extend_from_slice(&3u16.to_be_bytes());
    tiff.extend_from_slice(&1u32.to_be_bytes());
    tiff.extend_from_slice(&300u32.to_be_bytes());
    tiff.extend_from_slice(&1u16.to_be_bytes());
    assert!(parse(&tiff).is_none());
}

#[test]
fn webp_lossy_and_extended() {
    let mut lossy = b"RIFF".to_vec();
    lossy.extend_from_slice(&0u32.to_le_bytes());
    lossy.extend_from_slice(b"WEBPVP8 ");
    lossy.extend_from_slice(&[0; 10]);
    lossy.extend_from_slice(&(0xC000u16 | 320).to_le_bytes());
    lossy.extend_from_slice(&240u16.to_le_bytes());
    let meta = parse(&lossy).unwrap();
    assert_eq!((meta.width, meta.height, meta.channels, meta.has_alpha), (320, 240, 3, false));

    let mut extended = b"RIFF".to_vec();
    extended.extend_from_slice(&0u32.to_le_bytes());
    extended.extend_from_slice(b"WEBPVP8X");
    extended.extend_from_slice(&[0; 4]);
    extended.extend_from_slice(&[0x10, 0, 0, 0]);
    extended.extend_from_slice(&[0x3F, 0x01, 0x00]);
    extended.extend_from_slice(&[0xC7, 0x00, 0x00]);
    let meta = parse(&extended).unwrap();
    assert_eq!((meta.width, meta.height, meta.channels, meta.has_alpha), (320, 200, 4, true));
}

#[test]
fn color_modes_and_formats() {
    let m = ImageMeta {
        mime_type: "image/png".to_string(),
        width: 1,
        height: 2,
        channels: 2,
        has_alpha: true,
    };
    assert_eq!(m.color_mode(), "grayscale+alpha");
    assert_eq!(m.describe(), "1x2 grayscale+alpha");
    let odd = ImageMeta { channels: 5, has_alpha: false, ..m.clone() };
    assert_eq!(odd.color_mode(), "RGB");
    assert_eq!(ImageMeta { channels: 5, has_alpha: true, ..m }.color_mode(), "RGBA");
    assert_eq!(mime_for_format("png"), "image/png");
    assert_eq!(mime_for_format("jpeg"), "image/jpeg");
    assert_eq!(mime_for_format("tiff"), "image/tiff");
    assert_eq!(mime_for_format("jpg"), "application/octet-stream");
}

#[test]
fn jpeg_skips_fill_bytes_and_standalone_markers() {
    let mut jpeg = vec![0xFF, 0xD8, 0x00, 0xFF, 0xD0];
    jpeg.extend_from_slice(&[0xFF, 0xC2, 0, 11, 8]);
    jpeg.extend_from_slice(&100u16.to_be_bytes());
    jpeg.extend_from_slice(&50u16.to_be_bytes());
    jpeg.push(1);
    jpeg.extend_from_slice(&[0; 4]);
    let meta = parse(&jpeg).unwrap();
    assert_eq!((meta.width, meta.height, meta.channels), (50, 100, 1));
    assert!(parse(&[0xFF, 0xD8, 0xFF, 0xC0, 0, 1, 0, 0]).is_none(), "segment length below 2");
}
