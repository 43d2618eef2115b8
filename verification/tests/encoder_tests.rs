use icns_rs::image_encoder::ImageBuilder;
use icns_rs::image_types::FileFormat;
use icns_rs::image_types::IconFormats;
use icns_rs::packbits::decompress;
use icns_rs::IcnsEncoder;
use icns_rs::IcnsError;

fn uniform_image(width: u32, height: u32, rgba: [u8; 4]) -> image::DynamicImage {
    let buf = image::RgbaImage::from_pixel(width, height, image::Rgba(rgba));
    image::DynamicImage::ImageRgba8(buf)
}

/// Run-length encoding of `n` copies of `b` under the codec's rules,
/// for `n` between 3 and 260.
fn runs_of(b: u8, n: usize) -> Vec<u8> {
    let mut v = Vec::new();
    let mut left = n;
    while left > 0 {
        let take = left.min(130);
        v.push((take - 3 + 128) as u8);
        v.push(b);
        left -= take;
    }
    v
}

#[test]
fn catalog_recommended_set() {
    let rec = IconFormats::recommended();
    assert_eq!(rec.len(), 18);
    assert_eq!(rec[0], IconFormats::IS32);
    assert_eq!(rec[17], IconFormats::IC14);
    assert!(!rec.contains(&IconFormats::ICP4));
    assert!(!rec.contains(&IconFormats::ICP5));
    assert!(!rec.contains(&IconFormats::ICP6));
}

#[test]
fn catalog_lookup() {
    assert_eq!(IconFormats::IS32.get_size(), 16);
    assert_eq!(IconFormats::IT32.get_size(), 128);
    assert_eq!(IconFormats::IC10.get_size(), 1024);
    assert_eq!(IconFormats::S8MK.get_size(), 16);
    assert_eq!(IconFormats::IS32.get_format(), FileFormat::RGB);
    assert_eq!(IconFormats::T8MK.get_format(), FileFormat::MASK);
    assert_eq!(IconFormats::IC04.get_format(), FileFormat::ARGB);
    assert_eq!(IconFormats::ICP6.get_format(), FileFormat::PNG);
    assert_eq!(IconFormats::IS32.get_bytes(), [0x69, 0x73, 0x33, 0x32]);
    assert_eq!(IconFormats::T8MK.get_bytes(), [0x74, 0x38, 0x6D, 0x6B]);
    assert_eq!(IconFormats::IC14.get_bytes(), [0x69, 0x63, 0x31, 0x34]);
}

#[test]
fn rgb_chunk_of_uniform_image() {
    let mut builder = ImageBuilder::new();
    builder.data(uniform_image(16, 16, [0xFF, 0x00, 0x00, 0xFF]));
    builder.format(IconFormats::IS32);
    let entry = builder.build().unwrap();
    assert_eq!(entry.os_type, [0x69, 0x73, 0x33, 0x32]);
    // Each 256-byte plane compresses to a 130-run and a 126-run.
    let mut expected = Vec::new();
    expected.extend_from_slice(&runs_of(0xFF, 256)); // red
    expected.extend_from_slice(&runs_of(0x00, 256)); // green
    expected.extend_from_slice(&runs_of(0x00, 256)); // blue
    assert_eq!(entry.data, expected);
}

#[test]
fn argb_chunk_of_uniform_image() {
    let mut builder = ImageBuilder::new();
    builder.data(uniform_image(16, 16, [0x01, 0x02, 0x03, 0x04]));
    builder.format(IconFormats::IC04);
    let entry = builder.build().unwrap();
    assert_eq!(entry.os_type, [0x69, 0x63, 0x30, 0x34]);
    let mut expected = vec![0x41, 0x52, 0x47, 0x42]; // literal "ARGB"
    expected.extend_from_slice(&runs_of(0x04, 256)); // alpha
    expected.extend_from_slice(&runs_of(0x01, 256)); // red
    expected.extend_from_slice(&runs_of(0x02, 256)); // green
    expected.extend_from_slice(&runs_of(0x03, 256)); // blue
    assert_eq!(entry.data, expected);
}

#[test]
fn it32_chunk_has_zero_prefix() {
    let mut builder = ImageBuilder::new();
    builder.data(uniform_image(64, 64, [0x09, 0x09, 0x09, 0xFF]));
    builder.format(IconFormats::IT32);
    let entry = builder.build().unwrap();
    assert_eq!(entry.os_type, [0x69, 0x74, 0x33, 0x32]);
    assert_eq!(&entry.data[0..4], &[0x00, 0x00, 0x00, 0x00]);
    // The three planes decode back to 3 * 128 * 128 bytes of 0x09.
    let packed: Vec<u8> = entry.data[4..].to_vec();
    let decoded = decompress(&packed).unwrap();
    assert_eq!(decoded, vec![0x09; 3 * 128 * 128]);
}

#[test]
fn mask_only_container() {
    let mut encoder = IcnsEncoder::new();
    encoder.data(uniform_image(16, 16, [0xFF, 0xFF, 0xFF, 0xFF]));
    encoder.formats(vec![IconFormats::S8MK]);
    let out = encoder.build().unwrap();
    // Envelope: total length = 8 (TOC header) + 8 (TOC payload)
    //           + 8 (chunk header) + 256 (mask bytes) = 280.
    assert_eq!(out.len(), 288);
    let total = u32::from_be_bytes([out[4], out[5], out[6], out[7]]);
    assert_eq!(total, 280);
    // The mask payload: 256 bytes of fully opaque alpha.
    let payload: Vec<u8> = out[32..].to_vec();
    assert_eq!(payload, vec![0xFF; 256]);
}

#[test]
fn empty_variant_list_is_rejected() {
    let encoder = IcnsEncoder::new();
    assert_eq!(encoder.build(), Err(IcnsError::EmptyVariantList));
}

#[test]
fn recommended_set_parses_under_toc_invariant() {
    let mut encoder = IcnsEncoder::new();
    // A synthetic gradient so every variant has real pixel data.
    let buf = image::RgbaImage::from_fn(1024, 1024, |x, y| {
        image::Rgba([(x % 256) as u8, (y % 256) as u8, ((x + y) % 256) as u8, 0xFF])
    });
    encoder.data(image::DynamicImage::ImageRgba8(buf));
    let formats = IconFormats::recommended();
    encoder.formats(formats.clone());
    let out = encoder.build().unwrap();

    // Envelope: magic and total length.
    assert_eq!(&out[0..4], &[0x69, 0x63, 0x6E, 0x73]);
    let total = u32::from_be_bytes([out[4], out[5], out[6], out[7]]) as usize;
    assert_eq!(total, out.len() - 8);

    // First chunk is the TOC.
    assert_eq!(&out[8..12], &[0x54, 0x4F, 0x43, 0x20]);
    let toc_len = u32::from_be_bytes([out[12], out[13], out[14], out[15]]) as usize;
    assert_eq!(toc_len, 8 + 8 * formats.len());

    // Walk the chunks after the TOC and hold them against the TOC
    // entries: same tags, same lengths, same order, one each.
    let mut toc_off = 16;
    let mut chunk_off = 8 + toc_len;
    for format in &formats {
        let toc_tag: [u8; 4] = out[toc_off..toc_off + 4].try_into().unwrap();
        let toc_entry_len = u32::from_be_bytes([
            out[toc_off + 4],
            out[toc_off + 5],
            out[toc_off + 6],
            out[toc_off + 7],
        ]) as usize;
        let chunk_tag: [u8; 4] = out[chunk_off..chunk_off + 4].try_into().unwrap();
        let chunk_len = u32::from_be_bytes([
            out[chunk_off + 4],
            out[chunk_off + 5],
            out[chunk_off + 6],
            out[chunk_off + 7],
        ]) as usize;
        assert_eq!(toc_tag, format.get_bytes());
        assert_eq!(chunk_tag, format.get_bytes());
        assert_eq!(toc_entry_len, chunk_len);
        assert!(chunk_len >= 8);
        toc_off += 8;
        chunk_off += chunk_len;
    }
    // The chunks fill the container exactly.
    assert_eq!(chunk_off, out.len());
}

#[test]
fn mask_chunk_payload_is_uncompressed_alpha() {
    let mut builder = ImageBuilder::new();
    // Alpha 0x42 everywhere; luminance differs from alpha on purpose.
    builder.data(uniform_image(32, 32, [0x10, 0x20, 0x30, 0x42]));
    builder.format(IconFormats::L8MK);
    let entry = builder.build().unwrap();
    assert_eq!(entry.os_type, [0x6C, 0x38, 0x6D, 0x6B]);
    assert_eq!(entry.data, vec![0x42; 1024]);
}

#[test]
fn png_encode_failure_is_reported() {
    // The PNG delegate has no encoding for float-pixel surfaces, so a
    // PNG variant of such a source fails; the whole build aborts with
    // the delegate's message.
    let buf = image::Rgb32FImage::from_pixel(8, 8, image::Rgb([0.5f32, 0.5, 0.5]));
    let mut encoder = IcnsEncoder::new();
    encoder.data(image::DynamicImage::ImageRgb32F(buf));
    encoder.formats(vec![IconFormats::IC12]);
    match encoder.build() {
        Err(IcnsError::PngEncodeFailed(_)) => {}
        other => panic!("expected a PNG encode failure, got {:?}", other),
    }
}

#[test]
fn png_chunk_is_valid_png() {
    let mut builder = ImageBuilder::new();
    builder.data(uniform_image(64, 64, [0x12, 0x34, 0x56, 0xFF]));
    builder.format(IconFormats::IC12);
    let entry = builder.build().unwrap();
    assert_eq!(entry.os_type, [0x69, 0x63, 0x31, 0x32]);
    // PNG signature.
    assert_eq!(&entry.data[0..8], &[0x89, 0x50, 0x4E, 0x47, 0x0D, 0x0A, 0x1A, 0x0A]);
    // The stream decodes back to a 64-by-64 image.
    let decoded = image::load_from_memory(&entry.data).unwrap();
    assert_eq!(decoded.width(), 64);
    assert_eq!(decoded.height(), 64);
}
