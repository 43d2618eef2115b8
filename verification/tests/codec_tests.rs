use icns_rs::packbits::compress;
use icns_rs::packbits::decompress;
use icns_rs::IcnsError;

fn basic_raw() -> Vec<u8> {
    vec![
        0x01, 0x02, 0x02, 0x03, 0x03, 0x03, 0x04, 0x04, 0x04, 0x04, 0x05, 0x05, 0x05, 0x05, 0x05,
    ]
}

fn basic_compressed() -> Vec<u8> {
    vec![0x02, 0x01, 0x02, 0x02, 0x80, 0x03, 0x81, 0x04, 0x82, 0x05]
}

fn stress_repeat_raw() -> Vec<u8> {
    vec![0x01; 131]
}

fn stress_repeat_compressed() -> Vec<u8> {
    vec![0xFF, 0x01, 0x00, 0x01]
}

fn stress_no_repeat_raw() -> Vec<u8> {
    // The 131 distinct ascending bytes 0x00 through 0x82.
    (0u32..131).map(|x| x as u8).collect()
}

fn stress_no_repeat_compressed() -> Vec<u8> {
    // A full 128-byte literal packet, then a 3-byte literal packet.
    let mut v: Vec<u8> = vec![0x7f];
    for x in 0u32..128 {
        v.push(x as u8);
    }
    v.push(0x02);
    v.push(0x80);
    v.push(0x81);
    v.push(0x82);
    v
}

#[test]
fn compress_basic() {
    assert_eq!(compress(&basic_raw()), basic_compressed());
}

#[test]
fn compress_stress_repeat() {
    assert_eq!(compress(&stress_repeat_raw()), stress_repeat_compressed());
}

#[test]
fn compress_stress_no_repeat() {
    assert_eq!(compress(&stress_no_repeat_raw()), stress_no_repeat_compressed());
}

#[test]
fn decompress_basic() {
    assert_eq!(decompress(&basic_compressed()).unwrap(), basic_raw());
}

#[test]
fn decompress_stress_repeat() {
    assert_eq!(decompress(&stress_repeat_compressed()).unwrap(), stress_repeat_raw());
}

#[test]
fn decompress_stress_no_repeat() {
    assert_eq!(decompress(&stress_no_repeat_compressed()).unwrap(), stress_no_repeat_raw());
}

#[test]
fn round_trip_seed_vectors() {
    for raw in [basic_raw(), stress_repeat_raw(), stress_no_repeat_raw()] {
        assert_eq!(decompress(&compress(&raw)).unwrap(), raw);
    }
}

#[test]
fn round_trip_lengths() {
    // Zero-length, one-byte, and the literal-cap edge lengths.
    for len in [0usize, 1, 2, 3, 127, 128, 129, 130, 131, 200] {
        // A pattern with short runs sprinkled in.
        let raw: Vec<u8> = (0..len).map(|i| ((i * 7 / 3) % 251) as u8).collect();
        assert_eq!(decompress(&compress(&raw)).unwrap(), raw);
        // All-identical input of the same length.
        let flat: Vec<u8> = vec![0xAB; len];
        assert_eq!(decompress(&compress(&flat)).unwrap(), flat);
    }
}

#[test]
fn compress_two_byte_runs_stay_literal() {
    // Runs of two are embedded in literals; only runs of three or more
    // become run packets.
    let raw: Vec<u8> = vec![0x07, 0x07, 0x09, 0x09, 0x01];
    assert_eq!(compress(&raw), vec![0x04, 0x07, 0x07, 0x09, 0x09, 0x01]);
}

#[test]
fn decompress_truncated_run_packet() {
    // A run header with no data byte after it.
    assert_eq!(decompress(&vec![0x80]), Err(IcnsError::TruncatedInput));
}

#[test]
fn decompress_truncated_literal_packet() {
    // A literal header announcing six data bytes with only two present.
    assert_eq!(decompress(&vec![0x05, 0x01, 0x02]), Err(IcnsError::TruncatedInput));
}

#[test]
fn decompress_empty_is_empty() {
    assert_eq!(decompress(&Vec::new()).unwrap(), Vec::<u8>::new());
}
