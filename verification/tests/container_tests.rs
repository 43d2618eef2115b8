use icns_rs::icns_format::IcnsDataEntry;
use icns_rs::icns_format::IconFamily;

#[test]
fn encode_icns_data_entry() {
    let dummy_data: Vec<u8> = vec![0x00, 0x01, 0x02, 0x03];
    let result: Vec<u8> = vec![
        0x00, 0x00, 0x00, 0x00, // tag: four NUL bytes
        0x00, 0x00, 0x00, 0x0C, // length: 12, the 8-byte header plus 4 payload bytes
        0x00, 0x01, 0x02, 0x03, // payload
    ];

    let entry = IcnsDataEntry::new([0x00, 0x00, 0x00, 0x00], dummy_data);

    assert_eq!(entry.build(), result);
}

#[test]
fn entry_len_is_inclusive() {
    let entry = IcnsDataEntry::new([0x41, 0x42, 0x43, 0x44], vec![0x00; 100]);
    assert_eq!(entry.len(), 108);
}

#[test]
fn single_chunk_container() {
    let mut family = IconFamily::new();
    family.add_data(IcnsDataEntry::new([0x41, 0x42, 0x43, 0x44], vec![0x00, 0x01, 0x02, 0x03]));
    let built = family.build();
    let expected: Vec<u8> = vec![
        0x69, 0x63, 0x6E, 0x73, // magic "icns"
        0x00, 0x00, 0x00, 0x1C, // total length 28
        0x54, 0x4F, 0x43, 0x20, // "TOC "
        0x00, 0x00, 0x00, 0x10, // TOC on-wire length 16
        0x41, 0x42, 0x43, 0x44, // TOC entry: tag "ABCD"
        0x00, 0x00, 0x00, 0x0C, // TOC entry: on-wire length 12
        0x41, 0x42, 0x43, 0x44, // chunk tag "ABCD"
        0x00, 0x00, 0x00, 0x0C, // chunk length 12
        0x00, 0x01, 0x02, 0x03, // chunk payload
    ];
    assert_eq!(built, expected);
}

#[test]
fn empty_family_is_toc_only() {
    let family = IconFamily::new();
    let built = family.build();
    // Magic, total length 8, and a TOC chunk with an empty payload.
    let expected: Vec<u8> = vec![
        0x69, 0x63, 0x6E, 0x73, 0x00, 0x00, 0x00, 0x08, 0x54, 0x4F, 0x43, 0x20, 0x00, 0x00, 0x00,
        0x08,
    ];
    assert_eq!(built, expected);
}

#[test]
fn toc_lists_chunks_in_order() {
    let mut family = IconFamily::new();
    family.add_data(IcnsDataEntry::new([0x41, 0x41, 0x41, 0x41], vec![0x10; 3]));
    family.add_data(IcnsDataEntry::new([0x42, 0x42, 0x42, 0x42], vec![0x20; 5]));
    let toc = family.create_contents_table();
    assert_eq!(toc.os_type, [0x54, 0x4F, 0x43, 0x20]);
    let expected_payload: Vec<u8> = vec![
        0x41, 0x41, 0x41, 0x41, 0x00, 0x00, 0x00, 0x0B, // "AAAA", 8 + 3
        0x42, 0x42, 0x42, 0x42, 0x00, 0x00, 0x00, 0x0D, // "BBBB", 8 + 5
    ];
    assert_eq!(toc.data, expected_payload);
}

#[test]
fn total_length_field_matches_output() {
    let mut family = IconFamily::new();
    family.add_data(IcnsDataEntry::new([0x41, 0x42, 0x43, 0x44], vec![0x55; 9]));
    family.add_data(IcnsDataEntry::new([0x45, 0x46, 0x47, 0x48], vec![0x66; 2]));
    let built = family.build();
    let total = u32::from_be_bytes([built[4], built[5], built[6], built[7]]) as usize;
    assert_eq!(total, built.len() - 8);
}
