use dol::{DolError, DolFile, Section, HEADER_SIZE};

fn get(buf: &[u8], off: usize) -> u32 {
    u32::from_be_bytes([buf[off], buf[off + 1], buf[off + 2], buf[off + 3]])
}

fn put(buf: &mut [u8], off: usize, v: u32) {
    buf[off..off + 4].copy_from_slice(&v.to_be_bytes());
}

#[test]
fn endian_read_write() {
    assert_eq!(dol::read_u32(&[0xDE, 0xAD, 0xBE, 0xEF], 0), 0xDEAD_BEEF);
    assert_eq!(dol::read_u32(&[0x00, 0xDE, 0xAD, 0xBE, 0xEF], 1), 0xDEAD_BEEF);
    let mut buf = vec![0u8; 8];
    dol::write_u32(&mut buf, 2, 0x0102_0304);
    assert_eq!(buf, vec![0, 0, 1, 2, 3, 4, 0, 0]);
    assert_eq!(dol::read_u32(&buf, 2), 0x0102_0304);
}

#[test]
fn encode_single_text_section_header_fields() {
    let image = DolFile {
        text_sections: vec![Section { address: 0x8000_3000, data: vec![0xAB; 16] }],
        data_sections: Vec::new(),
        bss_address: 0,
        bss_size: 0,
        entry_point: 0,
    };
    let bytes = image.to_bytes().unwrap();
    assert_eq!(bytes.len(), 256 + 16);
    assert_eq!(get(&bytes, 0x00), 256);
    assert_eq!(get(&bytes, 0x48), 0x8000_3000);
    assert_eq!(get(&bytes, 0x90), 16);
    for slot in 1..7 {
        assert_eq!(get(&bytes, 0x00 + 4 * slot), 0);
        assert_eq!(get(&bytes, 0x48 + 4 * slot), 0);
        assert_eq!(get(&bytes, 0x90 + 4 * slot), 0);
    }
    for slot in 0..11 {
        assert_eq!(get(&bytes, 0x1c + 4 * slot), 0);
        assert_eq!(get(&bytes, 0x64 + 4 * slot), 0);
        assert_eq!(get(&bytes, 0xac + 4 * slot), 0);
    }
    assert_eq!(&bytes[256..], &[0xAB; 16]);
}

#[test]
fn encode_writes_bss_and_entry_fields() {
    let image = DolFile {
        text_sections: Vec::new(),
        data_sections: Vec::new(),
        bss_address: 0x8010_0000,
        bss_size: 0x2_0000,
        entry_point: 0x8000_3100,
    };
    let bytes = image.to_bytes().unwrap();
    assert_eq!(bytes.len(), 256);
    assert_eq!(get(&bytes, 0xd8), 0x8010_0000);
    assert_eq!(get(&bytes, 0xdc), 0x2_0000);
    assert_eq!(get(&bytes, 0xe0), 0x8000_3100);
}

#[test]
fn round_trip_restores_image() {
    let image = DolFile {
        text_sections: vec![
            Section { address: 0x8000_3000, data: vec![1, 2, 3, 4] },
            Section { address: 0x8000_4000, data: vec![5, 6] },
        ],
        data_sections: vec![Section { address: 0x8020_0000, data: vec![7, 8, 9] }],
        bss_address: 0x8030_0000,
        bss_size: 0x1000,
        entry_point: 0x8000_3004,
    };
    let bytes = image.to_bytes().unwrap();
    let decoded = DolFile::parse(&bytes).unwrap();
    assert_eq!(decoded.text_sections.len(), 2);
    assert_eq!(decoded.text_sections[0].address, 0x8000_3000);
    assert_eq!(decoded.text_sections[0].data, vec![1, 2, 3, 4]);
    assert_eq!(decoded.text_sections[1].address, 0x8000_4000);
    assert_eq!(decoded.text_sections[1].data, vec![5, 6]);
    assert_eq!(decoded.data_sections.len(), 1);
    assert_eq!(decoded.data_sections[0].address, 0x8020_0000);
    assert_eq!(decoded.data_sections[0].data, vec![7, 8, 9]);
    assert_eq!(decoded.bss_address, 0x8030_0000);
    assert_eq!(decoded.bss_size, 0x1000);
    assert_eq!(decoded.entry_point, 0x8000_3004);
}

#[test]
fn round_trip_of_empty_image() {
    let image = DolFile::default();
    let bytes = image.to_bytes().unwrap();
    let decoded = DolFile::parse(&bytes).unwrap();
    assert_eq!(decoded.text_sections.len(), 0);
    assert_eq!(decoded.data_sections.len(), 0);
    assert_eq!(decoded.bss_address, 0);
    assert_eq!(decoded.bss_size, 0);
    assert_eq!(decoded.entry_point, 0);
}

#[test]
fn zero_size_truncates_table() {
    let mut raw = vec![0u8; 512];
    // code slots 0 and 1 hold data, slot 2 has size zero, slot 3 looks real
    put(&mut raw, 0x00, 256);
    put(&mut raw, 0x04, 260);
    put(&mut raw, 0x0c, 264);
    put(&mut raw, 0x48, 0x8000_0000);
    put(&mut raw, 0x4c, 0x8000_1000);
    put(&mut raw, 0x54, 0x8000_2000);
    put(&mut raw, 0x90, 4);
    put(&mut raw, 0x94, 4);
    put(&mut raw, 0x98, 0);
    put(&mut raw, 0x9c, 4);
    let decoded = DolFile::parse(&raw).unwrap();
    assert_eq!(decoded.text_sections.len(), 2);
    assert_eq!(decoded.text_sections[0].address, 0x8000_0000);
    assert_eq!(decoded.text_sections[1].address, 0x8000_1000);
}

#[test]
fn parse_rejects_short_buffer() {
    let raw = vec![0u8; 10];
    let err = DolFile::parse(&raw).unwrap_err();
    assert_eq!(err, DolError::Truncated { needed: 256, available: 10 });
}

#[test]
fn parse_rejects_out_of_range_section() {
    let mut raw = vec![0u8; 256];
    // code slot 0: 100 bytes at offset 300, past the end of the buffer
    put(&mut raw, 0x00, 300);
    put(&mut raw, 0x90, 100);
    let err = DolFile::parse(&raw).unwrap_err();
    assert_eq!(err, DolError::Truncated { needed: 400, available: 256 });
}

#[test]
fn encode_rejects_too_many_text_sections() {
    let mut image = DolFile::default();
    for k in 0..8 {
        image.text_sections.push(Section { address: 0x8000_0000 + 16 * k, data: vec![0; 4] });
    }
    let err = image.to_bytes().unwrap_err();
    assert_eq!(err, DolError::CapacityOverflow { count: 8, capacity: 7 });
}

#[test]
fn encode_rejects_too_many_data_sections() {
    let mut image = DolFile::default();
    for k in 0..12 {
        image.data_sections.push(Section { address: 0x8100_0000 + 16 * k, data: vec![0; 4] });
    }
    let err = image.to_bytes().unwrap_err();
    assert_eq!(err, DolError::CapacityOverflow { count: 12, capacity: 11 });
}

#[test]
fn sections_pack_after_header_without_padding() {
    let image = DolFile {
        text_sections: vec![Section { address: 0x8000_0000, data: vec![0x11, 0x22, 0x33] }],
        data_sections: vec![Section { address: 0x8100_0000, data: vec![0x44, 0x55] }],
        bss_address: 0,
        bss_size: 0,
        entry_point: 0,
    };
    let bytes = image.to_bytes().unwrap();
    assert_eq!(bytes.len(), 256 + 5);
    assert_eq!(get(&bytes, 0x00), 256);
    assert_eq!(get(&bytes, 0x1c), 259);
    assert_eq!(&bytes[256..259], &[0x11, 0x22, 0x33]);
    assert_eq!(&bytes[259..261], &[0x44, 0x55]);
    assert_eq!(HEADER_SIZE, 256);
}
