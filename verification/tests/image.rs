use dol::{DolFile, DolHeader, Section};

#[test]
fn append_concatenates_and_keeps_bss_and_entry() {
    let mut first = DolFile {
        text_sections: vec![Section { address: 0x8000_0000, data: vec![1, 2] }],
        data_sections: vec![Section { address: 0x8100_0000, data: vec![3, 4] }],
        bss_address: 0x8200_0000,
        bss_size: 0x800,
        entry_point: 0x8000_0000,
    };
    let second = DolFile {
        text_sections: Vec::new(),
        data_sections: vec![Section { address: 0x8300_0000, data: vec![5] }],
        bss_address: 0x9999_9999,
        bss_size: 0x9999,
        entry_point: 0x9999_9998,
    };
    first.append(second);
    assert_eq!(first.text_sections.len(), 1);
    assert_eq!(first.text_sections[0].address, 0x8000_0000);
    assert_eq!(first.data_sections.len(), 2);
    assert_eq!(first.data_sections[0].address, 0x8100_0000);
    assert_eq!(first.data_sections[0].data, vec![3, 4]);
    assert_eq!(first.data_sections[1].address, 0x8300_0000);
    assert_eq!(first.data_sections[1].data, vec![5]);
    assert_eq!(first.bss_address, 0x8200_0000);
    assert_eq!(first.bss_size, 0x800);
    assert_eq!(first.entry_point, 0x8000_0000);
}

#[test]
fn default_image_is_empty() {
    let image = DolFile::default();
    assert!(image.text_sections.is_empty());
    assert!(image.data_sections.is_empty());
    assert_eq!(image.bss_address, 0);
    assert_eq!(image.bss_size, 0);
    assert_eq!(image.entry_point, 0);
}

#[test]
fn new_header_is_all_zero_and_serializes_to_zero_bytes() {
    let header = DolHeader::new();
    assert_eq!(header.text_section_offsets, vec![0u32; 7]);
    assert_eq!(header.data_section_offsets, vec![0u32; 11]);
    assert_eq!(header.text_section_addresses, vec![0u32; 7]);
    assert_eq!(header.data_section_addresses, vec![0u32; 11]);
    assert_eq!(header.text_section_sizes, vec![0u32; 7]);
    assert_eq!(header.data_section_sizes, vec![0u32; 11]);
    assert_eq!(header.bss_address, 0);
    assert_eq!(header.bss_size, 0);
    assert_eq!(header.entry_point, 0);
    let bytes = header.to_bytes();
    assert_eq!(bytes, vec![0u8; 256]);
}

#[test]
fn header_serializes_fields_in_layout_order() {
    let mut header = DolHeader::new();
    header.text_section_offsets[0] = 0x100;
    header.data_section_offsets[1] = 0x200;
    header.text_section_addresses[2] = 0x8000_0000;
    header.data_section_addresses[3] = 0x8100_0000;
    header.text_section_sizes[4] = 0x40;
    header.data_section_sizes[5] = 0x80;
    header.bss_address = 0x8200_0000;
    header.bss_size = 0x1000;
    header.entry_point = 0x8000_0004;
    let bytes = header.to_bytes();
    let get = |off: usize| u32::from_be_bytes([bytes[off], bytes[off + 1], bytes[off + 2], bytes[off + 3]]);
    assert_eq!(get(0x00), 0x100);
    assert_eq!(get(0x1c + 4), 0x200);
    assert_eq!(get(0x48 + 8), 0x8000_0000);
    assert_eq!(get(0x64 + 12), 0x8100_0000);
    assert_eq!(get(0x90 + 16), 0x40);
    assert_eq!(get(0xac + 20), 0x80);
    assert_eq!(get(0xd8), 0x8200_0000);
    assert_eq!(get(0xdc), 0x1000);
    assert_eq!(get(0xe0), 0x8000_0004);
}
