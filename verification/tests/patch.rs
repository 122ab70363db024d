use dol::{DolError, DolFile, Instruction, Section};

fn one_section_image() -> DolFile {
    DolFile {
        text_sections: Vec::new(),
        data_sections: vec![Section { address: 0x8000_4000, data: vec![0u8; 0x100] }],
        bss_address: 0,
        bss_size: 0,
        entry_point: 0,
    }
}

#[test]
fn patch_writes_at_resolved_offset() {
    let mut image = one_section_image();
    let edits = [Instruction { address: 0x8000_4010, data: 0xDEAD_BEEF }];
    image.patch(&edits).unwrap();
    let data = &image.data_sections[0].data;
    assert_eq!(&data[0x10..0x14], &[0xDE, 0xAD, 0xBE, 0xEF]);
    for (k, &b) in data.iter().enumerate() {
        if !(0x10..0x14).contains(&k) {
            assert_eq!(b, 0, "byte {k} changed");
        }
    }
}

#[test]
fn patch_searches_code_sections_first() {
    let mut image = DolFile {
        text_sections: vec![Section { address: 0x8000_0000, data: vec![0u8; 8] }],
        data_sections: vec![Section { address: 0x8000_0000, data: vec![0u8; 8] }],
        bss_address: 0,
        bss_size: 0,
        entry_point: 0,
    };
    image.patch(&[Instruction { address: 0x8000_0000, data: 0x0102_0304 }]).unwrap();
    assert_eq!(&image.text_sections[0].data[..4], &[1, 2, 3, 4]);
    assert_eq!(&image.data_sections[0].data[..4], &[0, 0, 0, 0]);
}

#[test]
fn patch_batch_aborts_at_first_failure() {
    let mut image = one_section_image();
    let edits = [
        Instruction { address: 0x8000_4000, data: 0x1111_1111 },
        Instruction { address: 0x9000_0000, data: 0x2222_2222 },
        Instruction { address: 0x8000_4020, data: 0x3333_3333 },
    ];
    let err = image.patch(&edits).unwrap_err();
    assert_eq!(err, DolError::UnresolvedAddress { address: 0x9000_0000 });
    let data = &image.data_sections[0].data;
    // the first edit was applied and stays
    assert_eq!(&data[0..4], &[0x11, 0x11, 0x11, 0x11]);
    // the third edit was never applied
    assert_eq!(&data[0x20..0x24], &[0, 0, 0, 0]);
}

#[test]
fn patch_rejects_unresolvable_address() {
    let mut image = one_section_image();
    let err = image.patch(&[Instruction { address: 0x8000_3FFC, data: 1 }]).unwrap_err();
    assert_eq!(err, DolError::UnresolvedAddress { address: 0x8000_3FFC });
    let err = image.patch(&[Instruction { address: 0x8000_4100, data: 1 }]).unwrap_err();
    assert_eq!(err, DolError::UnresolvedAddress { address: 0x8000_4100 });
}

#[test]
fn patch_rejects_span_past_section_end() {
    let mut image = one_section_image();
    let err = image.patch(&[Instruction { address: 0x8000_40FE, data: 1 }]).unwrap_err();
    assert_eq!(
        err,
        DolError::SpanOverrun {
            address: 0x8000_40FE,
            section_address: 0x8000_4000,
            section_size: 0x100,
        }
    );
    // nothing was written
    assert!(image.data_sections[0].data.iter().all(|&b| b == 0));
}

#[test]
fn patch_of_empty_batch_succeeds() {
    let mut image = one_section_image();
    image.patch(&[]).unwrap();
    assert!(image.data_sections[0].data.iter().all(|&b| b == 0));
}

#[test]
fn patch_last_word_of_section_fits() {
    let mut image = one_section_image();
    image.patch(&[Instruction { address: 0x8000_40FC, data: 0xAABB_CCDD }]).unwrap();
    assert_eq!(&image.data_sections[0].data[0xFC..0x100], &[0xAA, 0xBB, 0xCC, 0xDD]);
}
