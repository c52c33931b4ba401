use ico_builder::{assemble, read_directory, read_payload, DirEntry, Error, IcoFrame};

fn frame(size: u32, payload: &[u8]) -> IcoFrame {
    IcoFrame::with_encoded(payload.to_vec(), size).unwrap()
}

#[test]
fn a_container_is_header_directory_and_payloads() {
    let frames = vec![frame(16, &[1, 2, 3]), frame(256, &[9, 9])];
    let bytes = assemble(&frames).unwrap();
    let expected: Vec<u8> = vec![
        0, 0, 1, 0, 2, 0, // header
        16, 16, 0, 0, 0, 0, 0, 0, 3, 0, 0, 0, 38, 0, 0, 0, // first entry
        0, 0, 0, 0, 0, 0, 0, 0, 2, 0, 0, 0, 41, 0, 0, 0, // second entry
        1, 2, 3, // first payload
        9, 9, // second payload
    ];
    assert_eq!(bytes, expected);
}

#[test]
fn a_container_without_frames_is_a_header() {
    let bytes = assemble(&[]).unwrap();
    assert_eq!(bytes, vec![0, 0, 1, 0, 0, 0]);
    assert_eq!(read_directory(&bytes), Some(Vec::new()));
}

#[test]
fn numbers_are_written_low_byte_first() {
    let payload = vec![7u8; 0x01_02_03];
    let frames = vec![frame(1, &payload), frame(255, &[5])];
    let bytes = assemble(&frames).unwrap();
    assert_eq!(bytes.len(), 6 + 32 + 0x01_02_03 + 1);
    assert_eq!(&bytes[6..22], &[1, 1, 0, 0, 0, 0, 0, 0, 0x03, 0x02, 0x01, 0, 38, 0, 0, 0][..]);
    // 38 + 0x010203 = 0x010229
    assert_eq!(&bytes[22..38], &[255, 255, 0, 0, 0, 0, 0, 0, 1, 0, 0, 0, 0x29, 0x02, 0x01, 0][..]);
    assert_eq!(bytes[bytes.len() - 1], 5);
}

#[test]
fn the_frame_count_is_written_in_two_bytes() {
    let frames: Vec<IcoFrame> = (0..300).map(|_| frame(8, &[])).collect();
    let bytes = assemble(&frames).unwrap();
    assert_eq!(&bytes[..6], &[0, 0, 1, 0, 0x2c, 0x01][..]);
    assert_eq!(bytes.len(), 6 + 16 * 300);
    let entries = read_directory(&bytes).unwrap();
    assert_eq!(entries.len(), 300);
    assert!(entries.iter().all(|entry| entry.offset == 6 + 16 * 300 && entry.length == 0));
}

#[test]
fn reading_a_container_back_recovers_the_directory() {
    let frames = vec![frame(48, &[1, 2, 3, 4]), frame(256, &[]), frame(16, &[8, 9])];
    let bytes = assemble(&frames).unwrap();
    let entries = read_directory(&bytes).unwrap();
    assert_eq!(
        entries,
        vec![
            DirEntry { width: 48, height: 48, planes: 0, bits_per_pixel: 0, length: 4, offset: 54 },
            DirEntry {
                width: 256,
                height: 256,
                planes: 0,
                bits_per_pixel: 0,
                length: 0,
                offset: 58
            },
            DirEntry { width: 16, height: 16, planes: 0, bits_per_pixel: 0, length: 2, offset: 58 },
        ]
    );
    for (entry, frame) in entries.iter().zip(frames.iter()) {
        assert_eq!(entry.width, frame.size());
        assert_eq!(entry.length as usize, frame.encoded().len());
        assert_eq!(read_payload(&bytes, entry), Some(frame.encoded()));
    }
}

#[test]
fn offsets_follow_the_payloads() {
    let frames = vec![frame(16, &[1; 10]), frame(24, &[2; 20]), frame(32, &[3; 30])];
    let bytes = assemble(&frames).unwrap();
    let entries = read_directory(&bytes).unwrap();
    let mut expected = 6 + 16 * 3;
    for entry in &entries {
        assert_eq!(entry.offset, expected);
        expected += entry.length;
    }
    assert_eq!(expected as usize, bytes.len());
}

#[test]
fn bytes_that_are_no_container_have_no_directory() {
    assert_eq!(read_directory(&[]), None);
    assert_eq!(read_directory(&[0, 0, 1, 0, 0]), None);
    // reserved field is not 0
    assert_eq!(read_directory(&[1, 0, 1, 0, 0, 0]), None);
    // a container of cursors
    assert_eq!(read_directory(&[0, 0, 2, 0, 0, 0]), None);
    // one entry stated, none there
    assert_eq!(read_directory(&[0, 0, 1, 0, 1, 0]), None);
    let mut short = vec![0, 0, 1, 0, 1, 0];
    short.extend_from_slice(&[0; 15]);
    assert_eq!(read_directory(&short), None);
    short.push(0);
    assert_eq!(
        read_directory(&short),
        Some(vec![DirEntry {
            width: 256,
            height: 256,
            planes: 0,
            bits_per_pixel: 0,
            length: 0,
            offset: 0
        }])
    );
}

#[test]
fn an_entry_is_read_field_by_field() {
    let mut bytes = vec![0, 0, 1, 0, 1, 0];
    bytes.extend_from_slice(&[32, 0, 0, 0, 1, 0, 32, 0, 0x78, 0x56, 0x34, 0x12, 22, 0, 0, 0]);
    assert_eq!(
        read_directory(&bytes),
        Some(vec![DirEntry {
            width: 32,
            height: 256,
            planes: 1,
            bits_per_pixel: 32,
            length: 0x12345678,
            offset: 22
        }])
    );
}

#[test]
fn a_payload_outside_the_bytes_is_not_read() {
    let bytes = [10u8, 11, 12, 13, 14];
    let entry = |offset: u32, length: u32| DirEntry {
        width: 1,
        height: 1,
        planes: 0,
        bits_per_pixel: 0,
        length,
        offset,
    };
    assert_eq!(read_payload(&bytes, &entry(1, 3)), Some(&[11u8, 12, 13][..]));
    assert_eq!(read_payload(&bytes, &entry(0, 5)), Some(&bytes[..]));
    assert_eq!(read_payload(&bytes, &entry(5, 0)), Some(&[][..]));
    assert_eq!(read_payload(&bytes, &entry(3, 3)), None);
    assert_eq!(read_payload(&bytes, &entry(6, 0)), None);
    assert_eq!(read_payload(&bytes, &entry(u32::MAX, u32::MAX)), None);
}

#[test]
fn the_header_states_at_most_65535_frames() {
    let mut frames: Vec<IcoFrame> = (0..65535).map(|_| frame(1, &[])).collect();
    let bytes = assemble(&frames).unwrap();
    assert_eq!(&bytes[..6], &[0, 0, 1, 0, 0xff, 0xff][..]);
    assert_eq!(bytes.len(), 6 + 16 * 65535);
    frames.push(frame(1, &[]));
    assert!(matches!(assemble(&frames), Err(Error::ContainerTooLarge)));
}
