use rawzip::extra_fields::{ExtraFieldId, ExtraFields, StackVec};
use rawzip::{Header, ZipArchive, ZipArchiveWriter, ZipDataWriter};

#[test]
fn test_partial_parsing_with_remaining_bytes() {
    let data = [0x55, 0x54, 0x01, 0x00, 0xFF, 0x01, 0x00, 0x05];
    let mut iter = ExtraFields::new(&data);
    assert_eq!(iter.remaining_bytes(), &data);

    let (id, body) = iter.next().unwrap();
    assert_eq!(id, ExtraFieldId::extended_timestamp());
    assert_eq!(body, &[0xFF]);

    assert_eq!(iter.next(), None);
    assert_eq!(iter.remaining_bytes(), &[0x01, 0x00, 0x05]);
}

#[test]
fn test_unknown_field_id() {
    let data = [0xFF, 0xFF, 0x02, 0x00, 0xDE, 0xAD];
    let mut iter = ExtraFields::new(&data);

    let (id, body) = iter.next().unwrap();
    assert_eq!(id, ExtraFieldId(0xFFFF));
    assert_eq!(body, &[0xDE, 0xAD]);

    assert_eq!(iter.next(), None);
}

#[test]
fn test_stack_vec_u8_inline_operations() {
    let mut buf = StackVec::<u8, 4>::new(0);
    assert_eq!(buf.as_slice(), &[] as &[u8]);

    buf.push(1);
    assert_eq!(buf.as_slice(), &[1]);

    buf.extend_from_slice(&[2, 3]);
    assert_eq!(buf.as_slice(), &[1, 2, 3]);
}

#[test]
fn test_stack_vec_u8_promote_to_heap() {
    let mut buf = StackVec::<u8, 2>::new(0);

    // Fill inline capacity
    buf.extend_from_slice(&[1, 2]);
    assert_eq!(buf.as_slice(), &[1, 2]);

    // Force promotion to heap
    buf.extend_from_slice(&[3, 4, 5]);
    assert_eq!(buf.as_slice(), &[1, 2, 3, 4, 5]);

    buf.push(6);
    assert_eq!(buf.as_slice(), &[1, 2, 3, 4, 5, 6]);
}

#[test]
fn test_stack_vec_size_constraints() {
    // Test that StackVec for bytes is same size as Vec
    assert!(
        std::mem::size_of::<StackVec<u8, 15>>() <= 24,
        "StackVec should not exceed Vec size on 64 bits"
    );
}

#[test]
fn test_stack_vec_clone() {
    let mut buf = StackVec::<u8, 2>::new(0);
    buf.extend_from_slice(&[1, 2, 3]); // Force heap promotion

    let cloned = buf.clone();
    assert_eq!(buf.as_slice(), cloned.as_slice());
}

fn find_field<'a>(mut fields: ExtraFields<'a>, id: ExtraFieldId) -> Option<&'a [u8]> {
    while let Some((field_id, body)) = fields.next() {
        if field_id == id {
            return Some(body);
        }
    }
    None
}

#[test]
fn test_extra_fields_comprehensive() {
    let mut archive = ZipArchiveWriter::new();

    let my_custom_field = ExtraFieldId::new(0x6666);

    // File with extra fields only in the local file header
    let local_file = ZipArchiveWriter::new_file("video.mp4")
        .extra_field(my_custom_field, b"field1", Header::local())
        .unwrap()
        .create(&mut archive)
        .unwrap();
    let mut writer = ZipDataWriter::new(local_file);
    writer.write(&mut archive, b"video data");
    let (local_file, desc) = writer.finish();
    local_file.finish(&mut archive, desc).unwrap();

    // File with extra fields only in the central directory
    let central_file = ZipArchiveWriter::new_file("document.pdf")
        .extra_field(my_custom_field, b"field2", Header::central())
        .unwrap()
        .create(&mut archive)
        .unwrap();
    let mut writer = ZipDataWriter::new(central_file);
    writer.write(&mut archive, b"PDF content");
    let (central_file, desc) = writer.finish();
    central_file.finish(&mut archive, desc).unwrap();

    // File with extra fields in both headers for maximum compatibility
    assert_eq!(Header::default(), Header::local().or(Header::central()));
    let both_file = ZipArchiveWriter::new_file("important.dat")
        .extra_field(my_custom_field, b"field3", Header::default())
        .unwrap()
        .create(&mut archive)
        .unwrap();
    let mut writer = ZipDataWriter::new(both_file);
    writer.write(&mut archive, b"important data");
    let (both_file, desc) = writer.finish();
    both_file.finish(&mut archive, desc).unwrap();

    let zip_data = archive.finish();

    // Read it back and verify both central directory and local headers
    let archive = ZipArchive::from_slice(&zip_data).unwrap();
    let mut entries = archive.entries();
    while let Some(entry) = entries.next_entry().unwrap() {
        let central_field_data = find_field(entry.extra_fields(), my_custom_field);

        // Get wayfinder to access local header
        let wayfinder = entry.wayfinder();
        let zip_entry = archive.get_entry(wayfinder).unwrap();
        let local_field_data = find_field(zip_entry.extra_fields(), my_custom_field);

        match entry.file_path().as_bytes() {
            b"video.mp4" => {
                // LOCAL: not in central directory, but in local header
                assert_eq!(
                    central_field_data, None,
                    "LOCAL field should not be in central directory"
                );
                assert_eq!(
                    local_field_data,
                    Some(b"field1".as_slice()),
                    "LOCAL field should be in local header"
                );
            }
            b"document.pdf" => {
                // CENTRAL: in central directory, but not in local header
                assert_eq!(
                    central_field_data,
                    Some(b"field2".as_slice()),
                    "CENTRAL field should be in central directory"
                );
                assert_eq!(
                    local_field_data, None,
                    "CENTRAL field should not be in local header"
                );
            }
            b"important.dat" => {
                // DEFAULT: in both central directory and local header
                assert_eq!(
                    central_field_data,
                    Some(b"field3".as_slice()),
                    "DEFAULT field should be in central directory"
                );
                assert_eq!(
                    local_field_data,
                    Some(b"field3".as_slice()),
                    "DEFAULT field should be in local header"
                );
            }
            _ => {}
        }
    }
}

#[test]
fn test_extra_field_size_limit() {
    // Test individual field size limit
    let large_data = vec![0u8; 65536]; // Exactly 1 byte too large
    let result = ZipArchiveWriter::new_file("test1.txt").extra_field(
        ExtraFieldId::new(0x1111),
        &large_data,
        Header::default(),
    );
    assert!(
        result.is_err(),
        "Should fail with oversized individual field"
    );

    // Test total accumulated size limit
    // Each extra field has 4 bytes overhead (2 bytes ID + 2 bytes length)
    // So we need multiple fields that total > 65535 bytes including overhead
    let field_data = vec![0u8; 16380]; // 16380 + 4 = 16384 bytes per field

    let builder = ZipArchiveWriter::new_file("test2.txt")
        .extra_field(ExtraFieldId::new(0x2222), &field_data, Header::default())
        .unwrap()
        .extra_field(ExtraFieldId::new(0x3333), &field_data, Header::default())
        .unwrap()
        .extra_field(ExtraFieldId::new(0x4444), &field_data, Header::default())
        .unwrap()
        .extra_field(ExtraFieldId::new(0x5555), &field_data, Header::default());

    // The fourth field should cause us to exceed 65535 bytes total
    // 4 * (16380 + 4) = 4 * 16384 = 65536 bytes (1 byte over limit)
    assert!(
        builder.is_err(),
        "Should fail when total extra field size exceeds limit"
    );
}

#[test]
fn test_extra_field_deduplication_behavior() {
    // Test that duplicate field IDs are not deduplicated (append-only behavior)
    let mut archive = ZipArchiveWriter::new();

    let custom_field = ExtraFieldId::new(0x7777);

    let file = ZipArchiveWriter::new_file("duplicate.txt")
        .extra_field(custom_field, b"first", Header::default())
        .unwrap()
        .extra_field(custom_field, b"second", Header::default())
        .unwrap()
        .extra_field(custom_field, b"third", Header::default())
        .unwrap()
        .create(&mut archive)
        .unwrap();

    let mut writer = ZipDataWriter::new(file);
    writer.write(&mut archive, b"test content");
    let (file, desc) = writer.finish();
    file.finish(&mut archive, desc).unwrap();

    let zip_data = archive.finish();

    // Verify all three instances are present in central directory
    let archive = ZipArchive::from_slice(&zip_data).unwrap();
    let mut entries = archive.entries();
    let entry = entries.next_entry().unwrap().unwrap();

    // Count instances in central directory
    let mut central_instances: Vec<&[u8]> = Vec::new();
    let mut fields = entry.extra_fields();
    while let Some((id, body)) = fields.next() {
        if id == custom_field {
            central_instances.push(body);
        }
    }

    assert_eq!(
        central_instances.len(),
        3,
        "Should have 3 instances in central directory"
    );

    // Verify the order is preserved
    assert_eq!(central_instances[0], b"first");
    assert_eq!(central_instances[1], b"second");
    assert_eq!(central_instances[2], b"third");
}

#[test]
fn extras_routing_same_id_three_bodies() {
    // Three TLVs with one id and bodies "first", "second", "third", routed
    // to the default (both) location: the central directory lists all three
    // in that order, and so does the local header.
    let mut archive = ZipArchiveWriter::new();
    let id = ExtraFieldId::new(0x4242);
    let file = ZipArchiveWriter::new_file("routing.bin")
        .extra_field(id, b"first", Header::default())
        .unwrap()
        .extra_field(id, b"second", Header::default())
        .unwrap()
        .extra_field(id, b"third", Header::default())
        .unwrap()
        .create(&mut archive)
        .unwrap();
    let mut writer = ZipDataWriter::new(file);
    writer.write(&mut archive, b"x");
    let (file, desc) = writer.finish();
    file.finish(&mut archive, desc).unwrap();
    let bytes = archive.finish();

    let archive = ZipArchive::from_slice(&bytes).unwrap();
    let mut entries = archive.entries();
    let entry = entries.next_entry().unwrap().unwrap();

    let mut central: Vec<Vec<u8>> = Vec::new();
    let mut it = entry.extra_fields();
    while let Some((fid, body)) = it.next() {
        if fid == id {
            central.push(body.to_vec());
        }
    }
    assert_eq!(central, vec![b"first".to_vec(), b"second".to_vec(), b"third".to_vec()]);

    let resolved = archive.get_entry(entry.wayfinder()).unwrap();
    let mut local: Vec<Vec<u8>> = Vec::new();
    let mut it = resolved.extra_fields();
    while let Some((fid, body)) = it.next() {
        if fid == id {
            local.push(body.to_vec());
        }
    }
    assert_eq!(local, vec![b"first".to_vec(), b"second".to_vec(), b"third".to_vec()]);
}

#[test]
fn extra_field_with_empty_location_is_never_emitted() {
    // A location mask that selects no header stores the field but counts
    // it toward neither total, so it appears in neither header.
    let id = ExtraFieldId::new(0x0101);
    let mut archive = ZipArchiveWriter::new();
    let file = ZipArchiveWriter::new_file("quiet.bin")
        .extra_field(id, b"data", Header::new(0))
        .unwrap()
        .create(&mut archive)
        .unwrap();
    let mut writer = ZipDataWriter::new(file);
    writer.write(&mut archive, b"x");
    let (file, desc) = writer.finish();
    file.finish(&mut archive, desc).unwrap();
    let bytes = archive.finish();

    let archive = ZipArchive::from_slice(&bytes).unwrap();
    let mut entries = archive.entries();
    let entry = entries.next_entry().unwrap().unwrap();
    assert_eq!(find_field(entry.extra_fields(), id), None);
    let resolved = archive.get_entry(entry.wayfinder()).unwrap();
    assert_eq!(find_field(resolved.extra_fields(), id), None);
}
