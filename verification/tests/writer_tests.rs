use rawzip::{
    CompressionMethod, ZipArchive, ZipArchiveWriter, ZipArchiveWriterBuilder, ZipDataWriter,
};

/// Writes one Store entry through the full builder, data-writer and
/// finish pipeline.
fn write_file(archive: &mut ZipArchiveWriter, name: &str, body: &[u8]) {
    let entry = ZipArchiveWriter::new_file(name)
        .create(archive)
        .unwrap();
    let mut writer = ZipDataWriter::new(entry);
    writer.write(archive, body);
    let (entry, desc) = writer.finish();
    entry.finish(archive, desc).unwrap();
}

#[test]
fn test_name_lifetime_independence() {
    let mut archive = ZipArchiveWriter::new();

    // Test file builder with temporary name
    {
        let entry = {
            let temp_name = format!("temp-{}.txt", 42);
            ZipArchiveWriter::new_file(&temp_name)
                .create(&mut archive)
                .unwrap()
        };
        let mut writer = ZipDataWriter::new(entry);
        writer.write(&mut archive, b"test");
        let (entry, desc) = writer.finish();
        entry.finish(&mut archive, desc).unwrap();
    }

    archive.finish();
}

#[test]
fn test_builder_with_offset_and_capacity() {
    let mut output: Vec<u8> = Vec::new();

    output.extend_from_slice(b"PREFIX DATA");
    let offset = output.len() as u64;

    let mut archive = ZipArchiveWriterBuilder::new()
        .with_capacity(5)
        .with_offset(offset)
        .build();

    write_file(&mut archive, "test.txt", b"Hello World");

    output.extend_from_slice(&archive.finish());

    // The resulting file contains both prefix data and the ZIP archive.
    assert!(output.starts_with(b"PREFIX DATA"));
    let read = ZipArchive::from_slice(&output).unwrap();
    assert_eq!(read.entries_hint(), 1);
    // With a declared offset the recorded positions are absolute, so no
    // base shift is needed on reading.
    assert_eq!(read.base_offset(), 0);
    let mut entries = read.entries();
    let entry = entries.next_entry().unwrap().unwrap();
    assert!(entry.local_header_offset() >= offset);
    let resolved = read.get_entry(entry.wayfinder()).unwrap();
    assert_eq!(resolved.data(), b"Hello World");
}

#[test]
fn round_trip_single_store_entry() {
    // Write one entry `file.txt` with body `Hello, world!` via Store; read
    // back; expect entry count 1, the same name and bytes, and the CRC-32
    // of the body.
    let mut archive = ZipArchiveWriter::new();
    write_file(&mut archive, "file.txt", b"Hello, world!");
    let bytes = archive.finish();

    let read = ZipArchive::from_slice(&bytes).unwrap();
    assert_eq!(read.entries_hint(), 1);
    let mut entries = read.entries();
    let entry = entries.next_entry().unwrap().unwrap();
    assert_eq!(entry.file_path().as_bytes(), b"file.txt");
    assert_eq!(entry.compression_method(), CompressionMethod::Store);
    assert_eq!(entry.crc32(), 0xEBE6C6E6);
    assert_eq!(entry.uncompressed_size_hint(), 13);

    let resolved = read.get_entry(entry.wayfinder()).unwrap();
    assert_eq!(resolved.data(), b"Hello, world!");
    resolved.verify(resolved.data()).unwrap();
    assert!(entries.next_entry().unwrap().is_none());
}

#[test]
fn round_trip_preserves_order_names_and_bytes() {
    // Entries written in order come back with the same names and bytes in
    // the same order, each with the CRC-32 of its bytes.
    let inputs: Vec<(String, Vec<u8>)> = (0..20)
        .map(|i| {
            (
                format!("dir/file_{:02}.bin", i),
                vec![(i * 7) as u8; 10 + (i as usize) * 3],
            )
        })
        .collect();

    let mut archive = ZipArchiveWriter::new();
    for (name, body) in &inputs {
        write_file(&mut archive, name, body);
    }
    let bytes = archive.finish();

    let read = ZipArchive::from_slice(&bytes).unwrap();
    assert_eq!(read.entries_hint(), inputs.len() as u64);
    let mut entries = read.entries();
    for (name, body) in &inputs {
        let entry = entries.next_entry().unwrap().unwrap();
        assert_eq!(entry.file_path().as_bytes(), name.as_bytes());
        assert_eq!(entry.crc32(), rawzip::crc32(body));
        let resolved = read.get_entry(entry.wayfinder()).unwrap();
        assert_eq!(resolved.data(), body.as_slice());
        resolved.verify(resolved.data()).unwrap();
    }
    assert!(entries.next_entry().unwrap().is_none());
}

#[test]
fn prelude_offsets_recorded() {
    // Write 1000 zero bytes, then an archive with two entries: reading
    // yields exactly the two entries and the first entry's local header
    // offset is at or past the prelude.
    let mut output = vec![0u8; 1000];
    let mut archive = ZipArchiveWriterBuilder::new()
        .with_offset(output.len() as u64)
        .build();
    write_file(&mut archive, "a.txt", b"alpha");
    write_file(&mut archive, "b.txt", b"beta");
    output.extend_from_slice(&archive.finish());

    let read = ZipArchive::from_slice(&output).unwrap();
    assert_eq!(read.entries_hint(), 2);
    let mut entries = read.entries();
    let a = entries.next_entry().unwrap().unwrap();
    let b = entries.next_entry().unwrap().unwrap();
    assert!(entries.next_entry().unwrap().is_none());
    assert_eq!(a.file_path().as_bytes(), b"a.txt");
    assert_eq!(b.file_path().as_bytes(), b"b.txt");
    assert!(a.local_header_offset() >= 1000);
    let resolved = read.get_entry(a.wayfinder()).unwrap();
    assert_eq!(resolved.data(), b"alpha");
    let resolved = read.get_entry(b.wayfinder()).unwrap();
    assert_eq!(resolved.data(), b"beta");
}

#[test]
fn undeclared_prelude_is_recovered() {
    // The same two-entry archive written with no declared offset, then
    // glued after 1000 zero bytes: the base offset is recovered from the
    // difference between expected and observed record positions.
    let mut archive = ZipArchiveWriter::new();
    write_file(&mut archive, "a.txt", b"alpha");
    write_file(&mut archive, "b.txt", b"beta");
    let zip = archive.finish();

    let mut output = vec![0u8; 1000];
    output.extend_from_slice(&zip);

    let read = ZipArchive::from_slice(&output).unwrap();
    assert_eq!(read.base_offset(), 1000);
    assert_eq!(read.entries_hint(), 2);
    let mut entries = read.entries();
    let a = entries.next_entry().unwrap().unwrap();
    let resolved = read.get_entry(a.wayfinder()).unwrap();
    assert_eq!(resolved.data(), b"alpha");
}

#[test]
fn zip64_trigger_many_entries() {
    // 70,000 one-byte entries: the archive carries a ZIP64
    // end-of-central-directory record and locator, the plain record's
    // entry count field holds the 0xFFFF sentinel, and reading reports
    // exactly 70,000 entries.
    let n: usize = 70_000;
    let mut archive = ZipArchiveWriter::new();
    for i in 0..n {
        let name = format!("f{:05}", i);
        write_file(&mut archive, &name, b"x");
    }
    let bytes = archive.finish();

    // The ZIP64 record and locator signatures are present.
    let has_sig = |sig: u32| {
        bytes
            .windows(4)
            .any(|w| w == sig.to_le_bytes())
    };
    assert!(has_sig(0x06064b50), "expected a ZIP64 end-of-central-directory record");
    assert!(has_sig(0x07064b50), "expected a ZIP64 end-of-central-directory locator");

    // The plain end-of-central-directory record is the last 22 bytes; its
    // entry count fields carry the sentinel.
    let eocd = &bytes[bytes.len() - 22..];
    assert_eq!(&eocd[0..4], &0x06054b50u32.to_le_bytes());
    assert_eq!(&eocd[8..10], &0xFFFFu16.to_le_bytes());
    assert_eq!(&eocd[10..12], &0xFFFFu16.to_le_bytes());

    let read = ZipArchive::from_slice(&bytes).unwrap();
    assert_eq!(read.entries_hint(), n as u64);
    let mut entries = read.entries();
    let mut count: u64 = 0;
    while let Some(_e) = entries.next_entry().unwrap() {
        count += 1;
    }
    assert_eq!(count, n as u64);
}

#[test]
fn zip64_tagged_entry_uses_version_45_and_wide_descriptor() {
    // An entry whose local header offset is already past 2^32 (a declared
    // huge prelude) is ZIP64-certain at creation: its local header carries
    // version-needed 4.5 and its data descriptor 64-bit sizes, and the
    // central header carries the offset sentinel with a ZIP64 extra.
    let mut archive = ZipArchiveWriterBuilder::new()
        .with_offset(0x1_0000_0000)
        .build();
    write_file(&mut archive, "big-offset.bin", b"abc");
    let bytes = archive.finish();

    // Local file header: signature, then version-needed 45.
    assert_eq!(&bytes[0..4], &0x04034b50u32.to_le_bytes());
    assert_eq!(u16::from_le_bytes([bytes[4], bytes[5]]), 45);

    // Data descriptor after header, name and the 3 data bytes: 64-bit
    // sizes even though both sizes are tiny.
    let dd = 30 + "big-offset.bin".len() + 3;
    assert_eq!(&bytes[dd..dd + 4], &0x08074b50u32.to_le_bytes());
    let csize = u64::from_le_bytes(bytes[dd + 8..dd + 16].try_into().unwrap());
    let usize_ = u64::from_le_bytes(bytes[dd + 16..dd + 24].try_into().unwrap());
    assert_eq!(csize, 3);
    assert_eq!(usize_, 3);

    // Central header: offset sentinel, and a ZIP64 extra holding the true
    // 64-bit offset.
    let cd = dd + 24;
    assert_eq!(&bytes[cd..cd + 4], &0x02014b50u32.to_le_bytes());
    let lho32 = u32::from_le_bytes(bytes[cd + 42..cd + 46].try_into().unwrap());
    assert_eq!(lho32, 0xFFFFFFFF);
    let extras_at = cd + 46 + "big-offset.bin".len();
    assert_eq!(&bytes[extras_at..extras_at + 2], &0x0001u16.to_le_bytes());
    assert_eq!(&bytes[extras_at + 2..extras_at + 4], &8u16.to_le_bytes());
    let true_lho = u64::from_le_bytes(bytes[extras_at + 4..extras_at + 12].try_into().unwrap());
    assert_eq!(true_lho, 0x1_0000_0000);
}

#[test]
fn directory_entries_round_trip() {
    let mut archive = ZipArchiveWriter::new();
    ZipArchiveWriter::new_dir("my-dir/")
        .unix_permissions(0o755)
        .create(&mut archive)
        .unwrap();
    write_file(&mut archive, "my-dir/inner.txt", b"inner");
    let bytes = archive.finish();

    let read = ZipArchive::from_slice(&bytes).unwrap();
    let mut entries = read.entries();
    let dir = entries.next_entry().unwrap().unwrap();
    assert!(dir.is_dir());
    assert_eq!(dir.file_path().as_bytes(), b"my-dir/");
    assert_eq!(dir.uncompressed_size_hint(), 0);
    // Unix permissions ride in the external attributes' high bits.
    assert_eq!(dir.external_attrs >> 16, 0o755);
    assert_eq!(dir.version_made_by >> 8, 3);
    let file = entries.next_entry().unwrap().unwrap();
    assert!(!file.is_dir());
}

#[test]
fn new_dir_rejects_non_directory_name() {
    let mut archive = ZipArchiveWriter::new();
    let r = ZipArchiveWriter::new_dir("not-a-dir").create(&mut archive);
    assert!(r.is_err());
}

#[test]
fn compression_method_id_is_recorded_verbatim() {
    // The writer records the method id; it never compresses. The bytes
    // handed to the entry writer land in the archive verbatim.
    let mut archive = ZipArchiveWriter::new();
    let entry = ZipArchiveWriter::new_file("data.bin")
        .compression_method(CompressionMethod::Deflate)
        .create(&mut archive)
        .unwrap();
    let mut writer = ZipDataWriter::new(entry);
    writer.write(&mut archive, b"pretend-deflated");
    let (entry, desc) = writer.finish();
    entry.finish(&mut archive, desc).unwrap();
    let bytes = archive.finish();

    let read = ZipArchive::from_slice(&bytes).unwrap();
    let mut entries = read.entries();
    let e = entries.next_entry().unwrap().unwrap();
    assert_eq!(e.compression_method(), CompressionMethod::Deflate);
    let resolved = read.get_entry(e.wayfinder()).unwrap();
    assert_eq!(resolved.data(), b"pretend-deflated");
}

#[test]
fn crc_verifier_reports_mismatches() {
    let mut archive = ZipArchiveWriter::new();
    write_file(&mut archive, "f", b"payload");
    let bytes = archive.finish();
    let read = ZipArchive::from_slice(&bytes).unwrap();
    let mut entries = read.entries();
    let e = entries.next_entry().unwrap().unwrap();
    let resolved = read.get_entry(e.wayfinder()).unwrap();
    // Wrong bytes of the right length: checksum mismatch.
    let r = resolved.verify(b"paiload");
    assert!(matches!(
        r.unwrap_err().kind(),
        rawzip::ErrorKind::InvalidChecksum { .. }
    ));
    // Truncated bytes: reported as a mismatch as well.
    let r = resolved.verify(b"payloa");
    assert!(r.is_err());
}
