use rawzip::{ErrorKind, ZipArchive, ZipArchiveWriter, ZipDataWriter};

fn write_file(archive: &mut ZipArchiveWriter, name: &str, body: &[u8]) {
    let entry = ZipArchiveWriter::new_file(name).create(archive).unwrap();
    let mut writer = ZipDataWriter::new(entry);
    writer.write(archive, body);
    let (entry, desc) = writer.finish();
    entry.finish(archive, desc).unwrap();
}

/// A small archive with one entry, plus an archive comment appended the
/// way a comment-bearing writer would: the end-of-central-directory
/// record's comment length field is patched and the comment bytes follow.
fn archive_with_comment(comment: &[u8]) -> Vec<u8> {
    let mut archive = ZipArchiveWriter::new();
    write_file(&mut archive, "file.txt", b"contents");
    let mut bytes = archive.finish();
    let eocd = bytes.len() - 22;
    let clen = (comment.len() as u16).to_le_bytes();
    bytes[eocd + 20] = clen[0];
    bytes[eocd + 21] = clen[1];
    bytes.extend_from_slice(comment);
    bytes
}

#[test]
fn false_signature_is_rejected_and_recovered() {
    // A false end-of-central-directory signature in trailing data is
    // rejected (its comment length does not reach the end); the error
    // carries the candidate offset, and re-locating on the prefix that
    // ends at the candidate finds the real archive with its comment.
    let comment = b"This is a zipfile comment.";
    let mut zip_data = archive_with_comment(comment);
    let false_sig_at = zip_data.len();
    zip_data.extend_from_slice(&0x06054b50u32.to_le_bytes());
    zip_data.extend_from_slice(&[0u8; 8]);

    let e = ZipArchive::from_slice(&zip_data).unwrap_err();
    let offset = e.eocd_offset().unwrap();
    assert_eq!(offset, false_sig_at as u64);

    // Test that we can locate the real zip on the prefix before the
    // candidate.
    let archive = ZipArchive::from_slice(&zip_data[..offset as usize]).unwrap();
    assert_eq!(archive.comment(), &comment[..]);
    assert_eq!(archive.entries_hint(), 1);
}

#[test]
fn false_eocd_with_zero_tail_shadows_archive() {
    // A false signature followed by 18 zero bytes parses as an empty
    // archive whose comment length check passes: the locator prefers it
    // (it is the largest credible candidate). Its end-of-central-directory
    // offset then restarts the search and finds the real archive.
    let mut zip_data = archive_with_comment(b"");
    let real_entries = 1u64;
    zip_data.extend_from_slice(&0x06054b50u32.to_le_bytes());
    zip_data.extend_from_slice(&[0u8; 18]);

    let archive = ZipArchive::from_slice(&zip_data).unwrap();
    assert_eq!(archive.entries_hint(), 0);

    // Use the archive's EOCD offset to restart search and find real archive
    let offset = archive.eocd_offset();
    let recovered = ZipArchive::from_slice(&zip_data[..offset as usize]).unwrap();
    assert_eq!(recovered.entries_hint(), real_entries);
}

#[test]
fn eocd_offset_points_to_signature() {
    let mut archive = ZipArchiveWriter::new();
    write_file(&mut archive, "x.txt", b"x");
    write_file(&mut archive, "y.txt", b"y");
    let data = archive.finish();
    let archive = ZipArchive::from_slice(&data).unwrap();
    let eocd_offset = archive.eocd_offset();
    let signature = u32::from_le_bytes([
        data[eocd_offset as usize],
        data[eocd_offset as usize + 1],
        data[eocd_offset as usize + 2],
        data[eocd_offset as usize + 3],
    ]);
    assert_eq!(
        signature, 0x06054b50,
        "eocd_offset should point to EOCD signature (0x06054b50), got 0x{:08x}",
        signature
    );
}

#[test]
fn test_concatenated_zip_files() {
    // Two ZIP files, each behind its own prelude, concatenated: locating
    // on the whole file finds the second archive; re-locating on the
    // prefix that ends at the first archive's end finds the first.
    let mut data = Vec::new();

    data.extend_from_slice(b"PREFIX_FOR_FIRST_ZIP\n");
    let mut first = ZipArchiveWriter::new();
    write_file(&mut first, "first.txt", b"First ZIP content");
    data.extend_from_slice(&first.finish());
    let first_end = data.len();

    data.extend_from_slice(b"PREFIX_FOR_SECOND_ZIP\n");
    let mut second = ZipArchiveWriter::new();
    write_file(&mut second, "second.txt", b"Second ZIP content");
    data.extend_from_slice(&second.finish());

    // Reading the whole file finds the second (last) archive.
    let second_archive = ZipArchive::from_slice(&data).unwrap();
    assert_eq!(second_archive.entries_hint(), 1);
    let mut entries = second_archive.entries();
    let entry = entries.next_entry().unwrap().unwrap();
    assert_eq!(entry.file_path().as_bytes(), b"second.txt");

    // The second archive's data starts after a prelude.
    let second_zip_start = entry.local_header_offset() + second_archive.base_offset();
    assert_ne!(second_zip_start, 0);

    // Locate the first archive on the prefix that ends where the second
    // one's prelude begins.
    let first_archive = ZipArchive::from_slice(&data[..first_end]).unwrap();
    let mut entries = first_archive.entries();
    let entry = entries.next_entry().unwrap().unwrap();
    assert_eq!(entry.file_path().as_bytes(), b"first.txt");

    // Verify prefix data extraction for the first archive.
    let first_zip_start = entry.local_header_offset() + first_archive.base_offset();
    let prefix = &data[..first_zip_start as usize];
    assert_eq!(prefix, b"PREFIX_FOR_FIRST_ZIP\n");

    // The prefix of the second ZIP sits between the archives.
    let first_archive_end = first_archive.end_offset();
    let second_prefix = &data[first_archive_end as usize..second_zip_start as usize];
    assert_eq!(second_prefix, b"PREFIX_FOR_SECOND_ZIP\n");

    let resolved = first_archive.get_entry(entry.wayfinder()).unwrap();
    assert_eq!(resolved.data(), b"First ZIP content");
}

#[test]
fn prelude_containing_eocd_signature_bytes() {
    // A prelude that itself contains the EOCD signature bytes does not
    // confuse the locator: the archive's own record is the largest
    // credible candidate.
    let mut data = Vec::new();
    data.extend_from_slice(&0x06054b50u32.to_le_bytes());
    data.extend_from_slice(b"garbage prelude");
    data.extend_from_slice(&0x06054b50u32.to_le_bytes());
    let prelude_len = data.len() as u64;

    let mut archive = rawzip::ZipArchiveWriterBuilder::new()
        .with_offset(prelude_len)
        .build();
    write_file(&mut archive, "entry.txt", b"payload");
    data.extend_from_slice(&archive.finish());

    let read = ZipArchive::from_slice(&data).unwrap();
    assert_eq!(read.entries_hint(), 1);
    // The offset was declared at write time, so positions are absolute.
    assert_eq!(read.base_offset(), 0);
    let mut entries = read.entries();
    let entry = entries.next_entry().unwrap().unwrap();
    let resolved = read.get_entry(entry.wayfinder()).unwrap();
    assert_eq!(resolved.data(), b"payload");
}

#[test]
fn empty_data_has_no_archive() {
    let e = ZipArchive::from_slice(b"").unwrap_err();
    assert!(matches!(
        e.kind(),
        ErrorKind::MissingEndOfCentralDirectory { eocd_offset: None }
    ));
    let e = ZipArchive::from_slice(b"no archive here at all").unwrap_err();
    assert!(matches!(
        e.kind(),
        ErrorKind::MissingEndOfCentralDirectory { eocd_offset: None }
    ));
}
