use rawzip::archive::promote_zip64;
use rawzip::extra_fields::ExtraFieldId;
use rawzip::{ErrorKind, Header, ZipArchive, ZipArchiveWriter, ZipDataWriter};

fn write_file(archive: &mut ZipArchiveWriter, name: &str, body: &[u8]) {
    let entry = ZipArchiveWriter::new_file(name).create(archive).unwrap();
    let mut writer = ZipDataWriter::new(entry);
    writer.write(archive, body);
    let (entry, desc) = writer.finish();
    entry.finish(archive, desc).unwrap();
}

#[test]
fn promotion_draws_overflowed_values_in_order() {
    // A ZIP64 extra field holds only the overflowed values, in the order
    // uncompressed, compressed, offset: promotion consumes exactly the
    // sentinel fields in that order.
    let mut extras = Vec::new();
    extras.extend_from_slice(&0x0001u16.to_le_bytes());
    extras.extend_from_slice(&16u16.to_le_bytes());
    extras.extend_from_slice(&5_000_000_000u64.to_le_bytes());
    extras.extend_from_slice(&4_900_000_000u64.to_le_bytes());

    let (u, c, l, d) = promote_zip64(&extras, 0xFFFFFFFF, 0xFFFFFFFF, 1234, 0);
    assert_eq!(u, 5_000_000_000);
    assert_eq!(c, 4_900_000_000);
    assert_eq!(l, 1234);
    assert_eq!(d, 0);

    // Without sentinels nothing is promoted even when the field is there.
    let (u, c, l, d) = promote_zip64(&extras, 10, 20, 30, 0);
    assert_eq!((u, c, l, d), (10, 20, 30, 0));

    // With only the offset sentinel, the first u64 of the body is the
    // offset.
    let mut extras = Vec::new();
    extras.extend_from_slice(&0x0001u16.to_le_bytes());
    extras.extend_from_slice(&8u16.to_le_bytes());
    extras.extend_from_slice(&7_000_000_000u64.to_le_bytes());
    let (u, c, l, _d) = promote_zip64(&extras, 10, 20, 0xFFFFFFFF, 0);
    assert_eq!((u, c, l), (10, 20, 7_000_000_000));
}

#[test]
fn sentinel_promotion_end_to_end() {
    // An archive whose central directory header carries sentinels with a
    // matching ZIP64 extra field reads back with the overridden values.
    let body = b"sentinel";
    let mut zip64_body = Vec::new();
    zip64_body.extend_from_slice(&(body.len() as u64).to_le_bytes()); // uncompressed
    zip64_body.extend_from_slice(&(body.len() as u64).to_le_bytes()); // compressed
    zip64_body.extend_from_slice(&0u64.to_le_bytes()); // local header offset

    let mut archive = ZipArchiveWriter::new();
    let entry = ZipArchiveWriter::new_file("p4.bin")
        .extra_field(ExtraFieldId::zip64(), &zip64_body, Header::central())
        .unwrap()
        .create(&mut archive)
        .unwrap();
    let mut writer = ZipDataWriter::new(entry);
    writer.write(&mut archive, body);
    let (entry, desc) = writer.finish();
    entry.finish(&mut archive, desc).unwrap();
    let mut bytes = archive.finish();

    // Plant the sentinels in the fixed header fields.
    let eocd = bytes.len() - 22;
    let cd_offset =
        u32::from_le_bytes([bytes[eocd + 16], bytes[eocd + 17], bytes[eocd + 18], bytes[eocd + 19]])
            as usize;
    assert_eq!(&bytes[cd_offset..cd_offset + 4], &0x02014b50u32.to_le_bytes());
    for range in [cd_offset + 20..cd_offset + 24, cd_offset + 24..cd_offset + 28,
        cd_offset + 42..cd_offset + 46]
    {
        for i in range {
            bytes[i] = 0xFF;
        }
    }

    let read = ZipArchive::from_slice(&bytes).unwrap();
    let mut entries = read.entries();
    let e = entries.next_entry().unwrap().unwrap();
    assert_eq!(e.uncompressed_size_hint(), body.len() as u64);
    assert_eq!(e.compressed_size_hint(), body.len() as u64);
    assert_eq!(e.local_header_offset(), 0);

    let resolved = read.get_entry(e.wayfinder()).unwrap();
    assert_eq!(resolved.data(), body);
    resolved.verify(resolved.data()).unwrap();
}

#[test]
fn central_directory_signature_is_checked() {
    let mut archive = ZipArchiveWriter::new();
    write_file(&mut archive, "f", b"x");
    let mut bytes = archive.finish();
    let eocd = bytes.len() - 22;
    let cd_offset =
        u32::from_le_bytes([bytes[eocd + 16], bytes[eocd + 17], bytes[eocd + 18], bytes[eocd + 19]])
            as usize;
    bytes[cd_offset] = 0x00; // corrupt the header signature
    let read = ZipArchive::from_slice(&bytes).unwrap();
    let mut entries = read.entries();
    let e = entries.next_entry().unwrap_err();
    assert!(matches!(e.kind(), ErrorKind::InvalidSignature { expected: 0x02014b50, .. }));
}

#[test]
fn local_header_signature_is_checked() {
    let mut archive = ZipArchiveWriter::new();
    write_file(&mut archive, "f", b"x");
    let mut bytes = archive.finish();
    bytes[0] = 0x00; // corrupt the local header signature
    let read = ZipArchive::from_slice(&bytes).unwrap();
    let mut entries = read.entries();
    let e = entries.next_entry().unwrap().unwrap();
    let r = read.get_entry(e.wayfinder());
    assert!(matches!(
        r.unwrap_err().kind(),
        ErrorKind::InvalidSignature { expected: 0x04034b50, .. }
    ));
}

#[test]
fn truncated_central_directory_is_eof() {
    let mut archive = ZipArchiveWriter::new();
    write_file(&mut archive, "long-name-to-truncate.txt", b"x");
    let bytes = archive.finish();
    let eocd = bytes.len() - 22;
    let cd_offset =
        u32::from_le_bytes([bytes[eocd + 16], bytes[eocd + 17], bytes[eocd + 18], bytes[eocd + 19]])
            as usize;
    // Rebuild a file whose EOCD claims a central directory that runs past
    // the end: keep the EOCD but chop the directory's tail.
    let mut cut = bytes[..cd_offset + 10].to_vec();
    cut.extend_from_slice(&bytes[eocd..]);
    // The comment-length check still passes (comment length 0).
    let read = ZipArchive::from_slice(&cut);
    match read {
        Ok(a) => {
            let mut entries = a.entries();
            assert!(entries.next_entry().is_err());
        }
        Err(e) => {
            assert!(matches!(
                e.kind(),
                ErrorKind::InvalidEndOfCentralDirectory
                    | ErrorKind::MissingEndOfCentralDirectory { .. }
            ));
        }
    }
}
