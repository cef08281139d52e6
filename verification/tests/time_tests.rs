use rawzip::extra_fields::ExtraFieldId;
use rawzip::time::{LocalDateTime, TimeZone, UtcDateTime, ZipDateTimeKind};
use rawzip::{ZipArchive, ZipArchiveWriter, ZipDataWriter};

fn write_file_with_mtime(
    archive: &mut ZipArchiveWriter,
    name: &str,
    body: &[u8],
    mtime: Option<UtcDateTime>,
) {
    let mut builder = ZipArchiveWriter::new_file(name);
    if let Some(dt) = mtime {
        builder = builder.last_modified(dt);
    }
    let entry = builder.create(archive).unwrap();
    let mut writer = ZipDataWriter::new(entry);
    writer.write(archive, body);
    let (entry, desc) = writer.finish();
    entry.finish(archive, desc).unwrap();
}

/// Test that modification times are preserved in a round-trip for files
#[test]
fn test_modification_time_roundtrip_file() {
    let datetime = UtcDateTime::from_components(2023, 6, 15, 14, 30, 45, 0).unwrap();
    let mut archive = ZipArchiveWriter::new();
    write_file_with_mtime(&mut archive, "test.txt", b"Hello, world!", Some(datetime));
    let output = archive.finish();

    // Read back and verify modification time
    let archive = ZipArchive::from_slice(&output).unwrap();
    let mut entries = archive.entries();
    let entry = entries.next_entry().unwrap().unwrap();

    assert_eq!(entry.file_path().try_normalize().unwrap(), b"test.txt");
    let actual_datetime = entry.last_modified();
    assert_eq!(actual_datetime, ZipDateTimeKind::Utc(datetime));
}

/// Test that modification times are preserved in a round-trip for directories
#[test]
fn test_modification_time_roundtrip_directory() {
    let datetime = UtcDateTime::from_components(2023, 8, 20, 9, 15, 30, 0).unwrap();
    let mut archive = ZipArchiveWriter::new();
    ZipArchiveWriter::new_dir("test_dir/")
        .last_modified(datetime)
        .create(&mut archive)
        .unwrap();
    let output = archive.finish();

    // Read back and verify modification time
    let archive = ZipArchive::from_slice(&output).unwrap();
    let mut entries = archive.entries();
    let entry = entries.next_entry().unwrap().unwrap();

    assert_eq!(entry.file_path().try_normalize().unwrap(), b"test_dir/");
    let actual_datetime = entry.last_modified();

    assert_eq!(actual_datetime, ZipDateTimeKind::Utc(datetime));
}

/// Test that files without modification time use DOS timestamp 0
#[test]
fn test_no_modification_time_defaults_to_zero() {
    let mut archive = ZipArchiveWriter::new();
    write_file_with_mtime(&mut archive, "test.txt", b"Hello, world!", None);
    let output = archive.finish();

    // Read back and verify it uses the "zero" timestamp (1980-01-01 00:00:00)
    let archive = ZipArchive::from_slice(&output).unwrap();
    let mut entries = archive.entries();
    let entry = entries.next_entry().unwrap().unwrap();

    assert_eq!(entry.file_path().try_normalize().unwrap(), b"test.txt");
    let actual_datetime = entry.last_modified();

    // Should be the DOS timestamp 0 normalized to 1980-01-01 00:00:00
    let expected =
        ZipDateTimeKind::Local(LocalDateTime::from_components(1980, 1, 1, 0, 0, 0, 0).unwrap());
    assert_eq!(actual_datetime, expected);
}

/// Test that extended timestamp format is used when modification time is provided
#[test]
fn test_extended_timestamp_format_present() {
    let datetime = UtcDateTime::from_components(2023, 6, 15, 14, 30, 45, 0).unwrap();
    let mut archive = ZipArchiveWriter::new();
    write_file_with_mtime(&mut archive, "test.txt", b"Hello, world!", Some(datetime));
    let output = archive.finish();

    // Check that the extended timestamp extra field is present
    // Extended timestamp field ID is 0x5455
    let extended_timestamp_id_bytes = 0x5455u16.to_le_bytes();
    let contains_extended_timestamp = output.windows(2).any(|w| w == extended_timestamp_id_bytes);

    assert!(
        contains_extended_timestamp,
        "Extended timestamp extra field should be present when modification time is provided"
    );

    // The central directory TLV has id 0x5455, length 5, flag 0x01.
    let archive = ZipArchive::from_slice(&output).unwrap();
    let mut entries = archive.entries();
    let entry = entries.next_entry().unwrap().unwrap();
    let mut fields = entry.extra_fields();
    let mut found = None;
    while let Some((id, body)) = fields.next() {
        if id == ExtraFieldId::extended_timestamp() {
            found = Some(body.to_vec());
        }
    }
    let body = found.expect("central directory extended timestamp");
    assert_eq!(body.len(), 5);
    assert_eq!(body[0], 0x01);
}

/// Test that no extended timestamp format is used when no modification time is provided
#[test]
fn test_no_extended_timestamp_without_modification_time() {
    let mut archive = ZipArchiveWriter::new();
    write_file_with_mtime(&mut archive, "test.txt", b"Hello, world!", None);
    let output = archive.finish();

    // Check that the extended timestamp extra field is NOT present
    let extended_timestamp_id_bytes = 0x5455u16.to_le_bytes();
    let contains_extended_timestamp = output.windows(2).any(|w| w == extended_timestamp_id_bytes);

    assert!(
        !contains_extended_timestamp,
        "Extended timestamp extra field should NOT be present when no modification time is provided"
    );
}

/// Test that we can handle timestamps at the bottom of the unix range
/// (before the DOS epoch)
#[test]
fn test_timestamp_before_dos_range() {
    let datetime = UtcDateTime::from_components(1970, 1, 1, 0, 0, 0, 0).unwrap();
    let mut archive = ZipArchiveWriter::new();
    write_file_with_mtime(&mut archive, "test.txt", b"Hello, world!", Some(datetime));
    let output = archive.finish();

    let archive = ZipArchive::from_slice(&output).unwrap();
    let mut entries = archive.entries();
    let entry = entries.next_entry().unwrap().unwrap();

    assert_eq!(entry.file_path().try_normalize().unwrap(), b"test.txt");
    let actual_datetime = entry.last_modified();

    assert_eq!(actual_datetime, ZipDateTimeKind::Utc(datetime));
}

/// Test multiple files with different modification times
#[test]
fn test_multiple_files_different_timestamps() {
    let datetime1 = UtcDateTime::from_components(2023, 1, 15, 10, 0, 0, 0).unwrap();
    let datetime2 = UtcDateTime::from_components(2023, 6, 20, 15, 30, 45, 0).unwrap();
    let mut archive = ZipArchiveWriter::new();
    write_file_with_mtime(&mut archive, "file1.txt", b"File 1", Some(datetime1));
    write_file_with_mtime(&mut archive, "file2.txt", b"File 2", Some(datetime2));
    let output = archive.finish();

    // Read back and verify timestamps
    let archive = ZipArchive::from_slice(&output).unwrap();
    let mut entries = archive.entries();
    let mut seen = 0;
    while let Some(entry) = entries.next_entry().unwrap() {
        seen += 1;
        match entry.file_path().try_normalize().unwrap() {
            b"file1.txt" => {
                assert_eq!(entry.last_modified(), ZipDateTimeKind::Utc(datetime1));
            }
            b"file2.txt" => {
                assert_eq!(entry.last_modified(), ZipDateTimeKind::Utc(datetime2));
            }
            name => panic!("Unexpected file: {:?}", name),
        }
    }
    assert_eq!(seen, 2);
}

#[test]
fn test_new_dir_with_options() {
    let datetime = UtcDateTime::from_components(2023, 12, 25, 12, 0, 0, 0).unwrap();
    let mut archive = ZipArchiveWriter::new();

    ZipArchiveWriter::new_dir("christmas/")
        .last_modified(datetime)
        .create(&mut archive)
        .unwrap();

    let output = archive.finish();

    // Verify the directory was created with the correct timestamp
    let archive = ZipArchive::from_slice(&output).unwrap();
    let mut entries = archive.entries();
    let entry = entries.next_entry().unwrap().unwrap();

    assert_eq!(entry.file_path().try_normalize().unwrap(), b"christmas/");
    assert!(entry.is_dir());
    assert_eq!(entry.last_modified(), ZipDateTimeKind::Utc(datetime));
}

/// Test timezone API and date validation
#[test]
fn test_timezone_api_and_validation() {
    // Create UTC timestamp with validation
    let utc_time = UtcDateTime::from_components(2023, 6, 15, 14, 30, 45, 0).unwrap();
    let local_time = LocalDateTime::from_components(2023, 6, 15, 14, 30, 45, 0).unwrap();

    // Verify timestamp properties
    assert_eq!(utc_time.year(), 2023);
    assert_eq!(utc_time.month(), 6);
    assert_eq!(utc_time.day(), 15);
    assert_eq!(utc_time.hour(), 14);
    assert_eq!(utc_time.minute(), 30);
    assert_eq!(utc_time.second(), 45);
    assert_eq!(utc_time.nanosecond(), 0);

    // Verify timezone types work
    assert_eq!(utc_time.timezone(), TimeZone::Utc);
    assert_eq!(local_time.timezone(), TimeZone::Local);

    // Test that only UTC timestamps can be used for last_modified
    let _builder = ZipArchiveWriter::new_file("test.txt").last_modified(utc_time);

    // Test date validation
    assert!(UtcDateTime::from_components(2023, 2, 30, 0, 0, 0, 0).is_none()); // Feb 30th
    assert!(LocalDateTime::from_components(2023, 13, 1, 0, 0, 0, 0).is_none()); // 13th month
    assert!(UtcDateTime::from_components(2023, 4, 31, 0, 0, 0, 0).is_none()); // April 31st

    // Test leap year validation
    assert!(UtcDateTime::from_components(2020, 2, 29, 0, 0, 0, 0).is_some()); // 2020 is leap year
    assert!(UtcDateTime::from_components(2021, 2, 29, 0, 0, 0, 0).is_none()); // 2021 is not leap year
}

/// Test ZipDateTimeKind functionality and timezone handling
#[test]
fn test_parsed_datetime_functionality() {
    // UTC timestamps can be used for Extended Timestamp writing
    let utc_dt = UtcDateTime::from_components(2023, 6, 15, 14, 30, 45, 0).unwrap();

    // Local timestamps are for reading legacy ZIP files
    let local_dt = LocalDateTime::from_components(1995, 1, 1, 12, 0, 0, 0).unwrap();

    // ZipDateTimeKind can represent either
    let parsed_utc = ZipDateTimeKind::Utc(utc_dt);
    let parsed_local = ZipDateTimeKind::Local(local_dt);

    // Both can be queried uniformly
    assert_eq!(parsed_utc.year(), 2023);
    assert_eq!(parsed_local.year(), 1995);
    assert_eq!(parsed_utc.timezone(), TimeZone::Utc);
    assert_eq!(parsed_local.timezone(), TimeZone::Local);
}

/// The local header may carry richer timestamp data (mod + access times)
/// than the central directory (mod time only): caller-supplied extras
/// routed per location surface exactly that difference.
#[test]
fn test_infozip_extended_timestamps_slice() {
    let datetime = UtcDateTime::from_components(2021, 3, 4, 5, 6, 7, 0).unwrap();
    let unix = 1614830767u32; // 2021-03-04T05:06:07Z

    // A 9-byte local-header extended timestamp: flags (mod+access) + two
    // 32-bit times, as InfoZIP writes it. The central directory gets the
    // automatic 5-byte field from `last_modified`.
    let mut local_body = vec![0x03u8];
    local_body.extend_from_slice(&unix.to_le_bytes());
    local_body.extend_from_slice(&unix.to_le_bytes());

    let mut archive = ZipArchiveWriter::new();
    let entry = ZipArchiveWriter::new_file("timed.txt")
        .last_modified(datetime)
        .extra_field(
            ExtraFieldId::extended_timestamp(),
            &local_body,
            rawzip::Header::local(),
        )
        .unwrap()
        .create(&mut archive)
        .unwrap();
    let mut writer = ZipDataWriter::new(entry);
    writer.write(&mut archive, b"content");
    let (entry, desc) = writer.finish();
    entry.finish(&mut archive, desc).unwrap();
    let output = archive.finish();

    let archive = ZipArchive::from_slice(&output).unwrap();
    let mut entries = archive.entries();
    let entry = entries.next_entry().unwrap().unwrap();

    let mut central = entry.extra_fields();
    let mut central_len = None;
    while let Some((id, body)) = central.next() {
        if id == ExtraFieldId::extended_timestamp() {
            central_len = Some(body.len());
            break;
        }
    }
    assert_eq!(
        central_len,
        Some(5),
        "Central directory should have 5 bytes (mod time only)"
    );

    let resolved = archive.get_entry(entry.wayfinder()).unwrap();
    let mut local = resolved.extra_fields();
    let mut local_len = None;
    while let Some((id, body)) = local.next() {
        if id == ExtraFieldId::extended_timestamp() {
            local_len = Some(body.len());
            break;
        }
    }
    assert_eq!(
        local_len,
        Some(9),
        "Local header should have 9 bytes (mod + access times) and have richer timestamp data than central directory"
    );
}

#[test]
fn unix_time_conversion_round_trip() {
    // from_unix inverts to_unix at exact points of the calendar.
    for &(y, mo, d, h, mi, s) in &[
        (1970u16, 1u8, 1u8, 0u8, 0u8, 0u8),
        (1999, 12, 31, 23, 59, 59),
        (2000, 2, 29, 12, 0, 0),
        (2023, 6, 15, 14, 30, 45),
        (2100, 1, 1, 0, 0, 0),
    ] {
        let dt = UtcDateTime::from_components(y, mo, d, h, mi, s, 0).unwrap();
        let unix = dt.to_unix();
        let back = UtcDateTime::from_unix(unix as u32);
        assert_eq!(back, dt);
    }
    // A known fixed point: 2023-06-15T14:30:45Z.
    let dt = UtcDateTime::from_components(2023, 6, 15, 14, 30, 45, 0).unwrap();
    assert_eq!(dt.to_unix(), 1686839445);
}
