use rawzip::errors::ErrorKind;
use rawzip::reader_at::{read_at_least_at, try_read_at_least_at, ReaderAt};
use rawzip::{RangeReader, RECOMMENDED_BUFFER_SIZE};

#[test]
fn test_range_reader_basic() {
    let data = b"Hello, World! This is test data.";
    let mut range_reader = RangeReader::new(data.as_slice(), 7, 13);

    let mut buffer = vec![0u8; 10];
    let bytes_read = range_reader.read(&mut buffer);

    assert_eq!(bytes_read, 6);
    assert_eq!(&buffer[..bytes_read], b"World!");
}

#[test]
fn test_range_reader_multiple_reads() {
    let data = b"0123456789";
    let mut range_reader = RangeReader::new(data.as_slice(), 2, 8);

    let mut buffer = vec![0u8; 3];
    let bytes_read1 = range_reader.read(&mut buffer);
    assert_eq!(bytes_read1, 3);
    assert_eq!(&buffer[..bytes_read1], b"234");
    assert_eq!(range_reader.position(), 5);

    let bytes_read2 = range_reader.read(&mut buffer);
    assert_eq!(bytes_read2, 3);
    assert_eq!(&buffer[..bytes_read2], b"567");
    assert_eq!(range_reader.position(), 8);

    // Should return 0 when at end
    let bytes_read3 = range_reader.read(&mut buffer);
    assert_eq!(bytes_read3, 0);
}

#[test]
fn test_range_reader_empty_range() {
    let data = b"Hello, World!";
    let mut range_reader = RangeReader::new(data.as_slice(), 5, 5);

    let mut buffer = vec![0u8; 10];
    let bytes_read = range_reader.read(&mut buffer);

    assert_eq!(bytes_read, 0);
    assert_eq!(range_reader.remaining(), 0);
}

#[test]
fn test_range_reader_get_ref_and_into_inner() {
    let data = b"Hello, World!";
    let range_reader = RangeReader::new(data.as_slice(), 0, 5);

    assert_eq!(range_reader.get_ref(), &data.as_slice());
    let inner = range_reader.into_inner();
    assert_eq!(inner, data.as_slice());
}

#[test]
fn test_range_reader_clone() {
    let data = b"Hello, World!";
    let range_reader = RangeReader::new(data.as_slice(), 0, 5);
    let cloned = range_reader.clone();

    assert_eq!(range_reader.position(), cloned.position());
    assert_eq!(range_reader.remaining(), cloned.remaining());
}

#[test]
fn test_range_reader_range_exceeds_data() {
    let data = b"Hello";

    // Test range that starts within data but extends beyond
    let mut reader1 = RangeReader::new(data.as_slice(), 3, 10);
    let mut buf1 = vec![0u8; 10];
    let read1 = reader1.read(&mut buf1);
    assert_eq!(read1, 2); // Only reads "lo"
    assert_eq!(&buf1[..read1], b"lo");

    // Test range that starts at end of data
    let mut reader2 = RangeReader::new(data.as_slice(), 5, 10);
    let mut buf2 = vec![0u8; 10];
    let read2 = reader2.read(&mut buf2);
    assert_eq!(read2, 0); // No data to read

    // Test range that starts beyond data
    let mut reader3 = RangeReader::new(data.as_slice(), 10, 20);
    let mut buf3 = vec![0u8; 10];
    let read3 = reader3.read(&mut buf3);
    assert_eq!(read3, 0); // No data to read
}

#[test]
fn read_at_clips_at_content_end() {
    let data = b"abcdef";
    let mut buf = vec![0u8; 4];
    let n = data.as_slice().read_at(&mut buf, 4);
    assert_eq!(n, 2);
    assert_eq!(&buf[..n], b"ef");
    // An out-of-range offset reads zero bytes; it is not an error.
    let n = data.as_slice().read_at(&mut buf, 100);
    assert_eq!(n, 0);
}

#[test]
fn read_exact_at_fails_with_eof_past_end() {
    let data = b"abcdef";
    let mut buf = vec![0u8; 4];
    assert!(data.as_slice().read_exact_at(&mut buf, 2).is_ok());
    assert_eq!(&buf[..], b"cdef");
    let r = data.as_slice().read_exact_at(&mut buf, 3);
    assert!(matches!(r.unwrap_err().kind(), ErrorKind::Eof));
}

#[test]
fn buffer_contract_rejects_short_buffer_untouched() {
    // A supplied buffer shorter than the required minimum fails with
    // BufferTooSmall and the buffer is untouched.
    let data = vec![7u8; RECOMMENDED_BUFFER_SIZE * 2];
    let mut small = vec![0u8; RECOMMENDED_BUFFER_SIZE - 1];
    let r = read_at_least_at(&data, &mut small, RECOMMENDED_BUFFER_SIZE, 0);
    assert!(matches!(r.unwrap_err().kind(), ErrorKind::BufferTooSmall));
    assert!(small.iter().all(|b| *b == 0));

    let mut big = vec![0u8; RECOMMENDED_BUFFER_SIZE];
    let r = read_at_least_at(&data, &mut big, RECOMMENDED_BUFFER_SIZE, 0);
    assert_eq!(r.unwrap(), RECOMMENDED_BUFFER_SIZE);
    assert!(big.iter().all(|b| *b == 7));
}

#[test]
fn locate_in_reader_honors_buffer_contract() {
    // Build an archive behind a prelude and locate it through a ReaderAt:
    // a short buffer is rejected without touching the content, a
    // recommended-size buffer finds the record.
    let mut data = b"prelude bytes".to_vec();
    let mut archive = rawzip::ZipArchiveWriter::new();
    let entry = rawzip::ZipArchiveWriter::new_file("f.txt")
        .create(&mut archive)
        .unwrap();
    let mut w = rawzip::ZipDataWriter::new(entry);
    w.write(&mut archive, b"body");
    let (entry, desc) = w.finish();
    entry.finish(&mut archive, desc).unwrap();
    data.extend_from_slice(&archive.finish());

    let mut small = vec![0u8; 100];
    let r = rawzip::locator::locate_eocd_in_reader(&data, &mut small, data.len() as u64);
    assert!(matches!(r.unwrap_err().kind(), ErrorKind::BufferTooSmall));

    let mut buf = vec![0u8; RECOMMENDED_BUFFER_SIZE];
    let off = rawzip::locator::locate_eocd_in_reader(&data, &mut buf, data.len() as u64).unwrap();
    assert_eq!(off as usize, data.len() - 22);
    assert_eq!(&data[off as usize..off as usize + 4], &0x06054b50u32.to_le_bytes());
}

#[test]
fn read_at_least_at_eof_when_content_short() {
    let data = vec![1u8; 10];
    let mut buf = vec![0u8; 64];
    let r = read_at_least_at(&data, &mut buf, 32, 0);
    assert!(matches!(r.unwrap_err().kind(), ErrorKind::Eof));
    let n = try_read_at_least_at(&data, &mut buf, 32, 0);
    assert_eq!(n, 10);
}
