use rawzip::crc::{crc32, crc32_chunk, crc32_chunk_bitwise};

#[test]
fn crc32_known_values() {
    assert_eq!(crc32(b""), 0);
    assert_eq!(crc32(b"a"), 0xE8B7BE43);
    assert_eq!(crc32(b"abc"), 0x352441C2);
    assert_eq!(crc32(b"123456789"), 0xCBF43926);
    assert_eq!(crc32(b"Hello, world!"), 0xEBE6C6E6);
}

#[test]
fn crc32_kernels_agree() {
    // The table-driven kernel and the bit-at-a-time reference agree on
    // inputs of every length from 0 up to 4096, and on a large input.
    let data: Vec<u8> = (0..65536u32).map(|i| (i * 31 + 7) as u8).collect();
    for len in 0..4096 {
        let chunk = &data[..len];
        assert_eq!(crc32_chunk(chunk, 0), crc32_chunk_bitwise(chunk, 0));
    }
    assert_eq!(crc32_chunk(&data, 0), crc32_chunk_bitwise(&data, 0));
    assert_eq!(
        crc32_chunk(&data, 0xDEADBEEF),
        crc32_chunk_bitwise(&data, 0xDEADBEEF)
    );
}

#[test]
fn crc32_chunked_equals_one_pass() {
    // Processing a stream in chunks continued from the prior CRC equals
    // one pass over the whole stream.
    let data: Vec<u8> = (0..10_000u32).map(|i| (i ^ (i >> 3)) as u8).collect();
    let whole = crc32(&data);
    for split in [0usize, 1, 99, 5000, 9999, 10_000] {
        let first = crc32_chunk(&data[..split], 0);
        let second = crc32_chunk(&data[split..], first);
        assert_eq!(second, whole);
    }
}
