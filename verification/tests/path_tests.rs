use rawzip::path::ZipFilePath;
use rawzip::ErrorKind;

#[test]
fn try_normalize_accepts_safe_relative_paths() {
    for name in ["file.txt", "dir/file.txt", "a/b/c", "dir/", "..hidden", "a..b", "trailing.."] {
        let p = ZipFilePath::from_str(name);
        assert_eq!(p.try_normalize().unwrap(), name.as_bytes(), "{}", name);
    }
}

#[test]
fn try_normalize_rejects_unsafe_paths() {
    for name in [
        "/absolute",
        "..",
        "../up",
        "dir/../up",
        "dir/..",
        "back\\slash",
        "nul\0byte",
    ] {
        let p = ZipFilePath::from_str(name);
        assert!(p.try_normalize().is_err(), "{:?}", name);
    }
}

#[test]
fn try_normalize_rejects_invalid_utf8() {
    let p = ZipFilePath::from_bytes(&[0x66, 0xFF, 0x66]);
    let e = p.try_normalize().unwrap_err();
    assert!(matches!(e.kind(), ErrorKind::InvalidUtf8));
    // Overlong encoding of '/' is invalid, not a path separator.
    let p = ZipFilePath::from_bytes(&[0xC0, 0xAF]);
    assert!(matches!(
        p.try_normalize().unwrap_err().kind(),
        ErrorKind::InvalidUtf8
    ));
    // A surrogate encoding is invalid.
    let p = ZipFilePath::from_bytes(&[0xED, 0xA0, 0x80]);
    assert!(matches!(
        p.try_normalize().unwrap_err().kind(),
        ErrorKind::InvalidUtf8
    ));
    // Multi-byte scalars are fine.
    let p = ZipFilePath::from_str("f\u{00FC}r/\u{1F600}.txt");
    assert!(p.try_normalize().is_ok());
}

#[test]
fn path_queries() {
    let p = ZipFilePath::from_str("dir/");
    assert!(p.is_dir());
    assert_eq!(p.len(), 4);
    assert!(!p.needs_utf8_encoding());

    let p = ZipFilePath::from_str("f\u{00FC}r.txt");
    assert!(!p.is_dir());
    assert!(p.needs_utf8_encoding());
}
