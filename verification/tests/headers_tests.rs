use rawzip::Header;

#[test]
fn test_header_bitflags_behavior() {
    // Test that default equals LOCAL | CENTRAL
    assert_eq!(Header::local().or(Header::central()), Header::default());

    // Test includes methods
    assert!(Header::local().includes_local());
    assert!(!Header::local().includes_central());

    assert!(!Header::central().includes_local());
    assert!(Header::central().includes_central());

    assert!(Header::default().includes_local());
    assert!(Header::default().includes_central());

    // Test bitwise operations
    let mut header = Header::local();
    header = header.or(Header::central());
    assert_eq!(header, Header::default());

    let intersection = Header::default().and(Header::local());
    assert_eq!(intersection, Header::local());

    // Test intersects method
    assert!(Header::default().intersects(Header::local()));
    assert!(Header::default().intersects(Header::central()));
    assert!(Header::local().intersects(Header::default()));
    assert!(!Header::local().intersects(Header::central()));
}

#[test]
fn test_header_default() {
    assert_eq!(Header::default(), Header::local().or(Header::central()));
}
