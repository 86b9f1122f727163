use cc_rs::gvar::write_buf;

#[test]
fn values_are_written_little_endian() {
    let mut buf = vec![0u8; 4];
    write_buf(&mut buf, 1, 0x0102, 2);
    assert_eq!(buf, vec![0, 2, 1, 0]);
}

#[test]
fn only_the_low_bytes_are_written() {
    let mut buf = vec![9u8; 3];
    write_buf(&mut buf, 2, 0x1234_5678, 1);
    assert_eq!(buf, vec![9, 9, 0x78]);
    let mut wide = vec![0u8; 8];
    write_buf(&mut wide, 0, 0x0807_0605_0403_0201, 8);
    assert_eq!(wide, vec![1, 2, 3, 4, 5, 6, 7, 8]);
}
