use dhcpv6::buffer::Buffer;
use dhcpv6::Error;

#[test]
fn test_byte() {
    let raw: [u8; 4] = [0x11, 0x22, 0x33, 0x44];
    let mut tbuf = Buffer::new_from_slice(&raw);

    assert_eq!(tbuf.get_8().unwrap(), 0x11);
    assert_eq!(tbuf.get_8().unwrap(), 0x22);
    assert_eq!(tbuf.get_8().unwrap(), 0x33);
    assert_eq!(tbuf.get_8().unwrap(), 0x44);
}

#[test]
fn test_short() {
    let raw: [u8; 4] = [0x11, 0x22, 0x33, 0x44];
    let mut tbuf = Buffer::new_from_slice(&raw);

    assert_eq!(tbuf.get_16().unwrap(), 0x1122);
    assert_eq!(tbuf.get_16().unwrap(), 0x3344);
}

#[test]
fn test_word() {
    let raw: [u8; 4] = [0x11, 0x22, 0x33, 0x44];
    let mut tbuf = Buffer::new_from_slice(&raw);

    assert_eq!(tbuf.get_32().unwrap(), 0x11223344);
}

#[test]
fn test_overflow() {
    let raw: [u8; 4] = [0x11, 0x22, 0x33, 0x44];
    let mut tbuf = Buffer::new_from_slice(&raw);

    assert_eq!(tbuf.get_32().unwrap(), 0x11223344);
    assert_eq!(tbuf.get_32(), Err(Error::TooShort));
}

#[test]
fn get_24_reads_three_bytes_at_the_end() {
    let raw: [u8; 3] = [0xa3, 0x1b, 0x8f];
    let mut tbuf = Buffer::new_from_slice(&raw);

    assert_eq!(tbuf.get_24().unwrap(), 0xa31b8f);
    assert_eq!(tbuf.left(), 0);
    assert_eq!(tbuf.get_8(), Err(Error::TooShort));
}

#[test]
fn failed_read_moves_nothing() {
    let raw: [u8; 3] = [1, 2, 3];
    let mut tbuf = Buffer::new_from_slice(&raw);

    assert_eq!(tbuf.get_8().unwrap(), 1);
    assert_eq!(tbuf.get_32(), Err(Error::TooShort));
    assert_eq!(tbuf.get_offset(), 1);
    assert_eq!(tbuf.get_bytes(2).unwrap(), vec![2, 3]);
    assert_eq!(tbuf.get_bytes(1), Err(Error::TooShort));
}

#[test]
fn set_offset_bounds() {
    let raw: [u8; 4] = [0x11, 0x22, 0x33, 0x44];
    let mut tbuf = Buffer::new_from_slice(&raw);

    assert_eq!(tbuf.set_offset(5), Err(Error::TooShort));
    assert_eq!(tbuf.get_offset(), 0);
    assert_eq!(tbuf.set_offset(4), Ok(()));
    assert_eq!(tbuf.left(), 0);
    assert_eq!(tbuf.set_offset(2), Ok(()));
    assert_eq!(tbuf.get_16().unwrap(), 0x3344);
}
