use token_broker::bytes::{copy_range, holds_at, read_u64_le, u64_le_bytes, write_bytes};
use token_broker::{Address, TokenHandler};

#[test]
fn u64_little_endian_encoding() {
    assert_eq!(u64_le_bytes(0x0102030405060708), vec![8, 7, 6, 5, 4, 3, 2, 1]);
    assert_eq!(u64_le_bytes(u64::MAX), vec![0xff; 8]);
}

#[test]
fn u64_little_endian_reading() {
    let v = vec![9, 8, 7, 6, 5, 4, 3, 2, 1, 0];
    assert_eq!(read_u64_le(&v, 2), 0x0001020304050607);
    assert_eq!(read_u64_le(&u64_le_bytes(123456789), 0), 123456789);
}

#[test]
fn byte_ranges_and_writes() {
    let mut v = vec![0u8; 10];
    write_bytes(&mut v, 3, &vec![1, 2, 3]);
    assert_eq!(v, vec![0, 0, 0, 1, 2, 3, 0, 0, 0, 0]);
    assert_eq!(copy_range(&v, 2, 5), vec![0, 1, 2]);
    let mut d = vec![0u8; 40];
    d[8..40].copy_from_slice(&[7u8; 32]);
    assert!(holds_at(&d, 8, &Address::new([7; 32])));
    assert!(!holds_at(&d, 0, &Address::new([7; 32])));
}

#[test]
fn handler_record_round_trip() {
    let rec = TokenHandler {
        handler_program: Address::new([2; 32]),
        token_account_bytes: 0x01020304,
        mint_account_bytes: 49,
        pda_bump: 254,
    };
    let bytes = rec.to_bytes();
    assert_eq!(bytes.len(), 49);
    assert_eq!(&bytes[0..8], &[0x32, 0x7d, 0xc6, 0xc1, 0x31, 0x96, 0xfb, 0x2b]);
    assert_eq!(&bytes[40..44], &[4, 3, 2, 1]);
    let back = TokenHandler::from_bytes(&bytes).unwrap();
    assert_eq!(back.handler_program, rec.handler_program);
    assert_eq!(back.token_account_bytes, rec.token_account_bytes);
    assert_eq!(back.mint_account_bytes, rec.mint_account_bytes);
    assert_eq!(back.pda_bump, rec.pda_bump);
    assert!(TokenHandler::from_bytes(&bytes[..48].to_vec()).is_none());
}
