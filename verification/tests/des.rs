use parakeet_crypto::qrc::data::U64_SHIFT_TABLE_CACHE;
use parakeet_crypto::qrc::des_impl::Des;
use parakeet_crypto::qrc::int_helper::get_u64_by_shift_idx;

#[test]
fn test_des_encrypt() {
    let mut input = [1, 2, 3, 4, 5, 6, 7, 8, 9, 0, 1, 2, 3, 4, 5, 6];
    let expected_data = [
        0xFD, 0x0E, 0x64, 0x06, 0x65, 0xBE, 0x74, 0x13, //
        0x77, 0x63, 0x3B, 0x02, 0x45, 0x4E, 0x70, 0x7A, //
    ];

    let des = Des::new(b"TEST!KEY");
    des.encrypt_bytes(&mut input).unwrap();
    assert_eq!(input, expected_data);
}

#[test]
fn test_des_decrypt() {
    let mut input = [
        0xFD, 0x0E, 0x64, 0x06, 0x65, 0xBE, 0x74, 0x13, //
        0x77, 0x63, 0x3B, 0x02, 0x45, 0x4E, 0x70, 0x7A, //
    ];
    let expected_data = [1, 2, 3, 4, 5, 6, 7, 8, 9, 0, 1, 2, 3, 4, 5, 6];

    let des = Des::new(b"TEST!KEY");
    des.decrypt_bytes(&mut input).unwrap();
    assert_eq!(input, expected_data);
}

#[test]
fn test_get_u64_by_shift_idx() {
    for i in 0..32 {
        assert_eq!(get_u64_by_shift_idx(i), 1u64 << (31 - i));
        assert_eq!(get_u64_by_shift_idx(i + 32), 1u64 << (32 + 31 - i));
    }

    for i in 0..64 {
        assert_eq!(get_u64_by_shift_idx(i), U64_SHIFT_TABLE_CACHE[i as usize]);
    }
}
