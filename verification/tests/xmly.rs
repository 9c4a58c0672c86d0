use parakeet_crypto::interfaces::DecryptorError;
use parakeet_crypto::ximalaya::xmly::new_from_key;
use parakeet_crypto::ximalaya::xmly_crypto::{scramble_table_from_bytes, table_fits, XimalayaCrypto};
use parakeet_crypto::ximalaya::xmly_decryptor::XmlyCrypto;

fn permutation_table() -> [usize; 1024] {
    let mut t = [0usize; 1024];
    for (i, v) in t.iter_mut().enumerate() {
        *v = (i * 389 + 7) % 1024; // 389 is odd, so this is a permutation
    }
    t
}

fn header() -> [u8; 1024] {
    let mut h = [0u8; 1024];
    for (i, v) in h.iter_mut().enumerate() {
        *v = (i * 13 + 5) as u8;
    }
    h
}

#[test]
fn ximalaya_header_roundtrip() {
    let key: [u8; 32] = core::array::from_fn(|i| (i * 7 + 1) as u8);
    let table = permutation_table();
    let crypto = XimalayaCrypto::new(&key, &table);
    let plain = header();
    let enc = crypto.encrypt_header(&plain);
    assert_ne!(enc, plain);
    assert_eq!(crypto.decrypt_header(&enc), plain);
    assert_eq!(crypto.encrypt_header(&crypto.decrypt_header(&plain)), plain);
}

#[test]
fn ximalaya_decrypt_header_formula() {
    let key: [u8; 32] = core::array::from_fn(|i| i as u8);
    let table = permutation_table();
    let crypto = XimalayaCrypto::new(&key, &table);
    let enc = header();
    let dec = crypto.decrypt_header(&enc);
    for i in 0..1024 {
        assert_eq!(dec[i], enc[table[i]] ^ key[i % 32]);
    }
}

#[test]
fn new_from_key_lengths() {
    let table = permutation_table();
    let d4 = new_from_key(&[1, 2, 3, 4], &table).unwrap();
    let d32 = new_from_key(
        &[1, 2, 3, 4, 1, 2, 3, 4, 1, 2, 3, 4, 1, 2, 3, 4, 1, 2, 3, 4, 1, 2, 3, 4, 1, 2, 3, 4, 1, 2,
            3, 4],
        &table,
    )
    .unwrap();
    let h = header();
    assert_eq!(d4.decrypt_header(&h), d32.decrypt_header(&h));
    assert_eq!(
        new_from_key(&[1, 2, 3], &table).unwrap_err(),
        DecryptorError::XimalayaCountNotFindImplementation
    );
}

#[test]
fn xmly_crypto_xor_twice() {
    let table = permutation_table();
    let x2m = XmlyCrypto::<4>::new(&[9, 8, 7, 6], &table);
    let h = header();
    let once = x2m.decrypt_header(&h);
    assert_ne!(once, h);
    assert_eq!(once[table[5]], h[table[5]] ^ [9u8, 8, 7, 6][5 % 4]);
    assert_eq!(x2m.decrypt_header(&once), h);
}

#[test]
fn ximalaya_decrypt_whole_file() {
    let table = permutation_table();
    let key: [u8; 32] = core::array::from_fn(|i| (i * 3 + 2) as u8);
    let d = new_from_key(&key, &table).unwrap();
    let mut file = header().to_vec();
    file.extend((0..500u32).map(|i| (i % 256) as u8));
    let out = d.decrypt(&file).unwrap();
    let mut expected = d.decrypt_header(&header()).to_vec();
    expected.extend_from_slice(&file[1024..]);
    assert_eq!(out, expected);
    assert_eq!(d.decrypt(&file[..1023]), Err(DecryptorError::IOError));
    assert_eq!(d.decrypt(&file[..1024]).unwrap(), d.decrypt_header(&header()).to_vec());
}

#[test]
fn xmly_crypto_decrypt_whole_file() {
    let table = permutation_table();
    let crypto = XmlyCrypto::<4>::new(&[9, 8, 7, 6], &table);
    let mut file = header().to_vec();
    file.extend_from_slice(b"tail bytes");
    let out = crypto.decrypt(&file).unwrap();
    assert_eq!(&out[..1024], &crypto.decrypt_header(&header())[..]);
    assert_eq!(&out[1024..], b"tail bytes");
    assert_eq!(crypto.decrypt(&[0u8; 10]), Err(DecryptorError::IOError));
}

#[test]
fn scramble_table_parse_and_range() {
    let mut bytes = [0u8; 2048];
    for i in 0..1024 {
        let v = ((i * 389 + 7) % 1024) as u16;
        bytes[2 * i..2 * i + 2].copy_from_slice(&v.to_le_bytes());
    }
    let table = scramble_table_from_bytes(&bytes);
    assert_eq!(table, permutation_table());
    assert!(table_fits(&table));
    bytes[10] = 0xff;
    bytes[11] = 0x03;
    let table = scramble_table_from_bytes(&bytes);
    assert_eq!(table[5], 0x3ff);
    assert!(table_fits(&table));
    bytes[11] = 0x04;
    assert_eq!(scramble_table_from_bytes(&bytes)[5], 0x4ff);
    assert!(!table_fits(&scramble_table_from_bytes(&bytes)));
}
