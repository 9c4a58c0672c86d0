use std::collections::HashMap;

use parakeet_crypto::kugou::decrypt_block::decrypt_block;
use parakeet_crypto::kugou::kgm_crypto::KGMCrypto;
use parakeet_crypto::kugou::kgm_crypto_type2::KGMCryptoType2;
use parakeet_crypto::kugou::kgm_crypto_type3::KGMCryptoType3;
use parakeet_crypto::kugou::kgm_decryptor::KGM;
use parakeet_crypto::kugou::kgm_header::{KGMHeader, KGM_MAGIC, KGM_TEST_DATA, VPR_MAGIC, VPR_TEST_DATA};
use parakeet_crypto::kugou::modes::{CipherError, CipherModes};
use parakeet_crypto::kugou::utils::md5_kugou;

fn sample(len: usize) -> Vec<u8> {
    (0..len).map(|i| (i * 37 + 11) as u8).collect()
}

#[test]
fn md5_kugou_reverses_word_order() {
    // MD5("") = d41d8cd98f00b204e9800998ecf8427e
    assert_eq!(
        md5_kugou(b""),
        [
            0x42, 0x7e, 0xec, 0xf8, 0x09, 0x98, 0xe9, 0x80, 0xb2, 0x04, 0x8f, 0x00, 0x8c, 0xd9,
            0xd4, 0x1d
        ]
    );
}

#[test]
fn type2_known_bytes() {
    let mut c = KGMCryptoType2::new();
    c.expand_file_key(&[0x01, 0x02]);
    let mut buf = [0x10u8, 0x20, 0x30];
    c.encrypt(1, &mut buf);
    // t = b ^ key[(1 + i) % 2]; t ^= t << 4
    let expect = |b: u8, k: u8| {
        let t = b ^ k;
        t ^ (t << 4)
    };
    assert_eq!(buf, [expect(0x10, 0x02), expect(0x20, 0x01), expect(0x30, 0x02)]);
    c.decrypt(1, &mut buf);
    assert_eq!(buf, [0x10, 0x20, 0x30]);
}

#[test]
fn type2_roundtrip() {
    let mut c = KGMCryptoType2::new();
    c.expand_slot_key(b"ignored");
    c.expand_file_key(b"some file key");
    let plain = sample(300);
    let mut buf = plain.clone();
    c.encrypt(12345, &mut buf);
    assert_ne!(buf, plain);
    c.decrypt(12345, &mut buf);
    assert_eq!(buf, plain);
}

#[test]
fn type3_roundtrip_and_decrypt_block_agree() {
    let mut c = KGMCryptoType3::new();
    c.expand_slot_key(b"slot key");
    c.expand_file_key(b"file key");
    let plain = sample(1000);
    let mut enc = plain.clone();
    c.encrypt(0x1_0000_0005, &mut enc);
    assert_ne!(enc, plain);

    let mut dec = enc.clone();
    c.decrypt(0x1_0000_0005, &mut dec);
    assert_eq!(dec, plain);

    let key1 = md5_kugou(b"slot key");
    let mut key2 = md5_kugou(b"file key").to_vec();
    key2.push(0x6b);
    let mut dec2 = enc.clone();
    decrypt_block(0x1_0000_0005, &mut dec2, &key1, &key2);
    assert_eq!(dec2, plain);
}

#[test]
fn decrypt_block_known_byte() {
    let mut buf = [0x5au8];
    // offset 0x0102: offset bytes xor = 0x02 ^ 0x01
    decrypt_block(0x0102, &mut buf, &[0x33], &[0x44]);
    let t = 0x5au8 ^ 0x44;
    let t = t ^ (t << 4) ^ 0x33;
    let t = t ^ 0x02 ^ 0x01;
    assert_eq!(buf, [t]);
}

fn header_bytes(magic: &[u8; 16], version: u32, slot: u32, test_data: &[u8; 16], file_key: &[u8; 16]) -> Vec<u8> {
    let mut v = magic.to_vec();
    v.extend_from_slice(&0x400u32.to_le_bytes());
    v.extend_from_slice(&version.to_le_bytes());
    v.extend_from_slice(&slot.to_le_bytes());
    v.extend_from_slice(test_data);
    v.extend_from_slice(file_key);
    v
}

#[test]
fn header_from_bytes_layout() {
    let bytes = header_bytes(&KGM_MAGIC, 3, 1, &[7u8; 16], &[9u8; 16]);
    let h = KGMHeader::from_bytes(&bytes).unwrap();
    assert_eq!(h.magic, KGM_MAGIC);
    assert_eq!(h.offset_to_data, 0x400);
    assert_eq!(h.crypto_version, 3);
    assert_eq!(h.key_slot, 1);
    assert_eq!(h.decryptor_test_data, [7u8; 16]);
    assert_eq!(h.file_key, [9u8; 16]);
    assert_eq!(h.get_challenge(), Some(KGM_TEST_DATA));
    assert!(KGMHeader::from_bytes(&bytes[..59]).is_none());

    let vpr = KGMHeader::from_bytes(&header_bytes(&VPR_MAGIC, 3, 1, &[0; 16], &[0; 16])).unwrap();
    assert_eq!(vpr.get_challenge(), Some(VPR_TEST_DATA));
    let other = KGMHeader::from_bytes(&[0u8; 60]).unwrap();
    assert_eq!(other.get_challenge(), None);
}

fn slot_keys() -> HashMap<u32, Vec<u8>> {
    let mut m = HashMap::new();
    m.insert(1u32, b"the slot key".to_vec());
    m
}

#[test]
fn cipher_modes_accepts_matching_test_data() {
    let file_key = [3u8; 16];
    let mut c = KGMCryptoType3::new();
    c.expand_slot_key(b"the slot key");
    c.expand_file_key(&file_key);
    let mut test_data = KGM_TEST_DATA;
    c.encrypt(0, &mut test_data);

    let hdr = KGMHeader::from_bytes(&header_bytes(&KGM_MAGIC, 3, 1, &test_data, &file_key)).unwrap();
    let kgm = KGM::new(&slot_keys());
    let cipher = kgm.create_cipher(&hdr).unwrap();
    assert!(matches!(cipher, CipherModes::Mode3(_)));
    let mut probe = hdr.decryptor_test_data;
    cipher.decipher_buffer(0, &mut probe);
    assert_eq!(probe, KGM_TEST_DATA);
    assert_eq!(cipher.decipher_byte(0, test_data[0]), KGM_TEST_DATA[0]);
    assert_eq!(cipher.encipher_byte(0, KGM_TEST_DATA[0]), test_data[0]);

    let mut c2 = KGMCryptoType2::new();
    c2.expand_file_key(b"the slot key");
    let mut test_data2 = VPR_TEST_DATA;
    c2.encrypt(0, &mut test_data2);
    let hdr2 = KGMHeader::from_bytes(&header_bytes(&VPR_MAGIC, 2, 1, &test_data2, &[0; 16])).unwrap();
    let cipher2 = CipherModes::new(&hdr2, &slot_keys()).unwrap();
    assert!(matches!(cipher2, CipherModes::Mode2(_)));
}

#[test]
fn cipher_modes_errors() {
    let keys = slot_keys();
    let unknown = KGMHeader::from_bytes(&header_bytes(&[0; 16], 3, 1, &[0; 16], &[0; 16])).unwrap();
    assert!(matches!(
        CipherModes::new(&unknown, &keys),
        Err(CipherError::CouldNotGenerateChallenge)
    ));

    let missing = KGMHeader::from_bytes(&header_bytes(&KGM_MAGIC, 3, 9, &[0; 16], &[0; 16])).unwrap();
    assert!(matches!(
        CipherModes::new(&missing, &keys),
        Err(CipherError::SlotKeyMissing(9))
    ));

    let unsupported = KGMHeader::from_bytes(&header_bytes(&KGM_MAGIC, 7, 1, &[0; 16], &[0; 16])).unwrap();
    assert!(matches!(
        CipherModes::new(&unsupported, &keys),
        Err(CipherError::UnsupportedCipherVersion(7))
    ));

    let wrong = KGMHeader::from_bytes(&header_bytes(&KGM_MAGIC, 3, 1, &[0; 16], &[0; 16])).unwrap();
    match CipherModes::new(&wrong, &keys) {
        Err(CipherError::ChallengeValidationFail(expected, got)) => {
            assert_eq!(expected, KGM_TEST_DATA.to_vec());
            assert_eq!(got.len(), 16);
            assert_ne!(got, expected);
        }
        _ => panic!("expected a challenge failure"),
    }
}

fn accepted_type3_header() -> KGMHeader {
    let file_key = [5u8; 16];
    let mut c = KGMCryptoType3::new();
    c.expand_slot_key(b"the slot key");
    c.expand_file_key(&file_key);
    let mut test_data = KGM_TEST_DATA;
    c.encrypt(0, &mut test_data);
    KGMHeader::from_bytes(&header_bytes(&KGM_MAGIC, 3, 1, &test_data, &file_key)).unwrap()
}

#[test]
fn kgm_encrypt_then_decrypt() {
    let kgm = KGM::new(&slot_keys());
    let hdr = accepted_type3_header();
    assert!(matches!(kgm.check(&hdr), Ok(true)));

    let audio = sample(5000);
    let data = kgm.encrypt(&hdr, &audio).unwrap();
    assert_ne!(data, audio);

    let mut c = KGMCryptoType3::new();
    c.expand_slot_key(b"the slot key");
    c.expand_file_key(&[5u8; 16]);
    let mut expected = audio.clone();
    c.encrypt(0, &mut expected);
    assert_eq!(data, expected);

    assert_eq!(kgm.decrypt(&hdr, &data).unwrap(), audio);
}

#[test]
fn kgm_decrypt_type2_file() {
    let mut c2 = KGMCryptoType2::new();
    c2.expand_file_key(b"the slot key");
    let mut test_data = KGM_TEST_DATA;
    c2.encrypt(0, &mut test_data);
    let hdr = KGMHeader::from_bytes(&header_bytes(&KGM_MAGIC, 2, 1, &test_data, &[0; 16])).unwrap();

    let audio = sample(777);
    let mut data = audio.clone();
    c2.encrypt(0, &mut data);

    let kgm = KGM::new(&slot_keys());
    assert_eq!(kgm.decrypt(&hdr, &data).unwrap(), audio);
}

#[test]
fn kgm_decrypt_reports_setup_errors() {
    let kgm = KGM::new(&slot_keys());
    let missing = KGMHeader::from_bytes(&header_bytes(&KGM_MAGIC, 3, 4, &[0; 16], &[0; 16])).unwrap();
    assert!(matches!(
        kgm.decrypt(&missing, &[1, 2, 3]),
        Err(CipherError::SlotKeyMissing(4))
    ));
    assert!(matches!(kgm.check(&missing), Err(CipherError::SlotKeyMissing(4))));
    let wrong = KGMHeader::from_bytes(&header_bytes(&VPR_MAGIC, 3, 1, &[0; 16], &[0; 16])).unwrap();
    assert!(matches!(
        kgm.encrypt(&wrong, &[1, 2, 3]),
        Err(CipherError::ChallengeValidationFail(_, _))
    ));
}

#[test]
fn kgm_decrypt_whole_file() {
    let kgm = KGM::new(&slot_keys());
    let file_key = [5u8; 16];
    let mut c = KGMCryptoType3::new();
    c.expand_slot_key(b"the slot key");
    c.expand_file_key(&file_key);
    let mut test_data = KGM_TEST_DATA;
    c.encrypt(0, &mut test_data);
    // a header with its data offset at 0x400 (see header_bytes), padded to it
    let mut file = header_bytes(&KGM_MAGIC, 3, 1, &test_data, &file_key);
    file.resize(0x400, 0xaa);
    let audio = sample(3000);
    let mut data = audio.clone();
    c.encrypt(0, &mut data);
    file.extend_from_slice(&data);
    assert_eq!(kgm.decrypt_file(&file).unwrap(), audio);

    assert!(matches!(
        kgm.decrypt_file(&file[..59]),
        Err(CipherError::ParseHeaderFail)
    ));
    assert!(matches!(
        kgm.decrypt_file(&file[..0x3ff]),
        Err(CipherError::NotEnoughData(0x400))
    ));
    assert_eq!(kgm.decrypt_file(&file[..0x400]).unwrap(), Vec::<u8>::new());
}
