use parakeet_crypto::interfaces::DecryptorError;
use parakeet_crypto::tencent::qmc2::QMC2;
use parakeet_crypto::tencent::qmc2_map::decrypt_map;
use parakeet_crypto::tencent::qmc_footer_parser::{QMCFooterParser, ENC_V2_PREFIX_TAG};

const TEST_KEY_SEED: u8 = 123;
const TEST_KEY_STAGE1: &[u8; 16] = &[
    11, 12, 13, 14, 15, 16, 17, 18, 21, 22, 23, 24, 25, 26, 27, 28,
];
const TEST_KEY_STAGE2: &[u8; 16] = &[
    31, 32, 33, 34, 35, 36, 37, 38, 41, 42, 43, 44, 45, 46, 47, 48,
];

/// The simple key of a seed: `|tan(seed + i / 10)| * 100` per byte.
fn make_key(seed: u8, size: usize) -> Vec<u8> {
    let seed = seed as f32;
    (0..size)
        .map(|i| {
            let angle = seed + (i as f32) * 0.1;
            (angle.tan().abs() * 100.0) as u8
        })
        .collect()
}

fn simple_key(seed: u8) -> [u8; 8] {
    make_key(seed, 8).try_into().unwrap()
}

fn create_default_key_v1() -> Box<[u8]> {
    let (header, body) = b"12345678Some Key".split_at(8);

    let simple_key = make_key(TEST_KEY_SEED, 8);
    let mut tea_key = [0u8; 16];
    for i in (0..16).step_by(2) {
        tea_key[i] = simple_key[i / 2];
        tea_key[i + 1] = header[i / 2];
    }

    let second_half_encrypted = tc_tea::encrypt(&body, tea_key).unwrap();
    let embed_key = [header, &second_half_encrypted].concat();

    base64::encode(embed_key).as_bytes().into()
}

fn create_default_key_v2() -> Box<[u8]> {
    let embed_key_v1 = create_default_key_v1();

    let embed_key_v2 = tc_tea::encrypt(embed_key_v1, TEST_KEY_STAGE2)
        .and_then(|key| tc_tea::encrypt(key, TEST_KEY_STAGE1))
        .unwrap();

    let embed_key_v2 = [&ENC_V2_PREFIX_TAG[..], &embed_key_v2].concat();

    base64::encode(embed_key_v2).as_bytes().into()
}

#[test]
fn parse_v1_pc() {
    let parser = QMCFooterParser::new(TEST_KEY_SEED);
    let mut footer = create_default_key_v1().to_vec();
    let mut footer_len = (footer.len() as u32).to_le_bytes().to_vec();
    footer.append(&mut footer_len);

    let expected_trim_right = footer.len();

    let (trim_right, decrypted) = parser.parse(&footer, &simple_key(TEST_KEY_SEED)).unwrap();
    assert_eq!(trim_right, expected_trim_right);
    assert_eq!(decrypted.to_vec(), b"12345678Some Key".to_vec());
}

#[test]
fn parse_v2_pc() {
    let parser = QMCFooterParser::new_enc_v2(TEST_KEY_SEED, *TEST_KEY_STAGE1, *TEST_KEY_STAGE2);
    let mut footer = create_default_key_v2().to_vec();
    let mut footer_len = (footer.len() as u32).to_le_bytes().to_vec();
    footer.append(&mut footer_len);

    let expected_trim_right = footer.len();

    let (trim_right, decrypted) = parser.parse(&footer, &simple_key(TEST_KEY_SEED)).unwrap();
    assert_eq!(trim_right, expected_trim_right);
    assert_eq!(decrypted.to_vec(), b"12345678Some Key".to_vec());
}

#[test]
fn parse_v2_q_tag() {
    let parser = QMCFooterParser::new_enc_v2(TEST_KEY_SEED, *TEST_KEY_STAGE1, *TEST_KEY_STAGE2);
    let mut footer = create_default_key_v2().to_vec();
    let mut tmp = Vec::from(b",12345,2" as &[u8]);
    footer.append(&mut tmp);
    let mut footer_len = (footer.len() as u32).to_be_bytes().to_vec();
    footer.append(&mut footer_len);
    let mut tmp = Vec::from(b"QTag" as &[u8]);
    footer.append(&mut tmp);

    let expected_trim_right = footer.len();

    let (trim_right, decrypted) = parser.parse(&footer, &simple_key(TEST_KEY_SEED)).unwrap();
    assert_eq!(trim_right, expected_trim_right);
    assert_eq!(decrypted.to_vec(), b"12345678Some Key".to_vec());
}

#[test]
fn parse_non_sense() {
    let parser = QMCFooterParser::new(0);
    let footer = vec![0xff, 0xff, 0xff, 0xff];
    assert!(
        parser.parse(&footer, &simple_key(0)).is_err(),
        "should not allow 0xffffffff magic"
    )
}

#[test]
fn parse_android_s_tag() {
    let parser = QMCFooterParser::new(0);
    let footer = b"1111STag".to_vec();
    assert_eq!(
        parser.parse(&footer, &simple_key(0)).unwrap_err(),
        DecryptorError::QMCAndroidSTag
    );
}

#[test]
fn parse_footer_too_short_is_io_error() {
    let parser = QMCFooterParser::new(0);
    assert_eq!(
        parser.parse(&[1, 2, 3], &simple_key(0)).unwrap_err(),
        DecryptorError::IOError
    );
    // The size field claims more bytes than the file holds.
    let footer = vec![0x10, 0x00, 0x00, 0x00];
    assert_eq!(
        parser.parse(&footer, &simple_key(0)).unwrap_err(),
        DecryptorError::IOError
    );
}

#[test]
fn parse_invalid_footer_reports_magic() {
    let parser = QMCFooterParser::new(0);
    let footer = vec![0x01, 0x04, 0x00, 0x00];
    assert_eq!(
        parser.parse(&footer, &simple_key(0)).unwrap_err(),
        DecryptorError::QMCInvalidFooter(0x401)
    );
}

#[test]
fn parse_q_tag_without_comma() {
    let parser = QMCFooterParser::new(0);
    let mut footer = b"abcd".to_vec();
    footer.extend_from_slice(&4u32.to_be_bytes());
    footer.extend_from_slice(b"QTag");
    assert_eq!(
        parser.parse(&footer, &simple_key(0)).unwrap_err(),
        DecryptorError::QMCAndroidQTagInvalid
    );
}

#[test]
fn parse_rejects_non_utf8_key() {
    let parser = QMCFooterParser::new(0);
    let mut footer = vec![0xff, 0xfe, 0x41, 0x41];
    footer.extend_from_slice(&4u32.to_le_bytes());
    assert_eq!(
        parser.parse(&footer, &simple_key(0)).unwrap_err(),
        DecryptorError::StringEncodeError
    );
}

#[test]
fn parse_rejects_bad_base64() {
    let parser = QMCFooterParser::new(0);
    let mut footer = b"!!!!".to_vec();
    footer.extend_from_slice(&4u32.to_le_bytes());
    assert_eq!(
        parser.parse(&footer, &simple_key(0)).unwrap_err(),
        DecryptorError::Base64DecodeError
    );
}

#[test]
fn parse_rejects_wrong_tea_key() {
    // Right layout, wrong seed: the TEA layer does not decrypt.
    let parser = QMCFooterParser::new(TEST_KEY_SEED.wrapping_add(1));
    let mut footer = create_default_key_v1().to_vec();
    let mut footer_len = (footer.len() as u32).to_le_bytes().to_vec();
    footer.append(&mut footer_len);
    assert_eq!(
        parser
            .parse(&footer, &simple_key(TEST_KEY_SEED.wrapping_add(1)))
            .unwrap_err(),
        DecryptorError::TEADecryptError
    );
}

#[test]
fn try_parse_leaves_out_short_keys() {
    // A key that decodes to fewer than eight bytes.
    let parser = QMCFooterParser::new(0);
    let mut footer = base64::encode([1u8, 2, 3]).into_bytes();
    let len = footer.len() as u32;
    footer.extend_from_slice(&len.to_le_bytes());
    assert!(parser.try_parse(&footer, &simple_key(0)).is_none());

    let mut good = create_default_key_v1().to_vec();
    let len = good.len() as u32;
    good.extend_from_slice(&len.to_le_bytes());
    let parser = QMCFooterParser::new(TEST_KEY_SEED);
    let (trim, key) = parser
        .try_parse(&good, &simple_key(TEST_KEY_SEED))
        .unwrap()
        .unwrap();
    assert_eq!(trim, good.len());
    assert_eq!(key, b"12345678Some Key".to_vec());
}

/// A v1 footer key for `plain` (at least eight bytes), base64 encoded.
fn create_key_v1(plain: &[u8]) -> Vec<u8> {
    let (header, body) = plain.split_at(8);
    let simple_key = make_key(TEST_KEY_SEED, 8);
    let mut tea_key = [0u8; 16];
    for i in (0..16).step_by(2) {
        tea_key[i] = simple_key[i / 2];
        tea_key[i + 1] = header[i / 2];
    }
    let body = tc_tea::encrypt(body, tea_key).unwrap();
    base64::encode([header, &body].concat()).into_bytes()
}

fn file_with_footer(data: &[u8], raw_key: &[u8]) -> Vec<u8> {
    let mut file = data.to_vec();
    file.extend_from_slice(raw_key);
    file.extend_from_slice(&(raw_key.len() as u32).to_le_bytes());
    file
}

#[test]
fn qmc2_decrypts_map_file() {
    let key = b"12345678Some Key";
    let audio: Vec<u8> = (0..5000u32).map(|i| (i * 7 % 256) as u8).collect();
    let mut encrypted = audio.clone();
    decrypt_map(key, &mut encrypted);
    assert_ne!(encrypted, audio);

    let file = file_with_footer(&encrypted, &create_key_v1(key));
    let qmc2 = QMC2::new(QMCFooterParser::new(TEST_KEY_SEED));
    let decrypted = qmc2.decrypt(&file, &simple_key(TEST_KEY_SEED)).unwrap();
    assert_eq!(decrypted, audio);
    assert_eq!(qmc2.check(&file, &simple_key(TEST_KEY_SEED)), Ok(true));
    assert_eq!(
        qmc2.try_decrypt(&file, &simple_key(TEST_KEY_SEED)),
        Some(Ok(audio))
    );
}

#[test]
fn qmc2_decrypt_reports_footer_errors() {
    let qmc2 = QMC2::new(QMCFooterParser::new(0));
    let file = vec![1, 2, 3, 0xff, 0xff, 0xff, 0xff];
    assert_eq!(
        qmc2.decrypt(&file, &simple_key(0)),
        Err(DecryptorError::QMCInvalidFooter(0xffffffff))
    );
    assert_eq!(
        qmc2.check(&file, &simple_key(0)),
        Err(DecryptorError::QMCInvalidFooter(0xffffffff))
    );
}

#[test]
fn qmc2_try_decrypt_leaves_out_rc4_keys() {
    let key: Vec<u8> = (0..400u32).map(|i| (i % 200 + 1) as u8).collect();
    let file = file_with_footer(&[0u8; 64], &create_key_v1(&key));
    let qmc2 = QMC2::new(QMCFooterParser::new(TEST_KEY_SEED));
    assert_eq!(qmc2.try_decrypt(&file, &simple_key(TEST_KEY_SEED)), None);
    // the parse itself is defined there, and gives the key
    let (_, parsed) = qmc2
        .get_parser()
        .try_parse(&file, &simple_key(TEST_KEY_SEED))
        .unwrap()
        .unwrap();
    assert_eq!(parsed, key);
    // a key of exactly 300 bytes is still the map cipher's
    let key300: Vec<u8> = (0..300u32).map(|i| (i % 200 + 1) as u8).collect();
    let audio = vec![3u8; 100];
    let mut enc = audio.clone();
    decrypt_map(&key300, &mut enc);
    let file = file_with_footer(&enc, &create_key_v1(&key300));
    assert_eq!(
        qmc2.try_decrypt(&file, &simple_key(TEST_KEY_SEED)),
        Some(Ok(audio))
    );
}

#[test]
fn qmc2_try_decrypt_leaves_out_short_keys() {
    let qmc2 = QMC2::new(QMCFooterParser::new(TEST_KEY_SEED));
    let raw = base64::encode(b"1234567").into_bytes();
    let file = file_with_footer(&[0u8; 16], &raw);
    assert_eq!(qmc2.try_decrypt(&file, &simple_key(TEST_KEY_SEED)), None);
    assert_eq!(qmc2.try_check(&file, &simple_key(TEST_KEY_SEED)), None);
    let bad = vec![0xff, 0xff, 0xff, 0xff];
    assert_eq!(
        qmc2.try_check(&bad, &simple_key(TEST_KEY_SEED)),
        Some(Err(DecryptorError::QMCInvalidFooter(0xffffffff)))
    );
}
