use std::io::Write;
use parakeet_crypto::interfaces::DecryptorError;
use parakeet_crypto::qrc::des_impl::{DESMode, Des};
use parakeet_crypto::qrc::int_helper::{make_u64, map_u32_bits, map_u64, swap_u64_side, u64_get_hi32, u64_get_lo32};
use parakeet_crypto::qrc::reader::QrcDesReader;
use parakeet_crypto::sized_buffer::SizedBuffer;

#[test]
fn des_roundtrip_and_alignment() {
    let des = Des::new(b"\x01\x23\x45\x67\x89\xab\xcd\xef");
    let plain: Vec<u8> = (0..64u8).collect();
    let mut buf = plain.clone();
    des.encrypt_bytes(&mut buf).unwrap();
    assert_ne!(buf, plain);
    des.decrypt_bytes(&mut buf).unwrap();
    assert_eq!(buf, plain);

    let mut odd = [1u8, 2, 3];
    assert!(des.encrypt_bytes(&mut odd).is_none());
    assert_eq!(odd, [1, 2, 3]);

    let block = 0x0123_4567_89ab_cdefu64;
    let e = des.crypt_block::<true>(block);
    assert_eq!(des.crypt_block::<false>(e), block);
}

#[test]
fn int_helpers() {
    assert_eq!(make_u64(0x1122_3344, 0x5566_7788), 0x1122_3344_5566_7788);
    assert_eq!(swap_u64_side(0x1122_3344_5566_7788), 0x5566_7788_1122_3344);
    assert_eq!(u64_get_lo32(0x1122_3344_5566_7788), 0x5566_7788);
    assert_eq!(u64_get_hi32(0x1122_3344_5566_7788), 0x1122_3344);
    // index 0 is the top bit of the low word, index 32 the top bit of the high word
    assert_eq!(map_u64(0x8000_0000, &[0, 0]), 0x8000_0000_8000_0000);
    assert_eq!(map_u64(1u64 << 63, &[32, 1]), 0x8000_0000);
    assert_eq!(map_u32_bits(0x8000_0000, &[1, 0]), 0x4000_0000);
}

#[test]
fn sized_buffer_consume_and_push() {
    let mut b = SizedBuffer::<8>::default();
    let mut out = [9u8; 4];
    assert_eq!(b.consume(&mut out), 0);
    assert_eq!(out, [9; 4]);
    // push copies at most the free room and reports how much it took
    assert_eq!(b.push(&[1, 2, 3]), 3);
    assert_eq!(b.push(&[4, 5, 6, 7, 8, 9, 10]), 5);
    assert_eq!(b.push(&[11]), 0);
    // the pushed bytes come back out, oldest first
    assert_eq!(b.consume(&mut out), 4);
    assert_eq!(out, [1, 2, 3, 4]);
    assert_eq!(b.push(&[20, 21]), 2);
    let mut rest = [0u8; 10];
    assert_eq!(b.consume(&mut rest), 6);
    assert_eq!(rest, [5, 6, 7, 8, 20, 21, 0, 0, 0, 0]);
    assert_eq!(b.consume(&mut rest), 0);
}

#[test]
fn reader_steps() {
    assert_eq!(QrcDesReader::bulk_len(8), 0);
    assert_eq!(QrcDesReader::bulk_len(9), 8);
    assert_eq!(QrcDesReader::bulk_len(23), 16);

    let des = Des::new(b"TEST!KEY");
    let reader = QrcDesReader::new(des, DESMode::Encrypt);
    let mut data = [1u8, 2, 3, 4, 5, 6, 7, 8, 9, 0, 1, 2, 3, 4, 5, 6];
    reader.transform_blocks(&mut data).unwrap();
    assert_eq!(data[..8], [0xFD, 0x0E, 0x64, 0x06, 0x65, 0xBE, 0x74, 0x13]);
    let mut bad = [0u8; 5];
    assert_eq!(
        reader.transform_blocks(&mut bad).unwrap_err(),
        DecryptorError::QrcDesblockAlignment
    );

    let mut reader = QrcDesReader::new(des, DESMode::Encrypt);
    let mut out = [0u8; 3];
    assert_eq!(reader.finish_partial([1, 2, 3, 4, 5, 6, 7, 8], &mut out), 3);
    assert_eq!(out, [0xFD, 0x0E, 0x64]);
    let mut block = [1u8, 2, 3, 4, 5, 6, 7, 8];
    reader.transform_blocks(&mut block).unwrap();
    let mut later = [0u8; 2];
    assert_eq!(reader.take_buffered(&mut later), 2);
    assert_eq!(later, [block[3], block[4]]);
    let mut last = [0u8; 8];
    assert_eq!(reader.take_buffered(&mut last), 3);
    assert_eq!(last[..3], block[5..]);
}

fn stream(len: usize) -> Vec<u8> {
    (0..len).map(|i| (i * 31 + 7) as u8).collect()
}

#[test]
fn reader_reads_stream_in_order() {
    let des = Des::new(b"TEST!KEY");
    let upstream = stream(200);
    let mut expected = upstream.clone();
    des.decrypt_bytes(&mut expected).unwrap();

    // requests of every shape: small, partial blocks, bulk
    for sizes in [vec![3usize, 5, 16, 1, 40, 7, 200], vec![16, 24, 64, 200], vec![1; 210]] {
        let mut reader = QrcDesReader::new(des, DESMode::Decrypt);
        let mut pos = 0usize;
        let mut got = Vec::new();
        for n in sizes {
            let mut buf = vec![0u8; n];
            let c = reader.read(&upstream, &mut pos, &mut buf).unwrap();
            got.extend_from_slice(&buf[..c]);
            if got.len() == upstream.len() {
                break;
            }
        }
        assert_eq!(got, expected);
    }
}

#[test]
fn reader_refuses_misaligned_stream() {
    let des = Des::new(b"TEST!KEY");
    let upstream = stream(20);
    let mut reader = QrcDesReader::new(des, DESMode::Decrypt);
    let mut pos = 0usize;
    let mut buf = [0u8; 32];
    assert_eq!(
        reader.read(&upstream, &mut pos, &mut buf),
        Err(DecryptorError::QrcDesblockAlignment)
    );
    assert_eq!(pos, 20);

    let mut reader = QrcDesReader::new(des, DESMode::Decrypt);
    let mut pos = 16usize;
    let mut small = [0u8; 3];
    assert_eq!(
        reader.read(&upstream, &mut pos, &mut small),
        Err(DecryptorError::QrcDesblockAlignment)
    );
}

fn qrc_keys() -> ([u8; 8], [u8; 8], [u8; 8]) {
    (*b"first!!!", *b"second!!", *b"third!!!")
}

/// A body the way a QRC file holds it: zlib, then the three DES passes done.
fn scrambled_body(plain: &[u8]) -> Vec<u8> {
    let mut z = flate2::write::ZlibEncoder::new(Vec::new(), flate2::Compression::default());
    z.write_all(plain).unwrap();
    let mut body = z.finish().unwrap();
    while body.len() % 8 != 0 {
        body.push(0);
    }
    let (k1, k2, k3) = qrc_keys();
    Des::new(&k3).encrypt_bytes(&mut body).unwrap();
    Des::new(&k2).decrypt_bytes(&mut body).unwrap();
    Des::new(&k1).encrypt_bytes(&mut body).unwrap();
    body
}

#[test]
fn qrc_decode_lyrics() {
    let lyrics = b"[ti:Test]\n[00:01.00]first line\n[00:02.50]second line\n".to_vec();
    let body = scrambled_body(&lyrics);
    let (k1, k2, k3) = qrc_keys();
    let qrc = parakeet_crypto::qrc::qrc_impl::Qrc::new(&k1, &k2, &k3);
    assert_eq!(qrc.decode(&body).unwrap(), lyrics);

    let mut manual = body.clone();
    Des::new(&k1).decrypt_bytes(&mut manual).unwrap();
    Des::new(&k2).encrypt_bytes(&mut manual).unwrap();
    Des::new(&k3).decrypt_bytes(&mut manual).unwrap();
    assert_eq!(qrc.unscramble(&body).unwrap(), manual);
}

#[test]
fn qrc_decode_errors() {
    let (k1, k2, k3) = qrc_keys();
    let qrc = parakeet_crypto::qrc::qrc_impl::Qrc::new(&k1, &k2, &k3);
    assert_eq!(qrc.decode(&[0u8; 13]), Err(DecryptorError::QrcDesblockAlignment));
    assert_eq!(qrc.unscramble(&[0u8; 7]), Err(DecryptorError::QrcDesblockAlignment));
    assert_eq!(qrc.decode(&[0u8; 16]), Err(DecryptorError::IOError));
    assert_eq!(
        parakeet_crypto::qrc::qrc_impl::inflated_lyrics(Some(vec![1, 2])),
        Ok(vec![1, 2])
    );
    assert_eq!(
        parakeet_crypto::qrc::qrc_impl::inflated_lyrics(None),
        Err(DecryptorError::IOError)
    );
}
