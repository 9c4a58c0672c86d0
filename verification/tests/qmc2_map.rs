use parakeet_crypto::tencent::qmc2::QMC2;
use parakeet_crypto::tencent::qmc2_map::{decrypt_map, QMC2Map};
use parakeet_crypto::tencent::qmc_footer_parser::QMCFooterParser;

fn key() -> Vec<u8> {
    (0..128).map(|i| (i * 29 + 3) as u8).collect()
}

fn xor_value(key: &[u8], offset: usize) -> u8 {
    let idx = ((offset * offset + 71214) % key.len()) as u8;
    let x = key[idx as usize];
    let r = ((idx & 7) + 4) % 8;
    (x << r) | (x >> r)
}

#[test]
fn map_xor_value_formula() {
    let k = key();
    let map = QMC2Map::new(&k);
    for off in [0usize, 1, 77, 0x7ffe, 0x7fff] {
        assert_eq!(map.get_xor_value(off), xor_value(&k, off));
    }
}

#[test]
fn map_stream_matches_block_schedule() {
    let k = key();
    let map = QMC2Map::new(&k);
    let len = 0x7fff * 3 + 100;
    let data: Vec<u8> = (0..len).map(|i| (i % 251) as u8).collect();

    let mut by_stream = data.clone();
    map.decrypt_stream(0, &mut by_stream);

    let mut by_blocks = data.clone();
    map.decrypt_block(&mut by_blocks[..0x7fff], 0);
    map.decrypt_block(&mut by_blocks[0x7fff..0x8000], 0x7fff);
    map.decrypt_block(&mut by_blocks[0x8000..0xfffe], 1);
    let mut pos = 0xfffe;
    while pos < len {
        let end = (pos + 0x7fff).min(len);
        map.decrypt_block(&mut by_blocks[pos..end], 0);
        pos = end;
    }
    assert_eq!(by_stream, by_blocks);

    let mut by_file = data.clone();
    decrypt_map(&k, &mut by_file);
    assert_eq!(by_file, by_blocks);

    map.decrypt_stream(0, &mut by_stream);
    assert_eq!(by_stream, data);
}

#[test]
fn map_offsets() {
    assert_eq!(QMC2Map::map_offset(0x7fff), 0x7fff);
    assert_eq!(QMC2Map::map_offset(0x8000), 1);
    assert_eq!(QMC2Map::map_offset(0xfffe), 0);
}

#[test]
fn stream_decryptor_by_key_length() {
    let k = key();
    let m = QMC2::new_stream_decryptor(&k);
    assert_eq!(m.get_xor_value(5), xor_value(&k, 5));
    let long = [7u8; 300];
    let m = QMC2::new_stream_decryptor(&long);
    assert_eq!(m.get_xor_value(0x7fff), xor_value(&long, 0x7fff));
    let qmc2 = QMC2::new(QMCFooterParser::new(42));
    assert_eq!(qmc2.get_parser().get_seed(), 42);
}

#[test]
fn decrypt_map_short_inputs() {
    let k = key();
    for len in [0usize, 1, 0x7ffe, 0x7fff, 0x8000, 0x8001, 0xfffe, 0xffff] {
        let data: Vec<u8> = (0..len).map(|i| (i % 7) as u8).collect();
        let mut out = data.clone();
        decrypt_map(&k, &mut out);
        for (i, (a, b)) in out.iter().zip(data.iter()).enumerate() {
            assert_eq!(*a, *b ^ xor_value(&k, QMC2Map::map_offset(i)));
        }
        decrypt_map(&k, &mut out);
        assert_eq!(out, data);
    }
}
