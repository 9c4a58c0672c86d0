pub mod decrypt_block;
pub mod kgm_crypto;
pub mod kgm_crypto_type2;
pub mod kgm_crypto_type3;
pub mod kgm_decryptor;
pub mod kgm_header;
pub mod modes;
pub mod utils;
