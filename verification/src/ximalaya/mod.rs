pub mod xmly;
pub mod xmly_crypto;
pub mod xmly_decryptor;
