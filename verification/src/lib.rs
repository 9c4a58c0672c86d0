pub mod bytes;
pub mod interfaces;
pub mod kugou;
pub mod qrc;
pub mod sized_buffer;
pub mod tencent;
pub mod ximalaya;
