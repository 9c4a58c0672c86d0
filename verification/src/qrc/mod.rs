pub mod data;
pub mod des_impl;
pub mod des_laws;
pub mod int_helper;
pub mod reader;
pub mod qrc_impl;
