pub mod codecs;
pub mod qmc2;
pub mod qmc2_map;
pub mod qmc_footer_parser;
