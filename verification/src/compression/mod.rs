pub mod bitstreams;
pub mod lzw;
pub mod lzw_round_trip;
