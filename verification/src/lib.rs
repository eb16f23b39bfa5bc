//! Encoding of multi-hop arbitrage routes into the compact calldata layout
//! consumed by an on-chain executor.

pub mod arbitrage_request;
pub mod big_endian;
pub mod decimal;
pub mod encoder;
pub mod hex_text;
pub mod output;
pub mod pool_address;
pub mod text;

pub use arbitrage_request::ArbitrageRequest;
pub use encoder::{encode_arbitrage_request, encode_route, EncodeError};
