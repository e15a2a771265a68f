//! Oracle consensus and reputation engine, with the fee, performance, import and
//! risk arithmetic of the signal registry and trading contracts.
pub mod assets;
pub mod contract;
pub mod errors;
pub mod external_adapter;
pub mod fees;
pub mod import;
pub mod median;
pub mod performance;
pub mod reputation;
pub mod risk;
pub mod types;
