//! Coupon aggregation engine: extraction of coupon records from fetched
//! content, a quality gate, layered deduplication, per-domain admission
//! control and a self-healing proxy pool.
pub mod coupon;
pub mod text;
pub mod patterns;

pub mod dedup;
pub mod validator;
pub mod proxy_manager;
pub mod rate_limiter;
pub mod parser;
pub mod fetcher;
pub mod engine;
