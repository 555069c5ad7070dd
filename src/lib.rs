//! A central limit order book matching engine for one trading symbol.
//!
//! The order book and its price/time-priority matching, the engine's
//! per-request decisions, and the boundary validation and message shaping
//! are verified here; transport, timers and storage live outside.

pub mod decimal;
pub mod order;
pub mod order_book;
pub mod laws;
pub mod engine;
pub mod api;
pub mod market_data;
pub mod simulation;
pub mod journal;
