//! Momentum fair-value-gap scalping logic: candle classification, gap
//! detection, position sizing, the walk-forward backtest and the decisions
//! taken by the live trading loop.

pub mod decimal;
pub mod domain;
pub mod detector;
pub mod helpers;
pub mod backtest;
pub mod live;
pub mod config;
pub mod text;
pub mod mt5;
pub mod sse;
