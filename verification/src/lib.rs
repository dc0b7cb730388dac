//! Quote, intraday and trading-session logic of a desktop stock ticker.

pub mod json;
pub mod text;
pub mod quote;
pub mod minute;
pub mod poll;
pub mod watchlist;
pub mod controls;
