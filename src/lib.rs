//! A scrolling cryptocurrency price ticker: price store, segment builder,
//! scroll compositor and the decision logic of the streaming client.

pub mod config;
pub mod decimal;
pub mod icon;
pub mod scroll;
pub mod stream;
pub mod ticker;
