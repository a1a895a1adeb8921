//! Fan-out, fan-in and multi-queue correlation for values flowing between
//! stream agents, together with the small stateless transforms that sit
//! beside them.

pub mod collect;
pub mod context;
pub mod correlate;
pub mod counter;
pub mod data;
pub mod error;
pub mod json;
pub mod split;
pub mod text;
pub mod value;
pub mod yaml;
