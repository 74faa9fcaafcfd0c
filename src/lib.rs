//! A date-indexed chat history: parses a timestamped transcript into days
//! and chats, and answers lookups by date, by keyword and at random.

pub mod datetime;
pub mod header;
pub mod history;
pub mod laws;
pub mod model;
pub mod parse;
pub mod text;

pub use datetime::{Date, Time};
pub use history::{History, HistoryError};
pub use model::{Chat, Day, LineContent};
pub use parse::ParseError;
