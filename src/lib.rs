//! Loads description records from delimited text into a table, replacing its rows
//! all or nothing, and serves the rows by source id or in keyset pages.
pub mod record;
pub mod timestamp;
pub mod parse;
pub mod description;
pub mod error;
pub mod table;
pub mod laws;
pub mod paging;
pub mod load;
pub mod path;
