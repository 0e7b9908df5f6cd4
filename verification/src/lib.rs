//! Structured-data grep: shortcut filters, output colouring and schema hints.

pub mod text;
pub mod cli;
pub mod numeric;
pub mod utf8_len;
pub mod order;
pub mod shortcuts;
pub mod color;
pub mod input;
pub mod value;
pub mod engine;
pub mod matcher;
pub mod output;
pub mod explore;
pub mod schema;
pub mod run;
pub mod preview;
pub mod session;
pub mod discovery;
pub mod completion;
pub mod bench;
