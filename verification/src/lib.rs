//! Random data generation: raw and encoded bytes, digits, bounded integers,
//! passwords and passphrases, with the batch model that repeats an operation
//! and emits its results in order.

pub mod batch;
pub mod byte;
pub mod command;
pub mod decimal;
pub mod digit;
pub mod encode;
pub mod entropy;
pub mod error;
pub mod execute;
pub mod lines;
pub mod number;
pub mod order;
pub mod parse;
pub mod passphrase;
pub mod password;
pub mod range;
pub mod text;
pub mod time;
pub mod verbosity;
pub mod width;
