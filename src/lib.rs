//! Synchronisation core of a semantic-highlighting language server: a store
//! of open documents and their classified tokens, a byte-to-position index
//! over each document's rope, and the relative delta encoding of tokens.

pub mod legend;
pub mod position;
pub mod encode;
pub mod store;
