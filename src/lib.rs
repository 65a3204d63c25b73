//! An in-memory cache of cryptocurrency quotes: the identifier-to-symbol
//! table read at start-up, the quote store that each fetch cycle refreshes,
//! and the bodies that the query endpoints answer with.
pub mod body;
pub mod fetch;
pub mod store;
pub mod symbols;
pub mod table;
pub mod text;
