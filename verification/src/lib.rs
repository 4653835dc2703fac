//! Incremental bookkeeping for the stylesheets of a document: which sheets
//! are present, in which order, and how much of the data derived from them
//! has to be rebuilt at the next flush.

pub mod author;
pub mod collection;
pub mod document;
pub mod flusher;
pub mod laws;
pub mod origin;
pub mod state;
pub mod validity;
