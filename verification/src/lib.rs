//! Verified core of a flash-card drilling tool.
//!
//! The library covers the card identity model (content hashing, family
//! grouping, lossless reconstruction of a card's source text), the parser for
//! the card source grammar, the render adapter that selects what a page must
//! show for a card, the review-session state machine (queue, reveal flag,
//! undo log, completion marker), and the progress/stats accounting derived
//! from session state.
//!
//! Card text is handled as raw bytes throughout: offsets into cloze text are
//! byte offsets, and every splice is specified byte-exactly.

pub mod card;
pub mod digest;
pub mod parse;
pub mod render;
pub mod session;
pub mod stats;
pub mod text;

pub use digest::CardHash;
