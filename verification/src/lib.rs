//! Extraction of structured chess-game records from PGN text.
//!
//! PGN files concatenate many games as plain text: a block of bracketed
//! metadata tags followed by movetext ending in a result token. This
//! library splits such text into individual game blocks and decomposes a
//! block into its ordered tags, its normalized move sequence, and its
//! final result. All extraction is best effort: an empty segmentation, an
//! empty tag list, an empty move string and an undetermined result are
//! ordinary outputs, never errors.

pub mod scan;
pub mod token;
pub mod tag;
pub mod outcome;
pub mod moves;
pub mod segment;

pub use tag::{Tag, extract_tags_rs};
pub use outcome::extract_result_rs;
pub use moves::extract_moves_rs;
pub use segment::{get_regex, get_games, GamePattern, PatternError, RegexResult};
