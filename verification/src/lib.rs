//! Phonetic normal forms ("metaphone codes") for Russian and Ukrainian
//! Cyrillic words: words that sound alike collapse to the same code string,
//! so two words can be compared for approximate phonetic equality by
//! comparing their codes.
//!
//! The encoder applies a fixed, ordered sequence of rewrite rules to the
//! uppercased input word; every rule is specified exactly over sequences of
//! characters, and the top-level guarantees (idempotent duplicate collapse,
//! a fixed output alphabet, no adjacent duplicates, word-final devoicing)
//! are proved in `laws`.

pub mod alphabet;
pub mod engine;
pub mod laws;
pub mod rules;
pub mod transforms;

pub use engine::Language;
pub use engine::Metaphone;
pub use rules::Pattern;
pub use rules::Rule;
pub use transforms::remove_duplicate_characters;
