//! Latin/Cyrillic transliteration for Serbian text: longest-match scanning
//! over a fixed symbol table, dictionary-driven digraph disambiguation, and
//! UTF-8 re-encoding of the output.

pub mod charmaps;
pub mod outside;
pub mod transliterate;
pub mod laws;

pub use transliterate::Direction;
pub use transliterate::Error;
pub use transliterate::Transliterate;
