//! Reading, editing and writing of the Generic File Format (GFF), the
//! offset-addressed binary container of game resources and saved games,
//! together with the talk table (TLK) that resolves its string references
//! and the tables of text (2DA) that describe the rules of the game.
//!
//! A file is read in two steps. [`files::gff::bin::Gff`] is the flat form:
//! the header and the six sections as the file holds them.
//! [`files::gff::Gff`] is the tree of structs and fields that the flat form
//! describes. Writing goes the same way back. The laws in
//! [`files::gff::laws`] say that what is written is read back unchanged.
//!
//! Every function in this crate is verified: it does not panic, its
//! arithmetic does not overflow, and it returns what its contract states.
//! What is taken from other crates and from the standard library without
//! proof is named in [`files::text`], [`string_stream`] and [`save_folder`].

pub mod decimal;
pub mod error;
pub mod files;
pub mod save_folder;
pub mod string_stream;
pub mod tlk_string_ref;
pub mod utils;
