//! Save-state codec and round-trip patching engine for a role-playing game's
//! save files.
//!
//! A save is four payloads: two JSON documents, a binary database of tagged
//! values, and a text of states. This library
//!
//! - reads and writes the binary database (`codec`), shows and edits it by
//!   dotted paths (`path`, `edits`), and searches its variables (`query`);
//! - reads and writes the text states (`states`);
//! - merges the editor's fields into the structural trees of the two JSON
//!   documents, leaving every member that the editor does not show as it was
//!   read (`json`, `patch`), and reads the character sheet out of one of them
//!   (`sheet`);
//! - tells the writer of a save which members an archive holds after a save and
//!   how the backups are rotated before one (`archive`);
//! - holds the small rules by which the editor shows a save (`display`).
//!
//! What the functions promise is stated in their contracts; what follows from
//! the contracts for several calls is proved in the modules whose names end in
//! `_proofs`.
//!
//! Numbers are held as the 64 bits of their IEEE-754 double; callers turn them
//! into floating-point values. Tables and objects are lists of entries that
//! hold each key once, in the order in which the keys were first inserted.

pub mod archive;
pub mod codec;
pub mod codec_proofs;
pub mod display;
pub mod edits;
pub mod json;
pub mod models;
pub mod patch;
pub mod patch_proofs;
pub mod path;
pub mod path_proofs;
pub mod query;
pub mod reload_proofs;
pub mod sheet;
pub mod states;
pub mod states_proofs;
pub mod text;
pub mod value;
