//! Reads raw DJ playlist exports, turns them into ordered track records, and
//! renders them in a basic, numbered or pretty style, together with the rules
//! for where a formatted copy is saved.

pub mod format;
pub mod paths;
pub mod playlist;
pub mod save;
pub mod text;
pub mod track;
