//! Text transforms for a small clipboard editor: a URL-preserving "uwu"
//! mangler, a random-case "sarcasm" transform, and the editing session that
//! ties them to the clipboard.

pub mod segments;
pub mod urls;
pub mod sarcasm;
pub mod clipboard;
pub mod session;
