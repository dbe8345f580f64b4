//! Verified core of a KeePass entry picker: how entries are listed for an
//! interactive fuzzy finder, how a listed line is previewed, and how the
//! command line and the finder's answer are interpreted.

pub mod text;
pub mod item;
pub mod preview;
pub mod entries;
pub mod finder;
pub mod order;
pub mod listing;
pub mod cli;
pub mod key;
