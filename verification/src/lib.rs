//! A verified audiobook library: what is stored of each book, how folders are
//! imported, where playback stands, and what the player does with each action.

pub mod text;
pub mod dates;
pub mod order;
pub mod paths;
pub mod time;
pub mod library;
pub mod audio;
pub mod icons;
pub mod mpris;
pub mod naming;
pub mod toast;
pub mod writing;
pub mod browse;
pub mod grouping;
pub mod app;
