//! The icons of the player: code points of the Phosphor icon font.

use vstd::prelude::*;

verus! {

pub const PLUS: &'static str = "\u{E3D4}";
pub const ARROWS_CLOCKWISE: &'static str = "\u{E094}";
pub const MAGNIFYING_GLASS: &'static str = "\u{E30C}";
pub const SKIP_BACK: &'static str = "\u{E5A4}";
pub const SKIP_FORWARD: &'static str = "\u{E5A6}";
pub const ARROW_ARC_LEFT: &'static str = "\u{E014}";
pub const ARROW_ARC_RIGHT: &'static str = "\u{E016}";
pub const PLAY: &'static str = "\u{E3D0}";
pub const PAUSE: &'static str = "\u{E39E}";
pub const MOON: &'static str = "\u{E330}";
pub const BOOKMARK: &'static str = "\u{E0EA}";
pub const ARROW_U_DOWN_LEFT: &'static str = "\u{E07E}";
pub const TRASH: &'static str = "\u{E4A6}";
pub const ARROW_LEFT: &'static str = "\u{E058}";
pub const CLOCK: &'static str = "\u{E19A}";
pub const FILE_AUDIO: &'static str = "\u{EA20}";
// Library view modes (Dolphin-style Icons / Compact / Details).
pub const SQUARES_FOUR: &'static str = "\u{E464}";
pub const ROWS: &'static str = "\u{E5A2}";
pub const LIST_BULLETS: &'static str = "\u{E2F2}";
// Browsing categories.
pub const BOOKS: &'static str = "\u{E758}";
pub const USERS: &'static str = "\u{E4D6}";
pub const MICROPHONE: &'static str = "\u{E75C}"; // microphone-stage (reader/narrator)
pub const CLOCK_COUNTER_CLOCKWISE: &'static str = "\u{E1A0}";
// My History + misc.
pub const STAR: &'static str = "\u{E46A}";
pub const X: &'static str = "\u{E4F6}";
pub const PLUS_CIRCLE: &'static str = "\u{E3D6}";

} // verus!
