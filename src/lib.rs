//! Key chords for an interactive line editor: the model of a keypress, the
//! parser for bind specifications, canonicalization of raw control bytes, and
//! rendering of keys back into bindable text.
//!
//! Text is handled as sequences of `char`. The terminal's configured erase
//! byte, which decides what Backspace looks like, is passed in as
//! `erase: Option<u8>` (`None` where no terminal is known), and the
//! `qmark_noglob` feature flag, which decides whether `?` needs escaping, as
//! a `bool`.
pub mod key;
pub mod render;
pub mod canon;
pub mod parse;
pub mod laws;

pub use key::{
    alt, ctrl, function_key, shift, Key, Modifiers, ViewportPosition, BACKSPACE, DELETE, DOWN,
    END, ENTER, ESCAPE, HOME, INSERT, INVALID, LEFT, MAX_FUNCTION_KEY, MENU, PAGE_DOWN, PAGE_UP,
    PRINT_SCREEN, RIGHT, SPACE, TAB, UP,
};
pub use canon::{
    canonicalize_control_char, canonicalize_key, canonicalize_keyed_control_char,
    canonicalize_raw_escapes, canonicalize_unkeyed_control_char,
};
pub use parse::{parse_keys, KEY_SEPARATOR};
pub use render::{char_to_symbol, escape_nonprintables};
