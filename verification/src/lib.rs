//! A dialog engine for a tile-grid adventure-game runtime: markup
//! tokenization, width/height-budgeted word wrap and pagination, an
//! incremental typewriter reveal state machine, and perceptual-contrast
//! color selection for the dialog box.

pub mod contrast;
pub mod dialog;
pub mod effect;
pub mod game;
pub mod image;
pub mod layout;
pub mod lines;
pub mod render;
pub mod stream;
pub mod strutil;
pub mod token;

pub use effect::TextEffect;
