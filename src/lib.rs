//! A byte viewer and patcher for Game Boy cartridge images: the image held
//! in memory, a table of two-character glyphs for decoding bytes, a terminal
//! surface that repaints in place, and the command handling of the editor.
pub mod text;
pub mod dictionary;
pub mod rom;
pub mod screen;
pub mod editor;
