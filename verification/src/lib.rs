//! Decoding audio protocols out of recorded waveforms.
pub mod bits;
pub mod cli;
pub mod command_laws;
pub mod commands;
pub mod decoders;
pub mod dialog;
pub mod dialog_laws;
pub mod displayed;
pub mod gtkwave;
pub mod headless;
pub mod keymap;
pub mod message;
pub mod output_laws;
pub mod text;
