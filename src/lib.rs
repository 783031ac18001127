//! Reads a plain-text song sheet, chords written above the lyrics they belong
//! to, into a song tree, and typesets that tree as LaTeX song macros.

pub mod text;
pub mod song;
pub mod chord;
pub mod latex;
pub mod parser;
pub mod html;
