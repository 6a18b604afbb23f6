//! Building blocks of a HEIF batch converter: the command-line grammar and
//! its defaults, input expansion, output naming, EXIF extraction, pixel
//! packing and the encoding plan for each output format.
pub mod cli;
pub mod cmdline;
pub mod convert;
pub mod encode;
pub mod exif;
pub mod logging;
pub mod naming;
pub mod output;
pub mod text;
