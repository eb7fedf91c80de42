//! Terminal color templating: a palette of named colors, a scanner that
//! replaces `«key»` markers with ANSI escape codes, and a scanner that
//! brackets `{}` placeholders with highlight/normal color markers.

pub mod ansi;
pub mod arg_wrapper;
pub mod codes;
pub mod errors;
pub mod helpers;
pub mod laws;
pub mod palette;

pub use ansi::apply_ansi;
pub use arg_wrapper::wrap_arguments_with_color_codes;
pub use codes::ansi_reset;
pub use codes::rgb;
pub use errors::Channel;
pub use errors::ColorError;
pub use palette::Palette;
pub use palette::VarTable;
