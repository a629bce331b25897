//! The text engines of AeroShell, an interactive command shell, with the
//! rules of its built-in commands.
//!
//! The two engines stand between the keyboard and the terminal line:
//!
//! - [`prompt`] renders a prompt template: it replaces the variables by
//!   their values and the style tags by escape sequences, with the colors
//!   that [`color`] resolves.
//! - [`completer`] proposes completions for the word under the cursor:
//!   commands for the first word of a line, paths for any other.
//!
//! Around them, [`shell`] decides what a line of input asks for,
//! [`listing`] and [`processes`] decide what `ls` and `proc` show,
//! [`session`] and [`config`] hold what the shell sets up when it starts, and
//! [`version`] names the build.
//!
//! The library reads no file and no variable of the environment: callers
//! hand in what they read and carry out what the library decides. The one
//! thing it reads is the clock, for the time of day in the prompt.
//!
//! Texts are specified as sequences of characters; [`text`], [`encoding`],
//! [`files`], [`order`] and [`string_map`] hold what the other modules share.

pub mod clock;
pub mod color;
pub mod completer;
pub mod config;
pub mod encoding;
pub mod files;
pub mod listing;
pub mod order;
pub mod processes;
pub mod prompt;
pub mod session;
pub mod shell;
pub mod string_map;
pub mod text;
pub mod version;
