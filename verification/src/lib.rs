//! Verified core of the Doro daily-ending plugin.

pub mod text;
pub mod ending;
pub mod image;
pub mod date;
pub mod daily;
pub mod command;
pub mod reply;
pub mod assets;
