//! A launcher for Conan Exiles: the logic behind its screens, the files of the game
//! that it reads and writes, and the engine archives that it searches for maps.
pub mod auth;
pub mod config;
pub mod game;
pub mod ini_doc;
pub mod l10n;
pub mod launcher;
pub mod net;
pub mod parser;
pub mod text;
