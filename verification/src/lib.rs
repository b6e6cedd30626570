pub mod text;
pub mod money;
pub mod config;
pub mod parse;
pub mod handlers;
pub mod dates;
pub mod db;
pub mod settings;
pub mod polling;
pub mod reply_laws;
