pub mod config;
pub mod cursor;
pub mod error;
pub mod event;
pub mod history;
pub mod line;
pub mod parser;
pub mod paths;
pub mod prompt;
pub mod rush;
pub mod suggest;
pub mod text;
