pub mod bundle;
pub mod config;
pub mod filter;
pub mod menu;
pub mod minify;
pub mod script;
pub mod text;
