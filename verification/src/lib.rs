pub mod assets;
pub mod cli;
pub mod config;
pub mod document;
pub mod highlight;
pub mod hyphen;
pub mod images;
pub mod math;
pub mod pack;
pub mod parse;
pub mod render;
pub mod rewrite;
pub mod text;
pub mod typo;
