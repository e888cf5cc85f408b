//! A static site generator: command line decisions, configuration, posts,
//! navigation and pagination, all with verified contracts.

pub mod text;
pub mod frontmatter;
pub mod generate;
pub mod navigation;
pub mod pagination;
pub mod post;
pub mod yaml;
pub mod numeric;
pub mod config;
pub mod sort;
pub mod cli;
pub mod file_handler;
pub mod webserver;
