pub mod actions;
pub mod config;
pub mod filter_parser;
pub mod filters;
pub mod lexer;
pub mod manager;
pub mod parse;
pub mod storage;
pub mod task;
pub mod task_prop_parser;
pub mod textops;
