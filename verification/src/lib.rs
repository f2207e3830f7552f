pub mod error;
pub mod models;
pub mod path_utils;
pub mod text;
pub mod wildcard;
pub mod display;
pub mod config;
pub mod client;
pub mod constants;
pub mod requests;
pub mod cli;
pub mod commands;
pub mod auth;
pub mod session;
pub mod completion;
pub mod calendar;
