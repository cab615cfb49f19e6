//! A personal reference library: bibliographic entries kept in a normalized store, the staged
//! insertion that resolves citations, journals and people before anything is written, the
//! all-terms search, and the keyword edit with its kept / added / deleted split.

pub mod action;
pub mod config;
pub mod formatter;
pub mod keywords;
pub mod model;
pub mod pipeline;
pub mod query;
pub mod reader;
pub mod store;
pub mod text;
pub mod ui;
