use vstd::prelude::*;

pub mod text;
pub mod http;
pub mod json;
pub mod auth;
pub mod obs;
pub mod config;
pub mod state;
pub mod paths;
pub mod listing;
pub mod workflow;
pub mod ffmpeg;
