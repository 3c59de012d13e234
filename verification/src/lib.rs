use vstd::prelude::*;

pub mod text;
pub mod strmap;
pub mod encode;
pub mod config;
pub mod browser;
pub mod glob;
pub mod paths;
pub mod json;
pub mod userscripts;
pub mod adblock;
pub mod downloads;
pub mod bookmarks;
pub mod sessions;
pub mod history;
pub mod navigation;
