pub mod text;
pub mod sqlfmt;
pub mod tns;
pub mod binds;
pub mod models;
pub mod regex_api;
pub mod xplan;
pub mod plan_tree;
pub mod mock;
pub mod numfmt;
pub mod session;
pub mod analysis;
pub mod views;
pub mod reformat;
