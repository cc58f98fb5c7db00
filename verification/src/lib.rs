//! Data and asset backing plane for a repository of monster sprites and
//! portraits: tracker navigation, asset routing, sheet building and credit
//! attribution, with every rule stated as a contract.

pub mod activities;
pub mod activity;
pub mod anim_data;
pub mod archive;
pub mod assets;
pub mod bitmap;
pub mod cache;
pub mod config;
pub mod credit_lookup;
pub mod credit_names;
pub mod credit_row;
pub mod datafiles;
pub mod decimal;
pub mod decimal_laws;
pub mod error;
pub mod file_order;
pub mod form_assets;
pub mod forms;
pub mod fs_check;
pub mod img_util;
pub mod local_credits_file;
pub mod maps;
pub mod monster;
pub mod ordered;
pub mod portrait_sheets;
pub mod records;
pub mod repo_tree;
pub mod reporting;
pub mod scheduler;
pub mod schema;
pub mod search;
pub mod snapshot_eq;
pub mod sorting;
pub mod sprite_cells;
pub mod sprite_collab;
pub mod sprite_config;
pub mod sprite_frames;
pub mod sprite_sheets;
pub mod sprite_offsets;
pub mod text;
pub mod tracker;
pub mod tracker_search;
pub mod url;
pub mod url_laws;
pub mod util;
