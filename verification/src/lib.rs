//! A mount that shows a source tree under a layered access policy.
//!
//! The rules come from `.gitignore` and `.shadowconfig` files: what a path is to be
//! (`rules`), how the files are read (`found`, `load`, `config`, `matcher`), and how a
//! rename is followed (`aliases`). The mount answers requests by these rules
//! (`shadow_fs`, `listing`), and keeps inode numbers and open files (`inodes`,
//! `handles`). What holds of all of it stands in `laws` and in the modules whose
//! names end in `_laws`.
//!
//! Reading and writing files is left to the program around the library, which hands in
//! what it found and does what it is told.

pub mod aliases;
pub mod answer_laws;
pub mod attr;
pub mod attr_laws;
pub mod bytes;
pub mod case_laws;
pub mod config;
pub mod config_laws;
pub mod decimal;
pub mod decimal_laws;
pub mod found;
pub mod fs_laws;
pub mod handles;
pub mod inodes;
pub mod laws;
pub mod listing;
pub mod listing_laws;
pub mod lists;
pub mod load;
pub mod load_laws;
pub mod matcher;
pub mod matcher_laws;
pub mod overlay;
pub mod path;
pub mod path_laws;
pub mod path_map;
pub mod rename_laws;
pub mod report;
pub mod rule_laws;
pub mod rules;
pub mod shadow_fs;
pub mod text;
pub mod text_laws;
pub mod toml_tree;
