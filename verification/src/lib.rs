//! Decision logic of a bootable container tool.
pub mod bls;
pub mod boot;
pub mod bootloader;
pub mod checks;
pub mod cmdline;
pub mod delete;
pub mod digest;
pub mod etc_merge;
pub mod gc;
pub mod generator;
pub mod imagectl;
pub mod integration;
pub mod json;
pub mod kernel;
pub mod origin;
pub mod package;
pub mod paths;
pub mod seqs;
pub mod store;
pub mod text;
pub mod text_map;
pub mod tmt;
pub mod uki;
pub mod update;
pub mod yaml;
